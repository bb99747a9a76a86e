//! Error codes and the error object.

use crate::failure::{DecodeError, DecodeErrorView, Subject};
use crate::text::{byte_len, is_longest_fit, same_text, spec_decode_text, BoundedText};
use crate::value::{lemma_object_view, member_views, Member, MemberView, Value, ValueView};
use vstd::prelude::*;

verus! {

/// The code of [`ErrorCode::ParseError`].
pub const PARSE_ERROR: i64 = -32700;

/// The code of [`ErrorCode::InvalidRequest`].
pub const INVALID_REQUEST: i64 = -32600;

/// The code of [`ErrorCode::MethodNotFound`].
pub const METHOD_NOT_FOUND: i64 = -32601;

/// The code of [`ErrorCode::InvalidParams`].
pub const INVALID_PARAMS: i64 = -32602;

/// The code of [`ErrorCode::InternalError`].
pub const INTERNAL_ERROR: i64 = -32603;

/// JSON-RPC error code.
#[derive(Debug, PartialEq, Eq, Clone, Copy, Structural)]
pub enum ErrorCode {
    /// Invalid JSON was received by the server.
    /// An error occurred on the server while parsing the JSON text.
    ParseError,
    /// The JSON sent is not a valid Request object.
    InvalidRequest,
    /// The method does not exist / is not available.
    MethodNotFound,
    /// Invalid method parameters.
    InvalidParams,
    /// Internal JSON-RPC error.
    InternalError,
    /// Reserved for implementation-defined server-errors.
    ServerError(i64),
}

impl ErrorCode {
    /// The category that the protocol assigns to an integer code: one of the
    /// five named ones, or the server-defined one for any other integer.
    pub open spec fn spec_from_code(code: i64) -> ErrorCode {
        if code == PARSE_ERROR {
            ErrorCode::ParseError
        } else if code == INVALID_REQUEST {
            ErrorCode::InvalidRequest
        } else if code == METHOD_NOT_FOUND {
            ErrorCode::MethodNotFound
        } else if code == INVALID_PARAMS {
            ErrorCode::InvalidParams
        } else if code == INTERNAL_ERROR {
            ErrorCode::InternalError
        } else {
            ErrorCode::ServerError(code)
        }
    }

    /// The integer code of a category.
    pub open spec fn spec_code(self) -> i64 {
        match self {
            ErrorCode::ParseError => PARSE_ERROR,
            ErrorCode::InvalidRequest => INVALID_REQUEST,
            ErrorCode::MethodNotFound => METHOD_NOT_FOUND,
            ErrorCode::InvalidParams => INVALID_PARAMS,
            ErrorCode::InternalError => INTERNAL_ERROR,
            ErrorCode::ServerError(code) => code,
        }
    }

    /// The fixed description of a category.
    pub open spec fn spec_message(self) -> Seq<char> {
        match self {
            ErrorCode::ParseError => "Parse error"@,
            ErrorCode::InvalidRequest => "Invalid Request"@,
            ErrorCode::MethodNotFound => "Method not found"@,
            ErrorCode::InvalidParams => "Invalid params"@,
            ErrorCode::InternalError => "Internal error"@,
            ErrorCode::ServerError(_) => "Server error"@,
        }
    }

    /// Whether the value is the one that its own code maps to: a
    /// server-defined category does not carry one of the five named codes.
    pub open spec fn is_canonical(self) -> bool {
        Self::spec_from_code(self.spec_code()) == self
    }

    /// Creates new instance from code.
    pub fn from_code(code: i64) -> (category: Self)
        ensures
            category == Self::spec_from_code(code),
    {
        match code {
            PARSE_ERROR => ErrorCode::ParseError,
            INVALID_REQUEST => ErrorCode::InvalidRequest,
            METHOD_NOT_FOUND => ErrorCode::MethodNotFound,
            INVALID_PARAMS => ErrorCode::InvalidParams,
            INTERNAL_ERROR => ErrorCode::InternalError,
            code => ErrorCode::ServerError(code),
        }
    }

    /// Returns integer code value.
    pub fn code(&self) -> (code: i64)
        ensures
            code == self.spec_code(),
    {
        match self {
            ErrorCode::ParseError => PARSE_ERROR,
            ErrorCode::InvalidRequest => INVALID_REQUEST,
            ErrorCode::MethodNotFound => METHOD_NOT_FOUND,
            ErrorCode::InvalidParams => INVALID_PARAMS,
            ErrorCode::InternalError => INTERNAL_ERROR,
            ErrorCode::ServerError(code) => *code,
        }
    }

    /// The number of bytes that the description of a category takes.
    pub open spec fn spec_message_len(self) -> nat {
        match self {
            ErrorCode::ParseError => 11,
            ErrorCode::InvalidRequest => 15,
            ErrorCode::MethodNotFound => 16,
            ErrorCode::InvalidParams => 14,
            ErrorCode::InternalError => 14,
            ErrorCode::ServerError(_) => 12,
        }
    }

    /// Returns textual representation of the code.
    pub fn message(&self) -> (text: &'static str)
        ensures
            text@ == self.spec_message(),
            byte_len(text@) == self.spec_message_len(),
    {
        proof {
            Self::lemma_message_len(*self);
        }
        match self {
            ErrorCode::ParseError => "Parse error",
            ErrorCode::InvalidRequest => "Invalid Request",
            ErrorCode::MethodNotFound => "Method not found",
            ErrorCode::InvalidParams => "Invalid params",
            ErrorCode::InternalError => "Internal error",
            ErrorCode::ServerError(_) => "Server error",
        }
    }

    /// The bytes that each description takes; none takes more than 16.
    pub proof fn lemma_message_len(category: ErrorCode)
        ensures
            byte_len(category.spec_message()) == category.spec_message_len(),
            byte_len(category.spec_message()) <= 16,
    {
        broadcast use vstd::utf8::is_ascii_chars_encode_utf8;

        reveal_strlit("Parse error");
        reveal_strlit("Invalid Request");
        reveal_strlit("Method not found");
        reveal_strlit("Invalid params");
        reveal_strlit("Internal error");
        reveal_strlit("Server error");
        assert(vstd::utf8::is_ascii_chars(category.spec_message()));
    }

    /// What decoding a structured value as an error code gives: any integer
    /// that an `i64` holds is taken, a larger one is a value out of the
    /// domain, and any other shape is the wrong type.
    pub open spec fn spec_decode(value: ValueView) -> Result<ErrorCode, DecodeErrorView> {
        match value {
            ValueView::Signed(code) => Ok(Self::spec_from_code(code)),
            ValueView::Unsigned(code) => if code <= i64::MAX {
                Ok(Self::spec_from_code(code as i64))
            } else {
                Err(DecodeErrorView::InvalidValue { found: value, expected: Subject::Code })
            },
            _ => Err(DecodeErrorView::InvalidType { found: value, expected: Subject::Code }),
        }
    }

    /// The structured value that stands for an error code: its bare signed
    /// integer.
    pub open spec fn spec_encode(self) -> ValueView {
        ValueView::Signed(self.spec_code())
    }

    /// Reads an error code from a structured value.
    pub fn decode(value: Value) -> (decoded: Result<Self, DecodeError>)
        ensures
            decoded matches Ok(category) ==> Self::spec_decode(value@) == Ok::<
                ErrorCode,
                DecodeErrorView,
            >(category),
            decoded matches Err(e) ==> Self::spec_decode(value@) == Err::<
                ErrorCode,
                DecodeErrorView,
            >(e@),
    {
        match value {
            Value::Signed(code) => Ok(Self::from_code(code)),
            Value::Unsigned(code) => if code <= 0x7fff_ffff_ffff_ffff {
                Ok(Self::from_code(code as i64))
            } else {
                Err(DecodeError::InvalidValue { found: Value::Unsigned(code), expected: Subject::Code })
            },
            other => Err(DecodeError::InvalidType { found: other, expected: Subject::Code }),
        }
    }

    /// Writes an error code as a structured value.
    pub fn encode(&self) -> (value: Value)
        ensures
            value@ == self.spec_encode(),
    {
        Value::Signed(self.code())
    }

    /// The code of the category of a code is that code.
    pub proof fn lemma_code_of_from_code(code: i64)
        ensures
            Self::spec_from_code(code).spec_code() == code,
            Self::spec_from_code(code).is_canonical(),
    {
    }
}

/// Error object, defined by JSON-RPC.
#[derive(Debug, PartialEq)]
pub struct Error<T, M = BoundedText<31>> {
    /// Code.
    pub code: ErrorCode,
    /// Message.
    pub message: M,
    /// Optional data.
    pub data: Option<T>,
}

/// The mathematical content of an error object whose data is a structured
/// value.
pub ghost struct ErrorView {
    pub code: ErrorCode,
    pub message: Seq<char>,
    pub data: Option<ValueView>,
}

/// What a decoder has read of an error object so far. A member that was seen
/// is remembered even where it held no value.
pub ghost struct ErrorSlots {
    pub code: Option<ErrorCode>,
    pub message: Option<Seq<char>>,
    pub data: Option<Option<ValueView>>,
}

/// The content of an optional structured value.
pub open spec fn value_view(value: Option<Value>) -> Option<ValueView> {
    match value {
        Some(value) => Some(value@),
        None => None,
    }
}

/// An optional payload as a member's value holds it: the null value stands
/// for none.
pub open spec fn optional_payload(value: ValueView) -> Option<ValueView> {
    if value is Null {
        None
    } else {
        Some(value)
    }
}

impl ErrorView {
    /// Whether the content survives the wire: the category is the one its
    /// code maps to, the message takes at most `capacity` bytes, and data
    /// that is present is not the null value, which stands for absent data.
    pub open spec fn canonical(self, capacity: nat) -> bool {
        &&& self.code.is_canonical()
        &&& byte_len(self.message) <= capacity
        &&& self.data != Some(ValueView::Null)
    }

    /// The structured value that stands for an error: an object with the
    /// members `code` and `message`, followed by `data` where data is present.
    pub open spec fn encode(self) -> ValueView {
        let code = MemberView { key: "code"@, value: self.code.spec_encode() };
        let message = MemberView { key: "message"@, value: ValueView::Text(self.message) };
        match self.data {
            Some(data) => ValueView::Object(
                seq![code, message, MemberView { key: "data"@, value: data }],
            ),
            None => ValueView::Object(seq![code, message]),
        }
    }
}

impl ErrorSlots {
    /// Nothing read yet.
    pub open spec fn empty() -> ErrorSlots {
        ErrorSlots { code: None, message: None, data: None }
    }

    /// What reading one more member gives. A member is recognised by its
    /// exact name; one that was seen before is a duplicate, and one that the
    /// schema does not know is rejected.
    pub open spec fn step(self, member: MemberView, capacity: nat) -> Result<
        ErrorSlots,
        DecodeErrorView,
    > {
        if member.key == "code"@ {
            if self.code is Some {
                Err(DecodeErrorView::DuplicateField { field: "code"@, owner: Subject::Error })
            } else {
                match ErrorCode::spec_decode(member.value) {
                    Ok(code) => Ok(ErrorSlots { code: Some(code), ..self }),
                    Err(e) => Err(e),
                }
            }
        } else if member.key == "message"@ {
            if self.message is Some {
                Err(DecodeErrorView::DuplicateField { field: "message"@, owner: Subject::Error })
            } else {
                match spec_decode_text(member.value, capacity, Subject::Message) {
                    Ok(message) => Ok(ErrorSlots { message: Some(message), ..self }),
                    Err(e) => Err(e),
                }
            }
        } else if member.key == "data"@ {
            if self.data is Some {
                Err(DecodeErrorView::DuplicateField { field: "data"@, owner: Subject::Error })
            } else {
                Ok(ErrorSlots { data: Some(optional_payload(member.value)), ..self })
            }
        } else {
            Err(DecodeErrorView::UnknownField { name: member.key, owner: Subject::Error })
        }
    }

    /// What reading the members in their order gives: the first failure, or
    /// the slots after the last member.
    pub open spec fn fold(self, members: Seq<MemberView>, capacity: nat) -> Result<
        ErrorSlots,
        DecodeErrorView,
    >
        decreases members.len(),
    {
        if members.len() == 0 {
            Ok(self)
        } else {
            match self.step(members[0], capacity) {
                Ok(next) => next.fold(members.drop_first(), capacity),
                Err(e) => Err(e),
            }
        }
    }

    /// The error object that the slots make once every member is read: the
    /// code and the message are required, in this order.
    pub open spec fn finish(self) -> Result<ErrorView, DecodeErrorView> {
        match (self.code, self.message) {
            (None, _) => Err(
                DecodeErrorView::MissingField { field: "code"@, owner: Subject::Error },
            ),
            (Some(_), None) => Err(
                DecodeErrorView::MissingField { field: "message"@, owner: Subject::Error },
            ),
            (Some(code), Some(message)) => Ok(
                ErrorView {
                    code,
                    message,
                    data: match self.data {
                        Some(data) => data,
                        None => None,
                    },
                },
            ),
        }
    }
}

/// What decoding a structured value as an error object gives, for a message
/// of at most `capacity` bytes: the value is an object, its members are read
/// in their order, and the required ones are there at the end.
pub open spec fn spec_decode_error(value: ValueView, capacity: nat) -> Result<
    ErrorView,
    DecodeErrorView,
> {
    match value {
        ValueView::Object(members) => match ErrorSlots::empty().fold(members, capacity) {
            Ok(slots) => slots.finish(),
            Err(e) => Err(e),
        },
        _ => Err(DecodeErrorView::InvalidType { found: value, expected: Subject::Error }),
    }
}

impl<T: Clone, M: Clone> Clone for Error<T, M> {
    fn clone(&self) -> (copy: Self)
        ensures
            copy.code == self.code,
            copy.data is Some <==> self.data is Some,
    {
        Error {
            code: self.code,
            message: self.message.clone(),
            data: match &self.data {
                Some(data) => Some(data.clone()),
                None => None,
            },
        }
    }
}

impl<T, M> Error<T, M> {
    /// Adds optional payload to instance.
    pub fn set_data(self, data: T) -> (made: Self)
        ensures
            made.code == self.code,
            made.message == self.message,
            made.data == Some(data),
    {
        Self { code: self.code, message: self.message, data: Some(data) }
    }

    /// The fixed description of the error's category.
    pub fn summary(&self) -> (text: &'static str)
        ensures
            text@ == self.code.spec_message(),
    {
        self.code.message()
    }
}

impl<'a, T, EM: From<&'a str>> Error<T, EM> {
    /// Constructs error by converting message from string.
    pub fn with_text_message(code: ErrorCode, message: &'a str) -> (made: Self)
        ensures
            made.code == code,
            made.data is None,
            call_ensures(EM::from, (message,), made.message),
    {
        Self { code, message: EM::from(message), data: None }
    }
}

impl<const N: usize, T> Error<T, BoundedText<N>> {
    /// Constructs error with custom message, cut to the longest prefix that
    /// fits the capacity of the message.
    pub fn with_custom_msg_truncated(code: ErrorCode, message: &str) -> (made: Self)
        ensures
            made.code == code,
            made.data is None,
            is_longest_fit(made.message@, message@, BoundedText::<N>::spec_capacity() as int),
    {
        Self { code, message: BoundedText::from_str_truncated(message), data: None }
    }

    /// Constructs error with custom message, which must fit the capacity of
    /// the message.
    pub fn with_custom_msg(code: ErrorCode, message: &str) -> (made: Self)
        requires
            byte_len(message@) <= BoundedText::<N>::spec_capacity(),
        ensures
            made.code == code,
            made.data is None,
            made.message@ == message@,
    {
        let mut held = BoundedText::new();
        proof {
            assert(byte_len(Seq::<char>::empty()) == 0);
            assert(Seq::<char>::empty() + message@ == message@);
        }
        held.push_unchecked(message);
        Self { code, message: held, data: None }
    }

    /// Creates new error, deriving message from code. The description of
    /// the code must fit the capacity of the message; every description fits
    /// a capacity of 16 bytes.
    pub fn from_code(code: ErrorCode) -> (made: Self)
        requires
            byte_len(code.spec_message()) <= BoundedText::<N>::spec_capacity(),
        ensures
            made.code == code,
            made.data is None,
            made.message@ == code.spec_message(),
    {
        Self::with_custom_msg(code, code.message())
    }
}

impl<const N: usize> View for Error<Value, BoundedText<N>> {
    type V = ErrorView;

    open spec fn view(&self) -> ErrorView {
        ErrorView { code: self.code, message: self.message@, data: value_view(self.data) }
    }
}

/// The slots that a decoder's variables stand for.
pub open spec fn slots_of<const N: usize>(
    code: Option<ErrorCode>,
    message: Option<BoundedText<N>>,
    data: Option<Option<Value>>,
) -> ErrorSlots {
    ErrorSlots {
        code,
        message: match message {
            Some(message) => Some(message@),
            None => None,
        },
        data: match data {
            Some(data) => Some(value_view(data)),
            None => None,
        },
    }
}

impl<const N: usize> Error<Value, BoundedText<N>> {
    /// Reads an error object from a structured value.
    #[verifier::loop_isolation(false)]
    pub fn decode(value: Value) -> (decoded: Result<Self, DecodeError>)
        ensures
            decoded matches Ok(error) ==> spec_decode_error(
                value@,
                BoundedText::<N>::spec_capacity(),
            ) == Ok::<ErrorView, DecodeErrorView>(error@),
            decoded matches Err(e) ==> spec_decode_error(value@, BoundedText::<N>::spec_capacity())
                == Err::<ErrorView, DecodeErrorView>(e@),
    {
        let ghost capacity = BoundedText::<N>::spec_capacity();
        let ghost whole = value@;
        match value {
            Value::Object(members) => {
                let ghost all = member_views(members@);
                proof {
                    lemma_object_view(members);
                    assert(all.skip(0) == all);
                }
                let mut code: Option<ErrorCode> = None;
                let mut message: Option<BoundedText<N>> = None;
                let mut data: Option<Option<Value>> = None;
                for member in it: members.into_iter()
                    invariant
                        all == member_views(it.seq()),
                        ErrorSlots::empty().fold(all, capacity) == slots_of(code, message, data).fold(
                            all.skip(it.index() as int),
                            capacity,
                        ),
                {
                    assert(all.skip(it.index() as int).drop_first() == all.skip(
                        it.index() as int + 1,
                    ));
                    let Member { key, value: held } = member;
                    if same_text(key.as_str(), "code") {
                        if code.is_some() {
                            return Err(
                                DecodeError::DuplicateField { field: "code", owner: Subject::Error },
                            );
                        }
                        match ErrorCode::decode(held) {
                            Ok(read) => {
                                code = Some(read);
                            },
                            Err(e) => {
                                return Err(e);
                            },
                        }
                    } else if same_text(key.as_str(), "message") {
                        if message.is_some() {
                            return Err(
                                DecodeError::DuplicateField {
                                    field: "message",
                                    owner: Subject::Error,
                                },
                            );
                        }
                        match BoundedText::<N>::decode(held, Subject::Message) {
                            Ok(read) => {
                                message = Some(read);
                            },
                            Err(e) => {
                                return Err(e);
                            },
                        }
                    } else if same_text(key.as_str(), "data") {
                        if data.is_some() {
                            return Err(
                                DecodeError::DuplicateField { field: "data", owner: Subject::Error },
                            );
                        }
                        data = Some(into_optional_payload(held));
                    } else {
                        return Err(DecodeError::UnknownField { name: key, owner: Subject::Error });
                    }
                }
                match (code, message) {
                    (None, _) => Err(
                        DecodeError::MissingField { field: "code", owner: Subject::Error },
                    ),
                    (Some(_), None) => Err(
                        DecodeError::MissingField { field: "message", owner: Subject::Error },
                    ),
                    (Some(code), Some(message)) => Ok(
                        Error {
                            code,
                            message,
                            data: match data {
                                Some(data) => data,
                                None => None,
                            },
                        },
                    ),
                }
            },
            other => Err(DecodeError::InvalidType { found: other, expected: Subject::Error }),
        }
    }
}

impl<const N: usize> Error<Value, BoundedText<N>> {
    /// Writes an error object as a structured value.
    pub fn encode(self) -> (value: Value)
        ensures
            value@ == self@.encode(),
            byte_len(self@.message) <= BoundedText::<N>::spec_capacity(),
    {
        let ghost content = self@;
        let mut members: Vec<Member> = Vec::new();
        members.push(Member { key: "code".to_owned(), value: self.code.encode() });
        members.push(Member { key: "message".to_owned(), value: self.message.encode() });
        match self.data {
            Some(data) => {
                members.push(Member { key: "data".to_owned(), value: data });
            },
            None => {},
        }
        proof {
            lemma_object_view(members);
            assert(ValueView::Object(member_views(members@)) == content.encode()) by {
                let written = content.encode()->Object_0;
                assert(member_views(members@) =~= written);
            }
        }
        Value::Object(members)
    }
}

/// Decoding what was encoded gives the error object back.
pub proof fn lemma_error_round_trip(error: ErrorView, capacity: nat)
    requires
        error.canonical(capacity),
    ensures
        spec_decode_error(error.encode(), capacity) == Ok::<ErrorView, DecodeErrorView>(error),
{
    reveal_strlit("code");
    reveal_strlit("message");
    reveal_strlit("data");
    assert("code"@.len() == 4 && "message"@.len() == 7 && "data"@.len() == 4);
    assert("data"@[0] == 'd' && "code"@[0] == 'c');
    let members = error.encode()->Object_0;
    let start = ErrorSlots::empty();
    let coded = ErrorSlots { code: Some(error.code), ..start };
    let worded = ErrorSlots { message: Some(error.message), ..coded };
    let after_code = members.drop_first();
    let after_message = after_code.drop_first();
    assert(start.step(members[0], capacity) == Ok::<ErrorSlots, DecodeErrorView>(coded));
    assert(coded.step(after_code[0], capacity) == Ok::<ErrorSlots, DecodeErrorView>(worded));
    let done = match error.data {
        Some(data) => {
            let filled = ErrorSlots { data: Some(Some(data)), ..worded };
            assert(worded.step(after_message[0], capacity) == Ok::<ErrorSlots, DecodeErrorView>(
                filled,
            ));
            assert(filled.fold(after_message.drop_first(), capacity) == Ok::<
                ErrorSlots,
                DecodeErrorView,
            >(filled));
            filled
        },
        None => worded,
    };
    assert(worded.fold(after_message, capacity) == Ok::<ErrorSlots, DecodeErrorView>(done));
    assert(coded.fold(after_code, capacity) == Ok::<ErrorSlots, DecodeErrorView>(done));
    assert(start.fold(members, capacity) == Ok::<ErrorSlots, DecodeErrorView>(done));
}

/// An optional payload out of a member's value: the null value stands for
/// none.
pub fn into_optional_payload(value: Value) -> (payload: Option<Value>)
    ensures
        value_view(payload) == optional_payload(value@),
{
    match value {
        Value::Null => None,
        other => Some(other),
    }
}

} // verus!
