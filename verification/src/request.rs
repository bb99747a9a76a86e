//! The request object.

use crate::error::{into_optional_payload, optional_payload, value_view};
use crate::failure::{DecodeError, DecodeErrorView, Subject};
use crate::id::{id_view, Id, IdView};
use crate::text::{byte_len, same_text, spec_decode_text, BoundedText};
use crate::value::{lemma_object_view, member_views, Member, MemberView, Value, ValueView};
use crate::version::Version;
use vstd::prelude::*;

verus! {

/// Request representation.
///
/// Note that omitting `id` means that request is notification, rather than
/// call, which expects response. This can be used to indicate lack of
/// interest in response.
///
/// Type parameters:
///
/// - `P` - to specify type of `params` field, which is optional. Normally it
///   should be collection of values or object. But choice is yours.
/// - `T` - specifies textual type. By default it uses static buffer of 32
///   bytes, which is more than enough in normal cases.
#[derive(Debug, PartialEq)]
pub struct Request<P, T = BoundedText<32>> {
    /// A String specifying the version of the JSON-RPC protocol.
    pub jsonrpc: Version,
    /// A String containing the name of the method to be invoked.
    ///
    /// By default is static buffer of 32 bytes.
    pub method: T,
    /// A Structured value that holds the parameter values to be used during
    /// the invocation of the method.
    pub params: Option<P>,
    /// An identifier established by the Client.
    ///
    /// If not present, request is notification to which there should be no
    /// response.
    pub id: Option<Id>,
}

impl<P: Clone, T: Clone> Clone for Request<P, T> {
    fn clone(&self) -> (copy: Self)
        ensures
            copy.jsonrpc == self.jsonrpc,
            copy.id == self.id,
            copy.params is Some <==> self.params is Some,
    {
        Request {
            jsonrpc: self.jsonrpc,
            method: self.method.clone(),
            params: match &self.params {
                Some(params) => Some(params.clone()),
                None => None,
            },
            id: self.id,
        }
    }
}

impl<P, T> Request<P, T> {
    /// Returns whether request is notification.
    pub fn is_notification(&self) -> (notification: bool)
        ensures
            notification <==> self.id is None,
    {
        self.id.is_none()
    }
}

/// The mathematical content of a request whose parameters are a structured
/// value.
pub ghost struct RequestView {
    pub jsonrpc: Version,
    pub method: Seq<char>,
    pub params: Option<ValueView>,
    pub id: Option<IdView>,
}

/// What a decoder has read of a request object so far. A member that was seen
/// is remembered even where it held no value.
pub ghost struct RequestSlots {
    pub jsonrpc: Option<Version>,
    pub method: Option<Seq<char>>,
    pub params: Option<Option<ValueView>>,
    pub id: Option<Option<IdView>>,
}

impl RequestView {
    /// Whether the request is a notification: it carries no identifier.
    pub open spec fn is_notification(self) -> bool {
        self.id is None
    }

    /// Whether the content survives the wire: the method name takes at most
    /// `capacity` bytes, parameters that are present are not the null value,
    /// which stands for absent ones, and an identifier that is present exists.
    pub open spec fn canonical(self, capacity: nat) -> bool {
        &&& byte_len(self.method) <= capacity
        &&& self.params != Some(ValueView::Null)
        &&& self.id matches Some(id) ==> id.valid()
    }

    /// The members that stand for a request, in their order: `jsonrpc` and
    /// `method`, then `params` and `id`, each only where it is present.
    pub open spec fn members(self) -> Seq<MemberView> {
        let fixed = seq![
            MemberView { key: "jsonrpc"@, value: self.jsonrpc.spec_encode() },
            MemberView { key: "method"@, value: ValueView::Text(self.method) },
        ];
        let params = match self.params {
            Some(params) => seq![MemberView { key: "params"@, value: params }],
            None => seq![],
        };
        let id = match self.id {
            Some(id) => seq![MemberView { key: "id"@, value: Id::spec_encode(id) }],
            None => seq![],
        };
        fixed + params + id
    }

    /// The structured value that stands for a request.
    pub open spec fn encode(self) -> ValueView {
        ValueView::Object(self.members())
    }
}

impl RequestSlots {
    /// Nothing read yet.
    pub open spec fn empty() -> RequestSlots {
        RequestSlots { jsonrpc: None, method: None, params: None, id: None }
    }

    /// What reading one more member gives. A member is recognised by its
    /// exact name; one that was seen before is a duplicate, and one that the
    /// schema does not know is rejected.
    pub open spec fn step(self, member: MemberView, capacity: nat) -> Result<
        RequestSlots,
        DecodeErrorView,
    > {
        if member.key == "jsonrpc"@ {
            if self.jsonrpc is Some {
                Err(DecodeErrorView::DuplicateField { field: "jsonrpc"@, owner: Subject::Request })
            } else {
                match Version::spec_decode(member.value) {
                    Ok(version) => Ok(RequestSlots { jsonrpc: Some(version), ..self }),
                    Err(e) => Err(e),
                }
            }
        } else if member.key == "method"@ {
            if self.method is Some {
                Err(DecodeErrorView::DuplicateField { field: "method"@, owner: Subject::Request })
            } else {
                match spec_decode_text(member.value, capacity, Subject::Method) {
                    Ok(method) => Ok(RequestSlots { method: Some(method), ..self }),
                    Err(e) => Err(e),
                }
            }
        } else if member.key == "params"@ {
            if self.params is Some {
                Err(DecodeErrorView::DuplicateField { field: "params"@, owner: Subject::Request })
            } else {
                Ok(RequestSlots { params: Some(optional_payload(member.value)), ..self })
            }
        } else if member.key == "id"@ {
            if self.id is Some {
                Err(DecodeErrorView::DuplicateField { field: "id"@, owner: Subject::Request })
            } else {
                match Id::spec_decode_optional(member.value) {
                    Ok(id) => Ok(RequestSlots { id: Some(id), ..self }),
                    Err(e) => Err(e),
                }
            }
        } else {
            Err(DecodeErrorView::UnknownField { name: member.key, owner: Subject::Request })
        }
    }

    /// What reading the members in their order gives: the first failure, or
    /// the slots after the last member.
    pub open spec fn fold(self, members: Seq<MemberView>, capacity: nat) -> Result<
        RequestSlots,
        DecodeErrorView,
    >
        decreases members.len(),
    {
        if members.len() == 0 {
            Ok(self)
        } else {
            match self.step(members[0], capacity) {
                Ok(next) => next.fold(members.drop_first(), capacity),
                Err(e) => Err(e),
            }
        }
    }

    /// The request that the slots make once every member is read: the method
    /// is required, the version defaults to 2.0, and parameters and
    /// identifier default to none.
    pub open spec fn finish(self) -> Result<RequestView, DecodeErrorView> {
        match self.method {
            None => Err(
                DecodeErrorView::MissingField { field: "method"@, owner: Subject::Request },
            ),
            Some(method) => Ok(
                RequestView {
                    jsonrpc: match self.jsonrpc {
                        Some(version) => version,
                        None => Version::V2,
                    },
                    method,
                    params: match self.params {
                        Some(params) => params,
                        None => None,
                    },
                    id: match self.id {
                        Some(id) => id,
                        None => None,
                    },
                },
            ),
        }
    }
}

/// Reading a sequence of members is reading its first part and then, from the
/// slots that gives, the rest.
pub proof fn lemma_fold_concat(
    slots: RequestSlots,
    head: Seq<MemberView>,
    tail: Seq<MemberView>,
    capacity: nat,
)
    ensures
        slots.fold(head + tail, capacity) == match slots.fold(head, capacity) {
            Ok(next) => next.fold(tail, capacity),
            Err(e) => Err(e),
        },
    decreases head.len(),
{
    if head.len() == 0 {
        assert(head + tail == tail);
    } else {
        assert((head + tail)[0] == head[0]);
        assert((head + tail).drop_first() == head.drop_first() + tail);
        match slots.step(head[0], capacity) {
            Ok(next) => lemma_fold_concat(next, head.drop_first(), tail, capacity),
            Err(_) => {},
        }
    }
}

/// Reading a single member is one step.
pub proof fn lemma_fold_one(slots: RequestSlots, member: MemberView, capacity: nat)
    ensures
        slots.fold(seq![member], capacity) == slots.step(member, capacity),
{
    let members = seq![member];
    assert(members[0] == member);
    assert(members.drop_first().len() == 0);
    match slots.step(member, capacity) {
        Ok(next) => {
            assert(next.fold(members.drop_first(), capacity) == Ok::<
                RequestSlots,
                DecodeErrorView,
            >(next));
        },
        Err(_) => {},
    }
}

/// Decoding what was encoded gives the request back.
pub proof fn lemma_request_round_trip(request: RequestView, capacity: nat)
    requires
        request.canonical(capacity),
    ensures
        spec_decode_request(request.encode(), capacity) == Ok::<RequestView, DecodeErrorView>(
            request,
        ),
{
    reveal_strlit("jsonrpc");
    reveal_strlit("method");
    reveal_strlit("params");
    reveal_strlit("id");
    reveal_strlit("2.0");
    assert("jsonrpc"@.len() == 7 && "method"@.len() == 6 && "params"@.len() == 6 && "id"@.len()
        == 2);
    assert("method"@[0] == 'm' && "params"@[0] == 'p');
    let version = MemberView { key: "jsonrpc"@, value: request.jsonrpc.spec_encode() };
    let method = MemberView { key: "method"@, value: ValueView::Text(request.method) };
    let params = match request.params {
        Some(params) => seq![MemberView { key: "params"@, value: params }],
        None => seq![],
    };
    let id = match request.id {
        Some(id) => seq![MemberView { key: "id"@, value: Id::spec_encode(id) }],
        None => seq![],
    };
    let start = RequestSlots::empty();
    let versioned = RequestSlots { jsonrpc: Some(request.jsonrpc), ..start };
    let named = RequestSlots { method: Some(request.method), ..versioned };
    let with_params = match request.params {
        Some(params) => RequestSlots { params: Some(Some(params)), ..named },
        None => named,
    };
    let with_id = match request.id {
        Some(id) => RequestSlots { id: Some(Some(id)), ..with_params },
        None => with_params,
    };
    assert(start.fold(seq![version], capacity) == Ok::<RequestSlots, DecodeErrorView>(versioned))
        by {
        lemma_fold_one(start, version, capacity);
    }
    assert(versioned.fold(seq![method], capacity) == Ok::<RequestSlots, DecodeErrorView>(named))
        by {
        lemma_fold_one(versioned, method, capacity);
    }
    assert(named.fold(params, capacity) == Ok::<RequestSlots, DecodeErrorView>(with_params)) by {
        if request.params is Some {
            lemma_fold_one(named, params[0], capacity);
            assert(params == seq![params[0]]);
        }
    }
    assert(with_params.fold(id, capacity) == Ok::<RequestSlots, DecodeErrorView>(with_id)) by {
        if let Some(found) = request.id {
            Id::lemma_round_trip(found);
            lemma_fold_one(with_params, id[0], capacity);
            assert(id == seq![id[0]]);
        }
    }
    assert(request.members() == seq![version] + (seq![method] + (params + id)));
    lemma_fold_concat(named, params, id, capacity);
    lemma_fold_concat(versioned, seq![method], params + id, capacity);
    lemma_fold_concat(start, seq![version], seq![method] + (params + id), capacity);
}

/// What decoding a structured value as a request gives, for a method name of
/// at most `capacity` bytes: the value is an object, its members are read in
/// their order, and the method is there at the end.
pub open spec fn spec_decode_request(value: ValueView, capacity: nat) -> Result<
    RequestView,
    DecodeErrorView,
> {
    match value {
        ValueView::Object(members) => match RequestSlots::empty().fold(members, capacity) {
            Ok(slots) => slots.finish(),
            Err(e) => Err(e),
        },
        _ => Err(DecodeErrorView::InvalidType { found: value, expected: Subject::Request }),
    }
}

impl<const N: usize> View for Request<Value, BoundedText<N>> {
    type V = RequestView;

    open spec fn view(&self) -> RequestView {
        RequestView {
            jsonrpc: self.jsonrpc,
            method: self.method@,
            params: value_view(self.params),
            id: id_view(self.id),
        }
    }
}

/// The slots that a decoder's variables stand for.
pub open spec fn slots_of<const N: usize>(
    jsonrpc: Option<Version>,
    method: Option<BoundedText<N>>,
    params: Option<Option<Value>>,
    id: Option<Option<Id>>,
) -> RequestSlots {
    RequestSlots {
        jsonrpc,
        method: match method {
            Some(method) => Some(method@),
            None => None,
        },
        params: match params {
            Some(params) => Some(value_view(params)),
            None => None,
        },
        id: match id {
            Some(id) => Some(id_view(id)),
            None => None,
        },
    }
}

impl<const N: usize> Request<Value, BoundedText<N>> {
    /// Reads a request from a structured value.
    #[verifier::loop_isolation(false)]
    pub fn decode(value: Value) -> (decoded: Result<Self, DecodeError>)
        ensures
            decoded matches Ok(request) ==> spec_decode_request(
                value@,
                BoundedText::<N>::spec_capacity(),
            ) == Ok::<RequestView, DecodeErrorView>(request@),
            decoded matches Err(e) ==> spec_decode_request(
                value@,
                BoundedText::<N>::spec_capacity(),
            ) == Err::<RequestView, DecodeErrorView>(e@),
    {
        let ghost capacity = BoundedText::<N>::spec_capacity();
        match value {
            Value::Object(members) => {
                let ghost all = member_views(members@);
                proof {
                    lemma_object_view(members);
                    assert(all.skip(0) == all);
                }
                let mut jsonrpc: Option<Version> = None;
                let mut method: Option<BoundedText<N>> = None;
                let mut params: Option<Option<Value>> = None;
                let mut id: Option<Option<Id>> = None;
                for member in it: members.into_iter()
                    invariant
                        all == member_views(it.seq()),
                        RequestSlots::empty().fold(all, capacity) == slots_of(
                            jsonrpc,
                            method,
                            params,
                            id,
                        ).fold(all.skip(it.index() as int), capacity),
                {
                    assert(all.skip(it.index() as int).drop_first() == all.skip(
                        it.index() as int + 1,
                    ));
                    let Member { key, value: held } = member;
                    if same_text(key.as_str(), "jsonrpc") {
                        if jsonrpc.is_some() {
                            return Err(
                                DecodeError::DuplicateField {
                                    field: "jsonrpc",
                                    owner: Subject::Request,
                                },
                            );
                        }
                        match Version::decode(held) {
                            Ok(read) => {
                                jsonrpc = Some(read);
                            },
                            Err(e) => {
                                return Err(e);
                            },
                        }
                    } else if same_text(key.as_str(), "method") {
                        if method.is_some() {
                            return Err(
                                DecodeError::DuplicateField {
                                    field: "method",
                                    owner: Subject::Request,
                                },
                            );
                        }
                        match BoundedText::<N>::decode(held, Subject::Method) {
                            Ok(read) => {
                                method = Some(read);
                            },
                            Err(e) => {
                                return Err(e);
                            },
                        }
                    } else if same_text(key.as_str(), "params") {
                        if params.is_some() {
                            return Err(
                                DecodeError::DuplicateField {
                                    field: "params",
                                    owner: Subject::Request,
                                },
                            );
                        }
                        params = Some(into_optional_payload(held));
                    } else if same_text(key.as_str(), "id") {
                        if id.is_some() {
                            return Err(
                                DecodeError::DuplicateField { field: "id", owner: Subject::Request },
                            );
                        }
                        match Id::decode_optional(held) {
                            Ok(read) => {
                                id = Some(read);
                            },
                            Err(e) => {
                                return Err(e);
                            },
                        }
                    } else {
                        return Err(
                            DecodeError::UnknownField { name: key, owner: Subject::Request },
                        );
                    }
                }
                match method {
                    None => Err(
                        DecodeError::MissingField { field: "method", owner: Subject::Request },
                    ),
                    Some(method) => Ok(
                        Request {
                            jsonrpc: match jsonrpc {
                                Some(version) => version,
                                None => Version::V2,
                            },
                            method,
                            params: match params {
                                Some(params) => params,
                                None => None,
                            },
                            id: match id {
                                Some(id) => id,
                                None => None,
                            },
                        },
                    ),
                }
            },
            other => Err(DecodeError::InvalidType { found: other, expected: Subject::Request }),
        }
    }

    /// Writes a request as a structured value.
    pub fn encode(self) -> (value: Value)
        ensures
            value@ == self@.encode(),
            byte_len(self@.method) <= BoundedText::<N>::spec_capacity(),
            self@.id matches Some(id) ==> id.valid(),
    {
        let ghost content = self@;
        let mut members: Vec<Member> = Vec::new();
        members.push(Member { key: "jsonrpc".to_owned(), value: self.jsonrpc.encode() });
        members.push(Member { key: "method".to_owned(), value: self.method.encode() });
        match self.params {
            Some(params) => {
                members.push(Member { key: "params".to_owned(), value: params });
            },
            None => {},
        }
        match self.id {
            Some(id) => {
                members.push(Member { key: "id".to_owned(), value: id.encode() });
            },
            None => {},
        }
        proof {
            lemma_object_view(members);
            assert(member_views(members@) =~= content.members());
        }
        Value::Object(members)
    }
}

} // verus!
