//! Request identifiers.

use crate::binary64;
use crate::failure::{DecodeError, DecodeErrorView, Subject};
use crate::text::{byte_len, str_byte_len, BoundedText};
use crate::value::{Value, ValueView};
use vstd::prelude::*;

verus! {

/// The number of bytes that a textual identifier may take: the length of a
/// UUID in its canonical text form.
pub const ID_CAPACITY: usize = 36;

/// Request identifier.
#[derive(Debug, PartialEq, Clone, Copy, Hash, Eq)]
pub enum Id {
    /// Numeric id.
    Num(u64),
    /// Textual id of at most 36 bytes.
    Str(BoundedText<36>),
}

/// The mathematical content of an [`Id`].
pub ghost enum IdView {
    Num(u64),
    Str(Seq<char>),
}

impl View for Id {
    type V = IdView;

    open spec fn view(&self) -> IdView {
        match self {
            Id::Num(n) => IdView::Num(*n),
            Id::Str(text) => IdView::Str(text@),
        }
    }
}

impl IdView {
    /// Whether an identifier of this content exists: a text takes at most 36
    /// bytes.
    pub open spec fn valid(self) -> bool {
        self matches IdView::Str(text) ==> byte_len(text) <= 36
    }
}

impl Id {
    /// What decoding a structured value as an identifier gives.
    ///
    /// An unsigned integer is taken as it is. A signed integer is taken if it
    /// is not negative. A floating-point number is taken if it denotes a
    /// whole number that a `u64` holds exactly. A text is taken if it takes
    /// at most 36 bytes. Everything else is rejected: a longer text as an
    /// invalid length, and numbers out of the domain and values of any other
    /// shape (null, boolean, array, object) as invalid values.
    pub open spec fn spec_decode(value: ValueView) -> Result<IdView, DecodeErrorView> {
        match value {
            ValueView::Unsigned(n) => Ok(IdView::Num(n)),
            ValueView::Signed(n) => if n >= 0 {
                Ok(IdView::Num(n as u64))
            } else {
                Err(DecodeErrorView::InvalidValue { found: value, expected: Subject::Id })
            },
            ValueView::Float(bits) => match binary64::as_u64(bits) {
                Some(n) => Ok(IdView::Num(n)),
                None => Err(DecodeErrorView::InvalidValue { found: value, expected: Subject::Id }),
            },
            ValueView::Text(text) => if byte_len(text) <= 36 {
                Ok(IdView::Str(text))
            } else {
                Err(
                    DecodeErrorView::InvalidLength {
                        len: byte_len(text) as usize,
                        expected: Subject::Id,
                    },
                )
            },
            _ => Err(DecodeErrorView::InvalidValue { found: value, expected: Subject::Id }),
        }
    }

    /// What decoding a structured value as an optional identifier gives: the
    /// null value stands for no identifier.
    pub open spec fn spec_decode_optional(value: ValueView) -> Result<
        Option<IdView>,
        DecodeErrorView,
    > {
        match value {
            ValueView::Null => Ok(None),
            _ => match Self::spec_decode(value) {
                Ok(id) => Ok(Some(id)),
                Err(e) => Err(e),
            },
        }
    }

    /// The structured value that stands for an identifier: a bare unsigned
    /// integer or a text.
    pub open spec fn spec_encode(id: IdView) -> ValueView {
        match id {
            IdView::Num(n) => ValueView::Unsigned(n),
            IdView::Str(text) => ValueView::Text(text),
        }
    }

    /// The structured value that stands for an optional identifier: the null
    /// value where there is none.
    pub open spec fn spec_encode_optional(id: Option<IdView>) -> ValueView {
        match id {
            Some(id) => Self::spec_encode(id),
            None => ValueView::Null,
        }
    }

    /// Decoding what was encoded gives the identifier back.
    pub proof fn lemma_round_trip(id: IdView)
        requires
            id.valid(),
        ensures
            Self::spec_decode(Self::spec_encode(id)) == Ok::<IdView, DecodeErrorView>(id),
            Self::spec_decode_optional(Self::spec_encode_optional(Some(id))) == Ok::<
                Option<IdView>,
                DecodeErrorView,
            >(Some(id)),
            Self::spec_decode_optional(Self::spec_encode_optional(None)) == Ok::<
                Option<IdView>,
                DecodeErrorView,
            >(None),
    {
    }

    /// A negative integer, a number with a fractional part or beyond the
    /// range of `u64`, a text of more than 36 bytes and a value of any shape
    /// but number and text are no identifiers: the text is rejected for its
    /// length, everything else as an invalid value. Only null stands for the
    /// absence of an identifier where one is optional.
    pub proof fn lemma_rejects(value: ValueView)
        requires
            match value {
                ValueView::Unsigned(_) => false,
                ValueView::Signed(n) => n < 0,
                ValueView::Float(bits) => binary64::as_u64(bits) is None,
                ValueView::Text(text) => byte_len(text) > 36,
                _ => true,
            },
        ensures
            Self::spec_decode(value) == Err::<IdView, DecodeErrorView>(
                match value {
                    ValueView::Text(text) => DecodeErrorView::InvalidLength {
                        len: byte_len(text) as usize,
                        expected: Subject::Id,
                    },
                    _ => DecodeErrorView::InvalidValue { found: value, expected: Subject::Id },
                },
            ),
            !(value is Null) ==> Self::spec_decode_optional(value) is Err,
    {
    }

    /// The identifier for an unsigned integer.
    pub fn from_unsigned(n: u64) -> (id: Self)
        ensures
            id@ == IdView::Num(n),
    {
        Id::Num(n)
    }

    /// The identifier for a signed integer, if it is not negative.
    pub fn from_signed(n: i64) -> (id: Option<Self>)
        ensures
            id is Some <==> n >= 0,
            id matches Some(made) ==> made@ == IdView::Num(n as u64),
    {
        if n < 0 {
            None
        } else {
            Some(Id::Num(n as u64))
        }
    }

    /// The identifier for a floating-point number given by its binary64 bit
    /// pattern, if the number is a whole one that a `u64` holds exactly.
    pub fn from_float_bits(bits: u64) -> (id: Option<Self>)
        ensures
            id is Some <==> binary64::as_u64(bits) is Some,
            id matches Some(made) ==> made@ == IdView::Num(binary64::as_u64(bits).unwrap()),
    {
        match binary64::to_u64(bits) {
            Some(n) => Some(Id::Num(n)),
            None => None,
        }
    }

    /// The identifier for a text, if the text takes at most 36 bytes.
    pub fn from_text(text: &str) -> (id: Option<Self>)
        ensures
            id is Some <==> byte_len(text@) <= 36,
            id matches Some(made) ==> made@ == IdView::Str(text@),
    {
        match BoundedText::<36>::try_from_str(text) {
            Ok(held) => Some(Id::Str(held)),
            Err(_) => None,
        }
    }

    /// Reads an identifier from a structured value.
    pub fn decode(value: Value) -> (decoded: Result<Self, DecodeError>)
        ensures
            decoded matches Ok(id) ==> Self::spec_decode(value@) == Ok::<IdView, DecodeErrorView>(
                id@,
            ),
            decoded matches Err(e) ==> Self::spec_decode(value@) == Err::<IdView, DecodeErrorView>(
                e@,
            ),
    {
        match value {
            Value::Unsigned(n) => Ok(Self::from_unsigned(n)),
            Value::Signed(n) => match Self::from_signed(n) {
                Some(id) => Ok(id),
                None => Err(
                    DecodeError::InvalidValue { found: Value::Signed(n), expected: Subject::Id },
                ),
            },
            Value::Float(bits) => match Self::from_float_bits(bits) {
                Some(id) => Ok(id),
                None => Err(
                    DecodeError::InvalidValue { found: Value::Float(bits), expected: Subject::Id },
                ),
            },
            Value::Text(text) => match Self::from_text(text.as_str()) {
                Some(id) => Ok(id),
                None => Err(
                    DecodeError::InvalidLength {
                        len: str_byte_len(text.as_str()),
                        expected: Subject::Id,
                    },
                ),
            },
            other => Err(DecodeError::InvalidValue { found: other, expected: Subject::Id }),
        }
    }

    /// Reads an optional identifier from a structured value.
    pub fn decode_optional(value: Value) -> (decoded: Result<Option<Self>, DecodeError>)
        ensures
            decoded matches Ok(id) ==> Self::spec_decode_optional(value@) == Ok::<
                Option<IdView>,
                DecodeErrorView,
            >(id_view(id)),
            decoded matches Err(e) ==> Self::spec_decode_optional(value@) == Err::<
                Option<IdView>,
                DecodeErrorView,
            >(e@),
    {
        match value {
            Value::Null => Ok(None),
            other => match Self::decode(other) {
                Ok(id) => Ok(Some(id)),
                Err(e) => Err(e),
            },
        }
    }

    /// Writes an identifier as a structured value.
    pub fn encode(&self) -> (value: Value)
        ensures
            value@ == Self::spec_encode(self@),
            self@.valid(),
    {
        match self {
            Id::Num(n) => Value::Unsigned(*n),
            Id::Str(text) => Value::Text(text.as_str().to_owned()),
        }
    }
}

/// The content of an optional identifier.
pub open spec fn id_view(id: Option<Id>) -> Option<IdView> {
    match id {
        Some(id) => Some(id@),
        None => None,
    }
}

/// Writes an optional identifier as a structured value.
pub fn encode_optional(id: &Option<Id>) -> (value: Value)
    ensures
        value@ == Id::spec_encode_optional(id_view(*id)),
        id_view(*id) matches Some(held) ==> held.valid(),
{
    match id {
        Some(id) => id.encode(),
        None => Value::Null,
    }
}

} // verus!
