//! The ways in which decoding a structured value fails.

use crate::value::{Value, ValueView};
use vstd::prelude::*;

verus! {

/// The entity that a decoder was reading when it failed.
#[derive(Clone, Copy, Debug, PartialEq, Eq, Structural)]
pub enum Subject {
    /// The protocol version tag.
    Version,
    /// A request identifier.
    Id,
    /// The integer code of an error.
    Code,
    /// The message text of an error.
    Message,
    /// The method name of a request.
    Method,
    /// An error object.
    Error,
    /// A request object.
    Request,
    /// A response object.
    Response,
}

impl Subject {
    /// What a value must be to be read as the entity.
    pub open spec fn spec_expecting(self) -> Seq<char> {
        match self {
            Subject::Version => "Identifier must be a string and be of one the following: ['2.0']"@,
            Subject::Id => "Identifier must be either unsigned integer or 36 character long string"@,
            Subject::Code => "a signed integer"@,
            Subject::Message => "a string buffer"@,
            Subject::Method => "a string buffer"@,
            Subject::Error => "Object resembling JSON-RPC error type"@,
            Subject::Request => "Object resembling JSON-RPC request type"@,
            Subject::Response => "Object resembling JSON-RPC response type"@,
        }
    }

    /// What a value must be to be read as the entity, for a diagnostic.
    pub fn expecting(&self) -> (text: &'static str)
        ensures
            text@ == self.spec_expecting(),
    {
        match self {
            Subject::Version => "Identifier must be a string and be of one the following: ['2.0']",
            Subject::Id => "Identifier must be either unsigned integer or 36 character long string",
            Subject::Code => "a signed integer",
            Subject::Message => "a string buffer",
            Subject::Method => "a string buffer",
            Subject::Error => "Object resembling JSON-RPC error type",
            Subject::Request => "Object resembling JSON-RPC request type",
            Subject::Response => "Object resembling JSON-RPC response type",
        }
    }
}

/// Why a structured value was rejected.
#[derive(Debug, PartialEq)]
pub enum DecodeError {
    /// The value has a shape from which the entity cannot be read: an error
    /// code that is no integer, a message or a method name that is no text,
    /// an error, request or response that is no object.
    InvalidType { found: Value, expected: Subject },
    /// The value lies outside the entity's domain: a version that is not
    /// the text of a version, an identifier that is no unsigned whole number
    /// and no text.
    InvalidValue { found: Value, expected: Subject },
    /// A text takes more bytes than the entity can hold.
    InvalidLength { len: usize, expected: Subject },
    /// An object has a member that its schema does not know.
    UnknownField { name: String, owner: Subject },
    /// An object lacks a member that its schema requires.
    MissingField { field: &'static str, owner: Subject },
    /// An object has a member twice.
    DuplicateField { field: &'static str, owner: Subject },
    /// A response object carries both a result and an error.
    Conflict,
    /// A response object carries neither a result nor an error.
    MissingPayload,
}

/// The mathematical content of a [`DecodeError`].
pub ghost enum DecodeErrorView {
    InvalidType { found: ValueView, expected: Subject },
    InvalidValue { found: ValueView, expected: Subject },
    InvalidLength { len: usize, expected: Subject },
    UnknownField { name: Seq<char>, owner: Subject },
    MissingField { field: Seq<char>, owner: Subject },
    DuplicateField { field: Seq<char>, owner: Subject },
    Conflict,
    MissingPayload,
}

impl View for DecodeError {
    type V = DecodeErrorView;

    open spec fn view(&self) -> DecodeErrorView {
        match self {
            DecodeError::InvalidType { found, expected } => DecodeErrorView::InvalidType {
                found: found@,
                expected: *expected,
            },
            DecodeError::InvalidValue { found, expected } => DecodeErrorView::InvalidValue {
                found: found@,
                expected: *expected,
            },
            DecodeError::InvalidLength { len, expected } => DecodeErrorView::InvalidLength {
                len: *len,
                expected: *expected,
            },
            DecodeError::UnknownField { name, owner } => DecodeErrorView::UnknownField {
                name: name@,
                owner: *owner,
            },
            DecodeError::MissingField { field, owner } => DecodeErrorView::MissingField {
                field: field@,
                owner: *owner,
            },
            DecodeError::DuplicateField { field, owner } => DecodeErrorView::DuplicateField {
                field: field@,
                owner: *owner,
            },
            DecodeError::Conflict => DecodeErrorView::Conflict,
            DecodeError::MissingPayload => DecodeErrorView::MissingPayload,
        }
    }
}

impl DecodeErrorView {
    /// The fixed description of the kind of failure.
    pub open spec fn summary(self) -> Seq<char> {
        match self {
            DecodeErrorView::InvalidType { .. } => "invalid type"@,
            DecodeErrorView::InvalidValue { .. } => "invalid value"@,
            DecodeErrorView::InvalidLength { .. } => "invalid length"@,
            DecodeErrorView::UnknownField { .. } => "unknown field"@,
            DecodeErrorView::MissingField { .. } => "missing field"@,
            DecodeErrorView::DuplicateField { .. } => "duplicate field"@,
            DecodeErrorView::Conflict => "JSON-RPC Response contains both result and error field"@,
            DecodeErrorView::MissingPayload =>
                "JSON-RPC Response is missing either result or error field."@,
        }
    }
}

impl DecodeError {
    /// The fixed description of the kind of failure, for a diagnostic.
    pub fn summary(&self) -> (text: &'static str)
        ensures
            text@ == self@.summary(),
    {
        match self {
            DecodeError::InvalidType { .. } => "invalid type",
            DecodeError::InvalidValue { .. } => "invalid value",
            DecodeError::InvalidLength { .. } => "invalid length",
            DecodeError::UnknownField { .. } => "unknown field",
            DecodeError::MissingField { .. } => "missing field",
            DecodeError::DuplicateField { .. } => "duplicate field",
            DecodeError::Conflict => "JSON-RPC Response contains both result and error field",
            DecodeError::MissingPayload =>
                "JSON-RPC Response is missing either result or error field.",
        }
    }
}

} // verus!
