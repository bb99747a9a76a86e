//! The protocol version tag.

use crate::failure::{DecodeError, DecodeErrorView, Subject};
use crate::text::same_text;
use crate::value::{Value, ValueView};
use vstd::prelude::*;

verus! {

/// The protocol version.
#[derive(Debug, PartialEq, Clone, Copy, Hash, Eq, Structural)]
pub enum Version {
    /// Version 2.0.
    V2,
}

impl Default for Version {
    fn default() -> (version: Self)
        ensures
            version == Version::V2,
    {
        Version::V2
    }
}

impl Version {
    /// The version that a text names: only the exact tag of a version names it.
    pub open spec fn spec_from_text(text: Seq<char>) -> Option<Version> {
        if text == "2.0"@ {
            Some(Version::V2)
        } else {
            None
        }
    }

    /// What decoding a structured value as a version gives: a text that
    /// names a version gives that version; any other text and any value of
    /// another shape is an invalid value, reported with the value found.
    pub open spec fn spec_decode(value: ValueView) -> Result<Version, DecodeErrorView> {
        match value {
            ValueView::Text(text) => match Self::spec_from_text(text) {
                Some(version) => Ok(version),
                None => Err(
                    DecodeErrorView::InvalidValue { found: value, expected: Subject::Version },
                ),
            },
            _ => Err(DecodeErrorView::InvalidValue { found: value, expected: Subject::Version }),
        }
    }

    /// The structured value that stands for a version: its tag as a text.
    pub open spec fn spec_encode(self) -> ValueView {
        ValueView::Text("2.0"@)
    }

    /// The tag that stands for this version on the wire.
    pub fn as_str(&self) -> (tag: &'static str)
        ensures
            tag@ == "2.0"@,
            Self::spec_from_text(tag@) == Some(*self),
    {
        match self {
            Version::V2 => "2.0",
        }
    }

    /// The version that `text` names, if it names one.
    pub fn from_text(text: &str) -> (version: Option<Self>)
        ensures
            version == Self::spec_from_text(text@),
    {
        if same_text(text, "2.0") {
            Some(Version::V2)
        } else {
            None
        }
    }

    /// Reads a version from a structured value.
    pub fn decode(value: Value) -> (decoded: Result<Self, DecodeError>)
        ensures
            decoded matches Ok(version) ==> Self::spec_decode(value@) == Ok::<
                Version,
                DecodeErrorView,
            >(version),
            decoded matches Err(e) ==> Self::spec_decode(value@) == Err::<
                Version,
                DecodeErrorView,
            >(e@),
    {
        match value {
            Value::Text(text) => match Self::from_text(text.as_str()) {
                Some(version) => Ok(version),
                None => Err(
                    DecodeError::InvalidValue {
                        found: Value::Text(text),
                        expected: Subject::Version,
                    },
                ),
            },
            other => Err(DecodeError::InvalidValue { found: other, expected: Subject::Version }),
        }
    }

    /// Writes a version as a structured value.
    pub fn encode(&self) -> (value: Value)
        ensures
            value@ == self.spec_encode(),
    {
        Value::Text(self.as_str().to_owned())
    }
}

} // verus!
