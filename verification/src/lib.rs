//! Data types of the JSON-RPC 2.0 protocol and the rules of their wire form.
//!
//! The types are plain values. Each of them is read from and written to a
//! structured [`Value`], the data model that a wire codec such as a JSON
//! library delivers and accepts; what reading and writing give is stated by
//! the contracts of the `decode` and `encode` functions.

pub mod binary64;
pub mod error;
pub mod failure;
pub mod id;
pub mod key;
pub mod request;
pub mod response;
pub mod text;
pub mod value;
pub mod version;

pub use error::{Error, ErrorCode};
pub use failure::{DecodeError, Subject};
pub use id::Id;
pub use key::Key;
pub use request::Request;
pub use response::{Response, ResponseDecoder};
pub use str_buf;
pub use text::{BoundedText, CapacityError};
pub use value::{Member, Value};
pub use version::Version;
