#![allow(dead_code, unused_imports)]

use json_rpc_types::{
    BoundedText, DecodeError, Error, ErrorCode, Id, Key, Member, Request, Response,
    ResponseDecoder, Subject, Value, Version,
};
use serde::de::{Deserialize, Deserializer, MapAccess, SeqAccess, Unexpected, Visitor};
use serde::ser::{Serialize, SerializeMap, SerializeSeq, Serializer};
use std::fmt;

/// A structured value as the JSON library reads it.
struct Wire(Value);

struct WireVisitor;

impl<'de> Visitor<'de> for WireVisitor {
    type Value = Wire;

    fn expecting(&self, formatter: &mut fmt::Formatter) -> fmt::Result {
        formatter.write_str("any JSON value")
    }

    fn visit_bool<E>(self, v: bool) -> Result<Wire, E> {
        Ok(Wire(Value::Bool(v)))
    }

    fn visit_u64<E>(self, v: u64) -> Result<Wire, E> {
        Ok(Wire(Value::Unsigned(v)))
    }

    fn visit_i64<E>(self, v: i64) -> Result<Wire, E> {
        Ok(Wire(Value::Signed(v)))
    }

    fn visit_f64<E>(self, v: f64) -> Result<Wire, E> {
        Ok(Wire(Value::Float(v.to_bits())))
    }

    fn visit_str<E>(self, v: &str) -> Result<Wire, E> {
        Ok(Wire(Value::Text(v.to_owned())))
    }

    fn visit_unit<E>(self) -> Result<Wire, E> {
        Ok(Wire(Value::Null))
    }

    fn visit_seq<A: SeqAccess<'de>>(self, mut seq: A) -> Result<Wire, A::Error> {
        let mut items = Vec::new();
        while let Some(Wire(item)) = seq.next_element()? {
            items.push(item);
        }
        Ok(Wire(Value::List(items)))
    }

    fn visit_map<A: MapAccess<'de>>(self, mut map: A) -> Result<Wire, A::Error> {
        let mut members = Vec::new();
        while let Some(key) = map.next_key::<String>()? {
            let Wire(value) = map.next_value()?;
            members.push(Member { key, value });
        }
        Ok(Wire(Value::Object(members)))
    }
}

impl<'de> Deserialize<'de> for Wire {
    fn deserialize<D: Deserializer<'de>>(des: D) -> Result<Self, D::Error> {
        des.deserialize_any(WireVisitor)
    }
}

/// A structured value as the JSON library writes it.
struct Out<'a>(&'a Value);

impl<'a> Serialize for Out<'a> {
    fn serialize<S: Serializer>(&self, ser: S) -> Result<S::Ok, S::Error> {
        match self.0 {
            Value::Null => ser.serialize_unit(),
            Value::Bool(v) => ser.serialize_bool(*v),
            Value::Unsigned(v) => ser.serialize_u64(*v),
            Value::Signed(v) => ser.serialize_i64(*v),
            Value::Float(bits) => ser.serialize_f64(f64::from_bits(*bits)),
            Value::Text(v) => ser.serialize_str(v),
            Value::List(items) => {
                let mut state = ser.serialize_seq(Some(items.len()))?;
                for item in items {
                    state.serialize_element(&Out(item))?;
                }
                state.end()
            }
            Value::Object(members) => {
                let mut state = ser.serialize_map(Some(members.len()))?;
                for member in members {
                    state.serialize_entry(&member.key, &Out(&member.value))?;
                }
                state.end()
            }
        }
    }
}

fn parse(text: &str) -> Value {
    serde_json::from_str::<Wire>(text).unwrap().0
}

fn print(value: &Value) -> String {
    serde_json::to_string(&Out(value)).unwrap()
}

/// The name of a member of a response, read by the library's rule.
struct WireKey(Key);

struct WireKeyVisitor;

impl<'de> Visitor<'de> for WireKeyVisitor {
    type Value = WireKey;

    fn expecting(&self, formatter: &mut fmt::Formatter) -> fmt::Result {
        formatter.write_str(Key::expecting())
    }

    fn visit_str<E: serde::de::Error>(self, text: &str) -> Result<WireKey, E> {
        match Key::parse(text) {
            Some(key) => Ok(WireKey(key)),
            None => Err(E::invalid_value(Unexpected::Str(text), &self)),
        }
    }
}

impl<'de> Deserialize<'de> for WireKey {
    fn deserialize<D: Deserializer<'de>>(des: D) -> Result<Self, D::Error> {
        des.deserialize_str(WireKeyVisitor)
    }
}

/// A response read member by member, as the JSON library delivers them.
struct WireResponse(Response<Value, Value>);

struct WireResponseVisitor;

impl<'de> Visitor<'de> for WireResponseVisitor {
    type Value = WireResponse;

    fn expecting(&self, formatter: &mut fmt::Formatter) -> fmt::Result {
        formatter.write_str(Subject::Response.expecting())
    }

    fn visit_map<A: MapAccess<'de>>(self, mut map: A) -> Result<WireResponse, A::Error> {
        let mut decoder = ResponseDecoder::<31>::new();
        while let Some(WireKey(key)) = map.next_key()? {
            let Wire(value) = map.next_value()?;
            decoder = decoder.accept(key, value).map_err(fail)?;
        }
        decoder.finish().map(WireResponse).map_err(fail)
    }
}

impl<'de> Deserialize<'de> for WireResponse {
    fn deserialize<D: Deserializer<'de>>(des: D) -> Result<Self, D::Error> {
        des.deserialize_map(WireResponseVisitor)
    }
}

fn fail<E: serde::de::Error>(error: DecodeError) -> E {
    E::custom(error.summary())
}

fn read_response(text: &str) -> Result<Response<Value, Value>, serde_json::Error> {
    serde_json::from_str::<WireResponse>(text).map(|read| read.0)
}

fn text<const N: usize>(text: &str) -> BoundedText<N> {
    BoundedText::try_from_str(text).unwrap()
}

type Call = Request<Value>;

fn params() -> Option<Value> {
    Some(Value::List(vec![Value::Unsigned(1), Value::Unsigned(2)]))
}

#[test]
fn method_call_serialize() {
    let m = Call {
        jsonrpc: Version::V2,
        method: text("update"),
        params: params(),
        id: Some(Id::Num(1)),
    };

    let serialized = print(&m.encode());
    assert_eq!(serialized, r#"{"jsonrpc":"2.0","method":"update","params":[1,2],"id":1}"#);
}

#[test]
fn notification_serialize() {
    let m = Call {
        jsonrpc: Version::V2,
        method: text("update"),
        params: params(),
        id: None,
    };

    let serialized = print(&m.encode());
    assert_eq!(serialized, r#"{"jsonrpc":"2.0","method":"update","params":[1,2]}"#);
}

#[test]
fn notification_deserialize() {
    let text_in = r#"{"jsonrpc":"2.0","method":"update","params":[1,2]}"#;
    let notification: Call = Call::decode(parse(text_in)).unwrap();

    let expected = Call {
        jsonrpc: Version::V2,
        method: text("update"),
        params: params(),
        id: None,
    };

    assert!(notification.is_notification());
    assert_eq!(expected, notification);

    let text_in = r#"{"jsonrpc":"2.0","method":"update"}"#;
    let notification: Call = Call::decode(parse(text_in)).unwrap();

    let expected = Call {
        jsonrpc: Version::V2,
        method: text("update"),
        params: None,
        id: None,
    };

    assert!(notification.is_notification());
    assert_eq!(expected, notification);
}

#[test]
fn call_deserialize() {
    let text_in = r#"{"jsonrpc":"2.0","method":"update","params":[1,2],"id":1}"#;
    let notification: Call = Call::decode(parse(text_in)).unwrap();

    let expected = Call {
        jsonrpc: Version::V2,
        method: text("update"),
        params: params(),
        id: Some(Id::Num(1)),
    };

    assert!(!notification.is_notification());
    assert_eq!(expected, notification);

    let text_in = r#"{"jsonrpc":"2.0","method":"update","id":1}"#;
    let notification: Call = Call::decode(parse(text_in)).unwrap();

    let expected = Call {
        jsonrpc: Version::V2,
        method: text("update"),
        params: None,
        id: Some(Id::Num(1)),
    };

    assert!(!notification.is_notification());
    assert_eq!(expected, notification);
}

#[test]
fn request_without_version_defaults() {
    let read = Call::decode(parse(r#"{"method":"ping","id":"a"}"#)).unwrap();
    assert_eq!(read.jsonrpc, Version::V2);
    assert_eq!(read.id, Some(Id::Str(text("a"))));
}

#[test]
fn request_rejects_schema_violations() {
    assert_eq!(
        Call::decode(parse(r#"{"jsonrpc":"2.0","method":"m","extra":1}"#)).unwrap_err(),
        DecodeError::UnknownField { name: "extra".to_owned(), owner: Subject::Request }
    );
    assert_eq!(
        Call::decode(parse(r#"{"jsonrpc":"2.0","id":1}"#)).unwrap_err(),
        DecodeError::MissingField { field: "method", owner: Subject::Request }
    );
    assert_eq!(
        Call::decode(parse(r#"{"method":"a","method":"b"}"#)).unwrap_err(),
        DecodeError::DuplicateField { field: "method", owner: Subject::Request }
    );
    assert_eq!(
        Call::decode(parse(r#"{"jsonrpc":"1.0","method":"a"}"#)).unwrap_err(),
        DecodeError::InvalidValue { found: Value::Text("1.0".to_owned()), expected: Subject::Version }
    );
    assert_eq!(
        Call::decode(parse(r#"{"method":"123456789012345678901234567890123"}"#)).unwrap_err(),
        DecodeError::InvalidLength { len: 33, expected: Subject::Method }
    );
    assert_eq!(
        Call::decode(parse(r#"[1]"#)).unwrap_err(),
        DecodeError::InvalidType { found: Value::List(vec![Value::Unsigned(1)]), expected: Subject::Request }
    );
    // Member names of a request are matched exactly.
    assert_eq!(
        Call::decode(parse(r#"{"Method":"a"}"#)).unwrap_err(),
        DecodeError::UnknownField { name: "Method".to_owned(), owner: Subject::Request }
    );
}

#[test]
fn request_round_trip() {
    let m = Call { jsonrpc: Version::V2, method: text("sum"), params: params(), id: Some(Id::Str(text("7"))) };
    let again = Call::decode(m.clone().encode()).unwrap();
    assert_eq!(again, m);
    let n = Call { jsonrpc: Version::V2, method: text("sum"), params: None, id: None };
    assert_eq!(Call::decode(n.clone().encode()).unwrap(), n);
}
