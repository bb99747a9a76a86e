#![allow(dead_code, unused_imports)]

use json_rpc_types::{
    BoundedText, DecodeError, Error, ErrorCode, Id, Key, Member, Request, Response,
    ResponseDecoder, Subject, Value, Version,
};
use serde::de::{Deserialize, Deserializer, MapAccess, SeqAccess, Unexpected, Visitor};
use serde::ser::{Serialize, SerializeMap, SerializeSeq, Serializer};
use std::fmt;

/// A structured value as the JSON library reads it.
struct Wire(Value);

struct WireVisitor;

impl<'de> Visitor<'de> for WireVisitor {
    type Value = Wire;

    fn expecting(&self, formatter: &mut fmt::Formatter) -> fmt::Result {
        formatter.write_str("any JSON value")
    }

    fn visit_bool<E>(self, v: bool) -> Result<Wire, E> {
        Ok(Wire(Value::Bool(v)))
    }

    fn visit_u64<E>(self, v: u64) -> Result<Wire, E> {
        Ok(Wire(Value::Unsigned(v)))
    }

    fn visit_i64<E>(self, v: i64) -> Result<Wire, E> {
        Ok(Wire(Value::Signed(v)))
    }

    fn visit_f64<E>(self, v: f64) -> Result<Wire, E> {
        Ok(Wire(Value::Float(v.to_bits())))
    }

    fn visit_str<E>(self, v: &str) -> Result<Wire, E> {
        Ok(Wire(Value::Text(v.to_owned())))
    }

    fn visit_unit<E>(self) -> Result<Wire, E> {
        Ok(Wire(Value::Null))
    }

    fn visit_seq<A: SeqAccess<'de>>(self, mut seq: A) -> Result<Wire, A::Error> {
        let mut items = Vec::new();
        while let Some(Wire(item)) = seq.next_element()? {
            items.push(item);
        }
        Ok(Wire(Value::List(items)))
    }

    fn visit_map<A: MapAccess<'de>>(self, mut map: A) -> Result<Wire, A::Error> {
        let mut members = Vec::new();
        while let Some(key) = map.next_key::<String>()? {
            let Wire(value) = map.next_value()?;
            members.push(Member { key, value });
        }
        Ok(Wire(Value::Object(members)))
    }
}

impl<'de> Deserialize<'de> for Wire {
    fn deserialize<D: Deserializer<'de>>(des: D) -> Result<Self, D::Error> {
        des.deserialize_any(WireVisitor)
    }
}

/// A structured value as the JSON library writes it.
struct Out<'a>(&'a Value);

impl<'a> Serialize for Out<'a> {
    fn serialize<S: Serializer>(&self, ser: S) -> Result<S::Ok, S::Error> {
        match self.0 {
            Value::Null => ser.serialize_unit(),
            Value::Bool(v) => ser.serialize_bool(*v),
            Value::Unsigned(v) => ser.serialize_u64(*v),
            Value::Signed(v) => ser.serialize_i64(*v),
            Value::Float(bits) => ser.serialize_f64(f64::from_bits(*bits)),
            Value::Text(v) => ser.serialize_str(v),
            Value::List(items) => {
                let mut state = ser.serialize_seq(Some(items.len()))?;
                for item in items {
                    state.serialize_element(&Out(item))?;
                }
                state.end()
            }
            Value::Object(members) => {
                let mut state = ser.serialize_map(Some(members.len()))?;
                for member in members {
                    state.serialize_entry(&member.key, &Out(&member.value))?;
                }
                state.end()
            }
        }
    }
}

fn parse(text: &str) -> Value {
    serde_json::from_str::<Wire>(text).unwrap().0
}

fn print(value: &Value) -> String {
    serde_json::to_string(&Out(value)).unwrap()
}

/// The name of a member of a response, read by the library's rule.
struct WireKey(Key);

struct WireKeyVisitor;

impl<'de> Visitor<'de> for WireKeyVisitor {
    type Value = WireKey;

    fn expecting(&self, formatter: &mut fmt::Formatter) -> fmt::Result {
        formatter.write_str(Key::expecting())
    }

    fn visit_str<E: serde::de::Error>(self, text: &str) -> Result<WireKey, E> {
        match Key::parse(text) {
            Some(key) => Ok(WireKey(key)),
            None => Err(E::invalid_value(Unexpected::Str(text), &self)),
        }
    }
}

impl<'de> Deserialize<'de> for WireKey {
    fn deserialize<D: Deserializer<'de>>(des: D) -> Result<Self, D::Error> {
        des.deserialize_str(WireKeyVisitor)
    }
}

/// A response read member by member, as the JSON library delivers them.
struct WireResponse(Response<Value, Value>);

struct WireResponseVisitor;

impl<'de> Visitor<'de> for WireResponseVisitor {
    type Value = WireResponse;

    fn expecting(&self, formatter: &mut fmt::Formatter) -> fmt::Result {
        formatter.write_str(Subject::Response.expecting())
    }

    fn visit_map<A: MapAccess<'de>>(self, mut map: A) -> Result<WireResponse, A::Error> {
        let mut decoder = ResponseDecoder::<31>::new();
        while let Some(WireKey(key)) = map.next_key()? {
            let Wire(value) = map.next_value()?;
            decoder = decoder.accept(key, value).map_err(fail)?;
        }
        decoder.finish().map(WireResponse).map_err(fail)
    }
}

impl<'de> Deserialize<'de> for WireResponse {
    fn deserialize<D: Deserializer<'de>>(des: D) -> Result<Self, D::Error> {
        des.deserialize_map(WireResponseVisitor)
    }
}

fn fail<E: serde::de::Error>(error: DecodeError) -> E {
    E::custom(error.summary())
}

fn read_response(text: &str) -> Result<Response<Value, Value>, serde_json::Error> {
    serde_json::from_str::<WireResponse>(text).map(|read| read.0)
}

fn text<const N: usize>(text: &str) -> BoundedText<N> {
    BoundedText::try_from_str(text).unwrap()
}

type Failure = Error<()>;

#[test]
fn error_should_truncated_message() {
    let message = "12345678912345678912345678912345";
    let error = Failure::with_custom_msg_truncated(ErrorCode::ParseError, message);
    assert_eq!(error.message.len(), 31);
    assert_eq!(error.message.as_str(), &message[..31]);
    let error = Failure::with_custom_msg_truncated(ErrorCode::ParseError, &message[..31]);
    assert_eq!(error.message.len(), 31);
    assert_eq!(error.message.as_str(), &message[..31]);
    let error = Failure::with_custom_msg_truncated(ErrorCode::ParseError, &message[..29]);
    assert_eq!(error.message.len(), 29);
    assert_eq!(error.message.as_str(), &message[..29]);
}

#[test]
fn error_should_not_panic_message_within_limit() {
    let message = "12345678912345678912345678912345";
    let error = Failure::with_custom_msg_truncated(ErrorCode::ParseError, &message[..31]);
    assert_eq!(error.message.len(), 31);
    assert_eq!(error.message.as_str(), &message[..31]);
    let error = Failure::with_custom_msg_truncated(ErrorCode::ParseError, &message[..30]);
    assert_eq!(error.message.len(), 30);
    assert_eq!(error.message.as_str(), &message[..30]);
}

#[test]
fn error_truncation_keeps_whole_characters() {
    // 30 ASCII bytes, then a character of two bytes that would end at byte 32.
    let message = "123456789123456789123456789123\u{e9}x";
    let error = Failure::with_custom_msg_truncated(ErrorCode::ParseError, message);
    assert_eq!(error.message.as_str(), &message[..30]);
    let error = Error::<(), BoundedText<4>>::with_custom_msg_truncated(ErrorCode::ParseError, "\u{30ed}\u{30ea}");
    assert_eq!(error.message.as_str(), "\u{30ed}");
    let error = Error::<(), BoundedText<2>>::with_custom_msg_truncated(ErrorCode::ParseError, "\u{30ed}");
    assert_eq!(error.message.as_str(), "");
    let error = Failure::with_custom_msg_truncated(ErrorCode::ParseError, "");
    assert_eq!(error.message.len(), 0);
}

#[test]
fn error_with_custom_msg_keeps_the_message() {
    let error = Failure::with_custom_msg(ErrorCode::InvalidParams, "exactly what was said");
    assert_eq!(error.code, ErrorCode::InvalidParams);
    assert_eq!(error.message.as_str(), "exactly what was said");
    assert_eq!(error.data, None);
}

#[test]
fn error_from_code_takes_the_description() {
    for code in [
        ErrorCode::ParseError,
        ErrorCode::InvalidRequest,
        ErrorCode::MethodNotFound,
        ErrorCode::InvalidParams,
        ErrorCode::InternalError,
        ErrorCode::ServerError(7),
    ] {
        let error = Failure::from_code(code);
        assert_eq!(error.code, code);
        assert_eq!(error.message.as_str(), code.message());
        assert_eq!(error.summary(), code.message());
        assert_eq!(error.data, None);
    }
}

#[test]
fn error_from_code_fits_a_small_message() {
    let error = Error::<(), BoundedText<12>>::from_code(ErrorCode::ParseError);
    assert_eq!(error.message.as_str(), "Parse error");
    assert_eq!(error.message.len(), 11);
    let error = Error::<(), BoundedText<12>>::from_code(ErrorCode::ServerError(3));
    assert_eq!(error.message.as_str(), "Server error");
    let error = Error::<(), BoundedText<16>>::from_code(ErrorCode::MethodNotFound);
    assert_eq!(error.message.len(), 16);
}

#[test]
fn error_set_data_and_text_message() {
    let error = Error::<u8>::from_code(ErrorCode::InternalError).set_data(9);
    assert_eq!(error.data, Some(9));
    assert_eq!(error.code, ErrorCode::InternalError);
    let error = Error::<u8, String>::with_text_message(ErrorCode::ParseError, "a longer message than any buffer holds");
    assert_eq!(error.message, "a longer message than any buffer holds");
    assert_eq!(error.data, None);
}

#[test]
fn error_code_mapping() {
    assert_eq!(ErrorCode::from_code(-32700), ErrorCode::ParseError);
    assert_eq!(ErrorCode::from_code(-32600), ErrorCode::InvalidRequest);
    assert_eq!(ErrorCode::from_code(-32601), ErrorCode::MethodNotFound);
    assert_eq!(ErrorCode::from_code(-32602), ErrorCode::InvalidParams);
    assert_eq!(ErrorCode::from_code(-32603), ErrorCode::InternalError);
    assert_eq!(ErrorCode::from_code(-32000), ErrorCode::ServerError(-32000));
    assert_eq!(ErrorCode::from_code(0), ErrorCode::ServerError(0));
    for code in [i64::MIN, -32700, -32603, -32602, -32601, -32600, -1, 0, 1, i64::MAX] {
        assert_eq!(ErrorCode::from_code(code).code(), code);
    }
    assert_eq!(ErrorCode::ParseError.message(), "Parse error");
    assert_eq!(ErrorCode::InvalidRequest.message(), "Invalid Request");
    assert_eq!(ErrorCode::MethodNotFound.message(), "Method not found");
    assert_eq!(ErrorCode::InvalidParams.message(), "Invalid params");
    assert_eq!(ErrorCode::InternalError.message(), "Internal error");
    assert_eq!(ErrorCode::ServerError(1).message(), "Server error");
}

#[test]
fn error_code_wire_form() {
    assert_eq!(print(&ErrorCode::MethodNotFound.encode()), "-32601");
    assert_eq!(ErrorCode::decode(parse("-32601")).unwrap(), ErrorCode::MethodNotFound);
    assert_eq!(ErrorCode::decode(parse("5")).unwrap(), ErrorCode::ServerError(5));
    assert_eq!(
        ErrorCode::decode(parse("9223372036854775808")).unwrap_err(),
        DecodeError::InvalidValue { found: Value::Unsigned(1u64 << 63), expected: Subject::Code }
    );
    assert_eq!(
        ErrorCode::decode(parse("\"5\"")).unwrap_err(),
        DecodeError::InvalidType { found: Value::Text("5".to_owned()), expected: Subject::Code }
    );
    assert!(ErrorCode::decode(parse("1.0")).is_err());
}

#[test]
fn error_object_wire_form() {
    let error = Error::<Value>::from_code(ErrorCode::MethodNotFound);
    assert_eq!(print(&error.clone().encode()), r#"{"code":-32601,"message":"Method not found"}"#);
    assert_eq!(Error::<Value>::decode(error.clone().encode()).unwrap(), error);
    let with_data = error.set_data(Value::List(vec![Value::Bool(true)]));
    assert_eq!(
        print(&with_data.clone().encode()),
        r#"{"code":-32601,"message":"Method not found","data":[true]}"#
    );
    assert_eq!(Error::<Value>::decode(with_data.clone().encode()).unwrap(), with_data);
    let read = Error::<Value>::decode(parse(r#"{"message":"m","data":null,"code":1}"#)).unwrap();
    assert_eq!(read.code, ErrorCode::ServerError(1));
    assert_eq!(read.message.as_str(), "m");
    assert_eq!(read.data, None);
}

#[test]
fn error_object_schema_violations() {
    type E = Error<Value>;
    assert_eq!(
        E::decode(parse(r#"{"code":1,"message":"m","more":0}"#)).unwrap_err(),
        DecodeError::UnknownField { name: "more".to_owned(), owner: Subject::Error }
    );
    assert_eq!(
        E::decode(parse(r#"{"message":"m"}"#)).unwrap_err(),
        DecodeError::MissingField { field: "code", owner: Subject::Error }
    );
    assert_eq!(
        E::decode(parse(r#"{"code":1}"#)).unwrap_err(),
        DecodeError::MissingField { field: "message", owner: Subject::Error }
    );
    assert_eq!(
        E::decode(parse(r#"{"code":1,"code":2,"message":"m"}"#)).unwrap_err(),
        DecodeError::DuplicateField { field: "code", owner: Subject::Error }
    );
    assert_eq!(
        E::decode(parse(r#"{"code":1,"message":"12345678901234567890123456789012"}"#)).unwrap_err(),
        DecodeError::InvalidLength { len: 32, expected: Subject::Message }
    );
    assert_eq!(
        E::decode(parse(r#"{"code":1,"message":5}"#)).unwrap_err(),
        DecodeError::InvalidType { found: Value::Unsigned(5), expected: Subject::Message }
    );
    assert_eq!(
        E::decode(parse("null")).unwrap_err(),
        DecodeError::InvalidType { found: Value::Null, expected: Subject::Error }
    );
}
