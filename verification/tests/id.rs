#![allow(dead_code, unused_imports)]

use json_rpc_types::{
    BoundedText, DecodeError, Error, ErrorCode, Id, Key, Member, Request, Response,
    ResponseDecoder, Subject, Value, Version,
};
use serde::de::{Deserialize, Deserializer, MapAccess, SeqAccess, Unexpected, Visitor};
use serde::ser::{Serialize, SerializeMap, SerializeSeq, Serializer};
use std::fmt;

/// A structured value as the JSON library reads it.
struct Wire(Value);

struct WireVisitor;

impl<'de> Visitor<'de> for WireVisitor {
    type Value = Wire;

    fn expecting(&self, formatter: &mut fmt::Formatter) -> fmt::Result {
        formatter.write_str("any JSON value")
    }

    fn visit_bool<E>(self, v: bool) -> Result<Wire, E> {
        Ok(Wire(Value::Bool(v)))
    }

    fn visit_u64<E>(self, v: u64) -> Result<Wire, E> {
        Ok(Wire(Value::Unsigned(v)))
    }

    fn visit_i64<E>(self, v: i64) -> Result<Wire, E> {
        Ok(Wire(Value::Signed(v)))
    }

    fn visit_f64<E>(self, v: f64) -> Result<Wire, E> {
        Ok(Wire(Value::Float(v.to_bits())))
    }

    fn visit_str<E>(self, v: &str) -> Result<Wire, E> {
        Ok(Wire(Value::Text(v.to_owned())))
    }

    fn visit_unit<E>(self) -> Result<Wire, E> {
        Ok(Wire(Value::Null))
    }

    fn visit_seq<A: SeqAccess<'de>>(self, mut seq: A) -> Result<Wire, A::Error> {
        let mut items = Vec::new();
        while let Some(Wire(item)) = seq.next_element()? {
            items.push(item);
        }
        Ok(Wire(Value::List(items)))
    }

    fn visit_map<A: MapAccess<'de>>(self, mut map: A) -> Result<Wire, A::Error> {
        let mut members = Vec::new();
        while let Some(key) = map.next_key::<String>()? {
            let Wire(value) = map.next_value()?;
            members.push(Member { key, value });
        }
        Ok(Wire(Value::Object(members)))
    }
}

impl<'de> Deserialize<'de> for Wire {
    fn deserialize<D: Deserializer<'de>>(des: D) -> Result<Self, D::Error> {
        des.deserialize_any(WireVisitor)
    }
}

/// A structured value as the JSON library writes it.
struct Out<'a>(&'a Value);

impl<'a> Serialize for Out<'a> {
    fn serialize<S: Serializer>(&self, ser: S) -> Result<S::Ok, S::Error> {
        match self.0 {
            Value::Null => ser.serialize_unit(),
            Value::Bool(v) => ser.serialize_bool(*v),
            Value::Unsigned(v) => ser.serialize_u64(*v),
            Value::Signed(v) => ser.serialize_i64(*v),
            Value::Float(bits) => ser.serialize_f64(f64::from_bits(*bits)),
            Value::Text(v) => ser.serialize_str(v),
            Value::List(items) => {
                let mut state = ser.serialize_seq(Some(items.len()))?;
                for item in items {
                    state.serialize_element(&Out(item))?;
                }
                state.end()
            }
            Value::Object(members) => {
                let mut state = ser.serialize_map(Some(members.len()))?;
                for member in members {
                    state.serialize_entry(&member.key, &Out(&member.value))?;
                }
                state.end()
            }
        }
    }
}

fn parse(text: &str) -> Value {
    serde_json::from_str::<Wire>(text).unwrap().0
}

fn print(value: &Value) -> String {
    serde_json::to_string(&Out(value)).unwrap()
}

/// The name of a member of a response, read by the library's rule.
struct WireKey(Key);

struct WireKeyVisitor;

impl<'de> Visitor<'de> for WireKeyVisitor {
    type Value = WireKey;

    fn expecting(&self, formatter: &mut fmt::Formatter) -> fmt::Result {
        formatter.write_str(Key::expecting())
    }

    fn visit_str<E: serde::de::Error>(self, text: &str) -> Result<WireKey, E> {
        match Key::parse(text) {
            Some(key) => Ok(WireKey(key)),
            None => Err(E::invalid_value(Unexpected::Str(text), &self)),
        }
    }
}

impl<'de> Deserialize<'de> for WireKey {
    fn deserialize<D: Deserializer<'de>>(des: D) -> Result<Self, D::Error> {
        des.deserialize_str(WireKeyVisitor)
    }
}

/// A response read member by member, as the JSON library delivers them.
struct WireResponse(Response<Value, Value>);

struct WireResponseVisitor;

impl<'de> Visitor<'de> for WireResponseVisitor {
    type Value = WireResponse;

    fn expecting(&self, formatter: &mut fmt::Formatter) -> fmt::Result {
        formatter.write_str(Subject::Response.expecting())
    }

    fn visit_map<A: MapAccess<'de>>(self, mut map: A) -> Result<WireResponse, A::Error> {
        let mut decoder = ResponseDecoder::<31>::new();
        while let Some(WireKey(key)) = map.next_key()? {
            let Wire(value) = map.next_value()?;
            decoder = decoder.accept(key, value).map_err(fail)?;
        }
        decoder.finish().map(WireResponse).map_err(fail)
    }
}

impl<'de> Deserialize<'de> for WireResponse {
    fn deserialize<D: Deserializer<'de>>(des: D) -> Result<Self, D::Error> {
        des.deserialize_map(WireResponseVisitor)
    }
}

fn fail<E: serde::de::Error>(error: DecodeError) -> E {
    E::custom(error.summary())
}

fn read_response(text: &str) -> Result<Response<Value, Value>, serde_json::Error> {
    serde_json::from_str::<WireResponse>(text).map(|read| read.0)
}

fn text<const N: usize>(text: &str) -> BoundedText<N> {
    BoundedText::try_from_str(text).unwrap()
}

fn read_id(text: &str) -> Result<Id, DecodeError> {
    Id::decode(parse(text))
}

#[test]
fn id_deserialization_int() {
    let s = "2";
    let deserialized: Id = read_id(s).unwrap();
    assert_eq!(deserialized, Id::Num(2));

    let s = "-2";
    assert!(read_id(s).is_err());
    let s = "2.1";
    assert!(read_id(s).is_err());

    let s = r#"2"#;
    let deserialized: Id = read_id(s).unwrap();
    assert_eq!(deserialized, Id::Num(2));
}

#[test]
fn id_deserialization_str() {
    let s = r#""2""#;
    let deserialized: Id = read_id(s).unwrap();
    let mut buffer = BoundedText::<36>::new();
    buffer.push("2").unwrap();
    assert_eq!(deserialized, Id::Str(buffer));

    let s = r#""2x""#;
    let deserialized: Id = read_id(s).unwrap();
    let mut buffer = BoundedText::<36>::new();
    buffer.push("2x").unwrap();
    assert_eq!(deserialized, Id::Str(buffer));

    let s = r#"[0, 2, "3"]"#;
    let Value::List(items) = parse(s) else { panic!("a list") };
    let deserialized: Vec<Id> = items.into_iter().map(|item| Id::decode(item).unwrap()).collect();
    let mut buffer = BoundedText::<36>::new();
    buffer.push("3").unwrap();
    assert_eq!(deserialized, vec![Id::Num(0), Id::Num(2), Id::Str(buffer)]);
}

#[test]
fn id_serialization() {
    let mut buffer1 = BoundedText::<36>::new();
    let mut buffer2 = BoundedText::<36>::new();

    buffer1.push("3").unwrap();
    buffer2.push("test").unwrap();

    let d = vec![
        Id::Num(0),
        Id::Num(2),
        Id::Num(3),
        Id::Str(buffer1),
        Id::Str(buffer2),
    ];
    let serialized = print(&Value::List(d.iter().map(|id| id.encode()).collect()));
    assert_eq!(serialized, r#"[0,2,3,"3","test"]"#);
}

#[test]
fn id_numeric_domain() {
    assert_eq!(read_id("18446744073709551615").unwrap(), Id::Num(u64::MAX));
    assert_eq!(read_id("2.0").unwrap(), Id::Num(2));
    assert_eq!(read_id("-0.0").unwrap(), Id::Num(0));
    assert_eq!(read_id("9007199254740992.0").unwrap(), Id::Num(9007199254740992));
    assert_eq!(read_id("9223372036854775808.0").unwrap(), Id::Num(1u64 << 63));
    assert_eq!(
        read_id("-2").unwrap_err(),
        DecodeError::InvalidValue { found: Value::Signed(-2), expected: Subject::Id }
    );
    assert_eq!(
        read_id("0.5").unwrap_err(),
        DecodeError::InvalidValue { found: Value::Float(0.5f64.to_bits()), expected: Subject::Id }
    );
    assert!(read_id("-2.0").is_err());
    assert!(read_id("1e300").is_err());
    assert!(read_id("18446744073709551616.0").is_err());
    assert!(read_id("5e-324").is_err());
    assert!(Id::decode(Value::Float(f64::NAN.to_bits())).is_err());
    assert!(Id::decode(Value::Float(f64::INFINITY.to_bits())).is_err());
}

#[test]
fn id_other_shapes_are_rejected() {
    for other in ["true", "null", "[1]", r#"{"a":1}"#] {
        let found = parse(other);
        assert_eq!(
            read_id(other).unwrap_err(),
            DecodeError::InvalidValue { found, expected: Subject::Id }
        );
    }
    assert_eq!(Id::decode_optional(parse("null")).unwrap(), None);
    assert_eq!(Id::decode_optional(parse("7")).unwrap(), Some(Id::Num(7)));
}

#[test]
fn id_text_bound() {
    let uuid = "123e4567-e89b-12d3-a456-426614174000";
    assert_eq!(uuid.len(), 36);
    assert_eq!(read_id(&format!("\"{}\"", uuid)).unwrap(), Id::Str(text(uuid)));
    let longer = format!("\"{}x\"", uuid);
    assert_eq!(
        read_id(&longer).unwrap_err(),
        DecodeError::InvalidLength { len: 37, expected: Subject::Id }
    );
}

#[test]
fn id_round_trip() {
    for id in [Id::Num(0), Id::Num(u64::MAX), Id::Str(text("")), Id::Str(text("abc"))] {
        assert_eq!(Id::decode(id.encode()).unwrap(), id);
        assert_eq!(read_id(&print(&id.encode())).unwrap(), id);
    }
}
