use dbus_codec::de::{decode_bool, decode_char_scalar, decode_u32, from_message};
use dbus_codec::de::internal::{DataBuffer, Deserializer};
use dbus_codec::error::Error;
use dbus_codec::message::Message;
use dbus_codec::primitives::Primitive;
use dbus_codec::ser::serialize;
use dbus_codec::value::Value;

fn str_value(s: &str) -> Value {
    Value::Prim(Primitive::Str(s.as_bytes().to_vec()))
}

fn f64_value(x: f64) -> Value {
    Value::Prim(Primitive::F64Bits(x.to_bits()))
}

fn round_trip(v: Value) -> Value {
    let message = serialize(&v).unwrap();
    from_message(&message).unwrap()
}

#[test]
fn round_trip_bool_value() {
    assert_eq!(
        round_trip(Value::Prim(Primitive::Bool(true))),
        Value::Prim(Primitive::Bool(true))
    );
}

#[test]
fn round_trip_int_value() {
    assert_eq!(
        round_trip(Value::Prim(Primitive::I32(3))),
        Value::Prim(Primitive::I32(3))
    );
}

#[test]
fn round_trip_float_value() {
    assert_eq!(round_trip(f64_value(3.14)), f64_value(3.14));
}

#[test]
fn round_trip_string_value() {
    assert_eq!(round_trip(str_value("string")), str_value("string"));
}

#[test]
fn round_trip_empty_string_value() {
    // Empty string: length 0, one NUL byte; decodes back to the empty
    // string.
    let message = serialize(&str_value("")).unwrap();
    assert_eq!(message.data, vec![0, 0, 0, 0, 0]);
    assert_eq!(from_message(&message).unwrap(), str_value(""));
}

#[test]
fn round_trip_tuple_of_three() {
    // from_message(serialize(("Hi", 0.2, ("Hello", 8.3)))) parsed as a
    // struct of three equals the original.
    let data = Value::Tuple(vec![
        str_value("Hi"),
        f64_value(0.2f64),
        Value::Tuple(vec![str_value("Hello"), f64_value(8.3f64)]),
    ]);
    let message = serialize(&data).unwrap();
    let back = from_message(&message).unwrap();
    assert_eq!(back, data);
}

#[test]
fn round_trip_empty_array() {
    // Empty array: length 0, no element bytes emitted.
    let message = serialize(&Value::Sequence(vec![])).unwrap();
    assert_eq!(from_message(&message).unwrap(), Value::Sequence(vec![]));
}

#[test]
fn round_trip_int_array_elements() {
    // An "av" sequence decodes with each element explicitly wrapped in
    // the variant it was encoded in.
    let data = Value::Sequence(vec![
        Value::Prim(Primitive::I32(1)),
        Value::Prim(Primitive::I32(3)),
    ]);
    let message = serialize(&data).unwrap();
    let back = from_message(&message).unwrap();
    let expected = Value::Sequence(vec![
        Value::Variant(Box::new(Value::Prim(Primitive::I32(1)))),
        Value::Variant(Box::new(Value::Prim(Primitive::I32(3)))),
    ]);
    assert_eq!(back, expected);
}

#[test]
fn decode_bool_two_is_invalid() {
    // Decoding a boolean whose encoded u32 is 2 yields InvalidBoolValue(2).
    let message = Message {
        data: vec![2, 0, 0, 0],
        signature: "b".as_bytes().to_vec(),
    };
    let err = from_message(&message).unwrap_err();
    assert_eq!(err, Error::InvalidBoolValue(2));
}

#[test]
fn decode_bool_direct() {
    let message = Message {
        data: vec![1, 0, 0, 0],
        signature: "b".as_bytes().to_vec(),
    };
    let mut buf = DataBuffer::from_message(&message);
    let mut de = Deserializer::from_message(&message);
    assert_eq!(decode_bool(&mut de, &mut buf), Ok(true));
}

#[test]
fn decode_leftover_data() {
    // Any trailing byte after a successful root decode is an error.
    let message = Message {
        data: vec![37, 0, 0, 0, 99],
        signature: "i".as_bytes().to_vec(),
    };
    let err = from_message(&message).unwrap_err();
    assert_eq!(err, Error::LeftoverData(1));
}

#[test]
fn decode_wrong_signature_byte() {
    let message = Message {
        data: vec![37, 0, 0, 0],
        signature: "i".as_bytes().to_vec(),
    };
    let mut buf = DataBuffer::from_message(&message);
    let mut de = Deserializer::from_message(&message);
    assert_eq!(
        decode_u32(&mut de, &mut buf),
        Err(Error::SignatureError(117, 105))
    );
}

#[test]
fn decode_unsupported_signature() {
    let message = Message {
        data: vec![0, 0, 0, 0, 0],
        signature: "o".as_bytes().to_vec(),
    };
    let err = from_message(&message).unwrap_err();
    assert_eq!(err, Error::UnsupportedSignatureCharacter(111));
}

#[test]
fn decode_unrecognized_signature() {
    let message = Message {
        data: vec![],
        signature: "z".as_bytes().to_vec(),
    };
    let err = from_message(&message).unwrap_err();
    assert_eq!(err, Error::UnrecognizedSignatureCharacter(122));
}

#[test]
fn decode_unbalanced_signature() {
    let message = Message {
        data: vec![0, 0, 0, 0, 0, 0, 0, 0],
        signature: "(s".as_bytes().to_vec(),
    };
    let err = from_message(&message).unwrap_err();
    assert_eq!(err, Error::MismatchedSignatureBracketing(2));
}

#[test]
fn decode_truncated_data() {
    let message = Message {
        data: vec![37, 0],
        signature: "i".as_bytes().to_vec(),
    };
    let err = from_message(&message).unwrap_err();
    assert_eq!(err, Error::IndexOutOfBounds(4));
}

#[test]
fn decode_invalid_utf8_string() {
    let message = Message {
        data: vec![2, 0, 0, 0, 0xFF, 0xFE, 0],
        signature: "s".as_bytes().to_vec(),
    };
    let err = from_message(&message).unwrap_err();
    assert_eq!(err, Error::StringConversion);
}

#[test]
fn round_trip_dict_entries() {
    // A property map decodes as map entries with variant-wrapped values.
    let data = Value::Struct {
        name: "S".to_owned(),
        fields: vec![dbus_codec::value::Field {
            name: "a".as_bytes().to_vec(),
            value: Value::Prim(Primitive::I32(5)),
        }],
    };
    let message = serialize(&data).unwrap();
    assert_eq!(message.signature, "a{sv}".as_bytes().to_vec());
    let back = from_message(&message).unwrap();
    let expected = Value::MapEntries(vec![dbus_codec::value::MapEntry {
        key: str_value("a"),
        value: Value::Variant(Box::new(Value::Prim(Primitive::I32(5)))),
    }]);
    assert_eq!(back, expected);
}

#[test]
fn error_description_is_fixed() {
    assert_eq!(Error::LeftoverData(1).description(), "leftover data to deserialize");
}

#[test]
fn decode_variant_wrapped_int() {
    let message = Message {
        data: vec![1, 105, 0, 0, 37, 0, 0, 0],
        signature: "v".as_bytes().to_vec(),
    };
    let back = from_message(&message).unwrap();
    assert_eq!(back, Value::Variant(Box::new(Value::Prim(Primitive::I32(37)))));
}

#[test]
fn decode_unit_message_as_empty_tuple() {
    // The empty struct "()" with no data decodes as a tuple of nothing;
    // the value-description layer decides whether that stands for unit,
    // a unit struct, or a None option.
    let message = serialize(&Value::Unit).unwrap();
    assert_eq!(from_message(&message).unwrap(), Value::Tuple(vec![]));
}

#[test]
fn decode_empty_signature() {
    let message = Message {
        data: vec![],
        signature: Vec::new(),
    };
    assert_eq!(from_message(&message).unwrap_err(), Error::SignatureExhausted);
}

#[test]
fn decode_array_overrun() {
    // A declared length that cuts an element short: the element read runs
    // past the array bound.
    let message = Message {
        data: vec![2, 0, 0, 0, 1, 0, 0, 0, 2, 0, 0, 0],
        signature: "ai".as_bytes().to_vec(),
    };
    assert_eq!(
        from_message(&message).unwrap_err(),
        Error::ArrayElementOverrun(8, 6)
    );
}

#[test]
fn decode_string_missing_nul() {
    // The byte after the string payload must be NUL.
    let message = Message {
        data: vec![1, 0, 0, 0, 65, 66],
        signature: "s".as_bytes().to_vec(),
    };
    assert_eq!(from_message(&message).unwrap_err(), Error::StringConversion);
}

#[test]
fn decode_string_length_past_buffer() {
    // A declared string length larger than the remaining buffer.
    let message = Message {
        data: vec![9, 0, 0, 0, 65, 0],
        signature: "s".as_bytes().to_vec(),
    };
    assert_eq!(from_message(&message).unwrap_err(), Error::IndexOutOfBounds(14));
}

#[test]
fn round_trip_empty_dict() {
    // An aggregate whose every field is elided still pads its empty array
    // body up to the dict entries' 8-alignment, and round-trips.
    let data = Value::Struct {
        name: "AllElided".to_owned(),
        fields: vec![dbus_codec::value::Field {
            name: "a".as_bytes().to_vec(),
            value: Value::Unit,
        }],
    };
    let message = serialize(&data).unwrap();
    assert_eq!(message.signature, "a{sv}".as_bytes().to_vec());
    assert_eq!(message.data, vec![0, 0, 0, 0, 0, 0, 0, 0]);
    assert_eq!(from_message(&message).unwrap(), Value::MapEntries(vec![]));
}

#[test]
fn decode_variant_scalar_leftover() {
    // A variant-wrapped scalar followed by a trailing byte.
    let message = Message {
        data: vec![1, 105, 0, 0, 37, 0, 0, 0, 9],
        signature: "v".as_bytes().to_vec(),
    };
    assert_eq!(from_message(&message).unwrap_err(), Error::LeftoverData(1));
}

#[test]
fn decode_variant_invalid_bool() {
    // The boolean screen applies under an embedded variant signature too.
    let message = Message {
        data: vec![1, 98, 0, 0, 7, 0, 0, 0],
        signature: "v".as_bytes().to_vec(),
    };
    assert_eq!(from_message(&message).unwrap_err(), Error::InvalidBoolValue(7));
}

#[test]
fn decode_dict_entry_outside_array() {
    // A dict entry may appear only as an array element.
    let message = Message {
        data: vec![0, 0, 0, 0, 0, 0, 0, 0],
        signature: "{sv}".as_bytes().to_vec(),
    };
    assert_eq!(
        from_message(&message).unwrap_err(),
        Error::SignatureError(97, 123)
    );
}

#[test]
fn decode_variant_header_missing_nul() {
    // The byte after a variant's embedded signature must be NUL.
    let message = Message {
        data: vec![1, 105, 9, 0, 37, 0, 0, 0],
        signature: "v".as_bytes().to_vec(),
    };
    assert_eq!(from_message(&message).unwrap_err(), Error::StringConversion);
}

#[test]
fn decode_char_scalar_screen() {
    let good = Message {
        data: vec![65, 0, 0, 0],
        signature: "u".as_bytes().to_vec(),
    };
    let mut buf = DataBuffer::from_message(&good);
    let mut de = Deserializer::from_message(&good);
    assert_eq!(decode_char_scalar(&mut de, &mut buf), Ok(65));

    // A surrogate is not a Unicode scalar value.
    let bad = Message {
        data: vec![0x00, 0xD8, 0, 0],
        signature: "u".as_bytes().to_vec(),
    };
    let mut buf = DataBuffer::from_message(&bad);
    let mut de = Deserializer::from_message(&bad);
    assert_eq!(
        decode_char_scalar(&mut de, &mut buf),
        Err(Error::CharTryFromError)
    );
}
