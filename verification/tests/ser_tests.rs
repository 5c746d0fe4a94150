use dbus_codec::message::Message;
use dbus_codec::primitives::Primitive;
use dbus_codec::ser::serializer_policy::StronglyTypedSerializerPolicy;
use dbus_codec::ser::{serialize, serialize_with_policy};
use dbus_codec::value::{Field, Value};

fn str_value(s: &str) -> Value {
    Value::Prim(Primitive::Str(s.as_bytes().to_vec()))
}

fn f64_value(x: f64) -> Value {
    Value::Prim(Primitive::F64Bits(x.to_bits()))
}

#[test]
fn ser_serialize_int() {
    let i = 37i32;
    let message = serialize(&Value::Prim(Primitive::I32(i))).unwrap();
    let correct_message = Message {
        data: vec![37, 0, 0, 0],
        signature: "i".as_bytes().to_vec(),
    };
    assert_eq!(
        correct_message, message,
        "i32 message serialized incorrectly"
    );
}

#[test]
fn serialize_tuple() {
    let data = Value::Tuple(vec![
        str_value("Hi"),
        f64_value(0.2f64),
        Value::Tuple(vec![str_value("Hello"), f64_value(8.3f64)]),
    ]);
    let message = serialize(&data).unwrap();
    let correct_message = Message {
        data: vec![
            2u8, 0u8, 0u8, 0u8, 72u8, 105u8, 0u8, 0u8, 154u8, 153u8, 153u8, 153u8, 153u8,
            153u8, 201u8, 63u8, 5u8, 0u8, 0u8, 0u8, 72u8, 101u8, 108u8, 108u8, 111u8, 0u8, 0u8,
            0u8, 0u8, 0u8, 0u8, 0u8, 154u8, 153u8, 153u8, 153u8, 153u8, 153u8, 32u8, 64u8,
        ],
        signature: "(sd(sd))".as_bytes().to_vec(),
    };
    assert_eq!(
        correct_message, message,
        "struct message serialized incorrectly"
    );
}

#[test]
fn serialize_struct_strongly_typed() {
    // The same aggregate under the strongly-typed policy keeps struct form.
    let data = Value::Struct {
        name: "StructSerialize".to_owned(),
        fields: vec![
            Field { name: "a".as_bytes().to_vec(), value: str_value("Hi") },
            Field { name: "b".as_bytes().to_vec(), value: f64_value(0.2f64) },
        ],
    };
    let message = serialize_with_policy(&data, &StronglyTypedSerializerPolicy).unwrap();
    assert_eq!(message.signature, "(sd)".as_bytes().to_vec());
}

#[test]
fn serialize_struct_default_policy_dict() {
    // Under the default policy a named aggregate becomes a property map.
    let data = Value::Struct {
        name: "StructSerialize".to_owned(),
        fields: vec![
            Field { name: "a".as_bytes().to_vec(), value: str_value("Hi") },
            Field { name: "b".as_bytes().to_vec(), value: f64_value(0.2f64) },
        ],
    };
    let message = serialize(&data).unwrap();
    let correct_message = Message {
        data: vec![
            48, 0, 0, 0, // 48 bytes of array
            0, 0, 0, 0, // pad to 8 to start the entry
            1, 0, 0, 0, // key string is 1 byte
            97, 0, // 'a' with terminating NUL
            1, // value signature is 1 byte
            115, 0, // 's' with terminating NUL
            0, 0, 0, // padding to the string length
            2, 0, 0, 0, // the string is 2 bytes
            72, 105, 0, // "Hi" plus terminating NUL
            0, 0, 0, 0, 0, // pad to 8 to start the next entry
            1, 0, 0, 0, // key string is 1 byte
            98, 0, // 'b' with terminating NUL
            1, // value signature is 1 byte
            100, 0, // 'd' with terminating NUL
            0, 0, 0, 0, 0, 0, 0, // pad to 8 for the double
            154, 153, 153, 153, 153, 153, 201, 63, // 0.2
        ],
        signature: "a{sv}".as_bytes().to_vec(),
    };
    assert_eq!(
        correct_message, message,
        "dict message serialized incorrectly"
    );
}

#[test]
fn serialize_unit_and_unit_struct() {
    // Unit (and a None option, and a unit struct) all serialize to "()"
    // with no data.
    let message = serialize(&Value::Unit).unwrap();
    assert_eq!(message.signature, "()".as_bytes().to_vec());
    assert_eq!(message.data, Vec::<u8>::new());
}

#[test]
fn serialize_optional_field_elided() {
    // A unit-valued field of a dict-style aggregate is dropped, so the
    // message equals the one without the field.
    let with_field = Value::Struct {
        name: "WithOptionalField".to_owned(),
        fields: vec![
            Field { name: "a".as_bytes().to_vec(), value: str_value("a") },
            Field { name: "b".as_bytes().to_vec(), value: Value::Unit },
            Field { name: "c".as_bytes().to_vec(), value: str_value("c") },
        ],
    };
    let without_field = Value::Struct {
        name: "WithoutOptionalField".to_owned(),
        fields: vec![
            Field { name: "a".as_bytes().to_vec(), value: str_value("a") },
            Field { name: "c".as_bytes().to_vec(), value: str_value("c") },
        ],
    };
    assert_eq!(serialize(&with_field), serialize(&without_field));
}

#[test]
fn serialize_optional_field_kept_strongly_typed() {
    // Under the strongly-typed policy the unit field stays as "()".
    let with_field = Value::Struct {
        name: "WithOptionalField".to_owned(),
        fields: vec![
            Field { name: "a".as_bytes().to_vec(), value: str_value("a") },
            Field { name: "b".as_bytes().to_vec(), value: Value::Unit },
            Field { name: "c".as_bytes().to_vec(), value: str_value("c") },
        ],
    };
    let without_field = Value::Struct {
        name: "WithoutOptionalField".to_owned(),
        fields: vec![
            Field { name: "a".as_bytes().to_vec(), value: str_value("a") },
            Field { name: "c".as_bytes().to_vec(), value: str_value("c") },
        ],
    };
    let with = serialize_with_policy(&with_field, &StronglyTypedSerializerPolicy).unwrap();
    let without = serialize_with_policy(&without_field, &StronglyTypedSerializerPolicy).unwrap();
    assert_ne!(with, without);
    assert_eq!(with.signature, "(s()s)".as_bytes().to_vec());
}

#[test]
fn serialize_empty_string() {
    // Empty string: length 0, one NUL byte.
    let message = serialize(&str_value("")).unwrap();
    assert_eq!(message.signature, "s".as_bytes().to_vec());
    assert_eq!(message.data, vec![0, 0, 0, 0, 0]);
}

#[test]
fn serialize_empty_array() {
    // Empty array: length 0, no element bytes; the length prefix is
    // emitted and the element alignment padding would follow it.
    let message = serialize(&Value::Sequence(vec![])).unwrap();
    assert_eq!(message.signature, "av".as_bytes().to_vec());
    assert_eq!(message.data, vec![0, 0, 0, 0]);
}

#[test]
fn serialize_map_bad_key_mismatch() {
    // A map key that does not serialize as a string makes the entry
    // signature disagree with "{sv}".
    let data = Value::MapEntries(vec![dbus_codec::value::MapEntry {
        key: Value::Prim(Primitive::I32(1)),
        value: str_value("x"),
    }]);
    let err = serialize(&data).unwrap_err();
    assert_eq!(
        err,
        dbus_codec::error::Error::MismatchSignature(
            "{sv}".as_bytes().to_vec(),
            "{iv}".as_bytes().to_vec()
        )
    );
}

#[test]
fn serialize_variant_wrapped_int() {
    let message = serialize(&Value::Variant(Box::new(Value::Prim(Primitive::I32(37)))))
        .unwrap();
    let correct_message = Message {
        data: vec![1, 105, 0, 0, 37, 0, 0, 0],
        signature: "v".as_bytes().to_vec(),
    };
    assert_eq!(correct_message, message);
}
