use dbus_codec::message::Message;
use dbus_codec::primitives::Primitive;
use dbus_codec::ser::internal::ReadySerializer;

#[test]
fn internal_serialize_int() {
    let i = 37i32;
    let serializer = ReadySerializer::new();
    let serializer = serializer.serialize_primitive(&Primitive::I32(i)).unwrap();
    let message = serializer.complete().unwrap();

    let correct_message = Message {
        data: vec![37, 0, 0, 0],
        signature: "i".as_bytes().to_vec(),
    };
    assert_eq!(
        correct_message, message,
        "i32 message serialized incorrectly"
    );
}

#[test]
fn serialize_variant_int() {
    let i = 37i32;
    let serializer = ReadySerializer::new();
    let (serializer, sub_serializer) = serializer.start_variant();
    let sub_serializer = sub_serializer.serialize_primitive(&Primitive::I32(i)).unwrap();
    let serializer = serializer.finish_variant(sub_serializer);
    let message = serializer.complete().unwrap();

    let correct_message = Message {
        data: vec![1, 105, 0, 0, 37, 0, 0, 0],
        signature: "v".as_bytes().to_vec(),
    };
    assert_eq!(
        correct_message, message,
        "variant of i32 message serialized incorrectly"
    );
}

#[test]
fn serialize_variant_farray() {
    let top_level_serializer = ReadySerializer::new();
    let (top_level_serializer, serializer) = top_level_serializer.start_variant();
    let serializer = serializer.start_array("d".as_bytes().to_vec());

    let (serializer, sub_serializer) = serializer.start_item();
    let sub_serializer = sub_serializer
        .serialize_primitive(&Primitive::F64Bits(1.0f64.to_bits()))
        .unwrap();
    let serializer = serializer.finish_item(sub_serializer).unwrap();

    let (serializer, sub_serializer) = serializer.start_item();
    let sub_serializer = sub_serializer
        .serialize_primitive(&Primitive::F64Bits(2.0f64.to_bits()))
        .unwrap();
    let serializer = serializer.finish_item(sub_serializer).unwrap();

    let (serializer, sub_serializer) = serializer.start_item();
    let sub_serializer = sub_serializer
        .serialize_primitive(&Primitive::F64Bits(3.0f64.to_bits()))
        .unwrap();
    let serializer = serializer.finish_item(sub_serializer).unwrap();

    let (serializer, sub_serializer) = serializer.start_item();
    let sub_serializer = sub_serializer
        .serialize_primitive(&Primitive::F64Bits(4.0f64.to_bits()))
        .unwrap();
    let serializer = serializer.finish_item(sub_serializer).unwrap();

    let serializer = serializer.finish_array();
    let top_level_serializer = top_level_serializer.finish_variant(serializer);
    let message = top_level_serializer.complete().unwrap();

    let correct_message = Message {
        data: vec![
            2, 97, 100, 0, 32, 0, 0, 0, 0, 0, 0, 0, 0, 0, 240, 63, 0, 0, 0, 0, 0, 0, 0, 64, 0,
            0, 0, 0, 0, 0, 8, 64, 0, 0, 0, 0, 0, 0, 16, 64,
        ],
        signature: "v".as_bytes().to_vec(),
    };
    assert_eq!(
        correct_message, message,
        "array message serialized incorrectly"
    );
}

#[test]
fn serialize_intary() {
    let serializer = ReadySerializer::new();
    let serializer = serializer.start_array("i".as_bytes().to_vec());

    let (serializer, sub_serializer) = serializer.start_item();
    let sub_serializer = sub_serializer.serialize_primitive(&Primitive::I32(1)).unwrap();
    let serializer = serializer.finish_item(sub_serializer).unwrap();

    let (serializer, sub_serializer) = serializer.start_item();
    let sub_serializer = sub_serializer.serialize_primitive(&Primitive::I32(2)).unwrap();
    let serializer = serializer.finish_item(sub_serializer).unwrap();

    let (serializer, sub_serializer) = serializer.start_item();
    let sub_serializer = sub_serializer.serialize_primitive(&Primitive::I32(3)).unwrap();
    let serializer = serializer.finish_item(sub_serializer).unwrap();

    let (serializer, sub_serializer) = serializer.start_item();
    let sub_serializer = sub_serializer.serialize_primitive(&Primitive::I32(4)).unwrap();
    let serializer = serializer.finish_item(sub_serializer).unwrap();

    let serializer = serializer.finish_array();
    let message = serializer.complete().unwrap();

    let correct_message = Message {
        data: vec![
            16u8, 0u8, 0u8, 0u8, 1u8, 0u8, 0u8, 0u8, 2u8, 0u8, 0u8, 0u8, 3u8, 0u8, 0u8, 0u8,
            4u8, 0u8, 0u8, 0u8,
        ],
        signature: "ai".as_bytes().to_vec(),
    };
    assert_eq!(
        correct_message, message,
        "array message serialized incorrectly"
    );
}

#[test]
fn internal_serialize_struct() {
    let serializer = ReadySerializer::new();
    let serializer = serializer.start_struct();

    let (serializer, sub_serializer) = serializer.start_item();
    let sub_serializer = sub_serializer
        .serialize_primitive(&Primitive::Str("Hi".as_bytes().to_vec()))
        .unwrap();
    let serializer = serializer.finish_item(sub_serializer);

    let (serializer, sub_serializer) = serializer.start_item();
    let sub_serializer = sub_serializer
        .serialize_primitive(&Primitive::F64Bits(0.2f64.to_bits()))
        .unwrap();
    let serializer = serializer.finish_item(sub_serializer);

    let (serializer, sub_serializer) = serializer.start_item();

    let sub_serializer = sub_serializer.start_struct();

    let (sub_serializer, sub_sub_serializer) = sub_serializer.start_item();
    let sub_sub_serializer = sub_sub_serializer
        .serialize_primitive(&Primitive::Str("Hello".as_bytes().to_vec()))
        .unwrap();
    let sub_serializer = sub_serializer.finish_item(sub_sub_serializer);

    let (sub_serializer, sub_sub_serializer) = sub_serializer.start_item();
    let sub_sub_serializer = sub_sub_serializer
        .serialize_primitive(&Primitive::F64Bits(8.3f64.to_bits()))
        .unwrap();
    let sub_serializer = sub_serializer.finish_item(sub_sub_serializer);

    let sub_serializer = sub_serializer.finish_struct();
    let serializer = serializer.finish_item(sub_serializer);

    let serializer = serializer.finish_struct();
    let message = serializer.complete().unwrap();

    let correct_message = Message {
        data: vec![
            2u8, 0u8, 0u8, 0u8, 72u8, 105u8, 0u8, 0u8, 154u8, 153u8, 153u8, 153u8, 153u8,
            153u8, 201u8, 63u8, 5u8, 0u8, 0u8, 0u8, 72u8, 101u8, 108u8, 108u8, 111u8, 0u8, 0u8,
            0u8, 0u8, 0u8, 0u8, 0u8, 154u8, 153u8, 153u8, 153u8, 153u8, 153u8, 32u8, 64u8,
        ],
        signature: "(sd(sd))".as_bytes().to_vec(),
    };
    assert_eq!(
        correct_message, message,
        "struct message serialized incorrectly"
    );
}

#[test]
fn internal_serialize_dict() {
    let serializer = ReadySerializer::new();
    let serializer = serializer.start_dict();

    let (serializer, sub_serializer) = serializer.start_item();
    let sub_serializer = sub_serializer
        .serialize_primitive(&Primitive::Str("Hi".as_bytes().to_vec()))
        .unwrap();
    let serializer = serializer.finish_item("a".as_bytes(), sub_serializer).unwrap();

    let (serializer, sub_serializer) = serializer.start_item();
    let sub_serializer = sub_serializer
        .serialize_primitive(&Primitive::F64Bits(0.2f64.to_bits()))
        .unwrap();
    let serializer = serializer.finish_item("b".as_bytes(), sub_serializer).unwrap();

    let (serializer, sub_serializer) = serializer.start_item();

    let sub_serializer = sub_serializer.start_struct();

    let (sub_serializer, sub_sub_serializer) = sub_serializer.start_item();
    let sub_sub_serializer = sub_sub_serializer
        .serialize_primitive(&Primitive::Str("Hello".as_bytes().to_vec()))
        .unwrap();
    let sub_serializer = sub_serializer.finish_item(sub_sub_serializer);

    let (sub_serializer, sub_sub_serializer) = sub_serializer.start_item();
    let sub_sub_serializer = sub_sub_serializer
        .serialize_primitive(&Primitive::F64Bits(8.3f64.to_bits()))
        .unwrap();
    let sub_serializer = sub_serializer.finish_item(sub_sub_serializer);

    let sub_serializer = sub_serializer.finish_struct();
    let serializer = serializer.finish_item("c".as_bytes(), sub_serializer).unwrap();

    let (serializer, item) = serializer.start_item();
    let item = item.start_struct();
    let item = item.finish_struct();
    let serializer = serializer.finish_optional_item("d".as_bytes(), item).unwrap();

    let serializer = serializer.finish_dict();
    let message = serializer.complete().unwrap();

    let correct_message = Message {
        data: vec![
            88u8, 0u8, 0u8, 0u8, 0u8, 0u8, 0u8, 0u8, 1u8, 0u8, 0u8, 0u8, 97u8, 0u8, 1u8, 115u8,
            0u8, 0u8, 0u8, 0u8, 2u8, 0u8, 0u8, 0u8, 72u8, 105u8, 0u8, 0u8, 0u8, 0u8, 0u8, 0u8,
            1u8, 0u8, 0u8, 0u8, 98u8, 0u8, 1u8, 100u8, 0u8, 0u8, 0u8, 0u8, 0u8, 0u8, 0u8, 0u8,
            154u8, 153u8, 153u8, 153u8, 153u8, 153u8, 201u8, 63u8, 1u8, 0u8, 0u8, 0u8, 99u8,
            0u8, 4u8, 40u8, 115u8, 100u8, 41u8, 0u8, 0u8, 0u8, 0u8, 0u8, 5u8, 0u8, 0u8, 0u8,
            72u8, 101u8, 108u8, 108u8, 111u8, 0u8, 0u8, 0u8, 0u8, 0u8, 0u8, 0u8, 154u8, 153u8,
            153u8, 153u8, 153u8, 153u8, 32u8, 64u8,
        ],
        signature: "a{sv}".as_bytes().to_vec(),
    };
    assert_eq!(
        correct_message, message,
        "dict message serialized incorrectly"
    );
}

#[test]
fn serialize_empty_long_array() {
    // An empty array of 8-aligned elements: the length field is still
    // followed by padding up to the element alignment.
    let serializer = ReadySerializer::new();
    let serializer = serializer.start_array("x".as_bytes().to_vec());
    let serializer = serializer.finish_array();
    let message = serializer.complete().unwrap();

    let correct_message = Message {
        data: vec![0, 0, 0, 0, 0, 0, 0, 0],
        signature: "ax".as_bytes().to_vec(),
    };
    assert_eq!(
        correct_message, message,
        "empty array message serialized incorrectly"
    );
}
