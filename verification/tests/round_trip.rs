use std::collections::BTreeMap;

use proto_value::descriptor::{
    Descriptors, EnumDescriptor, EnumValueDescriptor, FieldDescriptor, FieldLabel, FieldType,
    MessageDescriptor,
};
use proto_value::stream::Reader;
use proto_value::value::{Field, Message, Value};

fn one(name: &str, number: i32, kind: FieldType) -> FieldDescriptor {
    FieldDescriptor::new(name.to_string(), number, FieldLabel::Optional, kind, None)
}

fn many(name: &str, number: i32, kind: FieldType) -> FieldDescriptor {
    FieldDescriptor::new(name.to_string(), number, FieldLabel::Repeated, kind, None)
}

const KINDS: [(FieldType, i32); 15] = [
    (FieldType::Bool, 1),
    (FieldType::Int32, 2),
    (FieldType::Int64, 3),
    (FieldType::SInt32, 4),
    (FieldType::SInt64, 5),
    (FieldType::UInt32, 6),
    (FieldType::UInt64, 7),
    (FieldType::Fixed32, 8),
    (FieldType::Fixed64, 9),
    (FieldType::SFixed32, 10),
    (FieldType::SFixed64, 11),
    (FieldType::Float, 12),
    (FieldType::Double, 13),
    (FieldType::Bytes, 14),
    (FieldType::String, 15),
];

fn schema() -> Descriptors {
    let mut all = MessageDescriptor::new("All".to_string());
    for (kind, number) in KINDS.iter() {
        all.add_field(one(&format!("one{}", number), *number, kind.clone()));
        all.add_field(many(&format!("many{}", number), 100 + *number, kind.clone()));
    }
    all.add_field(one("color", 16, FieldType::Enum("Color".to_string())));
    all.add_field(many("colors", 116, FieldType::Enum("Color".to_string())));
    all.add_field(one("child", 17, FieldType::Message("All".to_string())));
    all.add_field(many("children", 117, FieldType::Message("All".to_string())));
    all.add_field(one("leaf", 18, FieldType::Message("Leaf".to_string())));
    let mut leaf = MessageDescriptor::new("Leaf".to_string());
    leaf.add_field(one("n", 0x1fff_ffff, FieldType::SInt32));
    let mut descriptors = Descriptors::new();
    descriptors.add_message(all);
    descriptors.add_message(leaf);
    descriptors.add_enum(EnumDescriptor {
        name: "Color".to_string(),
        values: vec![EnumValueDescriptor { name: "RED".to_string(), number: 0 }],
    });
    descriptors
}

fn values_of(kind: &FieldType) -> Vec<Value<'static>> {
    match kind {
        FieldType::Bool => vec![Value::Bool(true), Value::Bool(false)],
        FieldType::Int32 => {
            vec![Value::I32(0), Value::I32(-1), Value::I32(i32::MIN), Value::I32(i32::MAX)]
        }
        FieldType::Int64 => vec![Value::I64(1), Value::I64(i64::MIN), Value::I64(i64::MAX)],
        FieldType::SInt32 => vec![Value::S32(-1), Value::S32(i32::MIN), Value::S32(i32::MAX)],
        FieldType::SInt64 => vec![Value::S64(-1), Value::S64(i64::MIN), Value::S64(i64::MAX)],
        FieldType::UInt32 => vec![Value::U32(0), Value::U32(300), Value::U32(u32::MAX)],
        FieldType::UInt64 => vec![Value::U64(0), Value::U64(1 << 40), Value::U64(u64::MAX)],
        FieldType::Fixed32 => {
            vec![Value::Fixed32(0), Value::Fixed32(u32::MAX), Value::Fixed32(0x0102_0304)]
        }
        FieldType::Fixed64 => vec![Value::Fixed64(0), Value::Fixed64(u64::MAX)],
        FieldType::SFixed32 => vec![Value::SFixed32(-1), Value::SFixed32(i32::MIN)],
        FieldType::SFixed64 => vec![Value::SFixed64(-1), Value::SFixed64(i64::MIN)],
        FieldType::Float => vec![
            Value::F32(1.5f32.to_bits()),
            Value::F32(f32::NAN.to_bits()),
            Value::F32((-0.0f32).to_bits()),
        ],
        FieldType::Double => {
            vec![Value::F64(1.5f64.to_bits()), Value::F64(f64::INFINITY.to_bits())]
        }
        FieldType::Bytes => vec![Value::Bytes(vec![0, 255, 128]), Value::Bytes(Vec::new())],
        FieldType::String => vec![
            Value::String("héllo, wörld".to_string()),
            Value::String(String::new()),
            Value::String("\u{10348}".to_string()),
        ],
        _ => Vec::new(),
    }
}

fn filled<'a>(descriptors: &'a Descriptors, depth: u32) -> Message<'a> {
    let descriptor = descriptors.message_by_name(&"All".to_string()).unwrap();
    let leaf_descriptor = descriptors.message_by_name(&"Leaf".to_string()).unwrap();
    let mut message = Message::new(descriptor);
    for (kind, number) in KINDS.iter() {
        let values = values_of(kind);
        message.fields.insert(*number, Field::Singular(Some(values[0].clone())));
        message.fields.insert(100 + *number, Field::Repeated(values));
    }
    message.fields.insert(16, Field::Singular(Some(Value::Enum(7))));
    message
        .fields
        .insert(116, Field::Repeated(vec![Value::Enum(0), Value::Enum(-1), Value::Enum(i32::MAX)]));
    let mut leaf = Message::new(leaf_descriptor);
    leaf.fields.insert(0x1fff_ffff, Field::Singular(Some(Value::S32(-5))));
    message.fields.insert(18, Field::Singular(Some(Value::Message(leaf))));
    if depth > 0 {
        let child = filled(descriptors, depth - 1);
        message.fields.insert(17, Field::Singular(Some(Value::Message(child))));
        message.fields.insert(
            117,
            Field::Repeated(vec![
                Value::Message(filled(descriptors, depth - 1)),
                Value::Message(Message::new(descriptor)),
                Value::Message(filled(descriptors, 0)),
            ]),
        );
    }
    message
}

fn decode<'a>(descriptors: &'a Descriptors, bytes: &[u8]) -> Message<'a> {
    let descriptor = descriptors.message_by_name(&"All".to_string()).unwrap();
    let mut message = Message::new(descriptor);
    let mut input = Reader::new(bytes);
    message.merge_from(descriptors, descriptor, &mut input).unwrap();
    assert!(input.eof());
    message
}

#[test]
fn a_new_message_round_trips() {
    let descriptors = schema();
    let descriptor = descriptors.message_by_name(&"All".to_string()).unwrap();
    let bytes = Message::new(descriptor).into_vec().unwrap();
    assert!(bytes.is_empty());
    assert_eq!(decode(&descriptors, &bytes), Message::new(descriptor));
}

#[test]
fn a_message_of_every_kind_round_trips() {
    let descriptors = schema();
    let message = filled(&descriptors, 0);
    let bytes = message.clone().into_vec().unwrap();
    assert_eq!(decode(&descriptors, &bytes), message);
}

#[test]
fn nested_messages_round_trip() {
    let descriptors = schema();
    let message = filled(&descriptors, 3);
    let bytes = message.clone().into_vec().unwrap();
    let decoded = decode(&descriptors, &bytes);
    assert_eq!(decoded, message);
    assert_eq!(decoded.into_vec().unwrap(), bytes);
}

#[test]
fn each_value_round_trips_alone() {
    let descriptors = schema();
    let descriptor = descriptors.message_by_name(&"All".to_string()).unwrap();
    for (kind, number) in KINDS.iter() {
        for value in values_of(kind) {
            let mut message = Message::new(descriptor);
            message.fields.insert(*number, Field::Singular(Some(value.clone())));
            let bytes = message.clone().into_vec().unwrap();
            assert_eq!(decode(&descriptors, &bytes), message, "{:?}", value);
            let mut message = Message::new(descriptor);
            message.fields.insert(100 + *number, Field::Repeated(vec![value.clone()]));
            let bytes = message.clone().into_vec().unwrap();
            assert_eq!(decode(&descriptors, &bytes), message, "{:?}", value);
        }
    }
}

#[test]
fn the_round_trip_drops_unknown_fields() {
    let descriptors = schema();
    let mut bytes = filled(&descriptors, 1).into_vec().unwrap();
    bytes.extend_from_slice(&[0xc0, 0x3e, 0x01]);
    let decoded = decode(&descriptors, &bytes);
    assert_eq!(decoded.unknown.get(1000).unwrap().varint, vec![1]);
    let again = decode(&descriptors, &decoded.into_vec().unwrap());
    assert_eq!(again, filled(&descriptors, 1));
}

#[test]
fn clone_is_equal_and_apart() {
    let descriptors = schema();
    let message = filled(&descriptors, 2);
    let mut copy = message.clone();
    assert_eq!(copy, message);
    copy.fields.insert(2, Field::Singular(Some(Value::I32(77))));
    assert_ne!(copy, message);
    assert_eq!(message.fields.get(&2), Some(&Field::Singular(Some(Value::I32(0)))));
    let field = Field::Repeated(vec![Value::String("a".to_string()), Value::Bytes(vec![1])]);
    assert_eq!(field.clone(), field);
    assert_eq!(Field::Singular(None).clone(), Field::Singular(None));
    let value = Value::F64(3);
    assert_eq!(value.clone(), value);
}

#[test]
fn clone_keeps_unknown_fields() {
    let descriptors = schema();
    let decoded = decode(&descriptors, &[0xc0, 0x3e, 0x01, 0xc5, 0x3e, 1, 0, 0, 0]);
    let copy = decoded.clone();
    assert_eq!(copy.unknown.get(1000).unwrap().varint, vec![1]);
    assert_eq!(copy.unknown.get(1000).unwrap().fixed32, vec![1]);
    assert_eq!(copy, decoded);
}

#[test]
fn a_message_with_a_default_does_not_round_trip_when_the_field_is_absent() {
    let mut m = MessageDescriptor::new("M".to_string());
    m.add_field(FieldDescriptor::new(
        "x".to_string(),
        1,
        FieldLabel::Optional,
        FieldType::Int32,
        Some(Value::I32(7)),
    ));
    let mut descriptors = Descriptors::new();
    descriptors.add_message(m);
    let descriptor = descriptors.message_by_name(&"M".to_string()).unwrap();
    let mut fields = BTreeMap::new();
    fields.insert(1, Field::Singular(None));
    let absent = Message { fields, unknown: protobuf::UnknownFields::new(), descriptor };
    let bytes = absent.clone().into_vec().unwrap();
    let mut decoded = Message::new(descriptor);
    decoded.merge_from(&descriptors, descriptor, &mut Reader::new(&bytes)).unwrap();
    assert_eq!(decoded.fields.get(&1), Some(&Field::Singular(Some(Value::I32(7)))));
    assert_ne!(decoded, absent);
}
