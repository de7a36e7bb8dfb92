use std::collections::BTreeMap;

use proto_value::descriptor::{
    Descriptors, FieldDescriptor, FieldLabel, FieldType, MessageDescriptor,
};
use proto_value::error::Error;
use proto_value::stream::Reader;
use proto_value::encode::is_valid_field_number;
use proto_value::value::{Field, Message, Value};

fn descriptor() -> MessageDescriptor {
    let mut m = MessageDescriptor::new("M".to_string());
    m.add_field(FieldDescriptor::new(
        "a".to_string(),
        1,
        FieldLabel::Optional,
        FieldType::Int32,
        None,
    ));
    m.add_field(FieldDescriptor::new(
        "inner".to_string(),
        2,
        FieldLabel::Optional,
        FieldType::Message("M".to_string()),
        None,
    ));
    m
}

fn message<'a>(descriptor: &'a MessageDescriptor, fields: Vec<(i32, Field<'a>)>) -> Message<'a> {
    let mut map = BTreeMap::new();
    for (number, field) in fields {
        map.insert(number, field);
    }
    Message { fields: map, unknown: protobuf::UnknownFields::new(), descriptor }
}

fn field_bytes(field: Field, number: u32) -> Vec<u8> {
    let mut out = Vec::new();
    field.write_to(number, &mut out).unwrap();
    out
}

#[test]
fn singular_present_is_tag_and_value() {
    assert_eq!(field_bytes(Field::Singular(Some(Value::I32(5))), 1), vec![0x08, 0x05]);
    assert_eq!(
        field_bytes(Field::Singular(Some(Value::String("ab".to_string()))), 2),
        vec![0x12, 0x02, b'a', b'b']
    );
    assert_eq!(field_bytes(Field::Singular(Some(Value::Enum(3))), 3), vec![0x18, 0x03]);
}

#[test]
fn singular_absent_is_nothing() {
    assert_eq!(field_bytes(Field::Singular(None), 1), Vec::<u8>::new());
    assert_eq!(field_bytes(Field::Repeated(Vec::new()), 1), Vec::<u8>::new());
}

#[test]
fn repeated_numbers_are_packed() {
    let values = vec![Value::I32(1), Value::I32(2), Value::I32(3)];
    assert_eq!(field_bytes(Field::Repeated(values), 2), vec![0x12, 0x03, 0x01, 0x02, 0x03]);
    let values = vec![Value::I32(1), Value::I32(300)];
    assert_eq!(field_bytes(Field::Repeated(values), 2), vec![0x12, 0x03, 0x01, 0xac, 0x02]);
    let values = vec![Value::Fixed32(1), Value::Fixed32(2)];
    assert_eq!(
        field_bytes(Field::Repeated(values), 3),
        vec![0x1a, 0x08, 1, 0, 0, 0, 2, 0, 0, 0]
    );
    let values = vec![Value::F64(0), Value::F64(1)];
    assert_eq!(
        field_bytes(Field::Repeated(values), 3),
        vec![0x1a, 0x10, 0, 0, 0, 0, 0, 0, 0, 0, 1, 0, 0, 0, 0, 0, 0, 0]
    );
    let values = vec![Value::Bool(true), Value::Bool(false)];
    assert_eq!(field_bytes(Field::Repeated(values), 1), vec![0x0a, 0x02, 0x01, 0x00]);
    let values = vec![Value::S32(-1)];
    assert_eq!(field_bytes(Field::Repeated(values), 1), vec![0x0a, 0x01, 0x01]);
}

#[test]
fn a_long_packed_run_has_a_two_byte_length() {
    let values: Vec<Value> = (0..200).map(|_| Value::U32(1)).collect();
    let bytes = field_bytes(Field::Repeated(values), 1);
    assert_eq!(bytes.len(), 203);
    assert_eq!(&bytes[..4], &[0x0a, 0xc8, 0x01, 0x01]);
}

#[test]
fn repeated_strings_bytes_and_enums_are_tagged_one_by_one() {
    let values = vec![Value::String("a".to_string()), Value::String("bc".to_string())];
    assert_eq!(
        field_bytes(Field::Repeated(values), 1),
        vec![0x0a, 0x01, b'a', 0x0a, 0x02, b'b', b'c']
    );
    let values = vec![Value::Bytes(vec![1]), Value::Bytes(vec![])];
    assert_eq!(field_bytes(Field::Repeated(values), 1), vec![0x0a, 0x01, 0x01, 0x0a, 0x00]);
    let values = vec![Value::Enum(1), Value::Enum(2)];
    assert_eq!(field_bytes(Field::Repeated(values), 1), vec![0x08, 0x01, 0x08, 0x02]);
}

#[test]
fn the_first_value_decides_whether_a_run_is_packed() {
    let values = vec![Value::I32(1), Value::Enum(2)];
    assert_eq!(field_bytes(Field::Repeated(values), 1), vec![0x0a, 0x02, 0x01, 0x02]);
    let values = vec![Value::Enum(2), Value::I32(1)];
    assert_eq!(field_bytes(Field::Repeated(values), 1), vec![0x08, 0x02, 0x08, 0x01]);
}

#[test]
fn fields_are_written_in_the_order_of_their_numbers() {
    let d = descriptor();
    let m = message(
        &d,
        vec![
            (3, Field::Singular(Some(Value::Bool(true)))),
            (1, Field::Singular(Some(Value::I32(5)))),
            (2, Field::Repeated(vec![Value::I32(1), Value::I32(2), Value::I32(3)])),
        ],
    );
    assert_eq!(
        m.into_vec().unwrap(),
        vec![0x08, 0x05, 0x12, 0x03, 0x01, 0x02, 0x03, 0x18, 0x01]
    );
}

#[test]
fn write_to_raw_appends_to_what_is_there() {
    let d = descriptor();
    let m = message(&d, vec![(1, Field::Singular(Some(Value::I32(5))))]);
    let mut out = vec![0xaa];
    m.write_to_raw(&mut out).unwrap();
    assert_eq!(out, vec![0xaa, 0x08, 0x05]);
}

#[test]
fn an_empty_message_is_no_bytes() {
    let d = descriptor();
    assert_eq!(Message::new(&d).into_vec().unwrap(), Vec::<u8>::new());
    assert_eq!(message(&d, Vec::new()).into_vec().unwrap(), Vec::<u8>::new());
}

#[test]
fn a_nested_message_is_written_with_its_length() {
    let d = descriptor();
    let inner = message(&d, vec![(1, Field::Singular(Some(Value::I32(5))))]);
    let outer = message(
        &d,
        vec![
            (1, Field::Singular(Some(Value::I32(7)))),
            (2, Field::Singular(Some(Value::Message(inner)))),
        ],
    );
    assert_eq!(outer.into_vec().unwrap(), vec![0x08, 0x07, 0x12, 0x02, 0x08, 0x05]);
    let empty = Value::Message(message(&d, Vec::new()));
    let mut out = Vec::new();
    empty.write_to(2, &mut out).unwrap();
    assert_eq!(out, vec![0x12, 0x00]);
}

#[test]
fn value_write_to_raw_of_a_message_is_length_and_fields() {
    let d = descriptor();
    let inner = message(&d, vec![(1, Field::Singular(Some(Value::I32(300))))]);
    let mut out = Vec::new();
    Value::Message(inner).write_to_raw(&mut out).unwrap();
    assert_eq!(out, vec![0x03, 0x08, 0xac, 0x02]);
}

#[test]
fn repeated_messages_are_tagged_one_by_one() {
    let d = descriptor();
    let a = message(&d, vec![(1, Field::Singular(Some(Value::I32(1))))]);
    let b = message(&d, Vec::new());
    let bytes = field_bytes(Field::Repeated(vec![Value::Message(a), Value::Message(b)]), 2);
    assert_eq!(bytes, vec![0x12, 0x02, 0x08, 0x01, 0x12, 0x00]);
}

#[test]
fn unknown_fields_are_not_written() {
    let mut ds = Descriptors::new();
    ds.add_message(descriptor());
    let d = ds.message_by_name(&"M".to_string()).unwrap();
    let bytes = [0xa0, 0x06, 0x01, 0x08, 0x05, 0xa2, 0x06, 0x01, 0xff];
    let mut m = Message::new(d);
    m.merge_from(&ds, d, &mut Reader::new(&bytes)).unwrap();
    assert_eq!(m.unknown.get(100).unwrap().varint, vec![1]);
    assert_eq!(m.into_vec().unwrap(), vec![0x08, 0x05]);
}

#[test]
fn field_into_vec_writes_as_field_one() {
    assert_eq!(Field::Singular(Some(Value::I32(5))).into_vec().unwrap(), vec![0x08, 0x05]);
    assert_eq!(
        Field::Repeated(vec![Value::I32(1), Value::I32(2)]).into_vec().unwrap(),
        vec![0x0a, 0x02, 0x01, 0x02]
    );
    assert_eq!(Field::Singular(None).into_vec().unwrap(), Vec::<u8>::new());
}

#[test]
fn a_field_number_that_no_tag_can_carry_is_rejected() {
    let d = descriptor();
    let negative = message(&d, vec![(-1, Field::Singular(Some(Value::I32(5))))]);
    assert_eq!(negative.into_vec(), Err(Error::InvalidFieldNumber));
    let zero = message(&d, vec![(0, Field::Singular(Some(Value::I32(5))))]);
    assert_eq!(zero.into_vec(), Err(Error::InvalidFieldNumber));
    let large = message(&d, vec![(0x2000_0000, Field::Singular(Some(Value::I32(5))))]);
    assert_eq!(large.into_vec(), Err(Error::InvalidFieldNumber));
    let largest = message(&d, vec![(0x1fff_ffff, Field::Singular(Some(Value::I32(5))))]);
    assert_eq!(largest.into_vec().unwrap(), vec![0xf8, 0xff, 0xff, 0xff, 0x0f, 0x05]);
    let empty_negative = message(&d, vec![(-1, Field::Singular(None))]);
    assert_eq!(empty_negative.into_vec(), Err(Error::InvalidFieldNumber));
}

#[test]
fn a_bad_field_number_inside_a_nested_message_is_rejected() {
    let d = descriptor();
    let inner = message(&d, vec![(0, Field::Singular(Some(Value::I32(5))))]);
    let outer = message(&d, vec![(2, Field::Singular(Some(Value::Message(inner))))]);
    assert_eq!(outer.into_vec(), Err(Error::InvalidFieldNumber));
    let inner = message(&d, vec![(-3, Field::Repeated(Vec::new()))]);
    let mut out = Vec::new();
    assert_eq!(Value::Message(inner).write_to_raw(&mut out), Err(Error::InvalidFieldNumber));
    let inner = message(&d, vec![(0, Field::Singular(Some(Value::I32(5))))]);
    let run = Field::Repeated(vec![Value::Message(message(&d, Vec::new())), Value::Message(inner)]);
    assert_eq!(run.into_vec(), Err(Error::InvalidFieldNumber));
}

#[test]
fn field_write_to_checks_the_number_only_where_it_writes() {
    let mut out = Vec::new();
    assert_eq!(Field::Singular(None).write_to(0, &mut out), Ok(()));
    assert_eq!(Field::Repeated(Vec::new()).write_to(0, &mut out), Ok(()));
    assert!(out.is_empty());
    assert_eq!(
        Field::Singular(Some(Value::I32(1))).write_to(0, &mut out),
        Err(Error::InvalidFieldNumber)
    );
    assert_eq!(
        Field::Repeated(vec![Value::I32(1)]).write_to(0x2000_0000, &mut out),
        Err(Error::InvalidFieldNumber)
    );
    assert_eq!(
        Field::Repeated(vec![Value::Enum(1)]).write_to(0, &mut out),
        Err(Error::InvalidFieldNumber)
    );
    assert_eq!(Value::I32(1).write_to(0, &mut out), Err(Error::InvalidFieldNumber));
}

#[test]
fn a_tag_carries_the_numbers_from_one_to_536870911() {
    assert!(!is_valid_field_number(0));
    assert!(is_valid_field_number(1));
    assert!(is_valid_field_number(536870911));
    assert!(!is_valid_field_number(536870912));
    assert!(!is_valid_field_number(u32::MAX));
}

#[test]
fn writable_is_what_can_be_written() {
    let d = descriptor();
    let good = message(
        &d,
        vec![(1, Field::Singular(Some(Value::I32(5)))), (2, Field::Singular(None))],
    );
    assert!(good.is_writable());
    assert!(Value::Message(good.clone()).is_writable());
    assert!(Value::Bool(true).is_writable());
    for key in [-7, 0, 0x2000_0000] {
        let held = Field::Singular(Some(Value::Bool(true)));
        let bad = message(&d, vec![(1, Field::Singular(None)), (key, held)]);
        assert!(!bad.is_writable());
        assert!(!Value::Message(bad.clone()).is_writable());
        let outer = message(&d, vec![(2, Field::Singular(Some(Value::Message(bad.clone()))))]);
        assert!(!outer.is_writable());
        let run = Field::Repeated(vec![Value::Message(good.clone()), Value::Message(bad)]);
        assert!(!run.is_writable(3));
    }
    for key in [0, 0x2000_0000, i32::MAX] {
        let empty = message(&d, vec![(key, Field::Singular(None)), (1, Field::Repeated(vec![]))]);
        assert!(empty.is_writable());
        assert!(Value::Message(empty).is_writable());
    }
    let negative = message(&d, vec![(-1, Field::Singular(None))]);
    assert!(!negative.is_writable());
    let negative = message(&d, vec![(i32::MIN, Field::Repeated(Vec::new()))]);
    assert!(!negative.is_writable());
    assert!(Field::Singular(None).is_writable(0));
    assert!(Field::Repeated(Vec::new()).is_writable(0));
    assert!(!Field::Singular(Some(Value::Bool(true))).is_writable(0));
    assert!(!Field::Repeated(vec![Value::Bool(true)]).is_writable(0x2000_0000));
    assert!(Field::Repeated(vec![Value::Bool(true)]).is_writable(0x1fff_ffff));
}

#[test]
fn an_empty_field_is_written_as_nothing_under_any_number_that_is_not_negative() {
    let d = descriptor();
    let m = message(&d, vec![(0x2000_0000, Field::Singular(None))]);
    assert_eq!(m.into_vec(), Ok(Vec::new()));
    let m = message(
        &d,
        vec![
            (0, Field::Singular(None)),
            (1, Field::Singular(Some(Value::I32(5)))),
            (2, Field::Repeated(Vec::new())),
            (0x2000_0000, Field::Repeated(Vec::new())),
            (i32::MAX, Field::Singular(None)),
        ],
    );
    let mut out = vec![0xaa];
    assert_eq!(m.clone().write_to_raw(&mut out), Ok(()));
    assert_eq!(out, vec![0xaa, 0x08, 0x05]);
    let nested = Value::Message(m);
    let mut out = Vec::new();
    assert_eq!(nested.write_to(2, &mut out), Ok(()));
    assert_eq!(out, vec![0x12, 0x02, 0x08, 0x05]);
}

#[test]
fn fields_are_written_in_ascending_order_whatever_they_are() {
    let d = descriptor();
    let m = message(
        &d,
        vec![
            (0x1fff_ffff, Field::Singular(Some(Value::Bool(true)))),
            (300, Field::Repeated(vec![Value::String("a".to_string())])),
            (7, Field::Singular(None)),
            (2, Field::Repeated(vec![Value::U32(1), Value::U32(2)])),
            (1, Field::Singular(Some(Value::Fixed32(1)))),
        ],
    );
    let mut expected = Vec::new();
    for (number, field) in m.fields.iter() {
        field.clone().write_to(*number as u32, &mut expected).unwrap();
    }
    assert_eq!(m.into_vec(), Ok(expected.clone()));
    assert_eq!(
        expected,
        vec![
            0x0d, 1, 0, 0, 0, 0x12, 0x02, 1, 2, 0xe2, 0x12, 0x01, b'a', 0xf8, 0xff, 0xff, 0xff,
            0x0f, 0x01
        ]
    );
}
