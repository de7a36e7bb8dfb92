use protobuf::wire_format::WireType as Outside;
use protobuf::{CodedInputStream, CodedOutputStream};

use proto_value::descriptor::{
    Descriptors, FieldDescriptor, FieldLabel, FieldType, MessageDescriptor,
};
use proto_value::stream::Reader;
use proto_value::value::{Field, Message, Value};

fn schema() -> Descriptors {
    let kinds = [
        (1, FieldType::Bool),
        (2, FieldType::Int32),
        (3, FieldType::Int64),
        (4, FieldType::SInt32),
        (5, FieldType::SInt64),
        (6, FieldType::UInt32),
        (7, FieldType::UInt64),
        (8, FieldType::Fixed32),
        (9, FieldType::Fixed64),
        (10, FieldType::SFixed32),
        (11, FieldType::SFixed64),
        (12, FieldType::Float),
        (13, FieldType::Double),
        (14, FieldType::Bytes),
        (15, FieldType::String),
        (17, FieldType::Message("M".to_string())),
    ];
    let mut m = MessageDescriptor::new("M".to_string());
    for (number, kind) in kinds {
        m.add_field(FieldDescriptor::new(
            format!("f{}", number),
            number,
            FieldLabel::Optional,
            kind,
            None,
        ));
    }
    m.add_field(FieldDescriptor::new(
        "packed".to_string(),
        20,
        FieldLabel::Repeated,
        FieldType::SInt32,
        None,
    ));
    let mut descriptors = Descriptors::new();
    descriptors.add_message(m);
    descriptors
}

fn written_by_protobuf() -> Vec<u8> {
    let mut inner = Vec::new();
    {
        let mut stream = CodedOutputStream::vec(&mut inner);
        stream.write_int32(2, 77).unwrap();
        stream.flush().unwrap();
    }
    let mut packed = Vec::new();
    {
        let mut stream = CodedOutputStream::vec(&mut packed);
        stream.write_sint32_no_tag(-1).unwrap();
        stream.write_sint32_no_tag(1000).unwrap();
        stream.write_sint32_no_tag(i32::MIN).unwrap();
        stream.flush().unwrap();
    }
    let mut bytes = Vec::new();
    {
        let mut stream = CodedOutputStream::vec(&mut bytes);
        stream.write_bool(1, true).unwrap();
        stream.write_int32(2, -5).unwrap();
        stream.write_int64(3, i64::MIN).unwrap();
        stream.write_sint32(4, -123456).unwrap();
        stream.write_sint64(5, i64::MAX).unwrap();
        stream.write_uint32(6, u32::MAX).unwrap();
        stream.write_uint64(7, u64::MAX).unwrap();
        stream.write_fixed32(8, 0xdead_beef).unwrap();
        stream.write_fixed64(9, 0x0123_4567_89ab_cdef).unwrap();
        stream.write_sfixed32(10, -7).unwrap();
        stream.write_sfixed64(11, -8).unwrap();
        stream.write_float(12, 2.5).unwrap();
        stream.write_double(13, -0.125).unwrap();
        stream.write_bytes(14, &[0, 1, 2, 255]).unwrap();
        stream.write_string(15, "grüße").unwrap();
        stream.write_bytes(17, &inner).unwrap();
        stream.write_bytes(20, &packed).unwrap();
        stream.flush().unwrap();
    }
    bytes
}

fn expected<'a>(descriptor: &'a MessageDescriptor) -> Message<'a> {
    let mut inner = Message::new(descriptor);
    inner.fields.insert(2, Field::Singular(Some(Value::I32(77))));
    let mut message = Message::new(descriptor);
    let values = vec![
        (1, Value::Bool(true)),
        (2, Value::I32(-5)),
        (3, Value::I64(i64::MIN)),
        (4, Value::S32(-123456)),
        (5, Value::S64(i64::MAX)),
        (6, Value::U32(u32::MAX)),
        (7, Value::U64(u64::MAX)),
        (8, Value::Fixed32(0xdead_beef)),
        (9, Value::Fixed64(0x0123_4567_89ab_cdef)),
        (10, Value::SFixed32(-7)),
        (11, Value::SFixed64(-8)),
        (12, Value::F32(2.5f32.to_bits())),
        (13, Value::F64((-0.125f64).to_bits())),
        (14, Value::Bytes(vec![0, 1, 2, 255])),
        (15, Value::String("grüße".to_string())),
        (17, Value::Message(inner)),
    ];
    for (number, value) in values {
        message.fields.insert(number, Field::Singular(Some(value)));
    }
    message.fields.insert(
        20,
        Field::Repeated(vec![Value::S32(-1), Value::S32(1000), Value::S32(i32::MIN)]),
    );
    message
}

#[test]
fn reads_what_protobuf_writes() {
    let descriptors = schema();
    let descriptor = descriptors.message_by_name(&"M".to_string()).unwrap();
    let bytes = written_by_protobuf();
    let mut message = Message::new(descriptor);
    message.merge_from(&descriptors, descriptor, &mut Reader::new(&bytes)).unwrap();
    assert_eq!(message, expected(descriptor));
}

#[test]
fn writes_what_protobuf_writes() {
    let descriptors = schema();
    let descriptor = descriptors.message_by_name(&"M".to_string()).unwrap();
    assert_eq!(expected(descriptor).into_vec().unwrap(), written_by_protobuf());
}

#[test]
fn protobuf_reads_what_is_written() {
    let descriptors = schema();
    let descriptor = descriptors.message_by_name(&"M".to_string()).unwrap();
    let bytes = expected(descriptor).into_vec().unwrap();
    let mut stream = CodedInputStream::from_bytes(&bytes);
    assert_eq!(stream.read_tag_unpack().unwrap(), (1, Outside::WireTypeVarint));
    assert!(stream.read_bool().unwrap());
    assert_eq!(stream.read_tag_unpack().unwrap(), (2, Outside::WireTypeVarint));
    assert_eq!(stream.read_int32().unwrap(), -5);
    assert_eq!(stream.read_tag_unpack().unwrap(), (3, Outside::WireTypeVarint));
    assert_eq!(stream.read_int64().unwrap(), i64::MIN);
    assert_eq!(stream.read_tag_unpack().unwrap(), (4, Outside::WireTypeVarint));
    assert_eq!(stream.read_sint32().unwrap(), -123456);
    assert_eq!(stream.read_tag_unpack().unwrap(), (5, Outside::WireTypeVarint));
    assert_eq!(stream.read_sint64().unwrap(), i64::MAX);
    assert_eq!(stream.read_tag_unpack().unwrap(), (6, Outside::WireTypeVarint));
    assert_eq!(stream.read_uint32().unwrap(), u32::MAX);
    assert_eq!(stream.read_tag_unpack().unwrap(), (7, Outside::WireTypeVarint));
    assert_eq!(stream.read_uint64().unwrap(), u64::MAX);
    assert_eq!(stream.read_tag_unpack().unwrap(), (8, Outside::WireTypeFixed32));
    assert_eq!(stream.read_fixed32().unwrap(), 0xdead_beef);
    assert_eq!(stream.read_tag_unpack().unwrap(), (9, Outside::WireTypeFixed64));
    assert_eq!(stream.read_fixed64().unwrap(), 0x0123_4567_89ab_cdef);
    assert_eq!(stream.read_tag_unpack().unwrap(), (10, Outside::WireTypeFixed32));
    assert_eq!(stream.read_sfixed32().unwrap(), -7);
    assert_eq!(stream.read_tag_unpack().unwrap(), (11, Outside::WireTypeFixed64));
    assert_eq!(stream.read_sfixed64().unwrap(), -8);
    assert_eq!(stream.read_tag_unpack().unwrap(), (12, Outside::WireTypeFixed32));
    assert_eq!(stream.read_float().unwrap(), 2.5);
    assert_eq!(stream.read_tag_unpack().unwrap(), (13, Outside::WireTypeFixed64));
    assert_eq!(stream.read_double().unwrap(), -0.125);
    assert_eq!(stream.read_tag_unpack().unwrap(), (14, Outside::WireTypeLengthDelimited));
    assert_eq!(stream.read_bytes().unwrap(), vec![0, 1, 2, 255]);
    assert_eq!(stream.read_tag_unpack().unwrap(), (15, Outside::WireTypeLengthDelimited));
    assert_eq!(stream.read_string().unwrap(), "grüße");
    assert_eq!(stream.read_tag_unpack().unwrap(), (17, Outside::WireTypeLengthDelimited));
    let inner = stream.read_bytes().unwrap();
    assert_eq!(inner, vec![0x10, 77]);
    assert_eq!(stream.read_tag_unpack().unwrap(), (20, Outside::WireTypeLengthDelimited));
    let mut packed = Vec::new();
    stream.read_repeated_packed_sint32_into(&mut packed).unwrap();
    assert_eq!(packed, vec![-1, 1000, i32::MIN]);
    assert!(stream.eof().unwrap());
}
