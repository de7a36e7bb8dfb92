use proto_value::error::Error;
use proto_value::stream::{
    put_bytes, put_delimited, put_fixed32, put_fixed64, put_string, put_tag, put_varint64, Reader,
};
use proto_value::value::Value;
use proto_value::wire::{
    decode_zigzag32, decode_zigzag64, encode_zigzag32, encode_zigzag64, to_signed32, to_signed64,
    to_unsigned32, to_unsigned64, truncate32, WireType,
};

fn raw(value: Value) -> Vec<u8> {
    let mut out = Vec::new();
    value.write_to_raw(&mut out).unwrap();
    out
}

fn tagged(value: Value, number: u32) -> Vec<u8> {
    let mut out = Vec::new();
    value.write_to(number, &mut out).unwrap();
    out
}

#[test]
fn varint_of_300_takes_two_bytes() {
    assert_eq!(raw(Value::U32(300)), vec![0xac, 0x02]);
    assert_eq!(raw(Value::U64(300)), vec![0xac, 0x02]);
    let mut out = vec![0x07];
    put_varint64(&mut out, 300);
    assert_eq!(out, vec![0x07, 0xac, 0x02]);
}

#[test]
fn varint_of_small_numbers_takes_one_byte() {
    assert_eq!(raw(Value::U32(0)), vec![0x00]);
    assert_eq!(raw(Value::U32(1)), vec![0x01]);
    assert_eq!(raw(Value::U32(127)), vec![0x7f]);
    assert_eq!(raw(Value::U32(128)), vec![0x80, 0x01]);
}

#[test]
fn varint_of_the_largest_number_takes_ten_bytes() {
    assert_eq!(
        raw(Value::U64(u64::MAX)),
        vec![0xff, 0xff, 0xff, 0xff, 0xff, 0xff, 0xff, 0xff, 0xff, 0x01]
    );
}

#[test]
fn negative_int32_is_sign_extended_to_ten_bytes() {
    let minus_one = vec![0xff, 0xff, 0xff, 0xff, 0xff, 0xff, 0xff, 0xff, 0xff, 0x01];
    assert_eq!(raw(Value::I32(-1)), minus_one);
    assert_eq!(raw(Value::I64(-1)), minus_one);
    assert_eq!(raw(Value::Enum(-1)), minus_one);
    assert_eq!(raw(Value::I32(5)), vec![0x05]);
}

#[test]
fn bool_is_one_or_zero() {
    assert_eq!(raw(Value::Bool(true)), vec![0x01]);
    assert_eq!(raw(Value::Bool(false)), vec![0x00]);
}

#[test]
fn zigzag_interleaves_negative_and_positive() {
    assert_eq!(encode_zigzag32(0), 0);
    assert_eq!(encode_zigzag32(-1), 1);
    assert_eq!(encode_zigzag32(1), 2);
    assert_eq!(encode_zigzag32(-2), 3);
    assert_eq!(encode_zigzag32(2147483647), 4294967294);
    assert_eq!(encode_zigzag32(-2147483648), 4294967295);
    assert_eq!(encode_zigzag64(9223372036854775807), 18446744073709551614);
    assert_eq!(encode_zigzag64(-9223372036854775808), 18446744073709551615);
    assert_eq!(decode_zigzag32(0), 0);
    assert_eq!(decode_zigzag32(1), -1);
    assert_eq!(decode_zigzag32(2), 1);
    assert_eq!(decode_zigzag32(3), -2);
    assert_eq!(decode_zigzag32(4294967294), 2147483647);
    assert_eq!(decode_zigzag32(4294967295), -2147483648);
    assert_eq!(decode_zigzag64(18446744073709551614), 9223372036854775807);
    assert_eq!(decode_zigzag64(18446744073709551615), -9223372036854775808);
}

#[test]
fn sint_values_are_written_as_zigzag_varints() {
    assert_eq!(raw(Value::S32(-1)), vec![0x01]);
    assert_eq!(raw(Value::S32(1)), vec![0x02]);
    assert_eq!(raw(Value::S32(-64)), vec![0x7f]);
    assert_eq!(raw(Value::S32(64)), vec![0x80, 0x01]);
    assert_eq!(raw(Value::S32(i32::MIN)), vec![0xff, 0xff, 0xff, 0xff, 0x0f]);
    assert_eq!(raw(Value::S64(-1)), vec![0x01]);
    assert_eq!(
        raw(Value::S64(i64::MIN)),
        vec![0xff, 0xff, 0xff, 0xff, 0xff, 0xff, 0xff, 0xff, 0xff, 0x01]
    );
}

#[test]
fn signed_and_unsigned_share_their_bits() {
    assert_eq!(to_signed32(0xffff_ffff), -1);
    assert_eq!(to_signed32(0x8000_0000), i32::MIN);
    assert_eq!(to_signed32(0x7fff_ffff), i32::MAX);
    assert_eq!(to_unsigned32(-1), 0xffff_ffff);
    assert_eq!(to_unsigned32(i32::MIN), 0x8000_0000);
    assert_eq!(to_unsigned32(7), 7);
    assert_eq!(to_signed64(u64::MAX), -1);
    assert_eq!(to_signed64(0x8000_0000_0000_0000), i64::MIN);
    assert_eq!(to_unsigned64(-1), u64::MAX);
    assert_eq!(to_unsigned64(i64::MIN), 0x8000_0000_0000_0000);
    assert_eq!(truncate32(0x1_0000_0005), 5);
    assert_eq!(truncate32(0xffff_ffff), 0xffff_ffff);
}

#[test]
fn fixed_width_numbers_are_little_endian() {
    assert_eq!(raw(Value::Fixed32(0x0102_0304)), vec![0x04, 0x03, 0x02, 0x01]);
    assert_eq!(raw(Value::SFixed32(-2)), vec![0xfe, 0xff, 0xff, 0xff]);
    assert_eq!(
        raw(Value::Fixed64(0x0102_0304_0506_0708)),
        vec![0x08, 0x07, 0x06, 0x05, 0x04, 0x03, 0x02, 0x01]
    );
    assert_eq!(
        raw(Value::SFixed64(-2)),
        vec![0xfe, 0xff, 0xff, 0xff, 0xff, 0xff, 0xff, 0xff]
    );
    let mut out = Vec::new();
    put_fixed32(&mut out, 1);
    put_fixed64(&mut out, 2);
    assert_eq!(out, vec![1, 0, 0, 0, 2, 0, 0, 0, 0, 0, 0, 0]);
}

#[test]
fn floats_are_written_by_their_bits() {
    assert_eq!(raw(Value::F32(1.0f32.to_bits())), vec![0x00, 0x00, 0x80, 0x3f]);
    assert_eq!(
        raw(Value::F64(1.0f64.to_bits())),
        vec![0x00, 0x00, 0x00, 0x00, 0x00, 0x00, 0xf0, 0x3f]
    );
}

#[test]
fn strings_and_bytes_are_length_delimited() {
    assert_eq!(raw(Value::Bytes(vec![9, 8, 7])), vec![3, 9, 8, 7]);
    assert_eq!(raw(Value::Bytes(Vec::new())), vec![0]);
    assert_eq!(raw(Value::String("hi".to_string())), vec![2, b'h', b'i']);
    assert_eq!(raw(Value::String("é".to_string())), vec![2, 0xc3, 0xa9]);
    let mut out = Vec::new();
    put_delimited(&mut out, &[5u8; 200]);
    assert_eq!(out.len(), 202);
    assert_eq!(&out[..3], &[0xc8, 0x01, 5]);
}

#[test]
fn tag_is_number_times_eight_plus_wire_type() {
    assert_eq!(tagged(Value::I32(1), 1), vec![0x08, 0x01]);
    assert_eq!(tagged(Value::Fixed64(0), 2)[0], 0x11);
    assert_eq!(tagged(Value::Bytes(Vec::new()), 4), vec![0x22, 0x00]);
    assert_eq!(tagged(Value::Fixed32(0), 3)[0], 0x1d);
    assert_eq!(tagged(Value::Bool(true), 16), vec![0x80, 0x01, 0x01]);
    assert_eq!(
        tagged(Value::Bool(true), 0x1fff_ffff),
        vec![0xf8, 0xff, 0xff, 0xff, 0x0f, 0x01]
    );
}

#[test]
fn wire_type_follows_from_the_kind_of_the_value() {
    assert_eq!(Value::Bool(true).wire_type(), WireType::Varint);
    assert_eq!(Value::I32(0).wire_type(), WireType::Varint);
    assert_eq!(Value::I64(0).wire_type(), WireType::Varint);
    assert_eq!(Value::U32(0).wire_type(), WireType::Varint);
    assert_eq!(Value::U64(0).wire_type(), WireType::Varint);
    assert_eq!(Value::S32(0).wire_type(), WireType::Varint);
    assert_eq!(Value::S64(0).wire_type(), WireType::Varint);
    assert_eq!(Value::Enum(0).wire_type(), WireType::Varint);
    assert_eq!(Value::F64(0).wire_type(), WireType::Fixed64);
    assert_eq!(Value::Fixed64(0).wire_type(), WireType::Fixed64);
    assert_eq!(Value::SFixed64(0).wire_type(), WireType::Fixed64);
    assert_eq!(Value::F32(0).wire_type(), WireType::Fixed32);
    assert_eq!(Value::Fixed32(0).wire_type(), WireType::Fixed32);
    assert_eq!(Value::SFixed32(0).wire_type(), WireType::Fixed32);
    assert_eq!(Value::String(String::new()).wire_type(), WireType::LengthDelimited);
    assert_eq!(Value::Bytes(Vec::new()).wire_type(), WireType::LengthDelimited);
}

#[test]
fn numeric_kinds_are_packable_and_the_others_are_not() {
    assert!(Value::Bool(true).is_packable());
    assert!(Value::I32(0).is_packable());
    assert!(Value::S64(0).is_packable());
    assert!(Value::F32(0).is_packable());
    assert!(Value::SFixed64(0).is_packable());
    assert!(!Value::Enum(0).is_packable());
    assert!(!Value::String(String::new()).is_packable());
    assert!(!Value::Bytes(Vec::new()).is_packable());
}

#[test]
fn wire_type_codes() {
    assert_eq!(WireType::Varint.number(), 0);
    assert_eq!(WireType::Fixed64.number(), 1);
    assert_eq!(WireType::LengthDelimited.number(), 2);
    assert_eq!(WireType::StartGroup.number(), 3);
    assert_eq!(WireType::EndGroup.number(), 4);
    assert_eq!(WireType::Fixed32.number(), 5);
    assert_eq!(WireType::from_number(0), Some(WireType::Varint));
    assert_eq!(WireType::from_number(5), Some(WireType::Fixed32));
    assert_eq!(WireType::from_number(6), None);
    assert_eq!(WireType::from_number(7), None);
}

#[test]
fn put_tag_rejects_numbers_that_no_tag_can_carry() {
    let mut out = Vec::new();
    assert_eq!(put_tag(&mut out, 0, WireType::Varint), Err(Error::InvalidFieldNumber));
    assert_eq!(
        put_tag(&mut out, 0x2000_0000, WireType::Varint),
        Err(Error::InvalidFieldNumber)
    );
    assert!(out.is_empty());
    assert_eq!(put_tag(&mut out, 0x1fff_ffff, WireType::Fixed32), Ok(()));
    assert_eq!(out, vec![0xfd, 0xff, 0xff, 0xff, 0x0f]);
}

#[test]
fn reader_reads_varints() {
    let bytes = vec![0xac, 0x02, 0x05];
    let mut input = Reader::new(&bytes);
    assert_eq!(input.read_varint64(), Ok(300));
    assert_eq!(input.pending_bytes(), &[0x05]);
    assert_eq!(input.read_varint64(), Ok(5));
    assert!(input.eof());
    assert_eq!(input.read_varint64(), Err(Error::Malformed));
}

#[test]
fn reader_reads_a_ten_byte_varint_and_cuts_it_to_64_bits() {
    let bytes = vec![0xff, 0xff, 0xff, 0xff, 0xff, 0xff, 0xff, 0xff, 0xff, 0x7f];
    let mut input = Reader::new(&bytes);
    assert_eq!(input.read_varint64(), Ok(u64::MAX));
    assert!(input.eof());
}

#[test]
fn reader_rejects_a_varint_without_an_end() {
    let eleven = vec![0x80, 0x80, 0x80, 0x80, 0x80, 0x80, 0x80, 0x80, 0x80, 0x80, 0x01];
    assert_eq!(Reader::new(&eleven).read_varint64(), Err(Error::Malformed));
    let cut = vec![0x80, 0x80];
    assert_eq!(Reader::new(&cut).read_varint64(), Err(Error::Malformed));
    let nothing: Vec<u8> = Vec::new();
    assert_eq!(Reader::new(&nothing).read_varint64(), Err(Error::Malformed));
}

#[test]
fn reader_accepts_a_varint_with_needless_bytes() {
    let bytes = vec![0x81, 0x80, 0x00];
    let mut input = Reader::new(&bytes);
    assert_eq!(input.read_varint64(), Ok(1));
    assert!(input.eof());
}

#[test]
fn reader_reads_fixed_width_numbers() {
    let bytes = vec![0x04, 0x03, 0x02, 0x01, 0x08, 0x07, 0x06, 0x05, 0x04, 0x03, 0x02, 0x01, 0xff];
    let mut input = Reader::new(&bytes);
    assert_eq!(input.read_number(WireType::Fixed32), Ok(0x0102_0304));
    assert_eq!(input.read_number(WireType::Fixed64), Ok(0x0102_0304_0506_0708));
    assert_eq!(input.read_number(WireType::Fixed32), Err(Error::Malformed));
    assert_eq!(input.read_number(WireType::Fixed64), Err(Error::Malformed));
    assert_eq!(input.read_number(WireType::LengthDelimited), Err(Error::Malformed));
    assert_eq!(input.read_number(WireType::Varint), Err(Error::Malformed));
    assert_eq!(input.pending_bytes(), &[0xff]);
}

#[test]
fn reader_reads_tags() {
    let bytes = vec![0x08, 0x12, 0x1d, 0x80, 0x01];
    let mut input = Reader::new(&bytes);
    assert_eq!(input.read_tag(), Ok((1, WireType::Varint)));
    assert_eq!(input.read_tag(), Ok((2, WireType::LengthDelimited)));
    assert_eq!(input.read_tag(), Ok((3, WireType::Fixed32)));
    assert_eq!(input.read_tag(), Ok((16, WireType::Varint)));
    assert!(input.eof());
}

#[test]
fn reader_rejects_malformed_tags() {
    assert_eq!(Reader::new(&[0x00]).read_tag(), Err(Error::Malformed));
    assert_eq!(Reader::new(&[0x05]).read_tag(), Err(Error::Malformed));
    assert_eq!(Reader::new(&[0x0e]).read_tag(), Err(Error::Malformed));
    assert_eq!(Reader::new(&[0x0f]).read_tag(), Err(Error::Malformed));
    assert_eq!(Reader::new(&[0x80]).read_tag(), Err(Error::Malformed));
}

#[test]
fn reader_takes_the_low_32_bits_of_a_tag() {
    let bytes = vec![0x88, 0x80, 0x80, 0x80, 0x10];
    assert_eq!(Reader::new(&bytes).read_tag(), Ok((1, WireType::Varint)));
}

#[test]
fn reader_reads_byte_strings() {
    let bytes = vec![0x03, 1, 2, 3, 0x00, 0x02, 9];
    let mut input = Reader::new(&bytes);
    assert_eq!(input.read_bytes(), Ok(vec![1u8, 2, 3]));
    assert_eq!(input.read_bytes(), Ok(Vec::new()));
    assert_eq!(input.read_bytes(), Err(Error::Malformed));
    assert_eq!(Reader::new(&[0x80]).read_bytes(), Err(Error::Malformed));
}

#[test]
fn reader_reads_strings() {
    let bytes = vec![0x03, b'a', 0xc3, 0xa9, 0x00, 0x02, 0xc3, 0x28];
    let mut input = Reader::new(&bytes);
    assert_eq!(input.read_string(), Ok("aé".to_string()));
    assert_eq!(input.read_string(), Ok(String::new()));
    assert_eq!(input.read_string(), Err(Error::Malformed));
    assert_eq!(Reader::new(&[0x02, b'a']).read_string(), Err(Error::Malformed));
}

#[test]
fn the_length_of_a_string_is_its_low_32_bits() {
    let bytes = vec![0x81, 0x80, 0x80, 0x80, 0x10, b'x', b'y'];
    let mut input = Reader::new(&bytes);
    assert_eq!(input.read_string(), Ok("x".to_string()));
    assert_eq!(input.pending_bytes(), &[b'y']);
    let mut input = Reader::new(&bytes);
    assert_eq!(input.read_bytes(), Ok(vec![b'x']));
}

#[test]
fn byte_strings_and_strings_are_written_with_their_length() {
    let mut out = vec![0xee];
    put_bytes(&mut out, &[7, 8]);
    put_string(&mut out, "é");
    put_bytes(&mut out, &[]);
    assert_eq!(out, vec![0xee, 0x02, 7, 8, 0x02, 0xc3, 0xa9, 0x00]);
}

#[test]
fn reader_limits_are_scoped() {
    let bytes = vec![1, 2, 3, 4, 5];
    let mut input = Reader::new(&bytes);
    assert_eq!(input.read_varint64(), Ok(1));
    let previous = input.push_limit(2).unwrap();
    assert_eq!(previous, 5);
    assert_eq!(input.pending_bytes(), &[2, 3]);
    assert_eq!(input.push_limit(3), Err(Error::Malformed));
    assert_eq!(input.pending_bytes(), &[2, 3]);
    assert_eq!(input.read_varint64(), Ok(2));
    assert_eq!(input.read_varint64(), Ok(3));
    assert!(input.eof());
    assert_eq!(input.read_varint64(), Err(Error::Malformed));
    input.pop_limit(previous);
    assert!(!input.eof());
    assert_eq!(input.pending_bytes(), &[4, 5]);
    let inner = input.push_limit(0).unwrap();
    assert!(input.eof());
    input.pop_limit(inner);
    assert_eq!(input.push_limit(u64::MAX), Err(Error::Malformed));
    assert_eq!(input.read_varint64(), Ok(4));
}
