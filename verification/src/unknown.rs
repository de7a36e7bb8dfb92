//! The bag of unknown fields: wire data whose field number the descriptor
//! does not declare, kept as the `protobuf` crate keeps it.

use vstd::prelude::*;
use crate::wire::{
    counted_at, fixed32_at, fixed64_at, lemma_varint_size_bounds, tag_at, varint_at, WireType,
};

verus! {

/// The bag of unknown fields of the `protobuf` crate. What it holds is
/// [`unknown_entries`].
#[verifier::external_type_specification]
#[verifier::external_body]
pub struct ExUnknownFields(protobuf::UnknownFields);

/// What a bag of unknown fields holds: under each field number the fixed
/// 32-bit values, the fixed 64-bit values, the varints and the
/// length-delimited payloads that were added under it, each in the order in
/// which they were added.
pub uninterp spec fn unknown_entries(unknown: protobuf::UnknownFields) -> Map<
    u32,
    (Seq<u32>, Seq<u64>, Seq<u64>, Seq<Seq<u8>>),
>;

/// A bag that holds nothing.
pub open spec fn no_unknown() -> Map<u32, (Seq<u32>, Seq<u64>, Seq<u64>, Seq<Seq<u8>>)> {
    Map::empty()
}

/// One value of an unknown field.
pub enum UnknownValue {
    Fixed32(u32),
    Fixed64(u64),
    Varint(u64),
    LengthDelimited(Seq<u8>),
}

/// The values under `number` in `entries`; four empty sequences where there
/// are none.
pub open spec fn unknown_values(
    entries: Map<u32, (Seq<u32>, Seq<u64>, Seq<u64>, Seq<Seq<u8>>)>,
    number: u32,
) -> (Seq<u32>, Seq<u64>, Seq<u64>, Seq<Seq<u8>>) {
    if entries.contains_key(number) {
        entries[number]
    } else {
        (Seq::empty(), Seq::empty(), Seq::empty(), Seq::empty())
    }
}

/// `entries` with `value` added under `number`, after the values of its kind
/// that are there.
pub open spec fn with_unknown(
    entries: Map<u32, (Seq<u32>, Seq<u64>, Seq<u64>, Seq<Seq<u8>>)>,
    number: u32,
    value: UnknownValue,
) -> Map<u32, (Seq<u32>, Seq<u64>, Seq<u64>, Seq<Seq<u8>>)> {
    let (fixed32, fixed64, varint, delimited) = unknown_values(entries, number);
    entries.insert(
        number,
        match value {
            UnknownValue::Fixed32(v) => (fixed32.push(v), fixed64, varint, delimited),
            UnknownValue::Fixed64(v) => (fixed32, fixed64.push(v), varint, delimited),
            UnknownValue::Varint(v) => (fixed32, fixed64, varint.push(v), delimited),
            UnknownValue::LengthDelimited(v) => (fixed32, fixed64, varint, delimited.push(v)),
        },
    )
}

/// The value of one of the four wire types that carry one, at the head of
/// `bytes`, and the number of bytes that it takes. The length of a
/// length-delimited value is cut to 32 bits. A group tag carries no value.
pub open spec fn unknown_value_at(wire_type: WireType, bytes: Seq<u8>) -> Option<
    (UnknownValue, nat),
> {
    match wire_type {
        WireType::Varint => match varint_at(bytes) {
            Some((v, n)) => Some((UnknownValue::Varint(v), n)),
            None => None,
        },
        WireType::Fixed64 => match fixed64_at(bytes) {
            Some(v) => Some((UnknownValue::Fixed64(v), 8)),
            None => None,
        },
        WireType::Fixed32 => match fixed32_at(bytes) {
            Some(v) => Some((UnknownValue::Fixed32(v), 4)),
            None => None,
        },
        WireType::LengthDelimited => match counted_at(bytes) {
            Some((payload, n)) => Some((UnknownValue::LengthDelimited(payload), n)),
            None => None,
        },
        _ => None,
    }
}

/// A value takes at least one byte and no more bytes than there are.
pub proof fn lemma_unknown_value_size(wire_type: WireType, bytes: Seq<u8>)
    ensures
        unknown_value_at(wire_type, bytes) matches Some((_, n)) ==> 1 <= n <= bytes.len(),
{
    lemma_varint_size_bounds(bytes);
}

/// How many bytes the rest of a group takes, behind its start tag and up to
/// and including its end tag: field after field, each a tag and a value,
/// until a tag of the wire type that ends a group. There is no such number
/// where a tag or a value is malformed or cut short, or where another group
/// starts within the group.
pub open spec fn group_at(bytes: Seq<u8>) -> Option<nat>
    decreases bytes.len(),
{
    match tag_at(bytes) {
        None => None,
        Some((_, wire_type, n)) => if wire_type == WireType::EndGroup {
            Some(n)
        } else {
            match unknown_value_at(wire_type, bytes.skip(n as int)) {
                None => None,
                Some((_, k)) => {
                    proof {
                        lemma_varint_size_bounds(bytes);
                        lemma_unknown_value_size(wire_type, bytes.skip(n as int));
                    }
                    match group_at(bytes.skip(n as int).skip(k as int)) {
                        Some(rest) => Some(n + k + rest),
                        None => None,
                    }
                },
            }
        },
    }
}

/// A group takes no more bytes than there are.
pub proof fn lemma_group_size(bytes: Seq<u8>)
    ensures
        group_at(bytes) matches Some(n) ==> 1 <= n <= bytes.len(),
    decreases bytes.len(),
{
    lemma_varint_size_bounds(bytes);
    if let Some((_, wire_type, n)) = tag_at(bytes) {
        if wire_type != WireType::EndGroup {
            if let Some((_, k)) = unknown_value_at(wire_type, bytes.skip(n as int)) {
                lemma_unknown_value_size(wire_type, bytes.skip(n as int));
                lemma_group_size(bytes.skip(n as int).skip(k as int));
            }
        }
    }
}

/// What stands at the head of `bytes` for an undeclared field of the given
/// wire type: the value to keep, if any, and the number of bytes that it
/// takes. A group is skipped and nothing of it is kept. The end tag of a
/// group stands for nothing.
pub open spec fn unknown_at(wire_type: WireType, bytes: Seq<u8>) -> Option<
    (Option<UnknownValue>, nat),
> {
    match wire_type {
        WireType::StartGroup => match group_at(bytes) {
            Some(n) => Some((None, n)),
            None => None,
        },
        WireType::EndGroup => None,
        _ => match unknown_value_at(wire_type, bytes) {
            Some((value, n)) => Some((Some(value), n)),
            None => None,
        },
    }
}

/// An undeclared field takes no more bytes than there are.
pub proof fn lemma_unknown_size(wire_type: WireType, bytes: Seq<u8>)
    ensures
        unknown_at(wire_type, bytes) matches Some((_, n)) ==> n <= bytes.len(),
{
    lemma_unknown_value_size(wire_type, bytes);
    lemma_group_size(bytes);
}

/// `entries` after an undeclared field has been read: with the value that
/// was kept, if one was.
pub open spec fn with_read(
    entries: Map<u32, (Seq<u32>, Seq<u64>, Seq<u64>, Seq<Seq<u8>>)>,
    number: u32,
    kept: Option<UnknownValue>,
) -> Map<u32, (Seq<u32>, Seq<u64>, Seq<u64>, Seq<Seq<u8>>)> {
    match kept {
        Some(value) => with_unknown(entries, number, value),
        None => entries,
    }
}

/// `protobuf::UnknownFields::new`.
///
/// Trusted: the new bag holds nothing.
pub assume_specification[ protobuf::UnknownFields::new ]() -> (unknown: protobuf::UnknownFields)
    ensures
        unknown_entries(unknown) == no_unknown(),
;

/// `Clone::clone` of `protobuf::UnknownFields`.
///
/// Trusted: the copy holds what the bag holds.
pub assume_specification[ <protobuf::UnknownFields as Clone>::clone ](
    unknown: &protobuf::UnknownFields,
) -> (copy: protobuf::UnknownFields)
    ensures
        unknown_entries(copy) == unknown_entries(*unknown),
;

/// `protobuf::rt::read_unknown_or_skip_group` on a stream over `buf`, with
/// the stream's position after the call.
///
/// Trusted: the call reads one value of the given wire type from the head of
/// `buf` and adds it to `unknown` under `number`. A group it skips, adding
/// nothing: it reads a tag and skips the value behind it, again and again,
/// until it has read a tag that ends a group, and fails on a tag that
/// starts one. It fails, adding nothing, where a tag or a value is cut
/// short or malformed, and on the end tag of a group.
#[verifier::external_body]
pub(crate) fn read_unknown_or_skip_group(
    number: u32,
    wire_type: WireType,
    buf: &[u8],
    unknown: &mut protobuf::UnknownFields,
) -> (r: Result<usize, protobuf::ProtobufError>)
    ensures
        match r {
            Ok(n) => {
                &&& unknown_at(wire_type, buf@) matches Some((kept, size))
                &&& n == size
                &&& unknown_entries(*final(unknown)) == with_read(
                    unknown_entries(*old(unknown)),
                    number,
                    kept,
                )
            },
            Err(_) => {
                &&& unknown_at(wire_type, buf@) is None
                &&& unknown_entries(*final(unknown)) == unknown_entries(*old(unknown))
            },
        },
{
    let outside = match wire_type {
        WireType::Varint => protobuf::wire_format::WireType::WireTypeVarint,
        WireType::Fixed64 => protobuf::wire_format::WireType::WireTypeFixed64,
        WireType::LengthDelimited => protobuf::wire_format::WireType::WireTypeLengthDelimited,
        WireType::StartGroup => protobuf::wire_format::WireType::WireTypeStartGroup,
        WireType::EndGroup => protobuf::wire_format::WireType::WireTypeEndGroup,
        WireType::Fixed32 => protobuf::wire_format::WireType::WireTypeFixed32,
    };
    let mut stream = protobuf::CodedInputStream::from_bytes(buf);
    protobuf::rt::read_unknown_or_skip_group(number, outside, &mut stream, unknown)?;
    Ok(stream.pos() as usize)
}

} // verus!
