//! What is read back from what was written: the scalars and tags of the wire
//! format.

use vstd::prelude::*;
use crate::wire::{
    as_signed32, as_signed64, as_unsigned32, as_unsigned64, counted_at, counted_bytes, delimited_at,
    delimited_bytes, fixed32_at, fixed32_bytes, fixed64_at, fixed64_bytes, low32, tag_at, tag_bytes,
    unzigzag32, unzigzag64, valid_field_number, varint_at, varint_bytes, varint_size, varint_value,
    zigzag32, zigzag64, WireType,
};

verus! {

/// 128 to the power of `k`.
pub open spec fn pow128(k: nat) -> nat
    decreases k,
{
    if k == 0 {
        1
    } else {
        128 * pow128((k - 1) as nat)
    }
}

/// A number below 128 to the power of `k` has a varint of at most `k` bytes.
pub proof fn lemma_varint_bytes_len(v: nat, k: nat)
    requires
        k >= 1,
        v < pow128(k),
    ensures
        1 <= varint_bytes(v).len() <= k,
    decreases k,
{
    reveal_with_fuel(pow128, 2);
    if v >= 128 {
        assert(k >= 2);
        assert(v / 128 < pow128((k - 1) as nat));
        lemma_varint_bytes_len(v / 128, (k - 1) as nat);
    }
}

/// The varint of a number, followed by anything, is as long as written and
/// holds the number.
pub proof fn lemma_varint_parse(v: nat, rest: Seq<u8>)
    ensures
        varint_size(varint_bytes(v) + rest) == Some(varint_bytes(v).len()),
        varint_value(varint_bytes(v) + rest) == v,
    decreases v,
{
    let bytes = varint_bytes(v) + rest;
    if v < 128 {
        assert(bytes[0] == v as u8);
    } else {
        assert(bytes[0] == (v % 128 + 128) as u8);
        assert(bytes.skip(1) =~= varint_bytes(v / 128) + rest);
        lemma_varint_parse(v / 128, rest);
    }
}

/// A varint that was written is read back: any number of 64 bits, whatever
/// follows it.
pub proof fn lemma_varint_round_trip(v: u64, rest: Seq<u8>)
    ensures
        varint_at(varint_bytes(v as nat) + rest) == Some((v, varint_bytes(v as nat).len())),
        1 <= varint_bytes(v as nat).len() <= 10,
{
    lemma_varint_parse(v as nat, rest);
    assert(pow128(10) == 0x40_0000_0000_0000_0000) by {
        reveal_with_fuel(pow128, 11);
    }
    lemma_varint_bytes_len(v as nat, 10);
}

/// Four bytes that were written are read back.
pub proof fn lemma_fixed32_round_trip(v: u32, rest: Seq<u8>)
    ensures
        fixed32_at(fixed32_bytes(v) + rest) == Some(v),
        fixed32_bytes(v).len() == 4,
{
    let bytes = fixed32_bytes(v) + rest;
    assert(bytes[0] == (v % 256) as u8);
    assert(bytes[1] == (v / 0x100 % 256) as u8);
    assert(bytes[2] == (v / 0x1_0000 % 256) as u8);
    assert(bytes[3] == (v / 0x100_0000 % 256) as u8);
}

/// Eight bytes that were written are read back.
pub proof fn lemma_fixed64_round_trip(v: u64, rest: Seq<u8>)
    ensures
        fixed64_at(fixed64_bytes(v) + rest) == Some(v),
        fixed64_bytes(v).len() == 8,
{
    let low = (v % 0x1_0000_0000) as u32;
    let high = (v / 0x1_0000_0000) as u32;
    let bytes = fixed64_bytes(v) + rest;
    lemma_fixed32_round_trip(low, fixed32_bytes(high) + rest);
    lemma_fixed32_round_trip(high, rest);
    assert(bytes =~= fixed32_bytes(low) + (fixed32_bytes(high) + rest));
    assert(bytes.skip(4) =~= fixed32_bytes(high) + rest);
}

/// A tag that was written is read back: any field number that a tag can
/// carry, with any wire type.
pub proof fn lemma_tag_round_trip(number: u32, wire_type: WireType, rest: Seq<u8>)
    requires
        valid_field_number(number as int),
    ensures
        tag_at(tag_bytes(number, wire_type) + rest) == Some(
            (number, wire_type, tag_bytes(number, wire_type).len()),
        ),
        1 <= tag_bytes(number, wire_type).len(),
{
    let tag = (number * 8 + wire_type.code()) as u64;
    lemma_varint_round_trip(tag, rest);
    assert(low32(tag) == tag);
    assert(low32(tag) % 8 == wire_type.code());
    assert(low32(tag) / 8 == number);
}

/// A length-delimited payload that was written is read back, where its
/// length fits in 64 bits.
pub proof fn lemma_delimited_round_trip(payload: Seq<u8>, rest: Seq<u8>)
    requires
        payload.len() < 0x1_0000_0000_0000_0000,
    ensures
        delimited_at(delimited_bytes(payload) + rest) == Some(
            (payload, delimited_bytes(payload).len()),
        ),
{
    let len = payload.len() as u64;
    let n = varint_bytes(payload.len()).len();
    let bytes = delimited_bytes(payload) + rest;
    lemma_varint_round_trip(len, payload + rest);
    assert(bytes =~= varint_bytes(payload.len()) + (payload + rest));
    assert(bytes.subrange(n as int, n + len) =~= payload);
}

/// A string or byte string that was written is read back, where its length
/// fits in 32 bits.
pub proof fn lemma_counted_round_trip(payload: Seq<u8>, rest: Seq<u8>)
    requires
        payload.len() < 0x1_0000_0000,
    ensures
        counted_at(counted_bytes(payload) + rest) == Some((payload, counted_bytes(payload).len())),
{
    let len = payload.len() as u64;
    let n = varint_bytes(payload.len()).len();
    let bytes = counted_bytes(payload) + rest;
    lemma_varint_round_trip(len, payload + rest);
    assert(bytes =~= varint_bytes(payload.len()) + (payload + rest));
    assert(bytes.subrange(n as int, n + len) =~= payload);
}

/// The bits of a signed number, read as signed again, are the number.
pub proof fn lemma_sign_round_trip(a: i32, b: i64)
    ensures
        as_signed32(as_unsigned32(a)) == a,
        as_signed64(as_unsigned64(b)) == b,
        as_signed32(low32(as_unsigned64(a as i64))) == a,
{
}

/// The zigzag code of a number is the code of that number alone.
pub proof fn lemma_zigzag_round_trip(a: i32, b: i64)
    ensures
        unzigzag32(zigzag32(a)) == a,
        unzigzag64(zigzag64(b)) == b,
{
}

} // verus!
