//! The wire format of scalars and tags, as functions on byte sequences.

use vstd::prelude::*;

verus! {

/// The largest field number that a tag can carry.
pub const FIELD_NUMBER_MAX: u32 = 0x1fff_ffff;

/// How the bytes that follow a tag are framed.
#[derive(Clone, Copy, Debug, PartialEq, Eq, Structural)]
pub enum WireType {
    /// A base-128 varint.
    Varint,
    /// Eight bytes, little endian.
    Fixed64,
    /// A varint length, then that many bytes.
    LengthDelimited,
    /// The start of a group.
    StartGroup,
    /// The end of a group.
    EndGroup,
    /// Four bytes, little endian.
    Fixed32,
}

impl WireType {
    /// The three-bit code of this wire type inside a tag.
    pub open spec fn code(self) -> nat {
        match self {
            WireType::Varint => 0,
            WireType::Fixed64 => 1,
            WireType::LengthDelimited => 2,
            WireType::StartGroup => 3,
            WireType::EndGroup => 4,
            WireType::Fixed32 => 5,
        }
    }

    /// The wire type with the given code, if there is one.
    pub open spec fn of_code(code: nat) -> Option<WireType> {
        if code == 0 {
            Some(WireType::Varint)
        } else if code == 1 {
            Some(WireType::Fixed64)
        } else if code == 2 {
            Some(WireType::LengthDelimited)
        } else if code == 3 {
            Some(WireType::StartGroup)
        } else if code == 4 {
            Some(WireType::EndGroup)
        } else if code == 5 {
            Some(WireType::Fixed32)
        } else {
            None
        }
    }

    /// The three-bit code of this wire type.
    pub fn number(self) -> (code: u32)
        ensures
            code == self.code(),
    {
        match self {
            WireType::Varint => 0,
            WireType::Fixed64 => 1,
            WireType::LengthDelimited => 2,
            WireType::StartGroup => 3,
            WireType::EndGroup => 4,
            WireType::Fixed32 => 5,
        }
    }

    /// The wire type with the given code; `None` for a code above five.
    pub fn from_number(code: u32) -> (wire_type: Option<WireType>)
        ensures
            wire_type == WireType::of_code(code as nat),
    {
        match code {
            0 => Some(WireType::Varint),
            1 => Some(WireType::Fixed64),
            2 => Some(WireType::LengthDelimited),
            3 => Some(WireType::StartGroup),
            4 => Some(WireType::EndGroup),
            5 => Some(WireType::Fixed32),
            _ => None,
        }
    }
}

/// The base-128 varint encoding of `v`: seven bits to a byte, low bits first,
/// the high bit set on every byte but the last.
pub open spec fn varint_bytes(v: nat) -> Seq<u8>
    decreases v,
{
    if v < 128 {
        seq![v as u8]
    } else {
        seq![(v % 128 + 128) as u8] + varint_bytes(v / 128)
    }
}

/// The number of bytes up to and including the first byte below 128, if
/// `bytes` holds one.
pub open spec fn varint_size(bytes: Seq<u8>) -> Option<nat>
    decreases bytes.len(),
{
    if bytes.len() == 0 {
        None
    } else if bytes[0] < 128 {
        Some(1)
    } else {
        match varint_size(bytes.skip(1)) {
            Some(n) => Some(n + 1),
            None => None,
        }
    }
}

/// The number whose seven-bit groups, low group first, are the bytes of
/// `bytes` up to and including the first byte below 128.
pub open spec fn varint_value(bytes: Seq<u8>) -> nat
    decreases bytes.len(),
{
    if bytes.len() == 0 {
        0
    } else if bytes[0] < 128 {
        bytes[0] as nat
    } else {
        ((bytes[0] - 128) + 128 * varint_value(bytes.skip(1))) as nat
    }
}

/// The varint at the head of `bytes`: its value, cut to 64 bits, and its
/// size. There is none where the first ten bytes hold no byte below 128.
pub open spec fn varint_at(bytes: Seq<u8>) -> Option<(u64, nat)> {
    match varint_size(bytes) {
        Some(n) => if n <= 10 {
            Some(((varint_value(bytes) % 0x1_0000_0000_0000_0000) as u64, n))
        } else {
            None
        },
        None => None,
    }
}

/// The size of a varint is at least one and at most the number of bytes.
pub proof fn lemma_varint_size_bounds(bytes: Seq<u8>)
    ensures
        varint_size(bytes) matches Some(n) ==> 1 <= n <= bytes.len(),
    decreases bytes.len(),
{
    if bytes.len() > 0 && bytes[0] >= 128 {
        lemma_varint_size_bounds(bytes.skip(1));
    }
}

/// The four bytes of `v`, low byte first.
pub open spec fn fixed32_bytes(v: u32) -> Seq<u8> {
    seq![
        (v % 256) as u8,
        (v / 0x100 % 256) as u8,
        (v / 0x1_0000 % 256) as u8,
        (v / 0x100_0000 % 256) as u8,
    ]
}

/// The number that the first four bytes of `bytes` hold, low byte first.
pub open spec fn fixed32_at(bytes: Seq<u8>) -> Option<u32> {
    if bytes.len() >= 4 {
        Some(
            (bytes[0] + 0x100 * bytes[1] + 0x1_0000 * bytes[2] + 0x100_0000 * bytes[3]) as u32,
        )
    } else {
        None
    }
}

/// The eight bytes of `v`, low byte first.
pub open spec fn fixed64_bytes(v: u64) -> Seq<u8> {
    fixed32_bytes((v % 0x1_0000_0000) as u32) + fixed32_bytes((v / 0x1_0000_0000) as u32)
}

/// The number that the first eight bytes of `bytes` hold, low byte first.
pub open spec fn fixed64_at(bytes: Seq<u8>) -> Option<u64> {
    if bytes.len() >= 8 {
        Some(
            (fixed32_at(bytes)->0 + 0x1_0000_0000 * fixed32_at(bytes.skip(4))->0) as u64,
        )
    } else {
        None
    }
}

/// The number at the head of `bytes` in the given framing, and its size.
pub open spec fn number_at(wire_type: WireType, bytes: Seq<u8>) -> Option<(u64, nat)> {
    match wire_type {
        WireType::Varint => varint_at(bytes),
        WireType::Fixed32 => match fixed32_at(bytes) {
            Some(v) => Some((v as u64, 4)),
            None => None,
        },
        WireType::Fixed64 => match fixed64_at(bytes) {
            Some(v) => Some((v, 8)),
            None => None,
        },
        _ => None,
    }
}

/// The size of a number on the wire is at least one and at most the number
/// of bytes.
pub proof fn lemma_number_size(wire_type: WireType, bytes: Seq<u8>)
    ensures
        number_at(wire_type, bytes) matches Some((_, n)) ==> 1 <= n <= bytes.len(),
{
    lemma_varint_size_bounds(bytes);
}

/// The low 32 bits of `v`.
pub open spec fn low32(v: u64) -> u32 {
    (v % 0x1_0000_0000) as u32
}

/// The signed number with the same 32 bits as `v`.
pub open spec fn as_signed32(v: u32) -> i32 {
    if v < 0x8000_0000 {
        v as i32
    } else {
        (v - 0x1_0000_0000) as i32
    }
}

/// The unsigned number with the same 32 bits as `v`.
pub open spec fn as_unsigned32(v: i32) -> u32 {
    if v >= 0 {
        v as u32
    } else {
        (v + 0x1_0000_0000) as u32
    }
}

/// The signed number with the same 64 bits as `v`.
pub open spec fn as_signed64(v: u64) -> i64 {
    if v < 0x8000_0000_0000_0000 {
        v as i64
    } else {
        (v - 0x1_0000_0000_0000_0000) as i64
    }
}

/// The unsigned number with the same 64 bits as `v`.
pub open spec fn as_unsigned64(v: i64) -> u64 {
    if v >= 0 {
        v as u64
    } else {
        (v + 0x1_0000_0000_0000_0000) as u64
    }
}

/// The zigzag code of `v`: 0, -1, 1, -2, ... become 0, 1, 2, 3, ...
pub open spec fn zigzag32(v: i32) -> u32 {
    if v >= 0 {
        (2 * v) as u32
    } else {
        (-2 * v - 1) as u32
    }
}

/// The number whose zigzag code is `v`.
pub open spec fn unzigzag32(v: u32) -> i32 {
    if v % 2 == 0 {
        (v / 2) as i32
    } else {
        (-(v / 2) - 1) as i32
    }
}

/// The zigzag code of `v`.
pub open spec fn zigzag64(v: i64) -> u64 {
    if v >= 0 {
        (2 * v) as u64
    } else {
        (-2 * v - 1) as u64
    }
}

/// The number whose zigzag code is `v`.
pub open spec fn unzigzag64(v: u64) -> i64 {
    if v % 2 == 0 {
        (v / 2) as i64
    } else {
        (-(v / 2) - 1) as i64
    }
}

/// Whether a tag can carry `number`.
pub open spec fn valid_field_number(number: int) -> bool {
    0 < number <= FIELD_NUMBER_MAX
}

/// The bytes of the tag of a field: the varint of the field number, shifted
/// left by three bits, plus the code of the wire type.
pub open spec fn tag_bytes(number: u32, wire_type: WireType) -> Seq<u8> {
    varint_bytes((number * 8 + wire_type.code()) as nat)
}

/// The tag at the head of `bytes`: field number, wire type and size. The tag
/// is the low 32 bits of a varint; there is none where the varint is missing,
/// the code of the wire type is above five or the field number is zero.
pub open spec fn tag_at(bytes: Seq<u8>) -> Option<(u32, WireType, nat)> {
    match varint_at(bytes) {
        Some((v, n)) => {
            let tag = low32(v);
            match WireType::of_code((tag % 8) as nat) {
                Some(wire_type) => if tag / 8 == 0 {
                    None
                } else {
                    Some((tag / 8, wire_type, n))
                },
                None => None,
            }
        },
        None => None,
    }
}

/// The bytes of a string or of a byte string: the low 32 bits of its length
/// as a varint, then the payload.
pub open spec fn counted_bytes(payload: Seq<u8>) -> Seq<u8> {
    varint_bytes((payload.len() % 0x1_0000_0000) as nat) + payload
}

/// The string or byte string at the head of `bytes`, with the size of the
/// whole value: a varint, of which the low 32 bits are the length, and that
/// many bytes. There is none where the length is missing or reaches past the
/// end of `bytes`.
pub open spec fn counted_at(bytes: Seq<u8>) -> Option<(Seq<u8>, nat)> {
    match varint_at(bytes) {
        Some((v, n)) => if n + low32(v) <= bytes.len() {
            Some((bytes.subrange(n as int, n + low32(v)), (n + low32(v)) as nat))
        } else {
            None
        },
        None => None,
    }
}

/// The bytes of a length-delimited payload: its length as a varint, then the
/// payload.
pub open spec fn delimited_bytes(payload: Seq<u8>) -> Seq<u8> {
    varint_bytes(payload.len()) + payload
}

/// The length-delimited payload at the head of `bytes`, with the size of the
/// whole frame. There is none where the length is missing or reaches past the
/// end of `bytes`.
pub open spec fn delimited_at(bytes: Seq<u8>) -> Option<(Seq<u8>, nat)> {
    match varint_at(bytes) {
        Some((len, n)) => if n + len <= bytes.len() {
            Some((bytes.subrange(n as int, n + len), (n + len) as nat))
        } else {
            None
        },
        None => None,
    }
}

/// The low 32 bits of `v`.
pub fn truncate32(v: u64) -> (r: u32)
    ensures
        r == low32(v),
{
    (v % 0x1_0000_0000) as u32
}

/// The signed number with the same 32 bits as `v`.
pub fn to_signed32(v: u32) -> (r: i32)
    ensures
        r == as_signed32(v),
{
    if v < 0x8000_0000 {
        v as i32
    } else {
        ((v - 0x8000_0000) as i32) + i32::MIN
    }
}

/// The unsigned number with the same 32 bits as `v`.
pub fn to_unsigned32(v: i32) -> (r: u32)
    ensures
        r == as_unsigned32(v),
{
    if v >= 0 {
        v as u32
    } else {
        u32::MAX - ((-(v + 1)) as u32)
    }
}

/// The signed number with the same 64 bits as `v`.
pub fn to_signed64(v: u64) -> (r: i64)
    ensures
        r == as_signed64(v),
{
    if v < 0x8000_0000_0000_0000 {
        v as i64
    } else {
        ((v - 0x8000_0000_0000_0000) as i64) + i64::MIN
    }
}

/// The unsigned number with the same 64 bits as `v`.
pub fn to_unsigned64(v: i64) -> (r: u64)
    ensures
        r == as_unsigned64(v),
{
    if v >= 0 {
        v as u64
    } else {
        u64::MAX - ((-(v + 1)) as u64)
    }
}

/// The zigzag code of `v`.
pub fn encode_zigzag32(v: i32) -> (r: u32)
    ensures
        r == zigzag32(v),
{
    if v >= 0 {
        (v as u32) * 2
    } else {
        ((-(v + 1)) as u32) * 2 + 1
    }
}

/// The number whose zigzag code is `v`.
pub fn decode_zigzag32(v: u32) -> (r: i32)
    ensures
        r == unzigzag32(v),
{
    if v % 2 == 0 {
        (v / 2) as i32
    } else {
        -((v / 2) as i32) - 1
    }
}

/// The zigzag code of `v`.
pub fn encode_zigzag64(v: i64) -> (r: u64)
    ensures
        r == zigzag64(v),
{
    if v >= 0 {
        (v as u64) * 2
    } else {
        ((-(v + 1)) as u64) * 2 + 1
    }
}

/// The number whose zigzag code is `v`.
pub fn decode_zigzag64(v: u64) -> (r: i64)
    ensures
        r == unzigzag64(v),
{
    if v % 2 == 0 {
        (v / 2) as i64
    } else {
        -((v / 2) as i64) - 1
    }
}

} // verus!
