//! Laws of decoding: what holds of every descriptor, every message and every
//! input.

use vstd::prelude::*;
use crate::descriptor::{
    lemma_field_position, Descriptors, FieldDescriptor, FieldType, MessageDescriptor,
};
use crate::error::ErrorView;
use crate::model::{
    expected_wire_type, frame_size, lemma_frame_size, mask_below, merged_field, merged_masked,
    merged_message, scalar_bits, scalar_wire_type, selected_field, selects, value_bytes, Mask,
};
use crate::unknown::{lemma_unknown_size, unknown_at, unknown_values, with_read, UnknownValue};
use crate::value::{FieldView, MessageView, ValueView};
use crate::wire::{lemma_varint_size_bounds, tag_at, WireType};
use crate::wire_laws::{lemma_sign_round_trip, lemma_varint_round_trip};

verus! {

/// Wire-type rejection: a value that arrives with a wire type other than the
/// one its declared kind is framed with is rejected as a mismatch, whatever
/// its bytes are; nothing is made of them. The one other framing that is
/// taken is the packed run of a repeated field of a numeric kind.
pub proof fn law_wire_type_rejection(
    descriptors: Descriptors,
    declared: FieldDescriptor,
    current: FieldView,
    wire_type: WireType,
    bytes: Seq<u8>,
    mask: Option<Mask>,
)
    requires
        expected_wire_type(descriptors, declared.field_type) is Some,
        wire_type != expected_wire_type(descriptors, declared.field_type).unwrap(),
        !(wire_type == WireType::LengthDelimited && declared.repeated() && scalar_wire_type(
            declared.field_type,
        ) is Some),
    ensures
        merged_field(descriptors, declared, current, wire_type, bytes, mask) == Err::<
            FieldView,
            ErrorView,
        >(
            ErrorView::WireTypeMismatch {
                expected: expected_wire_type(descriptors, declared.field_type).unwrap(),
                actual: wire_type,
            },
        ),
{
}

/// A length-delimited payload where a single fixed32 value is declared is a
/// mismatch: it is not taken for anything else.
pub proof fn law_fixed32_rejects_length_delimited(
    descriptors: Descriptors,
    declared: FieldDescriptor,
    current: FieldView,
    bytes: Seq<u8>,
    mask: Option<Mask>,
)
    requires
        declared.field_type == FieldType::Fixed32,
        !declared.repeated(),
    ensures
        merged_field(descriptors, declared, current, WireType::LengthDelimited, bytes, mask)
            == Err::<FieldView, ErrorView>(
            ErrorView::WireTypeMismatch {
                expected: WireType::Fixed32,
                actual: WireType::LengthDelimited,
            },
        ),
{
}

/// Forward-compatible enums: an enum value is decoded as the number that
/// was written, whether or not the enum type names that number.
pub proof fn law_enum_keeps_number(
    descriptors: Descriptors,
    declared: FieldDescriptor,
    current: FieldView,
    number: i32,
    rest: Seq<u8>,
    mask: Option<Mask>,
)
    requires
        declared.field_type matches FieldType::Enum(name) && descriptors.enumeration(name@) is Some,
    ensures
        merged_field(
            descriptors,
            declared,
            current,
            WireType::Varint,
            value_bytes(ValueView::Enum(number)) + rest,
            mask,
        ) == Ok::<FieldView, ErrorView>(current.put(ValueView::Enum(number))),
{
    lemma_varint_round_trip(scalar_bits(ValueView::Enum(number)), rest);
    lemma_sign_round_trip(number, 0);
}

/// Whether `later` holds, under every number, what `earlier` holds there,
/// in the same order, before anything else.
pub open spec fn unknown_kept(
    earlier: Map<u32, (Seq<u32>, Seq<u64>, Seq<u64>, Seq<Seq<u8>>)>,
    later: Map<u32, (Seq<u32>, Seq<u64>, Seq<u64>, Seq<Seq<u8>>)>,
) -> bool {
    forall|number: u32|
        {
            let a = #[trigger] unknown_values(earlier, number);
            let b = unknown_values(later, number);
            &&& a.0.is_prefix_of(b.0)
            &&& a.1.is_prefix_of(b.1)
            &&& a.2.is_prefix_of(b.2)
            &&& a.3.is_prefix_of(b.3)
        }
}

/// Whether the bag holds `value` under `number`.
pub open spec fn unknown_holds(
    entries: Map<u32, (Seq<u32>, Seq<u64>, Seq<u64>, Seq<Seq<u8>>)>,
    number: u32,
    value: UnknownValue,
) -> bool {
    let held = unknown_values(entries, number);
    match value {
        UnknownValue::Fixed32(v) => held.0.contains(v),
        UnknownValue::Fixed64(v) => held.1.contains(v),
        UnknownValue::Varint(v) => held.2.contains(v),
        UnknownValue::LengthDelimited(v) => held.3.contains(v),
    }
}

/// A merge takes nothing out of the bag of unknown fields: what the message
/// held there, the merged message holds.
pub proof fn lemma_unknown_kept(
    descriptors: Descriptors,
    descriptor: MessageDescriptor,
    message: MessageView,
    bytes: Seq<u8>,
)
    ensures
        merged_message(descriptors, descriptor, message, bytes) matches Ok(merged)
            ==> unknown_kept(message.unknown, merged.unknown),
    decreases bytes.len(),
{
    if bytes.len() > 0 {
        if let Some((number, wire_type, n)) = tag_at(bytes) {
            lemma_varint_size_bounds(bytes);
            let rest = bytes.skip(n as int);
            lemma_unknown_size(wire_type, rest);
            match descriptor.declared(number as i32) {
                Some(field) => {
                    if let Ok(f) = merged_field(
                        descriptors,
                        field,
                        message.field_or_empty(field),
                        wire_type,
                        rest,
                        None,
                    ) {
                        lemma_frame_size(field.field_type, wire_type, rest);
                        lemma_unknown_kept(
                            descriptors,
                            descriptor,
                            message.with_field(field.number, f),
                            rest.skip(frame_size(field.field_type, wire_type, rest) as int),
                        );
                    }
                },
                None => {
                    if let Some((kept, k)) = unknown_at(wire_type, rest) {
                        let next = message.with_unknown(number, kept);
                        lemma_unknown_kept(descriptors, descriptor, next, rest.skip(k as int));
                        assert(unknown_kept(message.unknown, next.unknown)) by {
                            lemma_with_read_keeps(message.unknown, number, kept);
                        }
                        if let Ok(merged) = merged_message(
                            descriptors,
                            descriptor,
                            next,
                            rest.skip(k as int),
                        ) {
                            lemma_unknown_kept_trans(message.unknown, next.unknown, merged.unknown);
                        }
                    }
                },
            }
        }
    }
}

/// What is read into the bag comes after what the bag held, and is held.
pub proof fn lemma_with_read_keeps(
    entries: Map<u32, (Seq<u32>, Seq<u64>, Seq<u64>, Seq<Seq<u8>>)>,
    number: u32,
    kept: Option<UnknownValue>,
)
    ensures
        unknown_kept(entries, with_read(entries, number, kept)),
        kept matches Some(value) ==> unknown_holds(
            with_read(entries, number, kept),
            number,
            value,
        ),
{
    let later = with_read(entries, number, kept);
    let held = unknown_values(entries, number);
    match kept {
        Some(UnknownValue::Fixed32(v)) => {
            assert(held.0.push(v)[held.0.len() as int] == v);
        },
        Some(UnknownValue::Fixed64(v)) => {
            assert(held.1.push(v)[held.1.len() as int] == v);
        },
        Some(UnknownValue::Varint(v)) => {
            assert(held.2.push(v)[held.2.len() as int] == v);
        },
        Some(UnknownValue::LengthDelimited(v)) => {
            assert(held.3.push(v)[held.3.len() as int] == v);
        },
        None => {},
    }
    assert forall|other: u32|
        {
            let a = #[trigger] unknown_values(entries, other);
            let b = unknown_values(later, other);
            &&& a.0.is_prefix_of(b.0)
            &&& a.1.is_prefix_of(b.1)
            &&& a.2.is_prefix_of(b.2)
            &&& a.3.is_prefix_of(b.3)
        } by {
        let a = unknown_values(entries, other);
        let b = unknown_values(later, other);
        assert(a.0 =~= b.0.take(a.0.len() as int));
        assert(a.1 =~= b.1.take(a.1.len() as int));
        assert(a.2 =~= b.2.take(a.2.len() as int));
        assert(a.3 =~= b.3.take(a.3.len() as int));
    }
}

/// What a bag keeps of a bag that keeps a third, keeps the third.
pub proof fn lemma_unknown_kept_trans(
    a: Map<u32, (Seq<u32>, Seq<u64>, Seq<u64>, Seq<Seq<u8>>)>,
    b: Map<u32, (Seq<u32>, Seq<u64>, Seq<u64>, Seq<Seq<u8>>)>,
    c: Map<u32, (Seq<u32>, Seq<u64>, Seq<u64>, Seq<Seq<u8>>)>,
)
    requires
        unknown_kept(a, b),
        unknown_kept(b, c),
    ensures
        unknown_kept(a, c),
{
    assert forall|number: u32|
        {
            let x = #[trigger] unknown_values(a, number);
            let z = unknown_values(c, number);
            &&& x.0.is_prefix_of(z.0)
            &&& x.1.is_prefix_of(z.1)
            &&& x.2.is_prefix_of(z.2)
            &&& x.3.is_prefix_of(z.3)
        } by {
        let x = unknown_values(a, number);
        let y = unknown_values(b, number);
        let z = unknown_values(c, number);
        assert(x.0.is_prefix_of(y.0) && y.0.is_prefix_of(z.0));
        assert(x.0 =~= z.0.take(x.0.len() as int));
        assert(x.1 =~= z.1.take(x.1.len() as int));
        assert(x.2 =~= z.2.take(x.2.len() as int));
        assert(x.3 =~= z.3.take(x.3.len() as int));
    }
}

/// What a bag keeps of a bag that holds a value, holds the value.
pub proof fn lemma_unknown_kept_holds(
    a: Map<u32, (Seq<u32>, Seq<u64>, Seq<u64>, Seq<Seq<u8>>)>,
    b: Map<u32, (Seq<u32>, Seq<u64>, Seq<u64>, Seq<Seq<u8>>)>,
    number: u32,
    value: UnknownValue,
)
    requires
        unknown_kept(a, b),
        unknown_holds(a, number, value),
    ensures
        unknown_holds(b, number, value),
{
    let x = unknown_values(a, number);
    let y = unknown_values(b, number);
    match value {
        UnknownValue::Fixed32(v) => {
            let i = choose|i: int| 0 <= i < x.0.len() && x.0[i] == v;
            assert(y.0[i] == v);
        },
        UnknownValue::Fixed64(v) => {
            let i = choose|i: int| 0 <= i < x.1.len() && x.1[i] == v;
            assert(y.1[i] == v);
        },
        UnknownValue::Varint(v) => {
            let i = choose|i: int| 0 <= i < x.2.len() && x.2[i] == v;
            assert(y.2[i] == v);
        },
        UnknownValue::LengthDelimited(v) => {
            let i = choose|i: int| 0 <= i < x.3.len() && x.3[i] == v;
            assert(y.3[i] == v);
        },
    }
}

/// Unknown fields are retained: where a merge without a mask meets a field
/// number that the descriptor does not declare, and goes on to its end, the
/// merged message holds the value of that field in its bag of unknown
/// fields, under that number.
pub proof fn law_unknown_retained(
    descriptors: Descriptors,
    descriptor: MessageDescriptor,
    message: MessageView,
    bytes: Seq<u8>,
)
    requires
        tag_at(bytes) matches Some((number, wire_type, n)) && descriptor.declared(number as i32)
            is None && unknown_at(
            wire_type,
            bytes.skip(n as int)) matches Some((Some(_), _)),
        merged_message(descriptors, descriptor, message, bytes) is Ok,
    ensures
        ({
            let (number, wire_type, n) = tag_at(bytes).unwrap();
            let rest = bytes.skip(n as int);
            let value = unknown_at(wire_type, rest).unwrap().0.unwrap();
            unknown_holds(
                merged_message(descriptors, descriptor, message, bytes)->Ok_0.unknown,
                number,
                value,
            )
        }),
{
    let (number, wire_type, n) = tag_at(bytes).unwrap();
    lemma_varint_size_bounds(bytes);
    let rest = bytes.skip(n as int);
    let (kept, k) = unknown_at(wire_type, rest).unwrap();
    let next = message.with_unknown(number, kept);
    let merged = merged_message(descriptors, descriptor, next, rest.skip(k as int))->Ok_0;
    lemma_with_read_keeps(message.unknown, number, kept);
    lemma_unknown_kept(descriptors, descriptor, next, rest.skip(k as int));
    lemma_unknown_kept_holds(next.unknown, merged.unknown, number, kept.unwrap());
}

/// Whether a mask leaves out the field number `k` of a message type: the
/// type does not declare it, or no path of the mask starts with the name of
/// the field.
pub open spec fn left_out(descriptor: MessageDescriptor, mask: Mask, k: i32) -> bool {
    match descriptor.declared(k) {
        Some(field) => !selects(mask, field.name@),
        None => true,
    }
}

/// Whether `after` has kept nothing of what a mask leaves out: its bag of
/// unknown fields is that of `before`, and so is every field that the mask
/// leaves out.
pub open spec fn nothing_kept(
    descriptor: MessageDescriptor,
    mask: Mask,
    before: MessageView,
    after: MessageView,
) -> bool {
    &&& after.unknown == before.unknown
    &&& forall|k: i32| #[trigger]
        left_out(descriptor, mask, k) ==> after.fields.contains_key(k)
            == before.fields.contains_key(k) && (before.fields.contains_key(k) ==> after.fields[k]
            == before.fields[k])
}

/// A field that the mask selects is not one that it leaves out.
proof fn lemma_selected_step(
    descriptor: MessageDescriptor,
    mask: Mask,
    message: MessageView,
    number: i32,
    field: FieldView,
)
    requires
        descriptor.declared(number) matches Some(declared) && selects(mask, declared.name@),
    ensures
        nothing_kept(descriptor, mask, message, message.with_field(number, field)),
{
    assert forall|k: i32| #[trigger] left_out(descriptor, mask, k) implies k != number by {}
}

/// Nothing kept, and then nothing kept, is nothing kept.
proof fn lemma_nothing_kept_trans(
    descriptor: MessageDescriptor,
    mask: Mask,
    a: MessageView,
    b: MessageView,
    c: MessageView,
)
    requires
        nothing_kept(descriptor, mask, a, b),
        nothing_kept(descriptor, mask, b, c),
    ensures
        nothing_kept(descriptor, mask, a, c),
{
}

/// What a mask leaves out is kept nowhere: a merge under a mask leaves the
/// bag of unknown fields as it was, and every field that the mask leaves
/// out as it was, whatever arrived for it.
pub proof fn law_masked_keeps_nothing_left_out(
    descriptors: Descriptors,
    descriptor: MessageDescriptor,
    message: MessageView,
    bytes: Seq<u8>,
    mask: Mask,
)
    ensures
        merged_masked(descriptors, descriptor, message, bytes, mask) matches Ok(merged)
            ==> nothing_kept(descriptor, mask, message, merged),
    decreases bytes.len(),
{
    if bytes.len() > 0 {
        if let Some((number, wire_type, n)) = tag_at(bytes) {
            lemma_varint_size_bounds(bytes);
            let rest = bytes.skip(n as int);
            lemma_unknown_size(wire_type, rest);
            if selected_field(descriptor, mask, number) is Some {
                let field = descriptor.declared(number as i32).unwrap();
                lemma_field_position(descriptor.fields@, number as i32, 0);
                assert(field.number == number as i32);
                if let Ok(f) = merged_field(
                    descriptors,
                    field,
                    message.field_or_empty(field),
                    wire_type,
                    rest,
                    mask_below(mask, field.name@),
                ) {
                    lemma_frame_size(field.field_type, wire_type, rest);
                    let next = message.with_field(field.number, f);
                    let after = rest.skip(frame_size(field.field_type, wire_type, rest) as int);
                    law_masked_keeps_nothing_left_out(descriptors, descriptor, next, after, mask);
                    assert(merged_masked(descriptors, descriptor, message, bytes, mask)
                        == merged_masked(descriptors, descriptor, next, after, mask));
                    if let Ok(merged) = merged_masked(descriptors, descriptor, next, after, mask) {
                        lemma_selected_step(descriptor, mask, message, field.number, f);
                        lemma_nothing_kept_trans(descriptor, mask, message, next, merged);
                    }
                }
            } else {
                if let Some((_, k)) = unknown_at(wire_type, rest) {
                    let after = rest.skip(k as int);
                    law_masked_keeps_nothing_left_out(
                        descriptors,
                        descriptor,
                        message,
                        after,
                        mask,
                    );
                    assert(merged_masked(descriptors, descriptor, message, bytes, mask)
                        == merged_masked(descriptors, descriptor, message, after, mask));
                }
            }
        }
    }
}

} // verus!
