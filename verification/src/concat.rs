//! Merging one input after another: what is read from bytes is read from
//! them whatever follows, so that merging `a` and then `b` is merging `a`
//! followed by `b`.

use vstd::prelude::*;
use crate::descriptor::{Descriptors, FieldDescriptor, MessageDescriptor};
use crate::model::{
    frame_size, lemma_merge_step, lemma_step_size, merge_step, merged_field, merged_message,
    plain_at, scalar_at, Mask,
};
use crate::unknown::{group_at, lemma_unknown_value_size, unknown_at, unknown_value_at};
use crate::value::{FieldView, MessageView};
use crate::wire::{
    counted_at, delimited_at, fixed32_at, fixed64_at, lemma_varint_size_bounds, number_at, tag_at,
    varint_at, varint_size, varint_value, WireType,
};

verus! {

/// A varint is read alike whatever follows it.
pub proof fn lemma_varint_followed(a: Seq<u8>, b: Seq<u8>)
    requires
        varint_size(a) is Some,
    ensures
        varint_size(a + b) == varint_size(a),
        varint_value(a + b) == varint_value(a),
        varint_at(a + b) == varint_at(a),
    decreases a.len(),
{
    assert((a + b)[0] == a[0]);
    if a[0] >= 128 {
        assert((a + b).skip(1) =~= a.skip(1) + b);
        lemma_varint_followed(a.skip(1), b);
    }
}

/// A number is read alike whatever follows it.
pub proof fn lemma_number_followed(wire_type: WireType, a: Seq<u8>, b: Seq<u8>)
    requires
        number_at(wire_type, a) is Some,
    ensures
        number_at(wire_type, a + b) == number_at(wire_type, a),
{
    match wire_type {
        WireType::Varint => lemma_varint_followed(a, b),
        WireType::Fixed32 => {
            assert(fixed32_at(a + b) == fixed32_at(a)) by {
                assert((a + b)[0] == a[0] && (a + b)[1] == a[1] && (a + b)[2] == a[2] && (a
                    + b)[3] == a[3]);
            }
        },
        _ => {
            assert((a + b).skip(4) =~= a.skip(4) + b);
            assert((a + b)[0] == a[0] && (a + b)[1] == a[1] && (a + b)[2] == a[2] && (a + b)[3]
                == a[3]);
            let c = a.skip(4);
            assert((c + b)[0] == c[0] && (c + b)[1] == c[1] && (c + b)[2] == c[2] && (c + b)[3]
                == c[3]);
            assert(fixed64_at(a + b) == fixed64_at(a));
        },
    }
}

/// A string, a byte string and a length-delimited frame are read alike
/// whatever follows them.
pub proof fn lemma_frames_followed(a: Seq<u8>, b: Seq<u8>)
    ensures
        counted_at(a) is Some ==> counted_at(a + b) == counted_at(a),
        delimited_at(a) is Some ==> delimited_at(a + b) == delimited_at(a),
{
    if let Some((v, n)) = varint_at(a) {
        lemma_varint_followed(a, b);
        lemma_varint_size_bounds(a);
        if let Some((payload, size)) = counted_at(a) {
            assert((a + b).subrange(n as int, size as int) =~= payload);
        }
        if let Some((payload, size)) = delimited_at(a) {
            assert((a + b).subrange(n as int, size as int) =~= payload);
        }
    }
}

/// A tag is read alike whatever follows it.
pub proof fn lemma_tag_followed(a: Seq<u8>, b: Seq<u8>)
    requires
        tag_at(a) is Some,
    ensures
        tag_at(a + b) == tag_at(a),
{
    lemma_varint_followed(a, b);
}

/// The value of an undeclared field is read alike whatever follows it.
pub proof fn lemma_unknown_value_followed(wire_type: WireType, a: Seq<u8>, b: Seq<u8>)
    requires
        unknown_value_at(wire_type, a) is Some,
    ensures
        unknown_value_at(wire_type, a + b) == unknown_value_at(wire_type, a),
{
    match wire_type {
        WireType::LengthDelimited => lemma_frames_followed(a, b),
        _ => lemma_number_followed(wire_type, a, b),
    }
}

/// A group is skipped alike whatever follows it.
pub proof fn lemma_group_followed(a: Seq<u8>, b: Seq<u8>)
    requires
        group_at(a) is Some,
    ensures
        group_at(a + b) == group_at(a),
    decreases a.len(),
{
    lemma_tag_followed(a, b);
    lemma_varint_size_bounds(a);
    let (_, wire_type, n) = tag_at(a).unwrap();
    assert((a + b).skip(n as int) =~= a.skip(n as int) + b);
    if wire_type != WireType::EndGroup {
        let rest = a.skip(n as int);
        let (_, k) = unknown_value_at(wire_type, rest).unwrap();
        lemma_unknown_value_size(wire_type, rest);
        lemma_unknown_value_followed(wire_type, rest, b);
        assert((rest + b).skip(k as int) =~= rest.skip(k as int) + b);
        lemma_group_followed(rest.skip(k as int), b);
    }
}

/// An undeclared field is read alike whatever follows it.
pub proof fn lemma_unknown_followed(wire_type: WireType, a: Seq<u8>, b: Seq<u8>)
    requires
        unknown_at(wire_type, a) is Some,
    ensures
        unknown_at(wire_type, a + b) == unknown_at(wire_type, a),
{
    match wire_type {
        WireType::StartGroup => lemma_group_followed(a, b),
        WireType::EndGroup => {},
        _ => lemma_unknown_value_followed(wire_type, a, b),
    }
}

/// A value that is merged is merged alike whatever follows it, and takes
/// the same bytes.
pub proof fn lemma_field_followed(
    descriptors: Descriptors,
    field: FieldDescriptor,
    current: FieldView,
    wire_type: WireType,
    a: Seq<u8>,
    b: Seq<u8>,
    mask: Option<Mask>,
)
    requires
        merged_field(descriptors, field, current, wire_type, a, mask) is Ok,
    ensures
        merged_field(descriptors, field, current, wire_type, a + b, mask) == merged_field(
            descriptors,
            field,
            current,
            wire_type,
            a,
            mask,
        ),
        frame_size(field.field_type, wire_type, a + b) == frame_size(
            field.field_type,
            wire_type,
            a,
        ),
{
    lemma_frames_followed(a, b);
    if varint_at(a) is Some {
        lemma_varint_followed(a, b);
    }
    if number_at(wire_type, a) is Some {
        lemma_number_followed(wire_type, a, b);
    }
    assert(scalar_at(field.field_type, a) is Some ==> scalar_at(field.field_type, a + b)
        == scalar_at(field.field_type, a));
    assert(plain_at(field.field_type, a) is Some ==> plain_at(field.field_type, a + b)
        == plain_at(field.field_type, a));
}

/// A step is taken alike whatever follows the bytes that it takes.
pub proof fn lemma_step_followed(
    descriptors: Descriptors,
    descriptor: MessageDescriptor,
    message: MessageView,
    a: Seq<u8>,
    b: Seq<u8>,
)
    requires
        merge_step(descriptors, descriptor, None, message, a) is Ok,
    ensures
        merge_step(descriptors, descriptor, None, message, a + b) == merge_step(
            descriptors,
            descriptor,
            None,
            message,
            a,
        ),
{
    lemma_tag_followed(a, b);
    lemma_varint_size_bounds(a);
    let (number, wire_type, n) = tag_at(a).unwrap();
    let rest = a.skip(n as int);
    assert((a + b).skip(n as int) =~= rest + b);
    match descriptor.declared(number as i32) {
        Some(field) => {
            let current = message.field_or_empty(field);
            lemma_field_followed(descriptors, field, current, wire_type, rest, b, None);
        },
        None => {
            lemma_unknown_followed(wire_type, rest, b);
        },
    }
}

/// Merging one input after another: where `a` is merged into a message,
/// merging `a` followed by `b` is merging `b` into what the merge of `a`
/// gave. This holds of every input, one that holds undeclared fields and
/// groups too.
pub proof fn law_merge_concat(
    descriptors: Descriptors,
    descriptor: MessageDescriptor,
    message: MessageView,
    a: Seq<u8>,
    b: Seq<u8>,
)
    requires
        merged_message(descriptors, descriptor, message, a) is Ok,
    ensures
        merged_message(descriptors, descriptor, message, a + b) == merged_message(
            descriptors,
            descriptor,
            merged_message(descriptors, descriptor, message, a)->Ok_0,
            b,
        ),
    decreases a.len(),
{
    if a.len() == 0 {
        assert(a + b =~= b);
    } else {
        lemma_merge_step(descriptors, descriptor, message, a);
        lemma_merge_step(descriptors, descriptor, message, a + b);
        lemma_step_size(descriptors, descriptor, None, message, a);
        lemma_step_followed(descriptors, descriptor, message, a, b);
        let (next, taken) = merge_step(descriptors, descriptor, None, message, a)->Ok_0;
        assert((a + b).skip(taken as int) =~= a.skip(taken as int) + b);
        law_merge_concat(descriptors, descriptor, next, a.skip(taken as int), b);
    }
}

} // verus!
