//! The round trip: what was written from a message of a declared type is
//! decoded as that message.

use vstd::prelude::*;
use vstd::utf8::{encode_utf8, encode_utf8_decode_utf8, encode_utf8_valid_utf8};
use crate::descriptor::{
    distinct_numbers, lemma_field_position, Descriptors, FieldDescriptor, FieldType,
    MessageDescriptor,
};
use crate::error::ErrorView;
use crate::model::{
    field_bytes, field_writable, fields_bytes, frame_size, initial_field, lemma_new_message,
    merge_base, merged_field, merged_message, message_bytes, message_writable, new_message,
    packable, packed_run, run_bytes, scalar_at, scalar_bits, scalar_value, scalar_wire_type,
    tagged_bytes, tagged_run_bytes, value_bytes, value_writable, wire_type_of,
};
use crate::unknown::no_unknown;
use crate::value::{FieldView, MessageView, ValueView};
use crate::wire::{delimited_bytes, low32, number_at, tag_bytes, valid_field_number, WireType};
use crate::wire_laws::{
    lemma_counted_round_trip, lemma_delimited_round_trip, lemma_fixed32_round_trip,
    lemma_fixed64_round_trip, lemma_sign_round_trip, lemma_tag_round_trip, lemma_varint_round_trip,
    lemma_zigzag_round_trip,
};

verus! {

// ---------------------------------------------------------------------------
// Messages of a declared type
// ---------------------------------------------------------------------------
/// Whether `value` is a value of the declared kind: of the variant that
/// stands for the kind, an enum or a message of a type that the descriptors
/// hold, a message of that type all through, a string or byte string short
/// enough for its length to be written in 32 bits, and a nested message
/// short enough for its length to be written in 64 bits.
pub open spec fn typed_value(descriptors: Descriptors, kind: FieldType, value: ValueView) -> bool
    decreases value, 0int,
{
    match (kind, value) {
        (FieldType::Bool, ValueView::Bool(_)) => true,
        (FieldType::Int32, ValueView::I32(_)) => true,
        (FieldType::Int64, ValueView::I64(_)) => true,
        (FieldType::SInt32, ValueView::S32(_)) => true,
        (FieldType::SInt64, ValueView::S64(_)) => true,
        (FieldType::UInt32, ValueView::U32(_)) => true,
        (FieldType::UInt64, ValueView::U64(_)) => true,
        (FieldType::Fixed32, ValueView::Fixed32(_)) => true,
        (FieldType::Fixed64, ValueView::Fixed64(_)) => true,
        (FieldType::SFixed32, ValueView::SFixed32(_)) => true,
        (FieldType::SFixed64, ValueView::SFixed64(_)) => true,
        (FieldType::Float, ValueView::F32(_)) => true,
        (FieldType::Double, ValueView::F64(_)) => true,
        (FieldType::Bytes, ValueView::Bytes(v)) => v.len() < 0x1_0000_0000,
        (FieldType::String, ValueView::String(v)) => encode_utf8(v).len() < 0x1_0000_0000,
        (FieldType::Enum(name), ValueView::Enum(_)) => descriptors.enumeration(name@) is Some,
        (FieldType::Message(name), ValueView::Message(m)) => match descriptors.message(name@) {
            Some(nested) => typed_message(descriptors, nested, m) && message_bytes(m).len()
                < 0x1_0000_0000_0000_0000,
            None => false,
        },
        _ => false,
    }
}

/// Whether `field` is a field as declared: repeated or singular as the
/// declaration says, its values of the declared kind, without a value only
/// where the declaration gives no default, and a packed run short enough for
/// its length to be written in 64 bits. A message is no such value where the
/// declaration gives a message as the default, which a merge would add to.
pub open spec fn typed_field(
    descriptors: Descriptors,
    declared: FieldDescriptor,
    field: FieldView,
) -> bool
    decreases field, 0int,
{
    match field {
        FieldView::Singular(None) => !declared.repeated() && declared.default_view() is None,
        FieldView::Singular(Some(value)) => {
            &&& !declared.repeated()
            &&& typed_value(descriptors, declared.field_type, value)
            &&& value is Message ==> !(declared.default_view() matches Some(
                ValueView::Message(_),
            ))
        },
        FieldView::Repeated(values) => {
            &&& declared.repeated()
            &&& forall|i: int|
                0 <= i < values.len() ==> typed_value(
                    descriptors,
                    declared.field_type,
                    #[trigger] values[i],
                )
            &&& values.len() > 0 && packable(values[0]) ==> run_bytes(
                values,
                values.len() as int,
            ).len() < 0x1_0000_0000_0000_0000
        },
    }
}

/// Whether `message` is a message of the declared type: it has a field for
/// each declared field and no other, each as declared and under a number
/// that a tag can carry; it has no unknown fields; and the type declares no
/// number twice.
pub open spec fn typed_message(
    descriptors: Descriptors,
    descriptor: MessageDescriptor,
    message: MessageView,
) -> bool
    decreases message, 0int,
{
    &&& message.descriptor == descriptor
    &&& message.unknown == no_unknown()
    &&& distinct_numbers(descriptor.fields@)
    &&& forall|k: i32| #[trigger] message.fields.contains_key(k) <==> descriptor.declared(k) is Some
    &&& forall|k: i32| #[trigger]
        message.fields.contains_key(k) ==> valid_field_number(k as int) && typed_field(
            descriptors,
            descriptor.declared(k).unwrap(),
            message.fields[k],
        )
}

// ---------------------------------------------------------------------------
// One value
// ---------------------------------------------------------------------------
/// The number that is written for a value of a numeric kind stands for that
/// value, and fits in 32 bits where the kind is framed with four bytes.
pub proof fn lemma_scalar_bits(kind: FieldType, value: ValueView)
    requires
        scalar_wire_type(kind) is Some,
        exists|descriptors: Descriptors| typed_value(descriptors, kind, value),
    ensures
        wire_type_of(value) == scalar_wire_type(kind).unwrap(),
        packable(value),
        scalar_value(kind, scalar_bits(value)) == value,
        wire_type_of(value) == WireType::Fixed32 ==> low32(scalar_bits(value)) == scalar_bits(
            value,
        ),
{
    match value {
        ValueView::I32(v) => lemma_sign_round_trip(v, v as i64),
        ValueView::I64(v) => lemma_sign_round_trip(0, v),
        ValueView::SFixed32(v) => lemma_sign_round_trip(v, 0),
        ValueView::SFixed64(v) => lemma_sign_round_trip(0, v),
        ValueView::S32(v) => lemma_zigzag_round_trip(v, 0),
        ValueView::S64(v) => lemma_zigzag_round_trip(0, v),
        _ => {},
    }
}

/// A value of a numeric kind that was written is read back.
pub proof fn lemma_scalar_round_trip(kind: FieldType, value: ValueView, rest: Seq<u8>)
    requires
        scalar_wire_type(kind) is Some,
        exists|descriptors: Descriptors| typed_value(descriptors, kind, value),
    ensures
        wire_type_of(value) == scalar_wire_type(kind).unwrap(),
        scalar_at(kind, value_bytes(value) + rest) == Some((value, value_bytes(value).len())),
        value_bytes(value).len() >= 1,
        packable(value),
{
    let bits = scalar_bits(value);
    let bytes = value_bytes(value) + rest;
    lemma_scalar_bits(kind, value);
    match wire_type_of(value) {
        WireType::Fixed32 => {
            lemma_fixed32_round_trip(low32(bits), rest);
            assert(number_at(WireType::Fixed32, bytes) == Some((bits, 4nat)));
        },
        WireType::Fixed64 => {
            lemma_fixed64_round_trip(bits, rest);
            assert(number_at(WireType::Fixed64, bytes) == Some((bits, 8nat)));
        },
        _ => {
            lemma_varint_round_trip(bits, rest);
            assert(number_at(WireType::Varint, bytes) == Some(
                (bits, value_bytes(value).len()),
            ));
        },
    }
}

/// What follows a sequence, once the sequence is skipped.
pub proof fn lemma_skip_written(written: Seq<u8>, rest: Seq<u8>)
    ensures
        (written + rest).skip(written.len() as int) == rest,
{
    assert((written + rest).skip(written.len() as int) =~= rest);
}

/// A value of the declared kind that was written is merged as it was: the
/// field holds it after what it held, and the value took the bytes that were
/// written. A nested message is read back by [`law_round_trip`].
pub proof fn lemma_value_round_trip(
    descriptors: Descriptors,
    declared: FieldDescriptor,
    current: FieldView,
    value: ValueView,
    rest: Seq<u8>,
)
    requires
        typed_value(descriptors, declared.field_type, value),
        value is Message ==> !(current matches FieldView::Singular(Some(ValueView::Message(_)))),
    ensures
        merged_field(
            descriptors,
            declared,
            current,
            wire_type_of(value),
            value_bytes(value) + rest,
            None,
        ) == Ok::<FieldView, ErrorView>(current.put(value)),
        frame_size(declared.field_type, wire_type_of(value), value_bytes(value) + rest)
            == value_bytes(value).len(),
        value_bytes(value).len() >= 1,
    decreases value, 1int,
{
    let bytes = value_bytes(value) + rest;
    match value {
        ValueView::Bytes(v) => {
            lemma_counted_round_trip(v, rest);
        },
        ValueView::String(v) => {
            lemma_counted_round_trip(encode_utf8(v), rest);
            encode_utf8_valid_utf8(v);
            encode_utf8_decode_utf8(v);
        },
        ValueView::Enum(v) => {
            lemma_varint_round_trip(scalar_bits(value), rest);
            lemma_sign_round_trip(v, 0);
        },
        ValueView::Message(m) => {
            let name = declared.field_type->Message_0;
            let nested = descriptors.message(name@).unwrap();
            lemma_delimited_round_trip(message_bytes(m), rest);
            law_round_trip(descriptors, nested, m);
            assert(merge_base(current, nested) == new_message(nested));
        },
        _ => {
            lemma_scalar_round_trip(declared.field_type, value, rest);
            lemma_number_frame(declared.field_type, wire_type_of(value), bytes);
        },
    }
}

/// The frame of a number is the number.
proof fn lemma_number_frame(kind: FieldType, wire_type: WireType, bytes: Seq<u8>)
    requires
        wire_type == WireType::Varint || wire_type == WireType::Fixed32 || wire_type
            == WireType::Fixed64,
    ensures
        frame_size(kind, wire_type, bytes) == match number_at(wire_type, bytes) {
            Some((_, n)) => n,
            None => 0,
        },
{
}

// ---------------------------------------------------------------------------
// One field
// ---------------------------------------------------------------------------
/// One declared field at the head of the bytes: the tag that was written is
/// read, the field is merged, and the merge goes on behind the value.
pub proof fn lemma_declared_step(
    descriptors: Descriptors,
    descriptor: MessageDescriptor,
    state: MessageView,
    k: i32,
    wire_type: WireType,
    behind: Seq<u8>,
    merged: FieldView,
)
    requires
        valid_field_number(k as int),
        descriptor.declared(k) is Some,
        descriptor.declared(k).unwrap().number == k,
        merged_field(
            descriptors,
            descriptor.declared(k).unwrap(),
            state.field_or_empty(descriptor.declared(k).unwrap()),
            wire_type,
            behind,
            None,
        ) == Ok::<FieldView, ErrorView>(merged),
    ensures
        merged_message(descriptors, descriptor, state, tag_bytes(k as u32, wire_type) + behind)
            == merged_message(
            descriptors,
            descriptor,
            state.with_field(k, merged),
            behind.skip(
                frame_size(descriptor.declared(k).unwrap().field_type, wire_type, behind) as int,
            ),
        ),
{
    let tag = tag_bytes(k as u32, wire_type);
    lemma_tag_round_trip(k as u32, wire_type, behind);
    lemma_skip_written(tag, behind);
    assert((tag + behind).len() > 0);
    assert(((k as u32) as i32) == k);
}

/// A tagged value of a declared field that was written is merged into the
/// field under its number.
pub proof fn lemma_tagged_round_trip(
    descriptors: Descriptors,
    descriptor: MessageDescriptor,
    state: MessageView,
    k: i32,
    value: ValueView,
    rest: Seq<u8>,
)
    requires
        valid_field_number(k as int),
        descriptor.declared(k) is Some,
        descriptor.declared(k).unwrap().number == k,
        typed_value(descriptors, descriptor.declared(k).unwrap().field_type, value),
        value is Message ==> !(state.field_or_empty(descriptor.declared(k).unwrap())
            matches FieldView::Singular(Some(ValueView::Message(_)))),
    ensures
        merged_message(descriptors, descriptor, state, tagged_bytes(k as u32, value) + rest)
            == merged_message(
            descriptors,
            descriptor,
            state.with_field(
                k,
                state.field_or_empty(descriptor.declared(k).unwrap()).put(value),
            ),
            rest,
        ),
    decreases value, 2int,
{
    let declared = descriptor.declared(k).unwrap();
    let current = state.field_or_empty(declared);
    let wire_type = wire_type_of(value);
    let behind = value_bytes(value) + rest;
    lemma_value_round_trip(descriptors, declared, current, value, rest);
    lemma_declared_step(descriptors, descriptor, state, k, wire_type, behind, current.put(value));
    lemma_skip_written(value_bytes(value), rest);
    assert(tagged_bytes(k as u32, value) + rest =~= tag_bytes(k as u32, wire_type) + behind);
}

/// A packed run of values of a numeric kind that was written, whatever
/// follows it in its frame, is put into the field value by value.
pub proof fn lemma_packed_round_trip(
    descriptors: Descriptors,
    kind: FieldType,
    held: Seq<ValueView>,
    values: Seq<ValueView>,
    n: int,
    rest: Seq<u8>,
)
    requires
        0 <= n <= values.len(),
        scalar_wire_type(kind) is Some,
        forall|i: int|
            0 <= i < values.len() ==> typed_value(descriptors, kind, #[trigger] values[i]),
    ensures
        packed_run(kind, FieldView::Repeated(held), run_bytes(values, n) + rest) == packed_run(
            kind,
            FieldView::Repeated(held + values.take(n)),
            rest,
        ),
    decreases n,
{
    if n == 0 {
        assert(run_bytes(values, n) + rest =~= rest);
        assert(held + values.take(n) =~= held);
    } else {
        let value = values[n - 1];
        let behind = value_bytes(value) + rest;
        assert(run_bytes(values, n) + rest =~= run_bytes(values, n - 1) + behind);
        lemma_packed_round_trip(descriptors, kind, held, values, n - 1, behind);
        assert(typed_value(descriptors, kind, value));
        lemma_scalar_round_trip(kind, value, rest);
        lemma_skip_written(value_bytes(value), rest);
        assert((held + values.take(n - 1)).push(value) =~= held + values.take(n));
    }
}

/// A run of tagged values of a declared repeated field that was written is
/// merged into the field under its number, value by value.
pub proof fn lemma_tagged_run_round_trip(
    descriptors: Descriptors,
    descriptor: MessageDescriptor,
    state: MessageView,
    k: i32,
    held: Seq<ValueView>,
    values: Seq<ValueView>,
    n: int,
    rest: Seq<u8>,
)
    requires
        0 <= n <= values.len(),
        valid_field_number(k as int),
        descriptor.declared(k) is Some,
        descriptor.declared(k).unwrap().number == k,
        state.field_or_empty(descriptor.declared(k).unwrap()) == FieldView::Repeated(held),
        forall|i: int|
            0 <= i < values.len() ==> typed_value(
                descriptors,
                descriptor.declared(k).unwrap().field_type,
                #[trigger] values[i],
            ),
    ensures
        merged_message(
            descriptors,
            descriptor,
            state,
            tagged_run_bytes(k as u32, values, n) + rest,
        ) == merged_message(
            descriptors,
            descriptor,
            if n == 0 {
                state
            } else {
                state.with_field(k, FieldView::Repeated(held + values.take(n)))
            },
            rest,
        ),
    decreases values, n,
{
    let declared = descriptor.declared(k).unwrap();
    if n == 0 {
        assert(tagged_run_bytes(k as u32, values, n) + rest =~= rest);
    } else {
        let value = values[n - 1];
        let behind = tagged_bytes(k as u32, value) + rest;
        let before = if n == 1 {
            state
        } else {
            state.with_field(k, FieldView::Repeated(held + values.take(n - 1)))
        };
        assert(held + values.take(0) =~= held);
        assert(tagged_run_bytes(k as u32, values, n) + rest =~= tagged_run_bytes(
            k as u32,
            values,
            n - 1,
        ) + behind);
        lemma_tagged_run_round_trip(descriptors, descriptor, state, k, held, values, n - 1, behind);
        assert(typed_value(descriptors, declared.field_type, value));
        lemma_tagged_round_trip(descriptors, descriptor, before, k, value, rest);
        assert((held + values.take(n - 1)).push(value) =~= held + values.take(n));
        assert(before.with_field(k, before.field_or_empty(declared).put(value)).fields
            =~= state.with_field(k, FieldView::Repeated(held + values.take(n))).fields);
    }
}

/// A packed run that was written is merged into a repeated field of a
/// numeric kind value by value, and takes the bytes that were written.
pub proof fn lemma_packed_value_round_trip(
    descriptors: Descriptors,
    declared: FieldDescriptor,
    held: Seq<ValueView>,
    values: Seq<ValueView>,
    rest: Seq<u8>,
)
    requires
        declared.repeated(),
        scalar_wire_type(declared.field_type) is Some,
        forall|i: int|
            0 <= i < values.len() ==> typed_value(
                descriptors,
                declared.field_type,
                #[trigger] values[i],
            ),
        run_bytes(values, values.len() as int).len() < 0x1_0000_0000_0000_0000,
    ensures
        merged_field(
            descriptors,
            declared,
            FieldView::Repeated(held),
            WireType::LengthDelimited,
            delimited_bytes(run_bytes(values, values.len() as int)) + rest,
            None,
        ) == Ok::<FieldView, ErrorView>(FieldView::Repeated(held + values)),
        frame_size(
            declared.field_type,
            WireType::LengthDelimited,
            delimited_bytes(run_bytes(values, values.len() as int)) + rest,
        ) == delimited_bytes(run_bytes(values, values.len() as int)).len(),
{
    let n = values.len() as int;
    let run = run_bytes(values, n);
    lemma_delimited_round_trip(run, rest);
    lemma_packed_round_trip(descriptors, declared.field_type, held, values, n, Seq::empty());
    assert(run + Seq::<u8>::empty() =~= run);
    assert(values.take(n) =~= values);
}

/// A packed field of a numeric kind that was written is merged into a
/// message that holds the field: the message then holds the values that
/// were written, after the values that it held.
pub proof fn lemma_packed_field_round_trip(
    descriptors: Descriptors,
    descriptor: MessageDescriptor,
    state: MessageView,
    k: i32,
    held: Seq<ValueView>,
    values: Seq<ValueView>,
    rest: Seq<u8>,
)
    requires
        valid_field_number(k as int),
        descriptor.declared(k) is Some,
        descriptor.declared(k).unwrap().number == k,
        descriptor.declared(k).unwrap().repeated(),
        scalar_wire_type(descriptor.declared(k).unwrap().field_type) is Some,
        state.field_or_empty(descriptor.declared(k).unwrap()) == FieldView::Repeated(held),
        forall|i: int|
            0 <= i < values.len() ==> typed_value(
                descriptors,
                descriptor.declared(k).unwrap().field_type,
                #[trigger] values[i],
            ),
        run_bytes(values, values.len() as int).len() < 0x1_0000_0000_0000_0000,
    ensures
        merged_message(
            descriptors,
            descriptor,
            state,
            tag_bytes(k as u32, WireType::LengthDelimited) + delimited_bytes(
                run_bytes(values, values.len() as int),
            ) + rest,
        ) == merged_message(
            descriptors,
            descriptor,
            state.with_field(k, FieldView::Repeated(held + values)),
            rest,
        ),
{
    let declared = descriptor.declared(k).unwrap();
    let written = delimited_bytes(run_bytes(values, values.len() as int));
    let tag = tag_bytes(k as u32, WireType::LengthDelimited);
    lemma_packed_value_round_trip(descriptors, declared, held, values, rest);
    lemma_declared_step(
        descriptors,
        descriptor,
        state,
        k,
        WireType::LengthDelimited,
        written + rest,
        FieldView::Repeated(held + values),
    );
    lemma_skip_written(written, rest);
    assert(tag + written + rest =~= tag + (written + rest));
}

/// A field as declared that was written is merged into a message that holds
/// the field in its initial state: the message then holds the field as it
/// was written.
pub proof fn lemma_field_round_trip(
    descriptors: Descriptors,
    descriptor: MessageDescriptor,
    state: MessageView,
    k: i32,
    field: FieldView,
    rest: Seq<u8>,
)
    requires
        valid_field_number(k as int),
        descriptor.declared(k) is Some,
        descriptor.declared(k).unwrap().number == k,
        state.fields.contains_key(k),
        state.fields[k] == initial_field(descriptor.declared(k).unwrap()),
        typed_field(descriptors, descriptor.declared(k).unwrap(), field),
    ensures
        merged_message(descriptors, descriptor, state, field_bytes(k as u32, field) + rest)
            == merged_message(descriptors, descriptor, state.with_field(k, field), rest),
    decreases field, 0int,
{
    let declared = descriptor.declared(k).unwrap();
    match field {
        FieldView::Singular(None) => {
            assert(field_bytes(k as u32, field) + rest =~= rest);
            assert(state.with_field(k, field).fields =~= state.fields);
        },
        FieldView::Singular(Some(value)) => {
            lemma_tagged_round_trip(descriptors, descriptor, state, k, value, rest);
        },
        FieldView::Repeated(values) => {
            let n = values.len() as int;
            assert(values.take(n) =~= values);
            assert(Seq::<ValueView>::empty() + values =~= values);
            if n > 0 && packable(values[0]) {
                assert(typed_value(descriptors, declared.field_type, values[0]));
                lemma_packed_field_round_trip(
                    descriptors,
                    descriptor,
                    state,
                    k,
                    Seq::empty(),
                    values,
                    rest,
                );
            } else {
                lemma_tagged_run_round_trip(
                    descriptors,
                    descriptor,
                    state,
                    k,
                    Seq::empty(),
                    values,
                    n,
                    rest,
                );
                if n == 0 {
                    assert(state.with_field(k, field).fields =~= state.fields);
                }
            }
        },
    }
}

// ---------------------------------------------------------------------------
// A whole message
// ---------------------------------------------------------------------------
/// The message that holds the fields of `message` below `bound` and, from
/// `bound` on, the fields of a new message.
pub open spec fn written_below(
    descriptor: MessageDescriptor,
    message: MessageView,
    bound: int,
) -> MessageView {
    MessageView {
        fields: Map::new(
            |k: i32| message.fields.contains_key(k),
            |k: i32|
                if k < bound {
                    message.fields[k]
                } else {
                    new_message(descriptor).fields[k]
                },
        ),
        unknown: no_unknown(),
        descriptor,
    }
}

/// The fields below a bound of a message of the declared type, once written,
/// are merged into a new message as they were.
pub proof fn lemma_fields_round_trip(
    descriptors: Descriptors,
    descriptor: MessageDescriptor,
    message: MessageView,
    bound: int,
    rest: Seq<u8>,
)
    requires
        typed_message(descriptors, descriptor, message),
        -0x8000_0000 <= bound <= 0x8000_0000,
    ensures
        merged_message(
            descriptors,
            descriptor,
            new_message(descriptor),
            fields_bytes(message.fields, bound) + rest,
        ) == merged_message(
            descriptors,
            descriptor,
            written_below(descriptor, message, bound),
            rest,
        ),
    decreases message, bound + 0x8000_0000,
{
    let fresh = new_message(descriptor);
    assert forall|k: i32| fresh.fields.contains_key(k) == message.fields.contains_key(k) by {
        lemma_new_message(descriptor, k);
    }
    if bound == -0x8000_0000 {
        assert(fields_bytes(message.fields, bound) + rest =~= rest);
        assert(written_below(descriptor, message, bound).fields =~= fresh.fields);
    } else {
        let k = (bound - 1) as i32;
        let lower = written_below(descriptor, message, bound - 1);
        if message.fields.contains_key(k) {
            let field = message.fields[k];
            let behind = field_bytes(k as u32, field) + rest;
            assert(fields_bytes(message.fields, bound) + rest =~= fields_bytes(
                message.fields,
                bound - 1,
            ) + behind);
            lemma_fields_round_trip(descriptors, descriptor, message, bound - 1, behind);
            lemma_new_message(descriptor, k);
            lemma_field_round_trip(descriptors, descriptor, lower, k, field, rest);
            assert(lower.with_field(k, field).fields =~= written_below(
                descriptor,
                message,
                bound,
            ).fields);
        } else {
            lemma_fields_round_trip(descriptors, descriptor, message, bound - 1, rest);
            assert(lower.fields =~= written_below(descriptor, message, bound).fields);
        }
    }
}

/// Round trip: a message of a declared type, once written, is decoded into
/// a new message of that type as the message that it was.
pub proof fn law_round_trip(
    descriptors: Descriptors,
    descriptor: MessageDescriptor,
    message: MessageView,
)
    requires
        typed_message(descriptors, descriptor, message),
    ensures
        merged_message(descriptors, descriptor, new_message(descriptor), message_bytes(message))
            == Ok::<MessageView, ErrorView>(message),
    decreases message, 0x1_0000_0001int,
{
    let whole = written_below(descriptor, message, 0x8000_0000);
    lemma_fields_round_trip(descriptors, descriptor, message, 0x8000_0000, Seq::empty());
    assert(message_bytes(message) + Seq::<u8>::empty() =~= message_bytes(message));
    assert(whole.fields =~= message.fields);
    assert(whole == message);
}

/// Packed or not, a run of values is merged alike: the values of a repeated
/// field of a numeric kind, written as one packed run or one by one, each
/// with its tag, come to stand in the field in the same order, after the
/// values that the field held. Where there is a value, or the message has
/// the field, the two messages are the same.
pub proof fn law_packed_as_unpacked(
    descriptors: Descriptors,
    descriptor: MessageDescriptor,
    state: MessageView,
    k: i32,
    held: Seq<ValueView>,
    values: Seq<ValueView>,
)
    requires
        valid_field_number(k as int),
        descriptor.declared(k) is Some,
        descriptor.declared(k).unwrap().repeated(),
        scalar_wire_type(descriptor.declared(k).unwrap().field_type) is Some,
        state.field_or_empty(descriptor.declared(k).unwrap()) == FieldView::Repeated(held),
        forall|i: int|
            0 <= i < values.len() ==> typed_value(
                descriptors,
                descriptor.declared(k).unwrap().field_type,
                #[trigger] values[i],
            ),
        run_bytes(values, values.len() as int).len() < 0x1_0000_0000_0000_0000,
    ensures
        merged_message(
            descriptors,
            descriptor,
            state,
            tag_bytes(k as u32, WireType::LengthDelimited) + delimited_bytes(
                run_bytes(values, values.len() as int),
            ),
        ) matches Ok(packed) && merged_message(
            descriptors,
            descriptor,
            state,
            tagged_run_bytes(k as u32, values, values.len() as int),
        ) matches Ok(unpacked) && packed.field_or_empty(descriptor.declared(k).unwrap())
            == FieldView::Repeated(held + values) && unpacked.field_or_empty(
            descriptor.declared(k).unwrap(),
        ) == FieldView::Repeated(held + values) && (values.len() > 0 || state.fields.contains_key(
            k,
        ) ==> packed == unpacked),
{
    let declared = descriptor.declared(k).unwrap();
    let n = values.len() as int;
    let nothing = Seq::<u8>::empty();
    let packed_bytes = tag_bytes(k as u32, WireType::LengthDelimited) + delimited_bytes(
        run_bytes(values, n),
    );
    let unpacked_bytes = tagged_run_bytes(k as u32, values, n);
    lemma_field_position(descriptor.fields@, k, 0);
    lemma_packed_field_round_trip(descriptors, descriptor, state, k, held, values, nothing);
    lemma_tagged_run_round_trip(descriptors, descriptor, state, k, held, values, n, nothing);
    assert(packed_bytes + nothing =~= packed_bytes);
    assert(unpacked_bytes + nothing =~= unpacked_bytes);
    assert(values.take(n) =~= values);
    if n == 0 {
        assert(held + values =~= held);
        if state.fields.contains_key(k) {
            assert(state.with_field(k, FieldView::Repeated(held + values)).fields
                =~= state.fields);
        }
    }
}

// ---------------------------------------------------------------------------
// Unknown fields apart
// ---------------------------------------------------------------------------
/// `value` without the unknown fields of the messages in it.
pub open spec fn known_value(value: ValueView) -> ValueView
    decreases value, 0int,
{
    match value {
        ValueView::Message(m) => ValueView::Message(known_message(m)),
        _ => value,
    }
}

/// `field` without the unknown fields of the messages in it.
pub open spec fn known_field(field: FieldView) -> FieldView
    decreases field, 0int,
{
    match field {
        FieldView::Singular(None) => field,
        FieldView::Singular(Some(value)) => FieldView::Singular(Some(known_value(value))),
        FieldView::Repeated(values) => FieldView::Repeated(
            Seq::new(
                values.len(),
                |i: int|
                    if 0 <= i < values.len() {
                        known_value(values[i])
                    } else {
                        arbitrary()
                    },
            ),
        ),
    }
}

/// `message` without its unknown fields and those of the messages in it.
pub open spec fn known_message(message: MessageView) -> MessageView
    decreases message, 0int,
{
    MessageView {
        fields: Map::new(
            |k: i32| message.fields.contains_key(k),
            |k: i32|
                if message.fields.contains_key(k) {
                    known_field(message.fields[k])
                } else {
                    arbitrary()
                },
        ),
        unknown: no_unknown(),
        descriptor: message.descriptor,
    }
}

/// Unknown fields are not written: a value is written as it is written
/// without them.
pub proof fn lemma_known_value_bytes(value: ValueView)
    ensures
        value_bytes(known_value(value)) == value_bytes(value),
        wire_type_of(known_value(value)) == wire_type_of(value),
        packable(known_value(value)) == packable(value),
    decreases value, 0int,
{
    if let ValueView::Message(m) = value {
        lemma_known_fields_bytes(m, 0x8000_0000);
    }
}

/// Unknown fields are not written: a run of values is written as it is
/// written without them.
pub proof fn lemma_known_run_bytes(number: u32, values: Seq<ValueView>, n: int)
    requires
        0 <= n <= values.len(),
    ensures
        run_bytes(known_field(FieldView::Repeated(values))->Repeated_0, n) == run_bytes(values, n),
        tagged_run_bytes(number, known_field(FieldView::Repeated(values))->Repeated_0, n)
            == tagged_run_bytes(number, values, n),
    decreases values, n,
{
    if n > 0 {
        let known = known_field(FieldView::Repeated(values))->Repeated_0;
        lemma_known_run_bytes(number, values, n - 1);
        lemma_known_value_bytes(values[n - 1]);
        assert(known[n - 1] == known_value(values[n - 1]));
        assert(tagged_bytes(number, known[n - 1]) == tagged_bytes(number, values[n - 1]));
    }
}

/// Unknown fields are not written: a field is written as it is written
/// without them.
pub proof fn lemma_known_field_bytes(number: u32, field: FieldView)
    ensures
        field_bytes(number, known_field(field)) == field_bytes(number, field),
    decreases field, 1int,
{
    match field {
        FieldView::Singular(None) => {},
        FieldView::Singular(Some(value)) => {
            lemma_known_value_bytes(value);
        },
        FieldView::Repeated(values) => {
            lemma_known_run_bytes(number, values, values.len() as int);
            if values.len() > 0 {
                lemma_known_value_bytes(values[0]);
            }
        },
    }
}

/// Unknown fields are not written: the fields of a message below a bound are
/// written as they are written without them.
pub proof fn lemma_known_fields_bytes(message: MessageView, bound: int)
    ensures
        fields_bytes(known_message(message).fields, bound) == fields_bytes(message.fields, bound),
    decreases message, bound + 0x8000_0000,
{
    if -0x8000_0000 < bound <= 0x8000_0000 {
        lemma_known_fields_bytes(message, bound - 1);
        let k = (bound - 1) as i32;
        if message.fields.contains_key(k) {
            lemma_known_field_bytes(k as u32, message.fields[k]);
        }
    }
}

/// Round trip, unknown fields apart: a message that, but for unknown fields
/// in it, is a message of a declared type is, once written, decoded into a
/// new message of that type as the message that it was without them.
pub proof fn law_round_trip_of_known(
    descriptors: Descriptors,
    descriptor: MessageDescriptor,
    message: MessageView,
)
    requires
        typed_message(descriptors, descriptor, known_message(message)),
    ensures
        merged_message(descriptors, descriptor, new_message(descriptor), message_bytes(message))
            == Ok::<MessageView, ErrorView>(known_message(message)),
{
    lemma_known_fields_bytes(message, 0x8000_0000);
    law_round_trip(descriptors, descriptor, known_message(message));
}

// ---------------------------------------------------------------------------
// Writing again what was decoded
// ---------------------------------------------------------------------------
/// A value of a declared kind can be written.
pub proof fn lemma_typed_value_writable(
    descriptors: Descriptors,
    kind: FieldType,
    value: ValueView,
)
    requires
        typed_value(descriptors, kind, value),
    ensures
        value_writable(value),
    decreases value, 0int,
{
    if let ValueView::Message(m) = value {
        let name = kind->Message_0;
        lemma_typed_message_writable(descriptors, descriptors.message(name@).unwrap(), m);
    }
}

/// A field as declared can be written under a number that a tag can carry.
pub proof fn lemma_typed_field_writable(
    descriptors: Descriptors,
    declared: FieldDescriptor,
    number: u32,
    field: FieldView,
)
    requires
        typed_field(descriptors, declared, field),
        valid_field_number(number as int),
    ensures
        field_writable(number, field),
    decreases field, 0int,
{
    match field {
        FieldView::Singular(None) => {},
        FieldView::Singular(Some(value)) => {
            lemma_typed_value_writable(descriptors, declared.field_type, value);
        },
        FieldView::Repeated(values) => {
            assert forall|i: int| 0 <= i < values.len() implies value_writable(
                #[trigger] values[i],
            ) by {
                lemma_typed_value_writable(descriptors, declared.field_type, values[i]);
            }
        },
    }
}

/// A message of a declared type can be written.
pub proof fn lemma_typed_message_writable(
    descriptors: Descriptors,
    descriptor: MessageDescriptor,
    message: MessageView,
)
    requires
        typed_message(descriptors, descriptor, message),
    ensures
        message_writable(message),
    decreases message, 0int,
{
    assert forall|k: i32| #[trigger] message.fields.contains_key(k) implies k >= 0
        && field_writable(k as u32, message.fields[k]) by {
        lemma_typed_field_writable(
            descriptors,
            descriptor.declared(k).unwrap(),
            k as u32,
            message.fields[k],
        );
    }
}

/// Whether `bytes` are canonical for a message type: the bytes that some
/// message of that type is written as. Such bytes hold the fields in the
/// order of their numbers, each singular field once at most, and the values
/// of a repeated field of a numeric kind as one packed run.
pub open spec fn canonical_bytes(
    descriptors: Descriptors,
    descriptor: MessageDescriptor,
    bytes: Seq<u8>,
) -> bool {
    exists|message: MessageView| #[trigger]
        typed_message(descriptors, descriptor, message) && bytes == message_bytes(message)
}

/// What is decoded from the bytes of a message of a declared type can be
/// written, and is written as those bytes.
pub proof fn law_written_again(
    descriptors: Descriptors,
    descriptor: MessageDescriptor,
    message: MessageView,
)
    requires
        typed_message(descriptors, descriptor, message),
    ensures
        merged_message(
            descriptors,
            descriptor,
            new_message(descriptor),
            message_bytes(message),
        ) matches Ok(decoded) && message_writable(decoded) && message_bytes(decoded)
            == message_bytes(message),
{
    law_round_trip(descriptors, descriptor, message);
    lemma_typed_message_writable(descriptors, descriptor, message);
}

/// Canonical bytes are reproduced: what is decoded from canonical bytes into
/// a new message can be written, and is written as those bytes.
pub proof fn law_canonical_bytes_reproduced(
    descriptors: Descriptors,
    descriptor: MessageDescriptor,
    bytes: Seq<u8>,
)
    requires
        canonical_bytes(descriptors, descriptor, bytes),
    ensures
        merged_message(descriptors, descriptor, new_message(descriptor), bytes) matches Ok(
            decoded,
        ) && message_writable(decoded) && message_bytes(decoded) == bytes,
{
    let message = choose|message: MessageView| #[trigger]
        typed_message(descriptors, descriptor, message) && bytes == message_bytes(message);
    law_written_again(descriptors, descriptor, message);
}

} // verus!
