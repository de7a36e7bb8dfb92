//! The invariant of messages: every field is a declared one and holds values
//! of the declared kind. New messages have it and merging keeps it.

use vstd::prelude::*;
use crate::descriptor::{
    distinct_numbers, field_position, lemma_field_position, message_position, Descriptors,
    FieldDescriptor, FieldType, MessageDescriptor,
};
use crate::model::{
    frame_size, lemma_frame_size, lemma_new_message, mask_below, merge_base, merged_field,
    merged_masked, merged_message, new_message, packed_run, plain_at, scalar_at, scalar_wire_type,
    selected_field, Mask,
};
use crate::unknown::{lemma_unknown_size, unknown_at};
use crate::value::{FieldView, MessageView, ValueView};
use crate::wire::{
    as_signed32, delimited_at, lemma_number_size, lemma_varint_size_bounds, low32, tag_at,
    varint_at, WireType,
};

verus! {

/// Whether `value` is of the variant that stands for the declared kind; a
/// message is one of the named type, well formed, and an enum one of a
/// type that the descriptors hold.
pub open spec fn well_formed_value(
    descriptors: Descriptors,
    kind: FieldType,
    value: ValueView,
) -> bool
    decreases value, 0int,
{
    match (kind, value) {
        (FieldType::Bool, ValueView::Bool(_)) => true,
        (FieldType::Int32, ValueView::I32(_)) => true,
        (FieldType::Int64, ValueView::I64(_)) => true,
        (FieldType::SInt32, ValueView::S32(_)) => true,
        (FieldType::SInt64, ValueView::S64(_)) => true,
        (FieldType::UInt32, ValueView::U32(_)) => true,
        (FieldType::UInt64, ValueView::U64(_)) => true,
        (FieldType::Fixed32, ValueView::Fixed32(_)) => true,
        (FieldType::Fixed64, ValueView::Fixed64(_)) => true,
        (FieldType::SFixed32, ValueView::SFixed32(_)) => true,
        (FieldType::SFixed64, ValueView::SFixed64(_)) => true,
        (FieldType::Float, ValueView::F32(_)) => true,
        (FieldType::Double, ValueView::F64(_)) => true,
        (FieldType::Bytes, ValueView::Bytes(_)) => true,
        (FieldType::String, ValueView::String(_)) => true,
        (FieldType::Enum(name), ValueView::Enum(_)) => descriptors.enumeration(name@) is Some,
        (FieldType::Message(name), ValueView::Message(m)) => match descriptors.message(name@) {
            Some(nested) => well_formed_message(descriptors, nested, m),
            None => false,
        },
        _ => false,
    }
}

/// Whether `field` is repeated or singular as declared and every value in it
/// is of the declared kind: a repeated field never mixes kinds.
pub open spec fn well_formed_field(
    descriptors: Descriptors,
    declared: FieldDescriptor,
    field: FieldView,
) -> bool
    decreases field, 0int,
{
    match field {
        FieldView::Singular(None) => !declared.repeated(),
        FieldView::Singular(Some(value)) => !declared.repeated() && well_formed_value(
            descriptors,
            declared.field_type,
            value,
        ),
        FieldView::Repeated(values) => declared.repeated() && forall|i: int|
            0 <= i < values.len() ==> well_formed_value(
                descriptors,
                declared.field_type,
                #[trigger] values[i],
            ),
    }
}

/// Whether `message` is well formed for its type: it knows its descriptor,
/// and each of its fields stands under the number of a declared field and is
/// well formed for it. Data of undeclared numbers is in no field.
pub open spec fn well_formed_message(
    descriptors: Descriptors,
    descriptor: MessageDescriptor,
    message: MessageView,
) -> bool
    decreases message, 0int,
{
    &&& message.descriptor == descriptor
    &&& forall|k: i32| #[trigger]
        message.fields.contains_key(k) ==> descriptor.declared(k) is Some && well_formed_field(
            descriptors,
            descriptor.declared(k).unwrap(),
            message.fields[k],
        )
}

/// Whether the default value of a field, if it has one, is of the kind of
/// the field.
pub open spec fn default_well_formed(descriptors: Descriptors, declared: FieldDescriptor) -> bool {
    match declared.default_view() {
        Some(value) => well_formed_value(descriptors, declared.field_type, value),
        None => true,
    }
}

/// Whether the default values of a message type are of the kinds of their
/// fields.
pub open spec fn defaults_well_formed(
    descriptors: Descriptors,
    descriptor: MessageDescriptor,
) -> bool {
    forall|i: int|
        0 <= i < descriptor.fields@.len() ==> default_well_formed(
            descriptors,
            #[trigger] descriptor.fields@[i],
        )
}

/// Whether the descriptors are well formed: the default values of each
/// message type are of the kinds of their fields, and no message type
/// declares a number twice.
pub open spec fn well_formed_descriptors(descriptors: Descriptors) -> bool {
    forall|i: int|
        0 <= i < descriptors.messages@.len() ==> defaults_well_formed(
            descriptors,
            #[trigger] descriptors.messages@[i],
        ) && distinct_numbers(descriptors.messages@[i].fields@)
}

/// A message type that the descriptors hold is one of their message types.
proof fn lemma_message_held(descriptors: Descriptors, name: Seq<char>, from: int)
    requires
        0 <= from,
    ensures
        message_position(descriptors.messages@, name, from) matches Some(i)
            ==> from <= i < descriptors.messages@.len(),
    decreases descriptors.messages@.len() - from,
{
    if from < descriptors.messages@.len() && descriptors.messages@[from].name@ != name {
        lemma_message_held(descriptors, name, from + 1);
    }
}

/// A new message is well formed, where the defaults of its type are and the
/// type declares no number twice.
pub proof fn law_new_message_well_formed(descriptors: Descriptors, descriptor: MessageDescriptor)
    requires
        defaults_well_formed(descriptors, descriptor),
        distinct_numbers(descriptor.fields@),
    ensures
        well_formed_message(descriptors, descriptor, new_message(descriptor)),
{
    let fresh = new_message(descriptor);
    assert forall|k: i32| #[trigger] fresh.fields.contains_key(k) implies descriptor.declared(k)
        is Some && well_formed_field(
        descriptors,
        descriptor.declared(k).unwrap(),
        fresh.fields[k],
    ) by {
        lemma_new_message(descriptor, k);
        lemma_field_position(descriptor.fields@, k, 0);
        let i = field_position(descriptor.fields@, k, 0).unwrap();
        assert(descriptor.fields@[i] == descriptor.declared(k).unwrap());
    }
}

/// A value that is put into a well-formed field, and is of the declared
/// kind, leaves the field well formed.
pub proof fn lemma_put_well_formed(
    descriptors: Descriptors,
    declared: FieldDescriptor,
    field: FieldView,
    value: ValueView,
)
    requires
        well_formed_field(descriptors, declared, field),
        well_formed_value(descriptors, declared.field_type, value),
    ensures
        well_formed_field(descriptors, declared, field.put(value)),
{
    if let FieldView::Repeated(values) = field {
        let after = values.push(value);
        assert forall|i: int| 0 <= i < after.len() implies well_formed_value(
            descriptors,
            declared.field_type,
            #[trigger] after[i],
        ) by {
            if i < values.len() {
                assert(after[i] == values[i]);
            }
        }
    }
}

/// A packed run leaves a well-formed field well formed.
pub proof fn lemma_packed_run_well_formed(
    descriptors: Descriptors,
    declared: FieldDescriptor,
    field: FieldView,
    bytes: Seq<u8>,
)
    requires
        well_formed_field(descriptors, declared, field),
        scalar_wire_type(declared.field_type) is Some,
    ensures
        packed_run(declared.field_type, field, bytes) matches Ok(after) ==> well_formed_field(
            descriptors,
            declared,
            after,
        ),
    decreases bytes.len(),
{
    if bytes.len() > 0 {
        if let Some((value, n)) = scalar_at(declared.field_type, bytes) {
            lemma_number_size(scalar_wire_type(declared.field_type).unwrap(), bytes);
            lemma_put_well_formed(descriptors, declared, field, value);
            lemma_packed_run_well_formed(
                descriptors,
                declared,
                field.put(value),
                bytes.skip(n as int),
            );
        }
    }
}

/// Merging keeps a field well formed: whatever arrives, where the merge
/// succeeds the field holds values of the declared kind only.
pub proof fn law_merged_field_well_formed(
    descriptors: Descriptors,
    declared: FieldDescriptor,
    current: FieldView,
    wire_type: WireType,
    bytes: Seq<u8>,
    mask: Option<Mask>,
)
    requires
        well_formed_descriptors(descriptors),
        well_formed_field(descriptors, declared, current),
    ensures
        merged_field(descriptors, declared, current, wire_type, bytes, mask) matches Ok(after)
            ==> well_formed_field(descriptors, declared, after),
    decreases bytes.len(), 0int,
{
    if let Ok(after) = merged_field(descriptors, declared, current, wire_type, bytes, mask) {
        match declared.field_type {
            FieldType::Group => {},
            FieldType::Enum(_) => {
                let v = varint_at(bytes).unwrap().0;
                lemma_put_well_formed(
                    descriptors,
                    declared,
                    current,
                    ValueView::Enum(as_signed32(low32(v))),
                );
            },
            FieldType::Message(name) => {
                let nested = descriptors.message(name@).unwrap();
                let payload = delimited_at(bytes).unwrap().0;
                lemma_varint_size_bounds(bytes);
                lemma_message_held(descriptors, name@, 0);
                let base = merge_base(current, nested);
                if current matches FieldView::Singular(Some(ValueView::Message(m))) {
                    assert(well_formed_message(descriptors, nested, base));
                } else {
                    law_new_message_well_formed(descriptors, nested);
                }
                match mask {
                    Some(paths) => {
                        law_merged_masked_well_formed(descriptors, nested, base, payload, paths);
                        let m = merged_masked(descriptors, nested, base, payload, paths)->Ok_0;
                        lemma_put_well_formed(
                            descriptors,
                            declared,
                            current,
                            ValueView::Message(m),
                        );
                    },
                    None => {
                        law_merged_message_well_formed(descriptors, nested, base, payload);
                        let m = merged_message(descriptors, nested, base, payload)->Ok_0;
                        lemma_put_well_formed(
                            descriptors,
                            declared,
                            current,
                            ValueView::Message(m),
                        );
                    },
                }
            },
            kind => {
                if wire_type == WireType::LengthDelimited && declared.repeated()
                    && scalar_wire_type(kind) is Some {
                    let payload = delimited_at(bytes).unwrap().0;
                    lemma_packed_run_well_formed(descriptors, declared, current, payload);
                } else {
                    let value = plain_at(kind, bytes).unwrap().0;
                    lemma_put_well_formed(descriptors, declared, current, value);
                }
            },
        }
    }
}

/// A well-formed field under the number of its declaration leaves a
/// well-formed message well formed.
pub proof fn lemma_with_field_well_formed(
    descriptors: Descriptors,
    descriptor: MessageDescriptor,
    message: MessageView,
    number: i32,
    field: FieldView,
)
    requires
        well_formed_message(descriptors, descriptor, message),
        descriptor.declared(number) is Some,
        well_formed_field(descriptors, descriptor.declared(number).unwrap(), field),
    ensures
        well_formed_message(descriptors, descriptor, message.with_field(number, field)),
{
    let after = message.with_field(number, field);
    assert forall|k: i32| #[trigger] after.fields.contains_key(k) implies descriptor.declared(k)
        is Some && well_formed_field(
        descriptors,
        descriptor.declared(k).unwrap(),
        after.fields[k],
    ) by {
        if k != number {
            assert(message.fields.contains_key(k));
        }
    }
}

/// Merging keeps a message well formed: whatever arrives, where the merge
/// succeeds every field of the message is a declared one and holds values
/// of the declared kind only.
pub proof fn law_merged_message_well_formed(
    descriptors: Descriptors,
    descriptor: MessageDescriptor,
    message: MessageView,
    bytes: Seq<u8>,
)
    requires
        well_formed_descriptors(descriptors),
        well_formed_message(descriptors, descriptor, message),
    ensures
        merged_message(descriptors, descriptor, message, bytes) matches Ok(after)
            ==> well_formed_message(descriptors, descriptor, after),
    decreases bytes.len(), 1int,
{
    if bytes.len() > 0 {
        if let Some((number, wire_type, n)) = tag_at(bytes) {
            lemma_varint_size_bounds(bytes);
            let rest = bytes.skip(n as int);
            lemma_unknown_size(wire_type, rest);
            match descriptor.declared(number as i32) {
                Some(field) => {
                    lemma_field_position(descriptor.fields@, number as i32, 0);
                    let current = message.field_or_empty(field);
                    if let Ok(f) = merged_field(
                        descriptors,
                        field,
                        current,
                        wire_type,
                        rest,
                        None,
                    ) {
                        lemma_frame_size(field.field_type, wire_type, rest);
                        law_merged_field_well_formed(
                            descriptors,
                            field,
                            current,
                            wire_type,
                            rest,
                            None,
                        );
                        lemma_with_field_well_formed(
                            descriptors,
                            descriptor,
                            message,
                            field.number,
                            f,
                        );
                        law_merged_message_well_formed(
                            descriptors,
                            descriptor,
                            message.with_field(field.number, f),
                            rest.skip(frame_size(field.field_type, wire_type, rest) as int),
                        );
                    }
                },
                None => {
                    if let Some((kept, k)) = unknown_at(wire_type, rest) {
                        law_merged_message_well_formed(
                            descriptors,
                            descriptor,
                            message.with_unknown(number, kept),
                            rest.skip(k as int),
                        );
                    }
                },
            }
        }
    }
}

/// Merging under a mask keeps a message well formed.
pub proof fn law_merged_masked_well_formed(
    descriptors: Descriptors,
    descriptor: MessageDescriptor,
    message: MessageView,
    bytes: Seq<u8>,
    mask: Mask,
)
    requires
        well_formed_descriptors(descriptors),
        well_formed_message(descriptors, descriptor, message),
    ensures
        merged_masked(descriptors, descriptor, message, bytes, mask) matches Ok(after)
            ==> well_formed_message(descriptors, descriptor, after),
    decreases bytes.len(), 1int,
{
    if bytes.len() > 0 {
        if let Some((number, wire_type, n)) = tag_at(bytes) {
            lemma_varint_size_bounds(bytes);
            let rest = bytes.skip(n as int);
            lemma_unknown_size(wire_type, rest);
            if selected_field(descriptor, mask, number) is Some {
                let field = descriptor.declared(number as i32).unwrap();
                lemma_field_position(descriptor.fields@, number as i32, 0);
                let current = message.field_or_empty(field);
                let below = mask_below(mask, field.name@);
                if let Ok(f) = merged_field(descriptors, field, current, wire_type, rest, below) {
                    lemma_frame_size(field.field_type, wire_type, rest);
                    law_merged_field_well_formed(
                        descriptors,
                        field,
                        current,
                        wire_type,
                        rest,
                        below,
                    );
                    lemma_with_field_well_formed(
                        descriptors,
                        descriptor,
                        message,
                        field.number,
                        f,
                    );
                    law_merged_masked_well_formed(
                        descriptors,
                        descriptor,
                        message.with_field(field.number, f),
                        rest.skip(frame_size(field.field_type, wire_type, rest) as int),
                        mask,
                    );
                }
            } else {
                if let Some((_, k)) = unknown_at(wire_type, rest) {
                    law_merged_masked_well_formed(
                        descriptors,
                        descriptor,
                        message,
                        rest.skip(k as int),
                        mask,
                    );
                }
            }
        }
    }
}

} // verus!
