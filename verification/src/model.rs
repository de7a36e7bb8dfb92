//! What decoding and encoding compute, as functions on byte sequences and on
//! the mathematical values of messages.

use vstd::prelude::*;
use vstd::utf8::{decode_utf8, encode_utf8, valid_utf8};
use crate::descriptor::{
    distinct_numbers, field_position, lemma_field_position, Descriptors, FieldDescriptor, FieldType,
    MessageDescriptor,
};
use crate::error::ErrorView;
use crate::unknown::{lemma_unknown_size, no_unknown, unknown_at, with_read, UnknownValue};
use crate::value::{FieldView, MessageView, ValueView};
use crate::wire::{
    as_signed32, as_signed64, as_unsigned32, as_unsigned64, counted_at, counted_bytes, delimited_at,
    delimited_bytes, fixed32_bytes, fixed64_bytes, lemma_number_size, lemma_varint_size_bounds,
    low32, number_at, tag_at, tag_bytes, unzigzag32, unzigzag64, valid_field_number, varint_at,
    varint_bytes, zigzag32, zigzag64, WireType,
};

verus! {

/// A field mask: a list of paths, each a list of field names.
pub type Mask = Seq<Seq<Seq<char>>>;

// ---------------------------------------------------------------------------
// New messages
// ---------------------------------------------------------------------------
/// The field that stands for `field` where a merge meets it for the first
/// time: empty.
pub open spec fn empty_field(field: FieldDescriptor) -> FieldView {
    if field.repeated() {
        FieldView::Repeated(Seq::empty())
    } else {
        FieldView::Singular(None)
    }
}

/// The field that a new message holds for `field`: empty if it is repeated,
/// else its default value.
pub open spec fn initial_field(field: FieldDescriptor) -> FieldView {
    if field.repeated() {
        FieldView::Repeated(Seq::empty())
    } else {
        FieldView::Singular(field.default_view())
    }
}

/// The fields of a new message after the first `n` declared fields have been
/// entered; of two fields with one number the later one stays.
pub open spec fn initial_fields(fields: Seq<FieldDescriptor>, n: int) -> Map<i32, FieldView>
    decreases n,
{
    if n <= 0 {
        Map::empty()
    } else {
        initial_fields(fields, n - 1).insert(fields[n - 1].number, initial_field(fields[n - 1]))
    }
}

/// The new message of a type: every declared field in its initial state, and
/// no unknown fields.
pub open spec fn new_message(descriptor: MessageDescriptor) -> MessageView {
    MessageView {
        fields: initial_fields(descriptor.fields@, descriptor.fields@.len() as int),
        unknown: no_unknown(),
        descriptor,
    }
}

/// The fields of a new message: one under the number of each declared field.
pub proof fn lemma_initial_fields(fields: Seq<FieldDescriptor>, n: int)
    requires
        0 <= n <= fields.len(),
        distinct_numbers(fields),
    ensures
        forall|k: i32| #[trigger]
            initial_fields(fields, n).contains_key(k) <==> exists|j: int|
                0 <= j < n && (#[trigger] fields[j]).number == k,
        forall|j: int|
            0 <= j < n ==> initial_fields(fields, n)[(#[trigger] fields[j]).number]
                == initial_field(fields[j]),
    decreases n,
{
    if n > 0 {
        lemma_initial_fields(fields, n - 1);
        let last = fields[n - 1];
        assert forall|k: i32| #[trigger]
            initial_fields(fields, n).contains_key(k) implies exists|j: int|
            0 <= j < n && (#[trigger] fields[j]).number == k by {
            if k == last.number {
                assert(fields[n - 1].number == k);
            } else {
                let j = choose|j: int| 0 <= j < n - 1 && (#[trigger] fields[j]).number == k;
                assert(0 <= j < n && fields[j].number == k);
            }
        }
    }
}

/// A new message of a type that declares no number twice holds, under the
/// number of each declared field and under no other, that field in its
/// initial state.
pub proof fn lemma_new_message(descriptor: MessageDescriptor, k: i32)
    requires
        distinct_numbers(descriptor.fields@),
    ensures
        new_message(descriptor).fields.contains_key(k) <==> descriptor.declared(k) is Some,
        descriptor.declared(k) matches Some(field) ==> field.number == k && new_message(
            descriptor,
        ).fields[k] == initial_field(field),
{
    let fields = descriptor.fields@;
    lemma_initial_fields(fields, fields.len() as int);
    lemma_field_position(fields, k, 0);
    if new_message(descriptor).fields.contains_key(k) {
        let j = choose|j: int| 0 <= j < fields.len() && (#[trigger] fields[j]).number == k;
        assert(fields[j].number == k);
    }
    if let Some(i) = field_position(fields, k, 0) {
        assert(fields[i].number == k);
    }
}

impl FieldView {
    /// The field without the value of a singular field; a repeated field as
    /// it is.
    pub open spec fn emptied(self) -> FieldView {
        match self {
            FieldView::Singular(_) => FieldView::Singular(None),
            FieldView::Repeated(_) => self,
        }
    }

    /// The field after `value` has been put into it: a singular field holds
    /// `value` alone, a repeated field holds it after the values it had.
    pub open spec fn put(self, value: ValueView) -> FieldView {
        match self {
            FieldView::Singular(_) => FieldView::Singular(Some(value)),
            FieldView::Repeated(values) => FieldView::Repeated(values.push(value)),
        }
    }
}

impl MessageView {
    /// The field under the number of `field`; an empty one where the message
    /// has none.
    pub open spec fn field_or_empty(self, field: FieldDescriptor) -> FieldView {
        if self.fields.contains_key(field.number) {
            self.fields[field.number]
        } else {
            empty_field(field)
        }
    }

    /// The message with `field` under `number`.
    pub open spec fn with_field(self, number: i32, field: FieldView) -> MessageView {
        MessageView { fields: self.fields.insert(number, field), ..self }
    }

    /// The message after an undeclared field has been read, with the value
    /// that was kept of it, if one was.
    pub open spec fn with_unknown(self, number: u32, kept: Option<UnknownValue>) -> MessageView {
        MessageView { unknown: with_read(self.unknown, number, kept), ..self }
    }
}

// ---------------------------------------------------------------------------
// Scalars
// ---------------------------------------------------------------------------
/// The wire type of a single value of a numeric kind; `None` for the other
/// kinds.
pub open spec fn scalar_wire_type(kind: FieldType) -> Option<WireType> {
    match kind {
        FieldType::Bool
        | FieldType::Int32
        | FieldType::Int64
        | FieldType::SInt32
        | FieldType::SInt64
        | FieldType::UInt32
        | FieldType::UInt64 => Some(WireType::Varint),
        FieldType::Fixed32 | FieldType::SFixed32 | FieldType::Float => Some(WireType::Fixed32),
        FieldType::Fixed64 | FieldType::SFixed64 | FieldType::Double => Some(WireType::Fixed64),
        _ => None,
    }
}

/// The value of a numeric kind that the number `bits` stands for, `bits`
/// being what a varint or a fixed-width number on the wire held.
pub open spec fn scalar_value(kind: FieldType, bits: u64) -> ValueView {
    match kind {
        FieldType::Bool => ValueView::Bool(low32(bits) != 0),
        FieldType::Int32 => ValueView::I32(as_signed32(low32(bits))),
        FieldType::Int64 => ValueView::I64(as_signed64(bits)),
        FieldType::SInt32 => ValueView::S32(unzigzag32(low32(bits))),
        FieldType::SInt64 => ValueView::S64(unzigzag64(bits)),
        FieldType::UInt32 => ValueView::U32(low32(bits)),
        FieldType::UInt64 => ValueView::U64(bits),
        FieldType::Fixed32 => ValueView::Fixed32(low32(bits)),
        FieldType::SFixed32 => ValueView::SFixed32(as_signed32(low32(bits))),
        FieldType::Float => ValueView::F32(low32(bits)),
        FieldType::Fixed64 => ValueView::Fixed64(bits),
        FieldType::SFixed64 => ValueView::SFixed64(as_signed64(bits)),
        _ => ValueView::F64(bits),
    }
}

/// The value of a numeric kind at the head of `bytes`, and its size.
pub open spec fn scalar_at(kind: FieldType, bytes: Seq<u8>) -> Option<(ValueView, nat)> {
    match scalar_wire_type(kind) {
        Some(wire_type) => match number_at(wire_type, bytes) {
            Some((bits, n)) => Some((scalar_value(kind, bits), n)),
            None => None,
        },
        None => None,
    }
}

/// The wire type of a single value of a numeric kind, of a string or of
/// bytes; `None` for enums, messages and groups.
pub open spec fn plain_wire_type(kind: FieldType) -> Option<WireType> {
    match kind {
        FieldType::Bytes | FieldType::String => Some(WireType::LengthDelimited),
        _ => scalar_wire_type(kind),
    }
}

/// The value of a numeric kind, the string or the bytes at the head of
/// `bytes`, and its size. A string is there only where its payload is valid
/// UTF-8.
pub open spec fn plain_at(kind: FieldType, bytes: Seq<u8>) -> Option<(ValueView, nat)> {
    match kind {
        FieldType::Bytes => match counted_at(bytes) {
            Some((payload, n)) => Some((ValueView::Bytes(payload), n)),
            None => None,
        },
        FieldType::String => match counted_at(bytes) {
            Some((payload, n)) => if valid_utf8(payload) {
                Some((ValueView::String(decode_utf8(payload)), n))
            } else {
                None
            },
            None => None,
        },
        _ => scalar_at(kind, bytes),
    }
}

/// The wire type that a single value of the declared kind is framed with;
/// `None` for a group and for an enum or message type that the descriptors
/// do not hold.
pub open spec fn expected_wire_type(descriptors: Descriptors, kind: FieldType) -> Option<
    WireType,
> {
    match kind {
        FieldType::Group => None,
        FieldType::Enum(name) => if descriptors.enumeration(name@) is Some {
            Some(WireType::Varint)
        } else {
            None
        },
        FieldType::Message(name) => if descriptors.message(name@) is Some {
            Some(WireType::LengthDelimited)
        } else {
            None
        },
        _ => plain_wire_type(kind),
    }
}

// ---------------------------------------------------------------------------
// Encoding
// ---------------------------------------------------------------------------
/// The wire type that a value is written with. It follows from the kind of
/// the value alone.
pub open spec fn wire_type_of(value: ValueView) -> WireType {
    match value {
        ValueView::Bool(_)
        | ValueView::I32(_)
        | ValueView::I64(_)
        | ValueView::U32(_)
        | ValueView::U64(_)
        | ValueView::S32(_)
        | ValueView::S64(_)
        | ValueView::Enum(_) => WireType::Varint,
        ValueView::F64(_) | ValueView::Fixed64(_) | ValueView::SFixed64(_) => WireType::Fixed64,
        ValueView::F32(_) | ValueView::Fixed32(_) | ValueView::SFixed32(_) => WireType::Fixed32,
        ValueView::Bytes(_) | ValueView::String(_) | ValueView::Message(_) => {
            WireType::LengthDelimited
        },
    }
}

/// Whether a value is of a numeric kind: a repeated field of such values is
/// written packed.
pub open spec fn packable(value: ValueView) -> bool {
    match value {
        ValueView::Bytes(_) | ValueView::String(_) | ValueView::Message(_) | ValueView::Enum(
            _,
        ) => false,
        _ => true,
    }
}

/// The number that is written for a value of a numeric kind or an enum.
pub open spec fn scalar_bits(value: ValueView) -> u64 {
    match value {
        ValueView::Bool(v) => if v {
            1
        } else {
            0
        },
        ValueView::I32(v) => as_unsigned64(v as i64),
        ValueView::I64(v) => as_unsigned64(v),
        ValueView::U32(v) => v as u64,
        ValueView::U64(v) => v,
        ValueView::S32(v) => zigzag32(v) as u64,
        ValueView::S64(v) => zigzag64(v),
        ValueView::Enum(v) => as_unsigned64(v as i64),
        ValueView::F32(v) => v as u64,
        ValueView::Fixed32(v) => v as u64,
        ValueView::SFixed32(v) => as_unsigned32(v) as u64,
        ValueView::F64(v) => v,
        ValueView::Fixed64(v) => v,
        ValueView::SFixed64(v) => as_unsigned64(v),
        _ => 0,
    }
}

/// The bytes of a value without its tag.
pub open spec fn value_bytes(value: ValueView) -> Seq<u8>
    decreases value, 0int,
{
    match value {
        ValueView::Bytes(v) => counted_bytes(v),
        ValueView::String(v) => counted_bytes(encode_utf8(v)),
        ValueView::Message(m) => delimited_bytes(message_bytes(m)),
        _ => match wire_type_of(value) {
            WireType::Fixed32 => fixed32_bytes(low32(scalar_bits(value))),
            WireType::Fixed64 => fixed64_bytes(scalar_bits(value)),
            _ => varint_bytes(scalar_bits(value) as nat),
        },
    }
}

/// The bytes of a value with the tag of field `number` before it.
pub open spec fn tagged_bytes(number: u32, value: ValueView) -> Seq<u8>
    decreases value, 1int,
{
    tag_bytes(number, wire_type_of(value)) + value_bytes(value)
}

/// The bytes of the first `n` of `values`, one after the other, without tags.
pub open spec fn run_bytes(values: Seq<ValueView>, n: int) -> Seq<u8>
    decreases values, n,
{
    if n <= 0 || n > values.len() {
        Seq::empty()
    } else {
        run_bytes(values, n - 1) + value_bytes(values[n - 1])
    }
}

/// The bytes of the first `n` of `values`, one after the other, each with
/// the tag of field `number`.
pub open spec fn tagged_run_bytes(number: u32, values: Seq<ValueView>, n: int) -> Seq<u8>
    decreases values, n,
{
    if n <= 0 || n > values.len() {
        Seq::empty()
    } else {
        tagged_run_bytes(number, values, n - 1) + tagged_bytes(number, values[n - 1])
    }
}

/// The bytes of a field under `number`. A singular field is its value with a
/// tag, or nothing. A repeated field whose first value is of a numeric kind
/// is packed: one tag, the length of the run, the values; any other repeated
/// field is its values, each with a tag.
pub open spec fn field_bytes(number: u32, field: FieldView) -> Seq<u8>
    decreases field, 0int,
{
    match field {
        FieldView::Singular(None) => Seq::empty(),
        FieldView::Singular(Some(value)) => tagged_bytes(number, value),
        FieldView::Repeated(values) => if values.len() > 0 && packable(values[0]) {
            tag_bytes(number, WireType::LengthDelimited) + delimited_bytes(
                run_bytes(values, values.len() as int),
            )
        } else {
            tagged_run_bytes(number, values, values.len() as int)
        },
    }
}

/// Every set of field numbers is finite.
pub proof fn lemma_numbers_finite(numbers: Set<i32>)
    ensures
        numbers.finite(),
{
    let range = vstd::set_lib::set_int_range(-0x8000_0000, 0x8000_0000);
    let all = range.map(|i: int| i as i32);
    vstd::set_lib::lemma_int_range(-0x8000_0000, 0x8000_0000);
    range.lemma_map_finite(|i: int| i as i32);
    assert forall|k: i32| numbers.contains(k) implies all.contains(k) by {
        assert(range.contains(k as int));
        assert((k as int) as i32 == k);
    }
    vstd::set_lib::lemma_set_subset_finite(all, numbers);
}

/// The bytes of the fields whose number is below `bound`, in the order of
/// their numbers.
pub open spec fn fields_bytes(fields: Map<i32, FieldView>, bound: int) -> Seq<u8>
    decreases fields, bound + 0x8000_0000,
{
    if bound <= -0x8000_0000 || bound > 0x8000_0000 {
        Seq::empty()
    } else if fields.contains_key((bound - 1) as i32) {
        proof {
            lemma_numbers_finite(fields.dom());
        }
        fields_bytes(fields, bound - 1) + field_bytes(
            (bound - 1) as u32,
            fields[(bound - 1) as i32],
        )
    } else {
        fields_bytes(fields, bound - 1)
    }
}

/// The bytes of a message: its fields in the order of their numbers. What
/// the bag of unknown fields holds is not written.
pub open spec fn message_bytes(message: MessageView) -> Seq<u8>
    decreases message, 0x1_0000_0001int,
{
    fields_bytes(message.fields, 0x8000_0000)
}

/// Whether every value in the first `n` of `values` can be written.
pub open spec fn run_writable(values: Seq<ValueView>, n: int) -> bool
    decreases values, 0int,
{
    forall|i: int| 0 <= i < n && i < values.len() ==> value_writable(#[trigger] values[i])
}

/// Whether a value can be written: every message in it can.
pub open spec fn value_writable(value: ValueView) -> bool
    decreases value, 0int,
{
    match value {
        ValueView::Message(m) => message_writable(m),
        _ => true,
    }
}

/// Whether a field can be written under `number`: a tag can carry `number`,
/// unless the field is empty, and every value can be written.
pub open spec fn field_writable(number: u32, field: FieldView) -> bool
    decreases field, 0int,
{
    match field {
        FieldView::Singular(None) => true,
        FieldView::Singular(Some(value)) => valid_field_number(number as int) && value_writable(
            value,
        ),
        FieldView::Repeated(values) => (values.len() == 0 || valid_field_number(number as int))
            && run_writable(values, values.len() as int),
    }
}

/// Whether the fields whose number is below `bound` can be written: no
/// number is negative, and each field can be written under its number. A
/// field that holds nothing can be written under any number that is not
/// negative, for nothing is written of it.
pub open spec fn fields_writable(fields: Map<i32, FieldView>, bound: int) -> bool
    decreases fields, 0int,
{
    proof {
        lemma_numbers_finite(fields.dom());
    }
    forall|k: i32|
        k < bound && #[trigger] fields.contains_key(k) ==> k >= 0 && field_writable(
            k as u32,
            fields[k],
        )
}

/// Whether a message can be written: none of its field numbers is negative,
/// a tag can carry the number of each field that holds a value, and so for
/// every message in it.
pub open spec fn message_writable(message: MessageView) -> bool
    decreases message, 1int,
{
    fields_writable(message.fields, 0x8000_0000)
}

// ---------------------------------------------------------------------------
// Masks
// ---------------------------------------------------------------------------
/// Whether some path of the mask starts with `name`.
pub open spec fn selects(mask: Mask, name: Seq<char>) -> bool {
    exists|i: int| 0 <= i < mask.len() && #[trigger] mask[i].len() > 0 && mask[i][0] == name
}

/// The mask for what lies under the field `name`: of the first `n` paths,
/// those that start with `name` and go on, each without its first name.
pub open spec fn residual(mask: Mask, name: Seq<char>, n: int) -> Mask
    decreases n,
{
    if n <= 0 || n > mask.len() {
        Seq::empty()
    } else if mask[n - 1].len() > 1 && mask[n - 1][0] == name {
        residual(mask, name, n - 1).push(mask[n - 1].skip(1))
    } else {
        residual(mask, name, n - 1)
    }
}

/// The mask under which a selected field `name` is decoded: the residual
/// mask, or none where no path goes on below the field, which then is
/// decoded in full.
pub open spec fn mask_below(mask: Mask, name: Seq<char>) -> Option<Mask> {
    let rest = residual(mask, name, mask.len() as int);
    if rest.len() == 0 {
        None
    } else {
        Some(rest)
    }
}

// ---------------------------------------------------------------------------
// Decoding
// ---------------------------------------------------------------------------
/// The number of bytes that a value of the declared kind takes at the head
/// of `bytes` behind a tag with `wire_type`: a number, a string or byte
/// string, or a length-delimited frame. It is zero where `bytes` holds no
/// whole value, and for a group.
pub open spec fn frame_size(kind: FieldType, wire_type: WireType, bytes: Seq<u8>) -> nat {
    match wire_type {
        WireType::LengthDelimited => match kind {
            FieldType::Bytes | FieldType::String => match counted_at(bytes) {
                Some((_, n)) => n,
                None => 0,
            },
            _ => match delimited_at(bytes) {
                Some((_, n)) => n,
                None => 0,
            },
        },
        WireType::StartGroup | WireType::EndGroup => 0,
        _ => match number_at(wire_type, bytes) {
            Some((_, n)) => n,
            None => 0,
        },
    }
}

/// A value takes no more bytes than there are.
pub proof fn lemma_frame_size(kind: FieldType, wire_type: WireType, bytes: Seq<u8>)
    ensures
        frame_size(kind, wire_type, bytes) <= bytes.len(),
{
    lemma_varint_size_bounds(bytes);
}

/// Whether a value of `field` can arrive with `wire_type`: the type of the
/// field is known to the descriptors and is no group, and the wire type is
/// the one that its kind is framed with, or the one of a packed run where
/// the field is repeated and of a numeric kind. A merge of anything else
/// fails before it reads or stores anything.
pub open spec fn takes(
    descriptors: Descriptors,
    field: FieldDescriptor,
    wire_type: WireType,
) -> bool {
    match expected_wire_type(descriptors, field.field_type) {
        Some(expected) => wire_type == expected || (wire_type == WireType::LengthDelimited
            && field.repeated() && scalar_wire_type(field.field_type) is Some),
        None => false,
    }
}

/// The field after as many values of a packed run have been put into it as
/// are well formed: all of them, or those before the first that is not.
pub open spec fn packed_prefix(kind: FieldType, field: FieldView, bytes: Seq<u8>) -> FieldView
    decreases bytes.len(),
{
    if bytes.len() == 0 {
        field
    } else {
        match scalar_at(kind, bytes) {
            Some((value, n)) => {
                proof {
                    lemma_number_size(scalar_wire_type(kind).unwrap(), bytes);
                }
                packed_prefix(kind, field.put(value), bytes.skip(n as int))
            },
            None => field,
        }
    }
}

/// What a failed merge of one value leaves of the field. A merge that fails
/// at once, or on a single value that is cut short or malformed, leaves the
/// field as it was. A packed run that fails leaves the values that came
/// before the failure in the field. A nested message that fails after its
/// length was read leaves a singular field without a value, and a repeated
/// field as it was.
pub open spec fn failed_field(
    descriptors: Descriptors,
    field: FieldDescriptor,
    current: FieldView,
    wire_type: WireType,
    bytes: Seq<u8>,
) -> FieldView {
    if !takes(descriptors, field, wire_type) {
        current
    } else {
        match field.field_type {
            FieldType::Message(_) => if varint_at(bytes) is Some {
                current.emptied()
            } else {
                current
            },
            kind => if wire_type == WireType::LengthDelimited && field.repeated()
                && scalar_wire_type(kind) is Some {
                match delimited_at(bytes) {
                    Some((payload, _)) => packed_prefix(kind, current, payload),
                    None => current,
                }
            } else {
                current
            },
        }
    }
}

/// Whether `after` has the descriptor of `before`, every field that
/// `before` has, and no field under a number that `before` has no field
/// under and the message type does not declare.
pub open spec fn keys_kept(
    descriptor: MessageDescriptor,
    before: MessageView,
    after: MessageView,
) -> bool {
    &&& after.descriptor == before.descriptor
    &&& forall|k: i32|
        #![trigger after.fields.contains_key(k)]
        {
            &&& before.fields.contains_key(k) ==> after.fields.contains_key(k)
            &&& after.fields.contains_key(k) ==> before.fields.contains_key(k)
                || descriptor.declared(k) is Some
        }
}

/// Keys kept, and then keys kept, are keys kept.
pub proof fn lemma_keys_kept_trans(
    descriptor: MessageDescriptor,
    a: MessageView,
    b: MessageView,
    c: MessageView,
)
    requires
        keys_kept(descriptor, a, b),
        keys_kept(descriptor, b, c),
    ensures
        keys_kept(descriptor, a, c),
{
    assert forall|k: i32| #![trigger c.fields.contains_key(k)]
        (a.fields.contains_key(k) ==> c.fields.contains_key(k)) && (c.fields.contains_key(k)
            ==> a.fields.contains_key(k) || descriptor.declared(k) is Some) by {
        assert(b.fields.contains_key(k) ==> c.fields.contains_key(k));
    }
}

/// The field after a packed run of values of a numeric kind has been put
/// into it, one by one, until `bytes` is used up.
pub open spec fn packed_run(kind: FieldType, field: FieldView, bytes: Seq<u8>) -> Result<
    FieldView,
    ErrorView,
>
    decreases bytes.len(),
{
    if bytes.len() == 0 {
        Ok(field)
    } else {
        match scalar_at(kind, bytes) {
            Some((value, n)) => {
                proof {
                    lemma_number_size(scalar_wire_type(kind).unwrap(), bytes);
                }
                packed_run(kind, field.put(value), bytes.skip(n as int))
            },
            None => Err(ErrorView::Malformed),
        }
    }
}

/// The message that a field of a message type is merged into: the message
/// that a singular field holds, else a new one.
pub open spec fn merge_base(field: FieldView, descriptor: MessageDescriptor) -> MessageView {
    match field {
        FieldView::Singular(Some(ValueView::Message(m))) => m,
        _ => new_message(descriptor),
    }
}

/// What merging one value of `field` does: the field after the merge, or the
/// error. `bytes` starts behind the tag, which carried `wire_type`; the value
/// is the frame that this wire type makes of them. With a mask, a nested
/// message is merged under it.
///
/// A value of a numeric kind arrives with the wire type of its kind; a
/// repeated field of such a kind also takes a length-delimited, packed run.
/// Strings, bytes and messages are length-delimited, an enum is a varint and
/// is kept as the number that arrived. Any other wire type is a mismatch. An
/// enum or message type that the set of descriptors does not hold is an
/// error, whatever arrived; so is a group.
pub open spec fn merged_field(
    descriptors: Descriptors,
    field: FieldDescriptor,
    current: FieldView,
    wire_type: WireType,
    bytes: Seq<u8>,
    mask: Option<Mask>,
) -> Result<FieldView, ErrorView>
    decreases bytes.len(),
{
    match field.field_type {
        FieldType::Group => Err(ErrorView::UnsupportedConstruct),
        FieldType::Enum(name) => if descriptors.enumeration(name@) is None {
            Err(ErrorView::UnresolvedEnum { name: name@ })
        } else if wire_type != WireType::Varint {
            Err(ErrorView::WireTypeMismatch { expected: WireType::Varint, actual: wire_type })
        } else {
            match varint_at(bytes) {
                Some((v, _)) => Ok(current.put(ValueView::Enum(as_signed32(low32(v))))),
                None => Err(ErrorView::Malformed),
            }
        },
        FieldType::Message(name) => match descriptors.message(name@) {
            None => Err(ErrorView::UnresolvedMessage { name: name@ }),
            Some(nested) => if wire_type != WireType::LengthDelimited {
                Err(
                    ErrorView::WireTypeMismatch {
                        expected: WireType::LengthDelimited,
                        actual: wire_type,
                    },
                )
            } else {
                match delimited_at(bytes) {
                    Some((payload, n)) => {
                        proof {
                            lemma_varint_size_bounds(bytes);
                        }
                        let base = merge_base(current, nested);
                        let merged = match mask {
                            Some(paths) => merged_masked(descriptors, nested, base, payload, paths),
                            None => merged_message(descriptors, nested, base, payload),
                        };
                        match merged {
                            Ok(m) => Ok(current.put(ValueView::Message(m))),
                            Err(e) => Err(e),
                        }
                    },
                    None => Err(ErrorView::Malformed),
                }
            },
        },
        kind => {
            let expected = plain_wire_type(kind).unwrap();
            if wire_type == WireType::LengthDelimited && field.repeated() && scalar_wire_type(
                kind,
            ) is Some {
                match delimited_at(bytes) {
                    Some((payload, _)) => packed_run(kind, current, payload),
                    None => Err(ErrorView::Malformed),
                }
            } else if wire_type != expected {
                Err(ErrorView::WireTypeMismatch { expected, actual: wire_type })
            } else {
                match plain_at(kind, bytes) {
                    Some((value, _)) => Ok(current.put(value)),
                    None => Err(ErrorView::Malformed),
                }
            }
        },
    }
}

/// What merging `bytes` into `message` gives: tag by tag until `bytes` is
/// used up, a declared field is merged into the field under its number, and
/// an undeclared one goes to the bag of unknown fields.
pub open spec fn merged_message(
    descriptors: Descriptors,
    descriptor: MessageDescriptor,
    message: MessageView,
    bytes: Seq<u8>,
) -> Result<MessageView, ErrorView>
    decreases bytes.len(),
{
    if bytes.len() == 0 {
        Ok(message)
    } else {
        match tag_at(bytes) {
            None => Err(ErrorView::Malformed),
            Some((number, wire_type, n)) => {
                proof {
                    lemma_varint_size_bounds(bytes);
                    if let Some(field) = descriptor.declared(number as i32) {
                        lemma_frame_size(field.field_type, wire_type, bytes.skip(n as int));
                    }
                    lemma_unknown_size(
                        wire_type,
                        bytes.skip(n as int));
                }
                let rest = bytes.skip(n as int);
                match descriptor.declared(number as i32) {
                    Some(field) => match merged_field(
                        descriptors,
                        field,
                        message.field_or_empty(field),
                        wire_type,
                        rest,
                        None,
                    ) {
                        Ok(f) => merged_message(
                            descriptors,
                            descriptor,
                            message.with_field(field.number, f),
                            rest.skip(frame_size(field.field_type, wire_type, rest) as int),
                        ),
                        Err(e) => Err(e),
                    },
                    None => match unknown_at(wire_type, rest) {
                        Some((kept, k)) => merged_message(
                            descriptors,
                            descriptor,
                            message.with_unknown(number, kept),
                            rest.skip(k as int),
                        ),
                        None => Err(ErrorView::Malformed),
                    },
                }
            },
        }
    }
}

/// The declared field with the given number, where the mask selects it.
pub open spec fn selected_field(
    descriptor: MessageDescriptor,
    mask: Mask,
    number: u32,
) -> Option<FieldDescriptor> {
    match descriptor.declared(number as i32) {
        Some(field) => if selects(mask, field.name@) {
            Some(field)
        } else {
            None
        },
        None => None,
    }
}

/// What merging `bytes` into `message` under a mask gives. A declared field
/// whose name starts a path of the mask is merged: under the residual mask
/// where a path goes on below it, else in full. A declared field that no
/// path selects is read and dropped, and so is an undeclared field: neither
/// reaches the bag of unknown fields.
pub open spec fn merged_masked(
    descriptors: Descriptors,
    descriptor: MessageDescriptor,
    message: MessageView,
    bytes: Seq<u8>,
    mask: Mask,
) -> Result<MessageView, ErrorView>
    decreases bytes.len(),
{
    if bytes.len() == 0 {
        Ok(message)
    } else {
        match tag_at(bytes) {
            None => Err(ErrorView::Malformed),
            Some((number, wire_type, n)) => {
                proof {
                    lemma_varint_size_bounds(bytes);
                    if let Some(field) = descriptor.declared(number as i32) {
                        lemma_frame_size(field.field_type, wire_type, bytes.skip(n as int));
                    }
                    lemma_unknown_size(
                        wire_type,
                        bytes.skip(n as int));
                }
                let rest = bytes.skip(n as int);
                if selected_field(descriptor, mask, number) is Some {
                    let field = selected_field(descriptor, mask, number).unwrap();
                    match merged_field(
                        descriptors,
                        field,
                        message.field_or_empty(field),
                        wire_type,
                        rest,
                        mask_below(mask, field.name@),
                    ) {
                        Ok(f) => merged_masked(
                            descriptors,
                            descriptor,
                            message.with_field(field.number, f),
                            rest.skip(frame_size(field.field_type, wire_type, rest) as int),
                            mask,
                        ),
                        Err(e) => Err(e),
                    }
                } else {
                    match unknown_at(wire_type, rest) {
                        Some((_, k)) => merged_masked(
                            descriptors,
                            descriptor,
                            message,
                            rest.skip(k as int),
                            mask,
                        ),
                        None => Err(ErrorView::Malformed),
                    }
                }
            },
        }
    }
}

/// The message as far as a merge of `bytes` gets: the merged message where
/// the merge succeeds; where it fails, the message with all that was merged
/// before the failure, and with what the failure left of the field that it
/// befell. A tag or an undeclared field that is malformed leaves the
/// message as it was when the merge came to it.
pub open spec fn merged_as_far(
    descriptors: Descriptors,
    descriptor: MessageDescriptor,
    message: MessageView,
    bytes: Seq<u8>,
) -> MessageView
    decreases bytes.len(),
{
    if bytes.len() == 0 {
        message
    } else {
        match tag_at(bytes) {
            None => message,
            Some((number, wire_type, n)) => {
                proof {
                    lemma_varint_size_bounds(bytes);
                    if let Some(field) = descriptor.declared(number as i32) {
                        lemma_frame_size(field.field_type, wire_type, bytes.skip(n as int));
                    }
                    lemma_unknown_size(wire_type, bytes.skip(n as int));
                }
                let rest = bytes.skip(n as int);
                match descriptor.declared(number as i32) {
                    Some(field) => match merged_field(
                        descriptors,
                        field,
                        message.field_or_empty(field),
                        wire_type,
                        rest,
                        None,
                    ) {
                        Ok(f) => merged_as_far(
                            descriptors,
                            descriptor,
                            message.with_field(field.number, f),
                            rest.skip(frame_size(field.field_type, wire_type, rest) as int),
                        ),
                        Err(_) => message.with_field(
                            field.number,
                            failed_field(
                                descriptors,
                                field,
                                message.field_or_empty(field),
                                wire_type,
                                rest,
                            ),
                        ),
                    },
                    None => match unknown_at(wire_type, rest) {
                        Some((kept, k)) => merged_as_far(
                            descriptors,
                            descriptor,
                            message.with_unknown(number, kept),
                            rest.skip(k as int),
                        ),
                        None => message,
                    },
                }
            },
        }
    }
}

/// The message as far as a merge of `bytes` under a mask gets: as
/// [`merged_as_far`], but that a field which the mask leaves out is read
/// and dropped.
pub open spec fn masked_as_far(
    descriptors: Descriptors,
    descriptor: MessageDescriptor,
    message: MessageView,
    bytes: Seq<u8>,
    mask: Mask,
) -> MessageView
    decreases bytes.len(),
{
    if bytes.len() == 0 {
        message
    } else {
        match tag_at(bytes) {
            None => message,
            Some((number, wire_type, n)) => {
                proof {
                    lemma_varint_size_bounds(bytes);
                    if let Some(field) = descriptor.declared(number as i32) {
                        lemma_frame_size(field.field_type, wire_type, bytes.skip(n as int));
                    }
                    lemma_unknown_size(wire_type, bytes.skip(n as int));
                }
                let rest = bytes.skip(n as int);
                if selected_field(descriptor, mask, number) is Some {
                    let field = selected_field(descriptor, mask, number).unwrap();
                    match merged_field(
                        descriptors,
                        field,
                        message.field_or_empty(field),
                        wire_type,
                        rest,
                        mask_below(mask, field.name@),
                    ) {
                        Ok(f) => masked_as_far(
                            descriptors,
                            descriptor,
                            message.with_field(field.number, f),
                            rest.skip(frame_size(field.field_type, wire_type, rest) as int),
                            mask,
                        ),
                        Err(_) => message.with_field(
                            field.number,
                            failed_field(
                                descriptors,
                                field,
                                message.field_or_empty(field),
                                wire_type,
                                rest,
                            ),
                        ),
                    }
                } else {
                    match unknown_at(wire_type, rest) {
                        Some((_, k)) => masked_as_far(
                            descriptors,
                            descriptor,
                            message,
                            rest.skip(k as int),
                            mask,
                        ),
                        None => message,
                    }
                }
            },
        }
    }
}

/// One step of a merge, without a mask or under one: the first tag of
/// `bytes` is read and the field behind it is merged, kept as an unknown
/// field or, under a mask, dropped. The step gives the message after it and
/// the number of bytes that it took; where it fails, it gives the error and
/// what is left of the message.
pub open spec fn merge_step(
    descriptors: Descriptors,
    descriptor: MessageDescriptor,
    mask: Option<Mask>,
    message: MessageView,
    bytes: Seq<u8>,
) -> Result<(MessageView, nat), (ErrorView, MessageView)> {
    match tag_at(bytes) {
        None => Err((ErrorView::Malformed, message)),
        Some((number, wire_type, n)) => {
            let rest = bytes.skip(n as int);
            let chosen = match mask {
                Some(paths) => selected_field(descriptor, paths, number),
                None => descriptor.declared(number as i32),
            };
            match chosen {
                Some(field) => {
                    let current = message.field_or_empty(field);
                    let below = match mask {
                        Some(paths) => mask_below(paths, field.name@),
                        None => None,
                    };
                    match merged_field(descriptors, field, current, wire_type, rest, below) {
                        Ok(f) => Ok(
                            (
                                message.with_field(field.number, f),
                                n + frame_size(field.field_type, wire_type, rest),
                            ),
                        ),
                        Err(e) => Err(
                            (
                                e,
                                message.with_field(
                                    field.number,
                                    failed_field(descriptors, field, current, wire_type, rest),
                                ),
                            ),
                        ),
                    }
                },
                None => match unknown_at(wire_type, rest) {
                    Some((kept, k)) => Ok(
                        (
                            if mask is None {
                                message.with_unknown(number, kept)
                            } else {
                                message
                            },
                            n + k,
                        ),
                    ),
                    None => Err((ErrorView::Malformed, message)),
                },
            }
        },
    }
}

/// A step takes at least one byte and no more bytes than there are.
pub proof fn lemma_step_size(
    descriptors: Descriptors,
    descriptor: MessageDescriptor,
    mask: Option<Mask>,
    message: MessageView,
    bytes: Seq<u8>,
)
    ensures
        merge_step(descriptors, descriptor, mask, message, bytes) matches Ok((_, taken)) ==> 1
            <= taken <= bytes.len(),
{
    lemma_varint_size_bounds(bytes);
    if let Some((number, wire_type, n)) = tag_at(bytes) {
        let rest = bytes.skip(n as int);
        lemma_unknown_size(wire_type, rest);
        if let Some(field) = descriptor.declared(number as i32) {
            lemma_frame_size(field.field_type, wire_type, rest);
        }
    }
}

/// A merge is its first step and the merge of what is left.
#[verifier::rlimit(40)]
pub proof fn lemma_merge_step(
    descriptors: Descriptors,
    descriptor: MessageDescriptor,
    message: MessageView,
    bytes: Seq<u8>,
)
    requires
        bytes.len() > 0,
    ensures
        match merge_step(descriptors, descriptor, None, message, bytes) {
            Ok((next, taken)) => merged_message(
                descriptors,
                descriptor,
                message,
                bytes,
            ) == merged_message(
                descriptors,
                descriptor,
                next,
                bytes.skip(taken as int),
            ),
            Err((e, _)) => merged_message(descriptors, descriptor, message, bytes) == Err::<
                MessageView,
                ErrorView,
            >(e),
        },
{
    lemma_step_size(descriptors, descriptor, None, message, bytes);
    lemma_varint_size_bounds(bytes);
    if let Some((number, wire_type, n)) = tag_at(bytes) {
        let rest = bytes.skip(n as int);
        lemma_unknown_size(wire_type, rest);
        match descriptor.declared(number as i32) {
            Some(field) => {
                let size = frame_size(field.field_type, wire_type, rest);
                lemma_frame_size(field.field_type, wire_type, rest);
                assert(rest.skip(size as int) =~= bytes.skip((n + size) as int));
            },
            None => {
                if let Some((_, k)) = unknown_at(wire_type, rest) {
                    assert(rest.skip(k as int) =~= bytes.skip((n + k) as int));
                }
            },
        }
    }
}

/// A merge gets as far as its first step; where that succeeds, as far as
/// the merge of what is left gets.
#[verifier::rlimit(40)]
pub proof fn lemma_as_far_step(
    descriptors: Descriptors,
    descriptor: MessageDescriptor,
    message: MessageView,
    bytes: Seq<u8>,
)
    requires
        bytes.len() > 0,
    ensures
        match merge_step(descriptors, descriptor, None, message, bytes) {
            Ok((next, taken)) => merged_as_far(
                descriptors,
                descriptor,
                message,
                bytes,
            ) == merged_as_far(
                descriptors,
                descriptor,
                next,
                bytes.skip(taken as int),
            ),
            Err((_, failed)) => merged_as_far(descriptors, descriptor, message, bytes) == failed,
        },
{
    lemma_step_size(descriptors, descriptor, None, message, bytes);
    lemma_varint_size_bounds(bytes);
    if let Some((number, wire_type, n)) = tag_at(bytes) {
        let rest = bytes.skip(n as int);
        lemma_unknown_size(wire_type, rest);
        match descriptor.declared(number as i32) {
            Some(field) => {
                let size = frame_size(field.field_type, wire_type, rest);
                lemma_frame_size(field.field_type, wire_type, rest);
                assert(rest.skip(size as int) =~= bytes.skip((n + size) as int));
            },
            None => {
                if let Some((_, k)) = unknown_at(wire_type, rest) {
                    assert(rest.skip(k as int) =~= bytes.skip((n + k) as int));
                }
            },
        }
    }
}

/// A merge under a mask is its first step and the merge of what is left.
#[verifier::rlimit(40)]
pub proof fn lemma_masked_step(
    descriptors: Descriptors,
    descriptor: MessageDescriptor,
    message: MessageView,
    bytes: Seq<u8>,
    mask: Mask,
)
    requires
        bytes.len() > 0,
    ensures
        match merge_step(descriptors, descriptor, Some(mask), message, bytes) {
            Ok((next, taken)) => merged_masked(
                descriptors,
                descriptor,
                message,
                bytes,
                mask,
            ) == merged_masked(
                descriptors,
                descriptor,
                next,
                bytes.skip(taken as int),
                mask,
            ),
            Err((e, _)) => merged_masked(descriptors, descriptor, message, bytes, mask) == Err::<
                MessageView,
                ErrorView,
            >(e),
        },
{
    lemma_step_size(descriptors, descriptor, Some(mask), message, bytes);
    lemma_varint_size_bounds(bytes);
    if let Some((number, wire_type, n)) = tag_at(bytes) {
        let rest = bytes.skip(n as int);
        lemma_unknown_size(wire_type, rest);
        match selected_field(descriptor, mask, number) {
            Some(field) => {
                let size = frame_size(field.field_type, wire_type, rest);
                lemma_frame_size(field.field_type, wire_type, rest);
                assert(rest.skip(size as int) =~= bytes.skip((n + size) as int));
            },
            None => {
                if let Some((_, k)) = unknown_at(wire_type, rest) {
                    assert(rest.skip(k as int) =~= bytes.skip((n + k) as int));
                }
            },
        }
    }
}

/// A merge under a mask gets as far as its first step; where that
/// succeeds, as far as the merge of what is left gets.
#[verifier::rlimit(40)]
pub proof fn lemma_masked_as_far_step(
    descriptors: Descriptors,
    descriptor: MessageDescriptor,
    message: MessageView,
    bytes: Seq<u8>,
    mask: Mask,
)
    requires
        bytes.len() > 0,
    ensures
        match merge_step(descriptors, descriptor, Some(mask), message, bytes) {
            Ok((next, taken)) => masked_as_far(
                descriptors,
                descriptor,
                message,
                bytes,
                mask,
            ) == masked_as_far(
                descriptors,
                descriptor,
                next,
                bytes.skip(taken as int),
                mask,
            ),
            Err((_, failed)) => masked_as_far(
                descriptors,
                descriptor,
                message,
                bytes,
                mask,
            ) == failed,
        },
{
    lemma_step_size(descriptors, descriptor, Some(mask), message, bytes);
    lemma_varint_size_bounds(bytes);
    if let Some((number, wire_type, n)) = tag_at(bytes) {
        let rest = bytes.skip(n as int);
        lemma_unknown_size(wire_type, rest);
        match selected_field(descriptor, mask, number) {
            Some(field) => {
                let size = frame_size(field.field_type, wire_type, rest);
                lemma_frame_size(field.field_type, wire_type, rest);
                assert(rest.skip(size as int) =~= bytes.skip((n + size) as int));
            },
            None => {
                if let Some((_, k)) = unknown_at(wire_type, rest) {
                    assert(rest.skip(k as int) =~= bytes.skip((n + k) as int));
                }
            },
        }
    }
}

/// A step keeps the keys, whether it succeeds or fails, and under a mask the
/// bag of unknown fields.
pub proof fn lemma_step_keeps(
    descriptors: Descriptors,
    descriptor: MessageDescriptor,
    mask: Option<Mask>,
    message: MessageView,
    bytes: Seq<u8>,
)
    ensures
        match merge_step(descriptors, descriptor, mask, message, bytes) {
            Ok((next, _)) => keys_kept(descriptor, message, next) && (mask is Some
                ==> next.unknown == message.unknown),
            Err((_, failed)) => keys_kept(descriptor, message, failed) && failed.unknown
                == message.unknown,
        },
{
    if let Some((number, wire_type, n)) = tag_at(bytes) {
        lemma_field_position(descriptor.fields@, number as i32, 0);
        if let Some(field) = descriptor.declared(number as i32) {
            assert(descriptor.declared(field.number) is Some);
        }
    }
}

/// A field under a declared number keeps the keys.
pub proof fn lemma_keys_kept_with_field(
    descriptor: MessageDescriptor,
    message: MessageView,
    number: i32,
    field: FieldView,
)
    requires
        descriptor.declared(number) is Some,
    ensures
        keys_kept(descriptor, message, message.with_field(number, field)),
{
}

} // verus!
