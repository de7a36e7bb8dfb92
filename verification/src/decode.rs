//! Decoding: merging wire data into fields and messages.

use vstd::prelude::*;
use crate::descriptor::{Descriptors, FieldDescriptor, FieldType, MessageDescriptor};
use crate::error::{Error, ErrorView};
use crate::mask::{paths_view, selected, strip};
use crate::model::{
    failed_field, frame_size, keys_kept, lemma_as_far_step, lemma_keys_kept_trans,
    lemma_masked_as_far_step, lemma_masked_step, lemma_merge_step, lemma_step_keeps,
    lemma_step_size, mask_below, masked_as_far, merge_base, merge_step, merged_as_far, merged_field,
    merged_masked, merged_message, packed_prefix, packed_run, plain_at, plain_wire_type,
    scalar_value, scalar_wire_type, selected_field, takes, Mask,
};
use crate::stream::Reader;
use crate::unknown::{
    lemma_unknown_size, read_unknown_or_skip_group, unknown_at, unknown_entries, with_read,
};
use crate::value::{Field, FieldView, Message, MessageView, Value, ValueView};
use crate::wire::{
    as_signed32, decode_zigzag32, decode_zigzag64, delimited_at, low32, to_signed32, to_signed64,
    truncate32, varint_at, WireType,
};

verus! {

broadcast use vstd::std_specs::btree::group_btree_axioms;

/// The mask that an optional list of paths stands for.
pub open spec fn mask_view(mask: Option<Vec<&[&str]>>) -> Option<Mask> {
    match mask {
        Some(paths) => Some(paths_view(paths@)),
        None => None,
    }
}

/// The mask under which a value of the field `name` is merged: what the
/// paths that start with `name` go on with, or none where there is no mask.
pub open spec fn mask_under(mask: Option<&Vec<&[&str]>>, name: Seq<char>) -> Option<Mask> {
    match mask {
        Some(paths) => mask_below(paths_view(paths@), name),
        None => None,
    }
}

/// The wire type of a single value of a numeric kind.
fn scalar_wire(kind: &FieldType) -> (wire_type: Option<WireType>)
    ensures
        wire_type == scalar_wire_type(*kind),
{
    match kind {
        FieldType::Bool
        | FieldType::Int32
        | FieldType::Int64
        | FieldType::SInt32
        | FieldType::SInt64
        | FieldType::UInt32
        | FieldType::UInt64 => Some(WireType::Varint),
        FieldType::Fixed32 | FieldType::SFixed32 | FieldType::Float => Some(WireType::Fixed32),
        FieldType::Fixed64 | FieldType::SFixed64 | FieldType::Double => Some(WireType::Fixed64),
        _ => None,
    }
}

impl<'a> Value<'a> {
    /// The value of a numeric kind that the number `bits` stands for, `bits`
    /// being what a varint or a fixed-width number on the wire held.
    pub fn from_bits(kind: &FieldType, bits: u64) -> (value: Value<'a>)
        ensures
            value@ == scalar_value(*kind, bits),
    {
        match kind {
            FieldType::Bool => Value::Bool(truncate32(bits) != 0),
            FieldType::Int32 => Value::I32(to_signed32(truncate32(bits))),
            FieldType::Int64 => Value::I64(to_signed64(bits)),
            FieldType::SInt32 => Value::S32(decode_zigzag32(truncate32(bits))),
            FieldType::SInt64 => Value::S64(decode_zigzag64(bits)),
            FieldType::UInt32 => Value::U32(truncate32(bits)),
            FieldType::UInt64 => Value::U64(bits),
            FieldType::Fixed32 => Value::Fixed32(truncate32(bits)),
            FieldType::SFixed32 => Value::SFixed32(to_signed32(truncate32(bits))),
            FieldType::Float => Value::F32(truncate32(bits)),
            FieldType::Fixed64 => Value::Fixed64(bits),
            FieldType::SFixed64 => Value::SFixed64(to_signed64(bits)),
            _ => Value::F64(bits),
        }
    }

    /// Reads one value of a numeric kind, a string or bytes.
    fn read_plain(kind: &FieldType, input: &mut Reader<'_>) -> (r: Result<Value<'a>, Error>)
        requires
            plain_wire_type(*kind) is Some,
        ensures
            final(input).data() == old(input).data(),
            final(input).limit() == old(input).limit(),
            old(input).bounded(),
            match r {
                Ok(v) => {
                    &&& plain_at(*kind, old(input).pending()) matches Some((value, n))
                    &&& v@ == value
                    &&& 1 <= n <= old(input).pending().len()
                    &&& n == frame_size(
                        *kind,
                        plain_wire_type(*kind).unwrap(),
                        old(input).pending(),
                    )
                    &&& final(input).position() == old(input).position() + n
                    &&& final(input).pending() == old(input).pending().skip(n as int)
                },
                Err(e) => {
                    &&& plain_at(*kind, old(input).pending()) is None
                    &&& e@ == ErrorView::Malformed
                },
            },
    {
        match kind {
            FieldType::Bytes => {
                let payload = input.read_bytes()?;
                Ok(Value::Bytes(payload))
            },
            FieldType::String => {
                let s = input.read_string()?;
                Ok(Value::String(s))
            },
            _ => {
                let wire_type = scalar_wire(kind).unwrap();
                let bits = input.read_number(wire_type)?;
                Ok(Value::from_bits(kind, bits))
            },
        }
    }
}

impl<'a> Field<'a> {
    /// Merges one value of `field` from `input` into this field, a nested
    /// message under `mask` where there is one. `input` stands behind the
    /// tag, which carried `wire_type`. The frame of `input` is the same
    /// after the call, whatever happened; on success the value has been
    /// read to its end, and on failure `input` stands where it stood. A
    /// merge that the field cannot take at all, or a single value that is
    /// cut short, leaves the field as it was; a packed run that fails
    /// leaves the values before the failure, and a nested message that
    /// fails leaves a singular field without a value.
    pub fn merge_from_masked(
        &mut self,
        descriptors: &'a Descriptors,
        field: &FieldDescriptor,
        input: &mut Reader<'_>,
        wire_type: WireType,
        mask: Option<Vec<&[&str]>>,
    ) -> (r: Result<(), Error>)
        ensures
            final(input).data() == old(input).data(),
            final(input).limit() == old(input).limit(),
            (final(self)@ is Repeated) == (old(self)@ is Repeated),
            match r {
                Ok(()) => {
                    &&& merged_field(
                        *descriptors,
                        *field,
                        old(self)@,
                        wire_type,
                        old(input).pending(),
                        mask_view(mask),
                    ) == Ok::<FieldView, ErrorView>(final(self)@)
                    &&& final(input).position() == old(input).position() + frame_size(
                        field.field_type,
                        wire_type,
                        old(input).pending(),
                    )
                },
                Err(e) => {
                    &&& merged_field(
                        *descriptors,
                        *field,
                        old(self)@,
                        wire_type,
                        old(input).pending(),
                        mask_view(mask),
                    ) == Err::<FieldView, ErrorView>(e@)
                    &&& final(self)@ == failed_field(
                        *descriptors,
                        *field,
                        old(self)@,
                        wire_type,
                        old(input).pending(),
                    )
                    &&& !takes(*descriptors, *field, wire_type) ==> final(self)@ == old(self)@
                    &&& final(input).position() == old(input).position()
                },
            },
        decreases old(input).pending().len(), 1nat,
    {
        let start = input.offset();
        let merged = match &field.field_type {
            FieldType::Group => Err(Error::UnsupportedConstruct),
            FieldType::Enum(name) => match descriptors.enum_by_name(name) {
                None => Err(Error::UnresolvedEnum { name: name.clone() }),
                Some(_) => self.merge_enum(input, wire_type),
            },
            FieldType::Message(name) => match descriptors.message_by_name(name) {
                None => Err(Error::UnresolvedMessage { name: name.clone() }),
                Some(nested) => match mask {
                    Some(paths) => self.merge_message_masked(
                        input,
                        descriptors,
                        nested,
                        wire_type,
                        paths,
                    ),
                    None => self.merge_message(input, descriptors, nested, wire_type),
                },
            },
            FieldType::Bytes | FieldType::String => self.merge_scalar(
                input,
                wire_type,
                WireType::LengthDelimited,
                &field.field_type,
            ),
            kind => {
                let expected = scalar_wire(kind).unwrap();
                self.merge_packable_scalar(input, wire_type, expected, kind, field.is_repeated())
            },
        };
        if merged.is_err() {
            input.seek(start);
        }
        merged
    }

    /// Merges one value of `field` from `input` into this field. `input`
    /// stands behind the tag, which carried `wire_type`. On failure `input`
    /// stands where it stood.
    pub fn merge_from(
        &mut self,
        descriptors: &'a Descriptors,
        field: &FieldDescriptor,
        input: &mut Reader<'_>,
        wire_type: WireType,
    ) -> (r: Result<(), Error>)
        ensures
            final(input).data() == old(input).data(),
            final(input).limit() == old(input).limit(),
            (final(self)@ is Repeated) == (old(self)@ is Repeated),
            match r {
                Ok(()) => {
                    &&& merged_field(
                        *descriptors,
                        *field,
                        old(self)@,
                        wire_type,
                        old(input).pending(),
                        None,
                    ) == Ok::<FieldView, ErrorView>(final(self)@)
                    &&& final(input).position() == old(input).position() + frame_size(
                        field.field_type,
                        wire_type,
                        old(input).pending(),
                    )
                },
                Err(e) => {
                    &&& merged_field(
                        *descriptors,
                        *field,
                        old(self)@,
                        wire_type,
                        old(input).pending(),
                        None,
                    ) == Err::<FieldView, ErrorView>(e@)
                    &&& final(self)@ == failed_field(
                        *descriptors,
                        *field,
                        old(self)@,
                        wire_type,
                        old(input).pending(),
                    )
                    &&& !takes(*descriptors, *field, wire_type) ==> final(self)@ == old(self)@
                    &&& final(input).position() == old(input).position()
                },
            },
        decreases old(input).pending().len(), 2nat,
    {
        self.merge_from_masked(descriptors, field, input, wire_type, None)
    }

    /// Merges one value of a field that a mask selects: under what the paths
    /// that start with the name of the field go on with, or in full where
    /// none goes on.
    fn merge_selected(
        &mut self,
        descriptors: &'a Descriptors,
        field: &FieldDescriptor,
        input: &mut Reader<'_>,
        wire_type: WireType,
        mask: &Vec<&[&str]>,
    ) -> (r: Result<(), Error>)
        ensures
            final(input).data() == old(input).data(),
            final(input).limit() == old(input).limit(),
            (final(self)@ is Repeated) == (old(self)@ is Repeated),
            match r {
                Ok(()) => {
                    &&& merged_field(
                        *descriptors,
                        *field,
                        old(self)@,
                        wire_type,
                        old(input).pending(),
                        mask_below(paths_view(mask@), field.name@),
                    ) == Ok::<FieldView, ErrorView>(final(self)@)
                    &&& final(input).position() == old(input).position() + frame_size(
                        field.field_type,
                        wire_type,
                        old(input).pending(),
                    )
                },
                Err(e) => {
                    &&& merged_field(
                        *descriptors,
                        *field,
                        old(self)@,
                        wire_type,
                        old(input).pending(),
                        mask_below(paths_view(mask@), field.name@),
                    ) == Err::<FieldView, ErrorView>(e@)
                    &&& final(self)@ == failed_field(
                        *descriptors,
                        *field,
                        old(self)@,
                        wire_type,
                        old(input).pending(),
                    )
                    &&& !takes(*descriptors, *field, wire_type) ==> final(self)@ == old(self)@
                    &&& final(input).position() == old(input).position()
                },
            },
        decreases old(input).pending().len(), 2nat,
    {
        let below = strip(mask, field.name.as_str());
        if below.len() == 0 {
            self.merge_from_masked(descriptors, field, input, wire_type, None)
        } else {
            self.merge_from_masked(descriptors, field, input, wire_type, Some(below))
        }
    }

    /// Reads one value of a numeric kind, a string or bytes and puts it into
    /// the field, where the wire type that arrived is the expected one.
    fn merge_scalar(
        &mut self,
        input: &mut Reader<'_>,
        actual_wire_type: WireType,
        expected_wire_type: WireType,
        kind: &FieldType,
    ) -> (r: Result<(), Error>)
        requires
            plain_wire_type(*kind) == Some(expected_wire_type),
        ensures
            final(input).data() == old(input).data(),
            final(input).limit() == old(input).limit(),
            (final(self)@ is Repeated) == (old(self)@ is Repeated),
            match r {
                Ok(()) => {
                    &&& actual_wire_type == expected_wire_type
                    &&& plain_at(*kind, old(input).pending()) matches Some((value, n))
                    &&& final(self)@ == old(self)@.put(value)
                    &&& final(input).position() == old(input).position() + frame_size(
                        *kind,
                        actual_wire_type,
                        old(input).pending(),
                    )
                },
                Err(e) => {
                    &&& final(self)@ == old(self)@
                    &&& if actual_wire_type != expected_wire_type {
                        &&& e@ == (ErrorView::WireTypeMismatch {
                            expected: expected_wire_type,
                            actual: actual_wire_type,
                        })
                        &&& final(input).position() == old(input).position()
                    } else {
                        plain_at(*kind, old(input).pending()) is None && e@ == ErrorView::Malformed
                    }
                },
            },
    {
        if expected_wire_type == actual_wire_type {
            let value = Value::read_plain(kind, input)?;
            self.put(value);
            Ok(())
        } else {
            Err(Error::WireTypeMismatch { expected: expected_wire_type, actual: actual_wire_type })
        }
    }

    /// Reads a value of a numeric kind, or, into a repeated field, a packed
    /// run of such values.
    fn merge_packable_scalar(
        &mut self,
        input: &mut Reader<'_>,
        actual_wire_type: WireType,
        expected_wire_type: WireType,
        kind: &FieldType,
        repeated: bool,
    ) -> (r: Result<(), Error>)
        requires
            scalar_wire_type(*kind) == Some(expected_wire_type),
        ensures
            final(input).data() == old(input).data(),
            final(input).limit() == old(input).limit(),
            (final(self)@ is Repeated) == (old(self)@ is Repeated),
            match r {
                Ok(()) => {
                    &&& final(input).position() == old(input).position() + frame_size(
                        *kind,
                        actual_wire_type,
                        old(input).pending(),
                    )
                    &&& if actual_wire_type == WireType::LengthDelimited && repeated {
                        &&& delimited_at(old(input).pending()) matches Some((payload, _))
                        &&& packed_run(*kind, old(self)@, payload) == Ok::<FieldView, ErrorView>(
                            final(self)@,
                        )
                    } else {
                        &&& actual_wire_type == expected_wire_type
                        &&& plain_at(*kind, old(input).pending()) matches Some((value, n))
                        &&& final(self)@ == old(self)@.put(value)
                    }
                },
                Err(e) => if actual_wire_type == WireType::LengthDelimited && repeated {
                    match delimited_at(old(input).pending()) {
                        Some((payload, _)) => {
                            &&& packed_run(*kind, old(self)@, payload) == Err::<
                                FieldView,
                                ErrorView,
                            >(e@)
                            &&& final(self)@ == packed_prefix(*kind, old(self)@, payload)
                        },
                        None => e@ == ErrorView::Malformed && final(self)@ == old(self)@,
                    }
                } else if actual_wire_type != expected_wire_type {
                    &&& e@ == (ErrorView::WireTypeMismatch {
                        expected: expected_wire_type,
                        actual: actual_wire_type,
                    })
                    &&& final(self)@ == old(self)@
                    &&& final(input).position() == old(input).position()
                } else {
                    &&& plain_at(*kind, old(input).pending()) is None
                    &&& e@ == ErrorView::Malformed
                    &&& final(self)@ == old(self)@
                },
            },
    {
        if actual_wire_type == WireType::LengthDelimited && repeated {
            let len = input.read_varint64()?;
            let previous = input.push_limit(len)?;
            let ghost payload = input.pending();
            let ghost pushed = input.limit();
            assert(delimited_at(old(input).pending()) matches Some((p, _)) && p =~= payload);
            while !input.eof()
                invariant
                    scalar_wire_type(*kind) == Some(expected_wire_type),
                    input.data() == old(input).data(),
                    input.limit() == pushed,
                    pushed <= previous <= input.data().len(),
                    previous == old(input).limit(),
                    actual_wire_type == WireType::LengthDelimited && repeated,
                    delimited_at(old(input).pending()) matches Some((p, _)) && p == payload,
                    pushed == old(input).position() + frame_size(
                        *kind,
                        actual_wire_type,
                        old(input).pending(),
                    ),
                    packed_run(*kind, old(self)@, payload) == packed_run(
                        *kind,
                        self@,
                        input.pending(),
                    ),
                    packed_prefix(*kind, old(self)@, payload) == packed_prefix(
                        *kind,
                        self@,
                        input.pending(),
                    ),
                    (self@ is Repeated) == (old(self)@ is Repeated),
                decreases input.pending().len(),
            {
                match input.read_number(expected_wire_type) {
                    Ok(bits) => {
                        self.put(Value::from_bits(kind, bits));
                    },
                    Err(e) => {
                        input.pop_limit(previous);
                        return Err(e);
                    },
                }
            }
            input.pop_limit(previous);
            Ok(())
        } else {
            self.merge_scalar(input, actual_wire_type, expected_wire_type, kind)
        }
    }

    /// Reads an enum value and puts it into the field as the number that
    /// arrived, whether or not the enum type names it: no enum type is
    /// looked at. Fails where the wire type is not the varint, or the varint
    /// is missing or malformed; the field and `input` are then as they
    /// were.
    pub fn merge_enum(&mut self, input: &mut Reader<'_>, actual_wire_type: WireType) -> (r: Result<
        (),
        Error,
    >)
        ensures
            final(input).data() == old(input).data(),
            final(input).limit() == old(input).limit(),
            (final(self)@ is Repeated) == (old(self)@ is Repeated),
            match r {
                Ok(()) => {
                    &&& actual_wire_type == WireType::Varint
                    &&& varint_at(old(input).pending()) matches Some((v, n))
                    &&& final(self)@ == old(self)@.put(ValueView::Enum(as_signed32(low32(v))))
                    &&& final(input).position() == old(input).position() + n
                },
                Err(e) => {
                    &&& final(self)@ == old(self)@
                    &&& final(input).position() == old(input).position()
                    &&& if actual_wire_type != WireType::Varint {
                        e@ == (ErrorView::WireTypeMismatch {
                            expected: WireType::Varint,
                            actual: actual_wire_type,
                        })
                    } else {
                        varint_at(old(input).pending()) is None && e@ == ErrorView::Malformed
                    }
                },
            },
    {
        if actual_wire_type == WireType::Varint {
            let v = input.read_varint64()?;
            self.put(Value::Enum(to_signed32(truncate32(v))));
            Ok(())
        } else {
            Err(Error::WireTypeMismatch { expected: WireType::Varint, actual: actual_wire_type })
        }
    }

    /// Takes out the message that a nested merge goes into: the message that
    /// a singular field holds, else a new one. A singular field is then
    /// without a value.
    fn take_message(&mut self, message: &'a MessageDescriptor) -> (base: Message<'a>)
        ensures
            base@ == merge_base(old(self)@, *message),
            final(self)@ == old(self)@.emptied(),
    {
        match self {
            Field::Singular(slot) => match slot.take() {
                Some(Value::Message(m)) => m,
                _ => Message::new(message),
            },
            _ => Message::new(message),
        }
    }

    /// Merges a length-delimited nested message into the field: into the
    /// message that a singular field holds, else into a new message, which
    /// is then put into the field. Fails where the wire type is not the
    /// length-delimited one, the length is missing or reaches past the
    /// frame, or the nested merge fails; `input` then stands where it stood,
    /// and a singular field whose length was read is without a value.
    pub fn merge_message(
        &mut self,
        input: &mut Reader<'_>,
        descriptors: &'a Descriptors,
        message: &'a MessageDescriptor,
        actual_wire_type: WireType,
    ) -> (r: Result<(), Error>)
        ensures
            final(input).data() == old(input).data(),
            final(input).limit() == old(input).limit(),
            (final(self)@ is Repeated) == (old(self)@ is Repeated),
            match r {
                Ok(()) => {
                    &&& actual_wire_type == WireType::LengthDelimited
                    &&& delimited_at(old(input).pending()) matches Some((payload, n))
                    &&& merged_message(
                        *descriptors,
                        *message,
                        merge_base(old(self)@, *message),
                        payload,
                    ) matches Ok(m)
                    &&& final(self)@ == old(self)@.put(ValueView::Message(m))
                    &&& final(input).position() == old(input).position() + n
                },
                Err(e) => if actual_wire_type != WireType::LengthDelimited {
                    &&& e@ == (ErrorView::WireTypeMismatch {
                        expected: WireType::LengthDelimited,
                        actual: actual_wire_type,
                    })
                    &&& final(self)@ == old(self)@
                    &&& final(input).position() == old(input).position()
                } else {
                    &&& final(input).position() == old(input).position()
                    &&& match delimited_at(old(input).pending()) {
                        Some((payload, _)) => merged_message(
                            *descriptors,
                            *message,
                            merge_base(old(self)@, *message),
                            payload,
                        ) == Err::<MessageView, ErrorView>(e@),
                        None => e@ == ErrorView::Malformed,
                    }
                    &&& final(self)@ == if varint_at(old(input).pending()) is Some {
                        old(self)@.emptied()
                    } else {
                        old(self)@
                    }
                },
            },
        decreases old(input).pending().len(), 0nat,
    {
        if actual_wire_type == WireType::LengthDelimited {
            let start = input.offset();
            let len = input.read_varint64()?;
            let mut msg = self.take_message(message);
            let previous = match input.push_limit(len) {
                Ok(previous) => previous,
                Err(e) => {
                    input.seek(start);
                    return Err(e);
                },
            };
            assert(delimited_at(old(input).pending()) matches Some((p, _)) && p
                =~= input.pending());
            let merged = msg.merge_from(descriptors, message, input);
            input.pop_limit(previous);
            match merged {
                Ok(()) => {
                    self.put(Value::Message(msg));
                    Ok(())
                },
                Err(e) => {
                    input.seek(start);
                    Err(e)
                },
            }
        } else {
            Err(
                Error::WireTypeMismatch {
                    expected: WireType::LengthDelimited,
                    actual: actual_wire_type,
                },
            )
        }
    }

    /// Merges a length-delimited nested message into the field under a
    /// mask, as [`Field::merge_message`] does without one.
    pub fn merge_message_masked(
        &mut self,
        input: &mut Reader<'_>,
        descriptors: &'a Descriptors,
        message: &'a MessageDescriptor,
        actual_wire_type: WireType,
        mask: Vec<&[&str]>,
    ) -> (r: Result<(), Error>)
        ensures
            final(input).data() == old(input).data(),
            final(input).limit() == old(input).limit(),
            (final(self)@ is Repeated) == (old(self)@ is Repeated),
            match r {
                Ok(()) => {
                    &&& actual_wire_type == WireType::LengthDelimited
                    &&& delimited_at(old(input).pending()) matches Some((payload, n))
                    &&& merged_masked(
                        *descriptors,
                        *message,
                        merge_base(old(self)@, *message),
                        payload,
                        paths_view(mask@),
                    ) matches Ok(m)
                    &&& final(self)@ == old(self)@.put(ValueView::Message(m))
                    &&& final(input).position() == old(input).position() + n
                },
                Err(e) => if actual_wire_type != WireType::LengthDelimited {
                    &&& e@ == (ErrorView::WireTypeMismatch {
                        expected: WireType::LengthDelimited,
                        actual: actual_wire_type,
                    })
                    &&& final(self)@ == old(self)@
                    &&& final(input).position() == old(input).position()
                } else {
                    &&& final(input).position() == old(input).position()
                    &&& match delimited_at(old(input).pending()) {
                        Some((payload, _)) => merged_masked(
                            *descriptors,
                            *message,
                            merge_base(old(self)@, *message),
                            payload,
                            paths_view(mask@),
                        ) == Err::<MessageView, ErrorView>(e@),
                        None => e@ == ErrorView::Malformed,
                    }
                    &&& final(self)@ == if varint_at(old(input).pending()) is Some {
                        old(self)@.emptied()
                    } else {
                        old(self)@
                    }
                },
            },
        decreases old(input).pending().len(), 0nat,
    {
        if actual_wire_type == WireType::LengthDelimited {
            let start = input.offset();
            let len = input.read_varint64()?;
            let mut msg = self.take_message(message);
            let previous = match input.push_limit(len) {
                Ok(previous) => previous,
                Err(e) => {
                    input.seek(start);
                    return Err(e);
                },
            };
            assert(delimited_at(old(input).pending()) matches Some((p, _)) && p
                =~= input.pending());
            let merged = msg.merge_from_masked(descriptors, message, input, mask);
            input.pop_limit(previous);
            match merged {
                Ok(()) => {
                    self.put(Value::Message(msg));
                    Ok(())
                },
                Err(e) => {
                    input.seek(start);
                    Err(e)
                },
            }
        } else {
            Err(
                Error::WireTypeMismatch {
                    expected: WireType::LengthDelimited,
                    actual: actual_wire_type,
                },
            )
        }
    }
}

impl<'a> Message<'a> {
    /// Takes the field under the number of `field` out of the message; an
    /// empty field where the message has none.
    fn take_field(&mut self, field: &FieldDescriptor) -> (taken: Field<'a>)
        ensures
            taken@ == old(self)@.field_or_empty(*field),
            final(self).fields@ == old(self).fields@.remove(field.number),
            final(self).unknown == old(self).unknown,
            final(self).descriptor == old(self).descriptor,
    {
        match self.fields.remove(&field.number) {
            Some(f) => f,
            None => Field::new(field),
        }
    }

    /// Merges one value into the field under the number of `field`, under a
    /// mask where there is one. The message gets a field under that number
    /// where it has none, whether or not the merge succeeds.
    #[verifier::rlimit(40)]
    fn merge_declared(
        &mut self,
        descriptors: &'a Descriptors,
        field: &FieldDescriptor,
        input: &mut Reader<'_>,
        wire_type: WireType,
        mask: Option<&Vec<&[&str]>>,
    ) -> (r: Result<(), Error>)
        ensures
            final(input).data() == old(input).data(),
            final(input).limit() == old(input).limit(),
            final(self)@ == old(self)@.with_field(
                field.number,
                match merged_field(
                    *descriptors,
                    *field,
                    old(self)@.field_or_empty(*field),
                    wire_type,
                    old(input).pending(),
                    mask_under(mask, field.name@),
                ) {
                    Ok(merged) => merged,
                    Err(_) => failed_field(
                        *descriptors,
                        *field,
                        old(self)@.field_or_empty(*field),
                        wire_type,
                        old(input).pending(),
                    ),
                },
            ),
            match r {
                Ok(()) => {
                    &&& merged_field(
                        *descriptors,
                        *field,
                        old(self)@.field_or_empty(*field),
                        wire_type,
                        old(input).pending(),
                        mask_under(mask, field.name@),
                    ) is Ok
                    &&& final(input).position() == old(input).position() + frame_size(
                        field.field_type,
                        wire_type,
                        old(input).pending(),
                    )
                },
                Err(e) => {
                    &&& merged_field(
                        *descriptors,
                        *field,
                        old(self)@.field_or_empty(*field),
                        wire_type,
                        old(input).pending(),
                        mask_under(mask, field.name@),
                    ) == Err::<FieldView, ErrorView>(e@)
                    &&& final(input).position() == old(input).position()
                },
            },
        decreases old(input).pending().len(), 3nat,
    {
        let ghost before = self@;
        let mut value = self.take_field(field);
        let merged = match mask {
            Some(paths) => value.merge_selected(descriptors, field, input, wire_type, paths),
            None => value.merge_from(descriptors, field, input, wire_type),
        };
        self.fields.insert(field.number, value);
        assert(self@.fields =~= before.with_field(field.number, value@).fields);
        merged
    }

    /// Reads the value of an undeclared field and keeps it in `unknown`.
    fn read_unknown(
        unknown: &mut protobuf::UnknownFields,
        number: u32,
        wire_type: WireType,
        input: &mut Reader<'_>,
    ) -> (r: Result<(), Error>)
        ensures
            final(input).data() == old(input).data(),
            final(input).limit() == old(input).limit(),
            match r {
                Ok(()) => {
                    &&& unknown_at(wire_type, old(input).pending()) matches Some((kept, size))
                    &&& unknown_entries(*final(unknown)) == with_read(
                        unknown_entries(*old(unknown)),
                        number,
                        kept,
                    )
                    &&& final(input).position() == old(input).position() + size
                },
                Err(e) => {
                    &&& unknown_at(wire_type, old(input).pending()) is None
                    &&& e@ == ErrorView::Malformed
                    &&& unknown_entries(*final(unknown)) == unknown_entries(*old(unknown))
                    &&& final(input).position() == old(input).position()
                },
            },
    {
        let buf = input.pending_bytes();
        proof {
            lemma_unknown_size(wire_type, buf@);
        }
        match read_unknown_or_skip_group(number, wire_type, buf, unknown) {
            Ok(n) => {
                input.advance(n);
                Ok(())
            },
            Err(_) => Err(Error::Malformed),
        }
    }

    /// Reads one tag and merges the field behind it: a declared field into
    /// the field under its number, an undeclared one into the bag of
    /// unknown fields.
    #[verifier::rlimit(40)]
    fn merge_next(
        &mut self,
        descriptors: &'a Descriptors,
        message: &'a MessageDescriptor,
        input: &mut Reader<'_>,
    ) -> (r: Result<(), Error>)
        ensures
            final(input).data() == old(input).data(),
            final(input).limit() == old(input).limit(),
            match r {
                Ok(()) => {
                    &&& merge_step(
                        *descriptors,
                        *message,
                        None,
                        old(self)@,
                        old(input).pending(),
                    ) matches Ok((next, taken))
                    &&& final(self)@ == next
                    &&& final(input).position() == old(input).position() + taken
                },
                Err(e) => {
                    &&& merge_step(
                        *descriptors,
                        *message,
                        None,
                        old(self)@,
                        old(input).pending(),
                    ) matches Err((error, failed))
                    &&& e@ == error
                    &&& final(self)@ == failed
                },
            },
        decreases old(input).pending().len(), 4nat,
    {
        let ghost before = self@;
        let (number, wire_type) = input.read_tag()?;
        match message.field_by_number(number as i32) {
            Some(field) => self.merge_declared(descriptors, field, input, wire_type, None),
            None => {
                let read = Message::read_unknown(&mut self.unknown, number, wire_type, input);
                assert(self@.fields =~= before.fields);
                read
            },
        }
    }

    /// Merges the frame of `input` into this message: tag by tag to the end
    /// of the frame, a declared field into the field under its number, an
    /// undeclared one into the bag of unknown fields. The frame of `input`
    /// is the same after the call, whatever happened. Where the merge
    /// fails, `input` stands where it stood, and the message holds what was
    /// merged before the failure: its fields are under the numbers that
    /// they were under and under declared numbers, and no other.
    pub fn merge_from(
        &mut self,
        descriptors: &'a Descriptors,
        message: &'a MessageDescriptor,
        input: &mut Reader<'_>,
    ) -> (r: Result<(), Error>)
        ensures
            final(input).data() == old(input).data(),
            final(input).limit() == old(input).limit(),
            keys_kept(*message, old(self)@, final(self)@),
            match r {
                Ok(()) => {
                    &&& merged_message(*descriptors, *message, old(self)@, old(input).pending())
                        == Ok::<MessageView, ErrorView>(final(self)@)
                    &&& final(input).position() == final(input).limit()
                },
                Err(e) => {
                    &&& merged_message(*descriptors, *message, old(self)@, old(input).pending())
                        == Err::<MessageView, ErrorView>(e@)
                    &&& final(self)@ == merged_as_far(
                        *descriptors,
                        *message,
                        old(self)@,
                        old(input).pending(),
                    )
                    &&& final(input).position() == old(input).position()
                },
            },
        decreases old(input).pending().len(), 5nat,
    {
        let start = input.offset();
        while !input.eof()
            invariant
                input.data() == old(input).data(),
                input.limit() == old(input).limit(),
                input.pending().len() <= old(input).pending().len(),
                merged_message(*descriptors, *message, old(self)@, old(input).pending())
                    == merged_message(*descriptors, *message, self@, input.pending()),
                merged_as_far(*descriptors, *message, old(self)@, old(input).pending())
                    == merged_as_far(*descriptors, *message, self@, input.pending()),
                keys_kept(*message, old(self)@, self@),
                start == old(input).position(),
                start <= input.limit(),
            decreases input.pending().len(),
        {
            let ghost before = self@;
            let ghost bytes = input.pending();
            let merged = self.merge_next(descriptors, message, input);
            proof {
                lemma_merge_step(*descriptors, *message, before, bytes);
                lemma_as_far_step(*descriptors, *message, before, bytes);
                lemma_step_size(*descriptors, *message, None, before, bytes);
                lemma_step_keeps(*descriptors, *message, None, before, bytes);
                lemma_keys_kept_trans(*message, old(self)@, before, self@);
                if merged is Ok {
                    let taken = merge_step(*descriptors, *message, None, before, bytes)->Ok_0.1;
                    assert(input.pending() =~= bytes.skip(taken as int));
                }
            }
            if let Err(e) = merged {
                input.seek(start);
                return Err(e);
            }
        }
        Ok(())
    }

    /// Reads one tag and merges the field behind it under a mask, or reads
    /// and drops it where the mask leaves it out. What is read and dropped
    /// goes to `dropped`, which is not the bag of the message.
    #[verifier::rlimit(40)]
    fn merge_next_masked(
        &mut self,
        descriptors: &'a Descriptors,
        message: &'a MessageDescriptor,
        input: &mut Reader<'_>,
        mask: &Vec<&[&str]>,
        dropped: &mut protobuf::UnknownFields,
    ) -> (r: Result<(), Error>)
        ensures
            final(input).data() == old(input).data(),
            final(input).limit() == old(input).limit(),
            match r {
                Ok(()) => {
                    &&& merge_step(
                        *descriptors,
                        *message,
                        Some(paths_view(mask@)),
                        old(self)@,
                        old(input).pending(),
                    ) matches Ok((next, taken))
                    &&& final(self)@ == next
                    &&& final(input).position() == old(input).position() + taken
                },
                Err(e) => {
                    &&& merge_step(
                        *descriptors,
                        *message,
                        Some(paths_view(mask@)),
                        old(self)@,
                        old(input).pending(),
                    ) matches Err((error, failed))
                    &&& e@ == error
                    &&& final(self)@ == failed
                },
            },
        decreases old(input).pending().len(), 4nat,
    {
        let (number, wire_type) = input.read_tag()?;
        let wanted = match message.field_by_number(number as i32) {
            Some(field) => if selected(mask, field.name.as_str()) {
                Some(field)
            } else {
                None
            },
            None => None,
        };
        assert(match wanted {
            Some(field) => selected_field(*message, paths_view(mask@), number) == Some(*field),
            None => selected_field(*message, paths_view(mask@), number) is None,
        });
        match wanted {
            Some(field) => self.merge_declared(descriptors, field, input, wire_type, Some(mask)),
            None => Message::read_unknown(dropped, number, wire_type, input),
        }
    }

    /// Merges the frame of `input` into this message under a mask. A
    /// declared field whose name starts a path of the mask is merged: under
    /// the rest of those paths where one goes on, else in full. Every other
    /// field is read and dropped; the bag of unknown fields stays as it
    /// was. Where the merge fails, `input` stands where it stood, and the
    /// message holds what was merged before the failure.
    pub fn merge_from_masked(
        &mut self,
        descriptors: &'a Descriptors,
        message: &'a MessageDescriptor,
        input: &mut Reader<'_>,
        mask: Vec<&[&str]>,
    ) -> (r: Result<(), Error>)
        ensures
            final(input).data() == old(input).data(),
            final(input).limit() == old(input).limit(),
            keys_kept(*message, old(self)@, final(self)@),
            final(self)@.unknown == old(self)@.unknown,
            match r {
                Ok(()) => {
                    &&& merged_masked(
                        *descriptors,
                        *message,
                        old(self)@,
                        old(input).pending(),
                        paths_view(mask@),
                    ) == Ok::<MessageView, ErrorView>(final(self)@)
                    &&& final(input).position() == final(input).limit()
                },
                Err(e) => {
                    &&& merged_masked(
                        *descriptors,
                        *message,
                        old(self)@,
                        old(input).pending(),
                        paths_view(mask@),
                    ) == Err::<MessageView, ErrorView>(e@)
                    &&& final(self)@ == masked_as_far(
                        *descriptors,
                        *message,
                        old(self)@,
                        old(input).pending(),
                        paths_view(mask@),
                    )
                    &&& final(input).position() == old(input).position()
                },
            },
        decreases old(input).pending().len(), 5nat,
    {
        let start = input.offset();
        let mut dropped = protobuf::UnknownFields::new();
        while !input.eof()
            invariant
                input.data() == old(input).data(),
                input.limit() == old(input).limit(),
                input.pending().len() <= old(input).pending().len(),
                merged_masked(
                    *descriptors,
                    *message,
                    old(self)@,
                    old(input).pending(),
                    paths_view(mask@),
                ) == merged_masked(
                    *descriptors,
                    *message,
                    self@,
                    input.pending(),
                    paths_view(mask@),
                ),
                masked_as_far(
                    *descriptors,
                    *message,
                    old(self)@,
                    old(input).pending(),
                    paths_view(mask@),
                ) == masked_as_far(
                    *descriptors,
                    *message,
                    self@,
                    input.pending(),
                    paths_view(mask@),
                ),
                keys_kept(*message, old(self)@, self@),
                self@.unknown == old(self)@.unknown,
                start == old(input).position(),
                start <= input.limit(),
            decreases input.pending().len(),
        {
            let ghost before = self@;
            let ghost bytes = input.pending();
            let ghost paths = paths_view(mask@);
            let merged = self.merge_next_masked(descriptors, message, input, &mask, &mut dropped);
            proof {
                lemma_masked_step(*descriptors, *message, before, bytes, paths);
                lemma_masked_as_far_step(*descriptors, *message, before, bytes, paths);
                lemma_step_size(*descriptors, *message, Some(paths), before, bytes);
                lemma_step_keeps(*descriptors, *message, Some(paths), before, bytes);
                lemma_keys_kept_trans(*message, old(self)@, before, self@);
                if merged is Ok {
                    let taken = merge_step(
                        *descriptors,
                        *message,
                        Some(paths),
                        before,
                        bytes,
                    )->Ok_0.1;
                    assert(input.pending() =~= bytes.skip(taken as int));
                }
            }
            if let Err(e) = merged {
                input.seek(start);
                return Err(e);
            }
        }
        Ok(())
    }
}

} // verus!
