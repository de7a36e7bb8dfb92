//! The runtime values: a closed set of scalar and composite kinds, the field
//! that holds one or many of them, and the message that holds fields.

use std::collections::BTreeMap;
use vstd::prelude::*;
use vstd::std_specs::btree::spec_btree_map_iter;
use vstd::std_specs::iter::IteratorSpec;
use crate::descriptor::{FieldDescriptor, MessageDescriptor};
use crate::model::{empty_field, initial_field, initial_fields, new_message};
use crate::unknown::unknown_entries;

verus! {

broadcast use vstd::std_specs::btree::group_btree_axioms;

/// Any protobuf value. A floating-point value is held by its bits.
#[derive(Debug, PartialEq)]
pub enum Value<'a> {
    /// A boolean value.
    Bool(bool),
    /// A 32-bit signed integer.
    I32(i32),
    /// A 64-bit signed integer.
    I64(i64),
    /// A 32-bit unsigned integer.
    U32(u32),
    /// A 64-bit unsigned integer.
    U64(u64),
    /// The bits of a 32-bit floating point value.
    F32(u32),
    /// The bits of a 64-bit floating point value.
    F64(u64),
    /// A 64-bit signed integer, zigzag-coded on the wire.
    S64(i64),
    /// A 32-bit signed integer, zigzag-coded on the wire.
    S32(i32),
    /// A 64-bit fixed length unsigned integer.
    Fixed64(u64),
    /// A 32-bit fixed length unsigned integer.
    Fixed32(u32),
    /// A 64-bit fixed length signed integer.
    SFixed64(i64),
    /// A 32-bit fixed length signed integer.
    SFixed32(i32),
    /// A byte vector.
    Bytes(Vec<u8>),
    /// A string.
    String(String),
    /// An enum value, by its number.
    Enum(i32),
    /// A message.
    Message(Message<'a>),
}

/// A message value.
#[derive(Debug, PartialEq)]
pub struct Message<'a> {
    /// Known fields on the message, by field number.
    pub fields: BTreeMap<i32, Field<'a>>,
    /// Unknown fields on the message.
    pub unknown: protobuf::UnknownFields,
    /// The message descriptor for this message.
    pub descriptor: &'a MessageDescriptor,
}

/// A message field value.
#[derive(Debug, PartialEq)]
pub enum Field<'a> {
    /// A field with a single value.
    Singular(Option<Value<'a>>),
    /// A field with several (repeated) values.
    Repeated(Vec<Value<'a>>),
}

/// The mathematical value of a [`Value`].
pub enum ValueView {
    Bool(bool),
    I32(i32),
    I64(i64),
    U32(u32),
    U64(u64),
    F32(u32),
    F64(u64),
    S64(i64),
    S32(i32),
    Fixed64(u64),
    Fixed32(u32),
    SFixed64(i64),
    SFixed32(i32),
    Bytes(Seq<u8>),
    String(Seq<char>),
    Enum(i32),
    Message(MessageView),
}

/// The mathematical value of a [`Field`].
pub enum FieldView {
    Singular(Option<ValueView>),
    Repeated(Seq<ValueView>),
}

/// The mathematical value of a [`Message`]: its fields by number, what its
/// bag of unknown fields holds, and its descriptor.
pub struct MessageView {
    pub fields: Map<i32, FieldView>,
    pub unknown: Map<u32, (Seq<u32>, Seq<u64>, Seq<u64>, Seq<Seq<u8>>)>,
    pub descriptor: MessageDescriptor,
}

impl<'a> View for Value<'a> {
    type V = ValueView;

    open spec fn view(&self) -> ValueView
        decreases self,
    {
        match self {
            Value::Bool(v) => ValueView::Bool(*v),
            Value::I32(v) => ValueView::I32(*v),
            Value::I64(v) => ValueView::I64(*v),
            Value::U32(v) => ValueView::U32(*v),
            Value::U64(v) => ValueView::U64(*v),
            Value::F32(v) => ValueView::F32(*v),
            Value::F64(v) => ValueView::F64(*v),
            Value::S64(v) => ValueView::S64(*v),
            Value::S32(v) => ValueView::S32(*v),
            Value::Fixed64(v) => ValueView::Fixed64(*v),
            Value::Fixed32(v) => ValueView::Fixed32(*v),
            Value::SFixed64(v) => ValueView::SFixed64(*v),
            Value::SFixed32(v) => ValueView::SFixed32(*v),
            Value::Bytes(v) => ValueView::Bytes(v@),
            Value::String(v) => ValueView::String(v@),
            Value::Enum(v) => ValueView::Enum(*v),
            Value::Message(m) => ValueView::Message(m.view()),
        }
    }
}

impl<'a> View for Field<'a> {
    type V = FieldView;

    open spec fn view(&self) -> FieldView
        decreases self,
    {
        match self {
            Field::Singular(None) => FieldView::Singular(None),
            Field::Singular(Some(v)) => FieldView::Singular(Some(v.view())),
            Field::Repeated(vs) => FieldView::Repeated(
                Seq::new(
                    vs@.len(),
                    |i: int|
                        if 0 <= i < vs@.len() {
                            vs@[i].view()
                        } else {
                            arbitrary()
                        },
                ),
            ),
        }
    }
}

impl<'a> View for Message<'a> {
    type V = MessageView;

    open spec fn view(&self) -> MessageView
        decreases self,
    {
        MessageView {
            fields: Map::new(
                |k: i32| self.fields@.contains_key(k),
                |k: i32|
                    if self.fields@.contains_key(k) {
                        self.fields@[k].view()
                    } else {
                        arbitrary()
                    },
            ),
            unknown: unknown_entries(self.unknown),
            descriptor: *self.descriptor,
        }
    }
}

impl<'a> Clone for Value<'a> {
    /// A copy of the value.
    fn clone(&self) -> (copy: Self)
        ensures
            copy@ == self@,
        decreases self,
    {
        match self {
            Value::Bool(v) => Value::Bool(*v),
            Value::I32(v) => Value::I32(*v),
            Value::I64(v) => Value::I64(*v),
            Value::U32(v) => Value::U32(*v),
            Value::U64(v) => Value::U64(*v),
            Value::F32(v) => Value::F32(*v),
            Value::F64(v) => Value::F64(*v),
            Value::S64(v) => Value::S64(*v),
            Value::S32(v) => Value::S32(*v),
            Value::Fixed64(v) => Value::Fixed64(*v),
            Value::Fixed32(v) => Value::Fixed32(*v),
            Value::SFixed64(v) => Value::SFixed64(*v),
            Value::SFixed32(v) => Value::SFixed32(*v),
            Value::Bytes(v) => Value::Bytes(v.clone()),
            Value::String(v) => Value::String(v.clone()),
            Value::Enum(v) => Value::Enum(*v),
            Value::Message(m) => Value::Message(m.clone()),
        }
    }
}

impl<'a> Clone for Field<'a> {
    /// A copy of the field, value by value.
    fn clone(&self) -> (copy: Self)
        ensures
            copy@ == self@,
        decreases self,
    {
        match self {
            Field::Singular(None) => Field::Singular(None),
            Field::Singular(Some(v)) => Field::Singular(Some(v.clone())),
            Field::Repeated(values) => {
                let mut copies: Vec<Value<'a>> = Vec::new();
                let mut i: usize = 0;
                while i < values.len()
                    invariant
                        i <= values.len(),
                        copies.len() == i,
                        forall|j: int| 0 <= j < i ==> copies@[j]@ == values@[j]@,
                        self matches Field::Repeated(held) && held == values,
                    decreases values.len() - i,
                {
                    assert(decreases_to!(self => values[i as int]));
                    copies.push(values[i].clone());
                    i += 1;
                }
                let copy = Field::Repeated(copies);
                assert(copy@ == self@) by {
                    assert(copy@->Repeated_0 =~= self@->Repeated_0);
                }
                copy
            },
        }
    }
}

impl<'a> Clone for Message<'a> {
    /// A copy of the message: its fields, what its bag of unknown fields
    /// holds, and the same descriptor.
    fn clone(&self) -> (copy: Self)
        ensures
            copy@ == self@,
        decreases self,
    {
        let mut fields: BTreeMap<i32, Field<'a>> = BTreeMap::new();
        let ghost all = spec_btree_map_iter(&self.fields).remaining();
        for entry in it: self.fields.iter()
            invariant
                all == it.seq(),
                forall|j: int|
                    0 <= j < it.index() ==> fields@.contains_key(*all[j].0) && fields@[*all[j].0]@
                        == (*all[j].1)@,
                forall|k: i32| fields@.contains_key(k) ==> self.fields@.contains_key(k),
        {
            let (number, field) = entry;
            assert(self.fields@.contains_key(*number) && self.fields@[*number] == *field);
            fields.insert(*number, field.clone());
        }
        let copy = Message { fields, unknown: self.unknown.clone(), descriptor: self.descriptor };
        proof {
            assert forall|k: i32| self.fields@.contains_key(k) implies fields@.contains_key(k)
                && fields@[k]@ == self.fields@[k]@ by {
                assert(all.contains((&k, &self.fields@[k])));
                let j = choose|j: int| 0 <= j < all.len() && all[j] == (&k, &self.fields@[k]);
                assert(fields@.contains_key(*all[j].0));
            }
            assert(copy@.fields =~= self@.fields);
        }
        copy
    }
}

impl<'a> Field<'a> {
    /// The empty field for a declared field: no value, or no values.
    pub fn new(field: &FieldDescriptor) -> (r: Field<'a>)
        ensures
            r@ == empty_field(*field),
    {
        if field.is_repeated() {
            let r = Field::Repeated(Vec::new());
            assert(r@->Repeated_0 =~= Seq::empty());
            r
        } else {
            Field::Singular(None)
        }
    }

    /// Puts `value` into the field: a singular field then holds `value`
    /// alone, a repeated field holds it after the values it had.
    pub fn put(&mut self, value: Value<'a>)
        ensures
            final(self)@ == old(self)@.put(value@),
    {
        match self {
            Field::Singular(slot) => {
                *slot = Some(value);
            },
            Field::Repeated(values) => {
                values.push(value);
                assert(final(self)@->Repeated_0 =~= old(self)@->Repeated_0.push(value@));
            },
        }
    }
}

impl<'a> Message<'a> {
    /// The new message of a type: a field for every declared field, a
    /// repeated one empty, a singular one with its default value, and no
    /// unknown fields.
    pub fn new(message: &'a MessageDescriptor) -> (m: Message<'a>)
        ensures
            m@ == new_message(*message),
    {
        let mut fields: BTreeMap<i32, Field<'a>> = BTreeMap::new();
        let mut i: usize = 0;
        while i < message.fields.len()
            invariant
                i <= message.fields.len(),
                fields_view(fields@) == initial_fields(message.fields@, i as int),
            decreases message.fields.len() - i,
        {
            let declared = &message.fields[i];
            let field = if declared.is_repeated() {
                Field::new(declared)
            } else {
                match &declared.default_value {
                    Some(v) => Field::Singular(Some(v.clone())),
                    None => Field::Singular(None),
                }
            };
            assert(field@ == initial_field(*declared));
            let ghost before = fields@;
            fields.insert(declared.number, field);
            assert(fields_view(fields@) =~= fields_view(before).insert(declared.number, field@));
            i += 1;
        }
        let m = Message { fields, unknown: protobuf::UnknownFields::new(), descriptor: message };
        assert(m@.fields =~= fields_view(m.fields@));
        m
    }
}

/// The mathematical values of the fields of a message, by number.
pub open spec fn fields_view(fields: Map<i32, Field>) -> Map<i32, FieldView> {
    Map::new(|k: i32| fields.contains_key(k), |k: i32| fields[k]@)
}

} // verus!
