//! Descriptors: what is known at run time about message and enum types.

use vstd::prelude::*;
use crate::value::{Value, ValueView};

verus! {

/// Whether a field holds one value or many.
#[derive(Clone, Copy, Debug, PartialEq, Eq, Structural)]
pub enum FieldLabel {
    Optional,
    Required,
    Repeated,
}

/// The declared kind of a field. An enum or message kind names its type; the
/// name is resolved against a set of descriptors when a value is decoded, and
/// a name that the set does not hold is an unresolved reference.
#[derive(Clone, Debug, PartialEq, Eq)]
pub enum FieldType {
    Bool,
    Int32,
    Int64,
    SInt32,
    SInt64,
    UInt32,
    UInt64,
    Fixed32,
    Fixed64,
    SFixed32,
    SFixed64,
    Float,
    Double,
    Bytes,
    String,
    Group,
    Enum(String),
    Message(String),
}

/// A field of a message type.
#[derive(Debug, PartialEq)]
pub struct FieldDescriptor {
    pub name: String,
    pub number: i32,
    pub label: FieldLabel,
    pub field_type: FieldType,
    pub default_value: Option<Value<'static>>,
}

/// A named number of an enum type.
#[derive(Clone, Debug, PartialEq, Eq)]
pub struct EnumValueDescriptor {
    pub name: String,
    pub number: i32,
}

/// An enum type.
#[derive(Clone, Debug, PartialEq, Eq)]
pub struct EnumDescriptor {
    pub name: String,
    pub values: Vec<EnumValueDescriptor>,
}

/// A message type: its name and its fields, in the order of declaration.
#[derive(Debug, PartialEq)]
pub struct MessageDescriptor {
    pub name: String,
    pub fields: Vec<FieldDescriptor>,
}

/// A set of message and enum types, looked up by name.
#[derive(Debug, PartialEq)]
pub struct Descriptors {
    pub messages: Vec<MessageDescriptor>,
    pub enums: Vec<EnumDescriptor>,
}

/// The index of the first field from `from` on that has the given number.
pub open spec fn field_position(fields: Seq<FieldDescriptor>, number: i32, from: int) -> Option<
    int,
>
    decreases fields.len() - from,
{
    if from < 0 || from >= fields.len() {
        None
    } else if fields[from].number == number {
        Some(from)
    } else {
        field_position(fields, number, from + 1)
    }
}

/// The index of the first message type from `from` on that has the given name.
pub open spec fn message_position(
    messages: Seq<MessageDescriptor>,
    name: Seq<char>,
    from: int,
) -> Option<int>
    decreases messages.len() - from,
{
    if from < 0 || from >= messages.len() {
        None
    } else if messages[from].name@ == name {
        Some(from)
    } else {
        message_position(messages, name, from + 1)
    }
}

/// The index of the first enum type from `from` on that has the given name.
pub open spec fn enum_position(enums: Seq<EnumDescriptor>, name: Seq<char>, from: int) -> Option<
    int,
>
    decreases enums.len() - from,
{
    if from < 0 || from >= enums.len() {
        None
    } else if enums[from].name@ == name {
        Some(from)
    } else {
        enum_position(enums, name, from + 1)
    }
}

/// Whether no two of the fields have one number.
pub open spec fn distinct_numbers(fields: Seq<FieldDescriptor>) -> bool {
    forall|i: int, j: int|
        0 <= i < j < fields.len() ==> (#[trigger] fields[i]).number != (#[trigger] fields[j]).number
}

/// What the position of a field says: where a field is found, it has the
/// number and no field before it has; where none is found, none has.
pub proof fn lemma_field_position(fields: Seq<FieldDescriptor>, number: i32, from: int)
    requires
        0 <= from,
    ensures
        match field_position(fields, number, from) {
            Some(i) => from <= i < fields.len() && fields[i].number == number && forall|j: int|
                from <= j < i ==> (#[trigger] fields[j]).number != number,
            None => forall|j: int|
                from <= j < fields.len() ==> (#[trigger] fields[j]).number != number,
        },
    decreases fields.len() - from,
{
    if from < fields.len() && fields[from].number != number {
        lemma_field_position(fields, number, from + 1);
    }
}

impl FieldDescriptor {
    /// A field with the given name, number, label, kind and default value.
    pub fn new(
        name: String,
        number: i32,
        label: FieldLabel,
        field_type: FieldType,
        default_value: Option<Value<'static>>,
    ) -> (field: FieldDescriptor)
        ensures
            field == (FieldDescriptor { name, number, label, field_type, default_value }),
    {
        FieldDescriptor { name, number, label, field_type, default_value }
    }

    /// Whether the field holds many values.
    pub open spec fn repeated(self) -> bool {
        self.label == FieldLabel::Repeated
    }

    /// The value that the field has before one is decoded, if it has one.
    pub open spec fn default_view(self) -> Option<ValueView> {
        match self.default_value {
            Some(v) => Some(v@),
            None => None,
        }
    }

    /// Whether the field holds many values.
    pub fn is_repeated(&self) -> (b: bool)
        ensures
            b == self.repeated(),
    {
        match self.label {
            FieldLabel::Repeated => true,
            _ => false,
        }
    }
}

impl MessageDescriptor {
    /// A message type of the given name, without fields.
    pub fn new(name: String) -> (message: MessageDescriptor)
        ensures
            message.name == name,
            message.fields@ == Seq::<FieldDescriptor>::empty(),
    {
        MessageDescriptor { name, fields: Vec::new() }
    }

    /// Declares `field` after the fields that are there.
    pub fn add_field(&mut self, field: FieldDescriptor)
        ensures
            final(self).name == old(self).name,
            final(self).fields@ == old(self).fields@.push(field),
    {
        self.fields.push(field);
    }

    /// The first declared field with the given number, if there is one.
    pub open spec fn declared(self, number: i32) -> Option<FieldDescriptor> {
        match field_position(self.fields@, number, 0) {
            Some(i) => Some(self.fields@[i]),
            None => None,
        }
    }

    /// The first declared field with the given number, if there is one.
    pub fn field_by_number(&self, number: i32) -> (found: Option<&FieldDescriptor>)
        ensures
            match found {
                Some(field) => self.declared(number) == Some(*field),
                None => self.declared(number) is None,
            },
    {
        let mut i: usize = 0;
        while i < self.fields.len()
            invariant
                i <= self.fields.len(),
                field_position(self.fields@, number, 0) == field_position(
                    self.fields@,
                    number,
                    i as int,
                ),
            decreases self.fields.len() - i,
        {
            if self.fields[i].number == number {
                return Some(&self.fields[i]);
            }
            i += 1;
        }
        None
    }
}

impl Descriptors {
    /// An empty set of types.
    pub fn new() -> (descriptors: Descriptors)
        ensures
            descriptors.messages@ == Seq::<MessageDescriptor>::empty(),
            descriptors.enums@ == Seq::<EnumDescriptor>::empty(),
    {
        Descriptors { messages: Vec::new(), enums: Vec::new() }
    }

    /// Adds a message type after the ones that are there.
    pub fn add_message(&mut self, message: MessageDescriptor)
        ensures
            final(self).messages@ == old(self).messages@.push(message),
            final(self).enums@ == old(self).enums@,
    {
        self.messages.push(message);
    }

    /// Adds an enum type after the ones that are there.
    pub fn add_enum(&mut self, e: EnumDescriptor)
        ensures
            final(self).enums@ == old(self).enums@.push(e),
            final(self).messages@ == old(self).messages@,
    {
        self.enums.push(e);
    }

    /// The first message type with the given name, if the set holds one.
    pub open spec fn message(self, name: Seq<char>) -> Option<MessageDescriptor> {
        match message_position(self.messages@, name, 0) {
            Some(i) => Some(self.messages@[i]),
            None => None,
        }
    }

    /// The first enum type with the given name, if the set holds one.
    pub open spec fn enumeration(self, name: Seq<char>) -> Option<EnumDescriptor> {
        match enum_position(self.enums@, name, 0) {
            Some(i) => Some(self.enums@[i]),
            None => None,
        }
    }

    /// The first message type with the given name, if the set holds one.
    pub fn message_by_name(&self, name: &String) -> (found: Option<&MessageDescriptor>)
        ensures
            match found {
                Some(message) => self.message(name@) == Some(*message),
                None => self.message(name@) is None,
            },
    {
        let mut i: usize = 0;
        while i < self.messages.len()
            invariant
                i <= self.messages.len(),
                message_position(self.messages@, name@, 0) == message_position(
                    self.messages@,
                    name@,
                    i as int,
                ),
            decreases self.messages.len() - i,
        {
            if self.messages[i].name == *name {
                return Some(&self.messages[i]);
            }
            i += 1;
        }
        None
    }

    /// The first enum type with the given name, if the set holds one.
    pub fn enum_by_name(&self, name: &String) -> (found: Option<&EnumDescriptor>)
        ensures
            match found {
                Some(e) => self.enumeration(name@) == Some(*e),
                None => self.enumeration(name@) is None,
            },
    {
        let mut i: usize = 0;
        while i < self.enums.len()
            invariant
                i <= self.enums.len(),
                enum_position(self.enums@, name@, 0) == enum_position(
                    self.enums@,
                    name@,
                    i as int,
                ),
            decreases self.enums.len() - i,
        {
            if self.enums[i].name == *name {
                return Some(&self.enums[i]);
            }
            i += 1;
        }
        None
    }
}

} // verus!
