//! What a message shows of itself: its fields by name.

use vstd::prelude::*;
use crate::descriptor::FieldDescriptor;
use crate::value::{Field, FieldView, Message};

verus! {

broadcast use vstd::std_specs::btree::group_btree_axioms;

/// The names and fields that a message shows for the first `n` declared
/// fields: in the order of declaration, each declared field under whose
/// number the message has a field, with its name.
pub open spec fn shown_fields(
    declared: Seq<FieldDescriptor>,
    held: Map<i32, FieldView>,
    n: int,
) -> Seq<(Seq<char>, FieldView)>
    decreases n,
{
    if n <= 0 || n > declared.len() {
        Seq::empty()
    } else if held.contains_key(declared[n - 1].number) {
        shown_fields(declared, held, n - 1).push(
            (declared[n - 1].name@, held[declared[n - 1].number]),
        )
    } else {
        shown_fields(declared, held, n - 1)
    }
}

impl<'a> Message<'a> {
    /// The fields of the message by name, for display: in the order in
    /// which the descriptor declares them, without the declared fields that
    /// the message has no field for. A field without a value is shown.
    pub fn named_fields(&self) -> (shown: Vec<(&str, &Field<'a>)>)
        ensures
            shown@.len() == shown_fields(
                self.descriptor.fields@,
                self@.fields,
                self.descriptor.fields@.len() as int,
            ).len(),
            forall|i: int|
                0 <= i < shown@.len() ==> (#[trigger] shown@[i]).0@ == shown_fields(
                    self.descriptor.fields@,
                    self@.fields,
                    self.descriptor.fields@.len() as int,
                )[i].0 && shown@[i].1@ == shown_fields(
                    self.descriptor.fields@,
                    self@.fields,
                    self.descriptor.fields@.len() as int,
                )[i].1,
    {
        let declared = &self.descriptor.fields;
        let mut shown: Vec<(&str, &Field<'a>)> = Vec::new();
        let mut i: usize = 0;
        while i < declared.len()
            invariant
                i <= declared.len(),
                declared == &self.descriptor.fields,
                shown@.len() == shown_fields(declared@, self@.fields, i as int).len(),
                forall|j: int|
                    0 <= j < shown@.len() ==> (#[trigger] shown@[j]).0@ == shown_fields(
                        declared@,
                        self@.fields,
                        i as int,
                    )[j].0 && shown@[j].1@ == shown_fields(declared@, self@.fields, i as int)[j].1,
            decreases declared.len() - i,
        {
            match self.fields.get(&declared[i].number) {
                Some(field) => {
                    shown.push((declared[i].name.as_str(), field));
                },
                None => {},
            }
            i += 1;
        }
        shown
    }
}

} // verus!
