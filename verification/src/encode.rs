//! Encoding: writing values, fields and messages as wire data.

use vstd::prelude::*;
use vstd::std_specs::btree::{increasing_seq, spec_btree_map_iter};
use vstd::std_specs::iter::IteratorSpec;
use crate::error::{Error, ErrorView};
use crate::model::{
    field_bytes, field_writable, fields_bytes, message_bytes, message_writable, packable, run_bytes,
    run_writable, scalar_bits, tagged_bytes, tagged_run_bytes, value_bytes, value_writable,
    wire_type_of,
};
use crate::order::lemma_ascending;
use crate::stream::{
    put_bytes, put_delimited, put_fixed32, put_fixed64, put_string, put_tag, put_varint64,
};
use crate::value::{Field, FieldView, Message, Value};
use crate::wire::{
    encode_zigzag32, encode_zigzag64, tag_bytes, to_unsigned32, to_unsigned64, truncate32,
    valid_field_number, FIELD_NUMBER_MAX, WireType,
};

verus! {

broadcast use vstd::std_specs::btree::group_btree_axioms;

/// Fields whose numbers lie in a range that holds no field add no bytes.
pub proof fn lemma_fields_gap(fields: Map<i32, FieldView>, lo: int, hi: int)
    requires
        -0x8000_0000 <= lo <= hi <= 0x8000_0000,
        forall|k: i32| lo <= k < hi ==> !fields.contains_key(k),
    ensures
        fields_bytes(fields, hi) == fields_bytes(fields, lo),
    decreases hi - lo,
{
    if lo < hi {
        assert(!fields.contains_key((hi - 1) as i32));
        lemma_fields_gap(fields, lo, hi - 1);
    }
}

/// Whether a tag can carry `number`.
pub fn is_valid_field_number(number: u32) -> (valid: bool)
    ensures
        valid == valid_field_number(number as int),
{
    number >= 1 && number <= FIELD_NUMBER_MAX
}

impl<'a> Value<'a> {
    /// The wire type that the value is written with.
    pub fn wire_type(&self) -> (wire_type: WireType)
        ensures
            wire_type == wire_type_of(self@),
    {
        match self {
            Value::Bool(_)
            | Value::I32(_)
            | Value::I64(_)
            | Value::U32(_)
            | Value::U64(_)
            | Value::S32(_)
            | Value::S64(_)
            | Value::Enum(_) => WireType::Varint,
            Value::F64(_) | Value::Fixed64(_) | Value::SFixed64(_) => WireType::Fixed64,
            Value::F32(_) | Value::Fixed32(_) | Value::SFixed32(_) => WireType::Fixed32,
            Value::String(_) | Value::Message(_) | Value::Bytes(_) => WireType::LengthDelimited,
        }
    }

    /// Whether the value is of a numeric kind.
    pub fn is_packable(&self) -> (b: bool)
        ensures
            b == packable(self@),
    {
        match self {
            Value::Bytes(_) | Value::String(_) | Value::Message(_) | Value::Enum(_) => false,
            _ => true,
        }
    }

    /// Whether the value can be written: every message in it can.
    pub fn is_writable(&self) -> (b: bool)
        ensures
            b == value_writable(self@),
        decreases self,
    {
        match self {
            Value::Message(m) => m.is_writable(),
            _ => true,
        }
    }

    /// The number that is written for a value of a numeric kind or an enum.
    fn bits(&self) -> (bits: u64)
        ensures
            bits == scalar_bits(self@),
    {
        match self {
            Value::Bool(v) => if *v {
                1
            } else {
                0
            },
            Value::I32(v) => to_unsigned64(*v as i64),
            Value::I64(v) => to_unsigned64(*v),
            Value::U32(v) => *v as u64,
            Value::U64(v) => *v,
            Value::S32(v) => encode_zigzag32(*v) as u64,
            Value::S64(v) => encode_zigzag64(*v),
            Value::Enum(v) => to_unsigned64(*v as i64),
            Value::F32(v) => *v as u64,
            Value::Fixed32(v) => *v as u64,
            Value::SFixed32(v) => to_unsigned32(*v) as u64,
            Value::F64(v) => *v,
            Value::Fixed64(v) => *v,
            Value::SFixed64(v) => to_unsigned64(*v),
            _ => 0,
        }
    }

    /// Appends the tag of field `tag` with the wire type of this value.
    fn write_tag(&self, tag: u32, out: &mut Vec<u8>)
        requires
            valid_field_number(tag as int),
        ensures
            final(out)@ == old(out)@ + tag_bytes(tag, wire_type_of(self@)),
    {
        let written = put_tag(out, tag, self.wire_type());
        assert(written is Ok);
    }

    /// Appends the value without a tag.
    fn encode_raw(&self, out: &mut Vec<u8>)
        requires
            value_writable(self@),
        ensures
            final(out)@ == old(out)@ + value_bytes(self@),
        decreases self, 0nat,
    {
        match self {
            Value::Bytes(v) => put_bytes(out, v.as_slice()),
            Value::String(v) => put_string(out, v.as_str()),
            Value::Message(m) => {
                let mut inner: Vec<u8> = Vec::new();
                m.encode(&mut inner);
                assert(inner@ =~= message_bytes(m@));
                put_delimited(out, inner.as_slice());
            },
            _ => {
                let bits = self.bits();
                match self.wire_type() {
                    WireType::Fixed32 => put_fixed32(out, truncate32(bits)),
                    WireType::Fixed64 => put_fixed64(out, bits),
                    _ => put_varint64(out, bits),
                }
            },
        }
    }

    /// Appends the value with the tag of field `tag` before it.
    fn encode(&self, tag: u32, out: &mut Vec<u8>)
        requires
            valid_field_number(tag as int),
            value_writable(self@),
        ensures
            final(out)@ == old(out)@ + tagged_bytes(tag, self@),
        decreases self, 1nat,
    {
        self.write_tag(tag, out);
        self.encode_raw(out);
        assert(out@ =~= old(out)@ + tagged_bytes(tag, self@));
    }

    /// Writes the value to `out` as the field `tag`: its tag, then the
    /// value. Fails where no tag can carry `tag`, or a message in the value
    /// cannot be written; nothing is then written.
    pub fn write_to(self, tag: u32, out: &mut Vec<u8>) -> (r: Result<(), Error>)
        ensures
            match r {
                Ok(()) => {
                    &&& valid_field_number(tag as int)
                    &&& value_writable(self@)
                    &&& final(out)@ == old(out)@ + tagged_bytes(tag, self@)
                },
                Err(e) => {
                    &&& !(valid_field_number(tag as int) && value_writable(self@))
                    &&& e@ == ErrorView::InvalidFieldNumber
                    &&& final(out)@ == old(out)@
                },
            },
    {
        if is_valid_field_number(tag) && self.is_writable() {
            self.encode(tag, out);
            Ok(())
        } else {
            Err(Error::InvalidFieldNumber)
        }
    }

    /// Writes the value to `out` without a tag. Fails where a message in the
    /// value cannot be written; nothing is then written.
    pub fn write_to_raw(self, out: &mut Vec<u8>) -> (r: Result<(), Error>)
        ensures
            match r {
                Ok(()) => value_writable(self@) && final(out)@ == old(out)@ + value_bytes(self@),
                Err(e) => {
                    &&& !value_writable(self@)
                    &&& e@ == ErrorView::InvalidFieldNumber
                    &&& final(out)@ == old(out)@
                },
            },
    {
        if self.is_writable() {
            self.encode_raw(out);
            Ok(())
        } else {
            Err(Error::InvalidFieldNumber)
        }
    }
}

impl<'a> Field<'a> {
    /// Whether the field can be written under the number `tag`: a tag can
    /// carry `tag`, unless the field is empty, and every value can be
    /// written.
    pub fn is_writable(&self, tag: u32) -> (b: bool)
        ensures
            b == field_writable(tag, self@),
        decreases self,
    {
        match self {
            Field::Singular(None) => true,
            Field::Singular(Some(value)) => is_valid_field_number(tag) && value.is_writable(),
            Field::Repeated(values) => {
                let ghost views = self@->Repeated_0;
                if values.len() > 0 && !is_valid_field_number(tag) {
                    return false;
                }
                let mut i: usize = 0;
                while i < values.len()
                    invariant
                        i <= values.len(),
                        self matches Field::Repeated(held) && held == values,
                        views == self@->Repeated_0,
                        run_writable(views, i as int),
                    decreases values.len() - i,
                {
                    assert(decreases_to!(self => values[i as int]));
                    if !values[i].is_writable() {
                        assert(!value_writable(views[i as int]));
                        return false;
                    }
                    i += 1;
                }
                true
            },
        }
    }

    /// Appends the field under the number `tag`.
    fn encode(&self, tag: u32, out: &mut Vec<u8>)
        requires
            field_writable(tag, self@),
        ensures
            final(out)@ == old(out)@ + field_bytes(tag, self@),
        decreases self, 0nat,
    {
        match self {
            Field::Singular(Some(value)) => value.encode(tag, out),
            Field::Singular(None) => {
                assert(out@ =~= old(out)@ + field_bytes(tag, self@));
            },
            Field::Repeated(values) => {
                let ghost views = self@->Repeated_0;
                if values.len() > 0 && values[0].is_packable() {
                    let mut run: Vec<u8> = Vec::new();
                    let mut i: usize = 0;
                    assert(run@ =~= run_bytes(views, 0));
                    while i < values.len()
                        invariant
                            i <= values.len(),
                            self matches Field::Repeated(held) && held == values,
                            views == self@->Repeated_0,
                            run_writable(views, views.len() as int),
                            run@ == run_bytes(views, i as int),
                        decreases values.len() - i,
                    {
                        assert(decreases_to!(self => values[i as int]));
                        assert(value_writable(views[i as int]));
                        values[i].encode_raw(&mut run);
                        i += 1;
                    }
                    let tagged = put_tag(out, tag, WireType::LengthDelimited);
                    assert(tagged is Ok);
                    put_delimited(out, run.as_slice());
                    assert(out@ =~= old(out)@ + field_bytes(tag, self@));
                } else {
                    let mut i: usize = 0;
                    assert(out@ =~= old(out)@ + tagged_run_bytes(tag, views, 0));
                    while i < values.len()
                        invariant
                            i <= values.len(),
                            self matches Field::Repeated(held) && held == values,
                            views == self@->Repeated_0,
                            run_writable(views, views.len() as int),
                            views.len() > 0 ==> valid_field_number(tag as int),
                            out@ == old(out)@ + tagged_run_bytes(tag, views, i as int),
                        decreases values.len() - i,
                    {
                        assert(decreases_to!(self => values[i as int]));
                        assert(value_writable(views[i as int]));
                        values[i].encode(tag, out);
                        assert(out@ =~= old(out)@ + tagged_run_bytes(tag, views, i as int + 1));
                        i += 1;
                    }
                }
            },
        }
    }

    /// Writes the field to `out` under the number `tag`. A singular field
    /// is its value with a tag, or nothing; a repeated field of a numeric
    /// kind is packed, any other is its values, each with a tag. Fails where
    /// something is to be written and no tag can carry `tag`, or a message
    /// in the field cannot be written; nothing is then written.
    pub fn write_to(self, tag: u32, out: &mut Vec<u8>) -> (r: Result<(), Error>)
        ensures
            match r {
                Ok(()) => field_writable(tag, self@) && final(out)@ == old(out)@ + field_bytes(
                    tag,
                    self@,
                ),
                Err(e) => {
                    &&& !field_writable(tag, self@)
                    &&& e@ == ErrorView::InvalidFieldNumber
                    &&& final(out)@ == old(out)@
                },
            },
    {
        if self.is_writable(tag) {
            self.encode(tag, out);
            Ok(())
        } else {
            Err(Error::InvalidFieldNumber)
        }
    }

    /// The bytes of the field, written as field number one.
    pub fn into_vec(self) -> (r: Result<Vec<u8>, Error>)
        ensures
            match r {
                Ok(bytes) => field_writable(1, self@) && bytes@ == field_bytes(1, self@),
                Err(e) => !field_writable(1, self@) && e@ == ErrorView::InvalidFieldNumber,
            },
    {
        if self.is_writable(1) {
            let mut buf: Vec<u8> = Vec::new();
            self.encode(1, &mut buf);
            assert(buf@ =~= field_bytes(1, self@));
            Ok(buf)
        } else {
            Err(Error::InvalidFieldNumber)
        }
    }
}

impl<'a> Message<'a> {
    /// Whether the message can be written: none of its field numbers is
    /// negative, a tag can carry the number of each field that holds a
    /// value, and so for every message in it.
    pub fn is_writable(&self) -> (b: bool)
        ensures
            b == message_writable(self@),
        decreases self,
    {
        let ghost all = spec_btree_map_iter(&self.fields).remaining();
        for entry in it: self.fields.iter()
            invariant
                all == it.seq(),
                forall|j: int|
                    0 <= j < it.index() ==> *(#[trigger] all[j]).0 >= 0 && field_writable(
                        *all[j].0 as u32,
                        (*all[j].1)@,
                    ),
        {
            let (number, field) = entry;
            assert(self.fields@.contains_key(*number) && self.fields@[*number] == *field);
            assert(self@.fields.contains_key(*number) && self@.fields[*number] == field@);
            assert(decreases_to!(self => field));
            if *number < 0 {
                return false;
            }
            if !field.is_writable(*number as u32) {
                return false;
            }
        }
        proof {
            assert forall|k: i32| #[trigger] self@.fields.contains_key(k) implies k >= 0
                && field_writable(k as u32, self@.fields[k]) by {
                assert(all.contains((&k, &self.fields@[k])));
                let j = choose|j: int| 0 <= j < all.len() && all[j] == (&k, &self.fields@[k]);
                assert(*all[j].0 >= 0);
            }
        }
        true
    }

    /// Appends the fields of the message in the order of their numbers.
    fn encode(&self, out: &mut Vec<u8>)
        requires
            message_writable(self@),
        ensures
            final(out)@ == old(out)@ + message_bytes(self@),
        decreases self, 0nat,
    {
        let ghost all = spec_btree_map_iter(&self.fields).remaining();
        let ghost numbers = all.map_values(|entry: (&i32, &Field<'a>)| *entry.0);
        let ghost mut bound: int = -0x8000_0000;
        let ghost mut count: int = 0;
        assert(out@ =~= old(out)@ + fields_bytes(self@.fields, bound));
        for entry in it: self.fields.iter()
            invariant
                count == it.index(),
                all == it.seq(),
                numbers == all.map_values(|entry: (&i32, &Field<'a>)| *entry.0),
                increasing_seq(numbers),
                message_writable(self@),
                -0x8000_0000 <= bound <= 0x8000_0000,
                count == 0 ==> bound == -0x8000_0000,
                count > 0 ==> bound == numbers[count - 1] + 1,
                out@ == old(out)@ + fields_bytes(self@.fields, bound),
        {
            let (number, field) = entry;
            proof {
                lemma_ascending(numbers);
                assert(numbers[count] == *number);
                if count > 0 {
                    assert(numbers[count - 1] < numbers[count]);
                }
                assert forall|k: i32| bound <= k < *number implies !self@.fields.contains_key(
                    k,
                ) by {
                    if self.fields@.contains_key(k) {
                        assert(all.contains((&k, &self.fields@[k])));
                        let t = choose|t: int|
                            0 <= t < all.len() && all[t] == (&k, &self.fields@[k]);
                        assert(numbers[t] == k);
                        if t < count {
                            if t < count - 1 {
                                assert(numbers[t] < numbers[count - 1]);
                            }
                        } else if t > count {
                            assert(numbers[count] < numbers[t]);
                        }
                    }
                }
                lemma_fields_gap(self@.fields, bound, *number as int);
                assert(self.fields@.contains_key(*number) && self.fields@[*number] == *field);
                assert(self@.fields.contains_key(*number) && self@.fields[*number] == field@);
                assert(decreases_to!(self => field));
            }
            field.encode(*number as u32, out);
            proof {
                assert(out@ =~= old(out)@ + fields_bytes(self@.fields, *number + 1));
                bound = *number + 1;
                count = count + 1;
            }
        }
        proof {
            lemma_ascending(numbers);
            assert(count == all.len());
            assert forall|k: i32| bound <= k < 0x8000_0000 implies !self@.fields.contains_key(
                k,
            ) by {
                if self.fields@.contains_key(k) {
                    assert(all.contains((&k, &self.fields@[k])));
                    let t = choose|t: int| 0 <= t < all.len() && all[t] == (&k, &self.fields@[k]);
                    assert(numbers[t] == k);
                    if t < count - 1 {
                        assert(numbers[t] < numbers[count - 1]);
                    }
                }
            }
            lemma_fields_gap(self@.fields, bound, 0x8000_0000);
        }
    }

    /// Writes the message to `out` without a tag or a length: its fields in
    /// the order of their numbers. What the bag of unknown fields holds is
    /// not written. Fails where a field number is negative, or no tag can
    /// carry the number of a field that holds a value, in the message or in
    /// a message in it; nothing is then written.
    pub fn write_to_raw(self, out: &mut Vec<u8>) -> (r: Result<(), Error>)
        ensures
            match r {
                Ok(()) => message_writable(self@) && final(out)@ == old(out)@ + message_bytes(
                    self@,
                ),
                Err(e) => {
                    &&& !message_writable(self@)
                    &&& e@ == ErrorView::InvalidFieldNumber
                    &&& final(out)@ == old(out)@
                },
            },
    {
        if self.is_writable() {
            self.encode(out);
            Ok(())
        } else {
            Err(Error::InvalidFieldNumber)
        }
    }

    /// The bytes of the message.
    pub fn into_vec(self) -> (r: Result<Vec<u8>, Error>)
        ensures
            match r {
                Ok(bytes) => message_writable(self@) && bytes@ == message_bytes(self@),
                Err(e) => !message_writable(self@) && e@ == ErrorView::InvalidFieldNumber,
            },
    {
        if self.is_writable() {
            let mut buf: Vec<u8> = Vec::new();
            self.encode(&mut buf);
            assert(buf@ =~= message_bytes(self@));
            Ok(buf)
        } else {
            Err(Error::InvalidFieldNumber)
        }
    }
}

} // verus!
