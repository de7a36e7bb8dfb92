//! Reading and writing the wire format: a cursor over a byte slice with
//! scoped limits, and the writers that append to a byte vector.
//!
//! Varints, fixed-width numbers, strings and byte strings are decoded and
//! encoded by the `protobuf` crate; the functions that call it state what
//! they trust of it.

use vstd::prelude::*;
use vstd::slice::slice_subrange;
use vstd::utf8::{decode_utf8, encode_utf8, valid_utf8};
use crate::error::{Error, ErrorView};
use crate::wire::{
    counted_at, counted_bytes, delimited_bytes, fixed32_at, fixed32_bytes, fixed64_at,
    fixed64_bytes, lemma_varint_size_bounds, number_at, tag_at, tag_bytes, valid_field_number,
    varint_at, varint_bytes, FIELD_NUMBER_MAX, WireType,
};

verus! {

/// The error of the `protobuf` crate, of which nothing is known but that
/// there is one.
#[verifier::external_type_specification]
#[verifier::external_body]
pub struct ExProtobufError(protobuf::ProtobufError);

/// `protobuf::CodedInputStream::read_raw_varint64` on a stream over `buf`,
/// with the stream's position after the call.
///
/// Trusted: the call succeeds exactly where one of the first ten bytes of
/// `buf` is below 128; it then returns the number whose seven-bit groups are
/// those bytes, cut to 64 bits, and has read up to that byte.
#[verifier::external_body]
fn read_raw_varint64(buf: &[u8]) -> (r: Result<(u64, usize), protobuf::ProtobufError>)
    ensures
        match r {
            Ok((v, n)) => varint_at(buf@) == Some((v, n as nat)),
            Err(_) => varint_at(buf@) is None,
        },
{
    let mut stream = protobuf::CodedInputStream::from_bytes(buf);
    let v = stream.read_raw_varint64()?;
    Ok((v, stream.pos() as usize))
}

/// `protobuf::CodedInputStream::read_fixed32` on a stream over `buf`.
///
/// Trusted: the call succeeds exactly where `buf` holds four bytes, and
/// returns the number that they hold, low byte first.
#[verifier::external_body]
fn read_fixed32(buf: &[u8]) -> (r: Result<u32, protobuf::ProtobufError>)
    ensures
        match r {
            Ok(v) => fixed32_at(buf@) == Some(v),
            Err(_) => fixed32_at(buf@) is None,
        },
{
    protobuf::CodedInputStream::from_bytes(buf).read_fixed32()
}

/// `protobuf::CodedInputStream::read_fixed64` on a stream over `buf`.
///
/// Trusted: the call succeeds exactly where `buf` holds eight bytes, and
/// returns the number that they hold, low byte first.
#[verifier::external_body]
fn read_fixed64(buf: &[u8]) -> (r: Result<u64, protobuf::ProtobufError>)
    ensures
        match r {
            Ok(v) => fixed64_at(buf@) == Some(v),
            Err(_) => fixed64_at(buf@) is None,
        },
{
    protobuf::CodedInputStream::from_bytes(buf).read_fixed64()
}

/// `protobuf::CodedInputStream::read_bytes` on a stream over `buf`, with the
/// stream's position after the call.
///
/// Trusted: the call reads a varint, takes its low 32 bits for a length and
/// returns that many bytes; it fails where the varint is malformed or `buf`
/// holds fewer bytes behind it.
#[verifier::external_body]
fn read_bytes(buf: &[u8]) -> (r: Result<(Vec<u8>, usize), protobuf::ProtobufError>)
    ensures
        match r {
            Ok((payload, n)) => counted_at(buf@) == Some((payload@, n as nat)),
            Err(_) => counted_at(buf@) is None,
        },
{
    let mut stream = protobuf::CodedInputStream::from_bytes(buf);
    let payload = stream.read_bytes()?;
    Ok((payload, stream.pos() as usize))
}

/// `protobuf::CodedInputStream::read_string` on a stream over `buf`, with
/// the stream's position after the call.
///
/// Trusted: the call reads bytes as `read_bytes` does and returns them as a
/// string; it fails where `read_bytes` fails and where the bytes are not
/// valid UTF-8.
#[verifier::external_body]
fn read_string(buf: &[u8]) -> (r: Result<(String, usize), protobuf::ProtobufError>)
    ensures
        match r {
            Ok((s, n)) => {
                &&& counted_at(buf@) matches Some((payload, size))
                &&& n == size
                &&& valid_utf8(payload)
                &&& s@ == decode_utf8(payload)
            },
            Err(_) => !(counted_at(buf@) matches Some((payload, _)) && valid_utf8(payload)),
        },
{
    let mut stream = protobuf::CodedInputStream::from_bytes(buf);
    let s = stream.read_string()?;
    Ok((s, stream.pos() as usize))
}

/// `protobuf::CodedOutputStream::write_raw_varint64` on a stream that
/// appends to `out`, flushed.
///
/// Trusted: a stream over a vector grows the vector and reports no error,
/// and the call appends the varint encoding of `v`.
#[verifier::external_body]
fn write_raw_varint64(out: &mut Vec<u8>, v: u64) -> (r: Result<(), protobuf::ProtobufError>)
    ensures
        r is Ok,
        final(out)@ == old(out)@ + varint_bytes(v as nat),
{
    let mut stream = protobuf::CodedOutputStream::vec(out);
    stream.write_raw_varint64(v)?;
    stream.flush()
}

/// `protobuf::CodedOutputStream::write_fixed32_no_tag` on a stream that
/// appends to `out`, flushed.
///
/// Trusted: a stream over a vector grows the vector and reports no error,
/// and the call appends the four bytes of `v`, low byte first.
#[verifier::external_body]
fn write_fixed32_no_tag(out: &mut Vec<u8>, v: u32) -> (r: Result<(), protobuf::ProtobufError>)
    ensures
        r is Ok,
        final(out)@ == old(out)@ + fixed32_bytes(v),
{
    let mut stream = protobuf::CodedOutputStream::vec(out);
    stream.write_fixed32_no_tag(v)?;
    stream.flush()
}

/// `protobuf::CodedOutputStream::write_fixed64_no_tag` on a stream that
/// appends to `out`, flushed.
///
/// Trusted: a stream over a vector grows the vector and reports no error,
/// and the call appends the eight bytes of `v`, low byte first.
#[verifier::external_body]
fn write_fixed64_no_tag(out: &mut Vec<u8>, v: u64) -> (r: Result<(), protobuf::ProtobufError>)
    ensures
        r is Ok,
        final(out)@ == old(out)@ + fixed64_bytes(v),
{
    let mut stream = protobuf::CodedOutputStream::vec(out);
    stream.write_fixed64_no_tag(v)?;
    stream.flush()
}

/// `protobuf::CodedOutputStream::write_bytes_no_tag` on a stream that
/// appends to `out`, flushed.
///
/// Trusted: a stream over a vector grows the vector and reports no error,
/// and the call appends the low 32 bits of the length of `bytes` as a
/// varint, then `bytes`.
#[verifier::external_body]
fn write_bytes_no_tag(out: &mut Vec<u8>, bytes: &[u8]) -> (r: Result<(), protobuf::ProtobufError>)
    ensures
        r is Ok,
        final(out)@ == old(out)@ + counted_bytes(bytes@),
{
    let mut stream = protobuf::CodedOutputStream::vec(out);
    stream.write_bytes_no_tag(bytes)?;
    stream.flush()
}

/// `protobuf::CodedOutputStream::write_string_no_tag` on a stream that
/// appends to `out`, flushed.
///
/// Trusted: a stream over a vector grows the vector and reports no error,
/// and the call appends the UTF-8 bytes of `s` as `write_bytes_no_tag` does.
#[verifier::external_body]
fn write_string_no_tag(out: &mut Vec<u8>, s: &str) -> (r: Result<(), protobuf::ProtobufError>)
    ensures
        r is Ok,
        final(out)@ == old(out)@ + counted_bytes(encode_utf8(s@)),
{
    let mut stream = protobuf::CodedOutputStream::vec(out);
    stream.write_string_no_tag(s)?;
    stream.flush()
}

/// A cursor over a byte slice. The bytes from the position up to the limit
/// are the current frame; a length-delimited value narrows the frame while it
/// is read.
pub struct Reader<'a> {
    data: &'a [u8],
    pos: usize,
    limit: usize,
}

impl<'a> Reader<'a> {
    /// The position lies within the frame and the frame within the bytes.
    #[verifier::type_invariant]
    spec fn well_formed(self) -> bool {
        self.pos <= self.limit <= self.data@.len()
    }

    /// All the bytes under the cursor.
    pub closed spec fn data(self) -> Seq<u8> {
        self.data@
    }

    /// How many bytes have been read.
    pub closed spec fn position(self) -> nat {
        self.pos as nat
    }

    /// Where the current frame ends.
    pub closed spec fn limit(self) -> nat {
        self.limit as nat
    }

    /// The position lies within the frame and the frame within the bytes.
    /// This holds of every cursor.
    pub open spec fn bounded(self) -> bool {
        self.position() <= self.limit() <= self.data().len()
    }

    /// The bytes of the current frame that have not been read.
    pub open spec fn pending(self) -> Seq<u8> {
        self.data().subrange(self.position() as int, self.limit() as int)
    }

    /// A cursor at the start of `data`, whose frame is all of `data`.
    pub fn new(data: &'a [u8]) -> (r: Reader<'a>)
        ensures
            r.data() == data@,
            r.position() == 0,
            r.limit() == data@.len(),
            r.pending() == data@,
            r.bounded(),
    {
        assert(data@.subrange(0, data@.len() as int) =~= data@);
        Reader { data, pos: 0, limit: data.len() }
    }

    /// Whether the current frame has been read to its end.
    pub fn eof(&self) -> (b: bool)
        ensures
            b == (self.pending().len() == 0),
            b == (self.position() == self.limit()),
            self.bounded(),
    {
        proof {
            use_type_invariant(self);
        }
        self.pos == self.limit
    }

    /// The unread bytes of the current frame.
    pub fn pending_bytes(&self) -> (r: &'a [u8])
        ensures
            r@ == self.pending(),
            self.bounded(),
    {
        proof {
            use_type_invariant(self);
        }
        slice_subrange(self.data, self.pos, self.limit)
    }

    /// How many bytes have been read.
    pub fn offset(&self) -> (position: usize)
        ensures
            position == self.position(),
            self.bounded(),
    {
        proof {
            use_type_invariant(self);
        }
        self.pos
    }

    /// Moves the position back or forth to `position`, within the frame.
    pub(crate) fn seek(&mut self, position: usize)
        requires
            position <= old(self).limit(),
        ensures
            final(self).bounded(),
            final(self).data() == old(self).data(),
            final(self).limit() == old(self).limit(),
            final(self).position() == position,
    {
        proof {
            use_type_invariant(&*self);
        }
        self.pos = position;
    }

    /// Moves the position forward by `n` bytes.
    pub(crate) fn advance(&mut self, n: usize)
        requires
            n <= old(self).pending().len(),
        ensures
            old(self).bounded(),
            final(self).bounded(),
            final(self).data() == old(self).data(),
            final(self).limit() == old(self).limit(),
            final(self).position() == old(self).position() + n,
            final(self).pending() == old(self).pending().skip(n as int),
    {
        proof {
            use_type_invariant(&*self);
        }
        assert(self.data@.subrange(self.pos + n, self.limit as int) =~= self.data@.subrange(
            self.pos as int,
            self.limit as int,
        ).skip(n as int));
        self.pos = self.pos + n;
    }

    /// Narrows the frame to the next `len` bytes and returns the limit that
    /// was in force. Fails, and changes nothing, where fewer than `len` bytes
    /// are left in the frame.
    pub fn push_limit(&mut self, len: u64) -> (r: Result<usize, Error>)
        ensures
            old(self).bounded(),
            final(self).bounded(),
            final(self).data() == old(self).data(),
            final(self).position() == old(self).position(),
            match r {
                Ok(previous) => {
                    &&& len <= old(self).pending().len()
                    &&& previous == old(self).limit()
                    &&& final(self).limit() == old(self).position() + len
                    &&& final(self).pending() == old(self).pending().take(len as int)
                },
                Err(e) => {
                    &&& len > old(self).pending().len()
                    &&& e@ == ErrorView::Malformed
                    &&& final(self).limit() == old(self).limit()
                },
            },
    {
        proof {
            use_type_invariant(&*self);
        }
        let left: usize = self.limit - self.pos;
        if len > left as u64 {
            return Err(Error::Malformed);
        }
        let previous: usize = self.limit;
        assert(self.data@.subrange(self.pos as int, self.pos + len) =~= self.data@.subrange(
            self.pos as int,
            self.limit as int,
        ).take(len as int));
        self.limit = self.pos + len as usize;
        Ok(previous)
    }

    /// Widens the frame back to `previous`, a limit that `push_limit`
    /// returned.
    pub fn pop_limit(&mut self, previous: usize)
        requires
            old(self).limit() <= previous <= old(self).data().len(),
        ensures
            final(self).bounded(),
            final(self).data() == old(self).data(),
            final(self).position() == old(self).position(),
            final(self).limit() == previous,
    {
        proof {
            use_type_invariant(&*self);
        }
        self.limit = previous;
    }

    /// Reads a varint.
    pub fn read_varint64(&mut self) -> (r: Result<u64, Error>)
        ensures
            old(self).bounded(),
            final(self).bounded(),
            final(self).data() == old(self).data(),
            final(self).limit() == old(self).limit(),
            match r {
                Ok(v) => {
                    &&& varint_at(old(self).pending()) matches Some((value, n))
                    &&& v == value
                    &&& 1 <= n <= old(self).pending().len()
                    &&& final(self).position() == old(self).position() + n
                    &&& final(self).pending() == old(self).pending().skip(n as int)
                },
                Err(e) => {
                    &&& varint_at(old(self).pending()) is None
                    &&& e@ == ErrorView::Malformed
                    &&& final(self).position() == old(self).position()
                },
            },
    {
        let buf = self.pending_bytes();
        match read_raw_varint64(buf) {
            Ok((v, n)) => {
                proof {
                    lemma_varint_size_bounds(buf@);
                }
                self.advance(n);
                Ok(v)
            },
            Err(_) => Err(Error::Malformed),
        }
    }

    /// Reads a number in the framing of `wire_type`: a varint, or four or
    /// eight bytes, low byte first. There is no number in another framing.
    pub fn read_number(&mut self, wire_type: WireType) -> (r: Result<u64, Error>)
        ensures
            old(self).bounded(),
            final(self).bounded(),
            final(self).data() == old(self).data(),
            final(self).limit() == old(self).limit(),
            match r {
                Ok(v) => {
                    &&& number_at(wire_type, old(self).pending()) matches Some((value, n))
                    &&& v == value
                    &&& 1 <= n <= old(self).pending().len()
                    &&& final(self).position() == old(self).position() + n
                    &&& final(self).pending() == old(self).pending().skip(n as int)
                },
                Err(e) => {
                    &&& number_at(wire_type, old(self).pending()) is None
                    &&& e@ == ErrorView::Malformed
                    &&& final(self).position() == old(self).position()
                },
            },
    {
        match wire_type {
            WireType::Varint => self.read_varint64(),
            WireType::Fixed32 => {
                let buf = self.pending_bytes();
                match read_fixed32(buf) {
                    Ok(v) => {
                        self.advance(4);
                        Ok(v as u64)
                    },
                    Err(_) => Err(Error::Malformed),
                }
            },
            WireType::Fixed64 => {
                let buf = self.pending_bytes();
                match read_fixed64(buf) {
                    Ok(v) => {
                        self.advance(8);
                        Ok(v)
                    },
                    Err(_) => Err(Error::Malformed),
                }
            },
            _ => {
                proof {
                    use_type_invariant(&*self);
                }
                Err(Error::Malformed)
            },
        }
    }

    /// Reads a tag: a field number and a wire type.
    pub fn read_tag(&mut self) -> (r: Result<(u32, WireType), Error>)
        ensures
            old(self).bounded(),
            final(self).bounded(),
            final(self).data() == old(self).data(),
            final(self).limit() == old(self).limit(),
            match r {
                Ok((number, wire_type)) => {
                    &&& tag_at(old(self).pending()) matches Some((nr, wt, n))
                    &&& number == nr
                    &&& wire_type == wt
                    &&& valid_field_number(number as int)
                    &&& 1 <= n <= old(self).pending().len()
                    &&& final(self).position() == old(self).position() + n
                    &&& final(self).pending() == old(self).pending().skip(n as int)
                },
                Err(e) => {
                    &&& tag_at(old(self).pending()) is None
                    &&& e@ == ErrorView::Malformed
                },
            },
    {
        let v = self.read_varint64()?;
        let tag: u32 = (v % 0x1_0000_0000) as u32;
        let number: u32 = tag / 8;
        match WireType::from_number(tag % 8) {
            Some(wire_type) => {
                if number == 0 {
                    Err(Error::Malformed)
                } else {
                    Ok((number, wire_type))
                }
            },
            None => Err(Error::Malformed),
        }
    }

    /// Reads a byte string: a varint, of which the low 32 bits are the
    /// length, and that many bytes.
    pub fn read_bytes(&mut self) -> (r: Result<Vec<u8>, Error>)
        ensures
            old(self).bounded(),
            final(self).bounded(),
            final(self).data() == old(self).data(),
            final(self).limit() == old(self).limit(),
            match r {
                Ok(payload) => {
                    &&& counted_at(old(self).pending()) matches Some((bytes, n))
                    &&& payload@ == bytes
                    &&& 1 <= n <= old(self).pending().len()
                    &&& final(self).position() == old(self).position() + n
                    &&& final(self).pending() == old(self).pending().skip(n as int)
                },
                Err(e) => {
                    &&& counted_at(old(self).pending()) is None
                    &&& e@ == ErrorView::Malformed
                },
            },
    {
        let buf = self.pending_bytes();
        match read_bytes(buf) {
            Ok((payload, n)) => {
                proof {
                    lemma_varint_size_bounds(buf@);
                }
                self.advance(n);
                Ok(payload)
            },
            Err(_) => Err(Error::Malformed),
        }
    }

    /// Reads a string: a byte string that is valid UTF-8.
    pub fn read_string(&mut self) -> (r: Result<String, Error>)
        ensures
            old(self).bounded(),
            final(self).bounded(),
            final(self).data() == old(self).data(),
            final(self).limit() == old(self).limit(),
            match r {
                Ok(s) => {
                    &&& counted_at(old(self).pending()) matches Some((bytes, n))
                    &&& valid_utf8(bytes)
                    &&& s@ == decode_utf8(bytes)
                    &&& 1 <= n <= old(self).pending().len()
                    &&& final(self).position() == old(self).position() + n
                    &&& final(self).pending() == old(self).pending().skip(n as int)
                },
                Err(e) => {
                    &&& !(counted_at(old(self).pending()) matches Some((bytes, _)) && valid_utf8(
                        bytes,
                    ))
                    &&& e@ == ErrorView::Malformed
                },
            },
    {
        let buf = self.pending_bytes();
        match read_string(buf) {
            Ok((s, n)) => {
                proof {
                    lemma_varint_size_bounds(buf@);
                }
                self.advance(n);
                Ok(s)
            },
            Err(_) => Err(Error::Malformed),
        }
    }
}

/// Appends a byte string: the low 32 bits of its length as a varint, then
/// its bytes.
pub fn put_bytes(out: &mut Vec<u8>, bytes: &[u8])
    ensures
        final(out)@ == old(out)@ + counted_bytes(bytes@),
{
    let written = write_bytes_no_tag(out, bytes);
    assert(written is Ok);
}

/// Appends a string: the low 32 bits of the length of its UTF-8 bytes as a
/// varint, then those bytes.
pub fn put_string(out: &mut Vec<u8>, s: &str)
    ensures
        final(out)@ == old(out)@ + counted_bytes(encode_utf8(s@)),
{
    let written = write_string_no_tag(out, s);
    assert(written is Ok);
}

/// Appends the varint encoding of `v`.
pub fn put_varint64(out: &mut Vec<u8>, v: u64)
    ensures
        final(out)@ == old(out)@ + varint_bytes(v as nat),
{
    let written = write_raw_varint64(out, v);
    assert(written is Ok);
}

/// Appends the four bytes of `v`, low byte first.
pub fn put_fixed32(out: &mut Vec<u8>, v: u32)
    ensures
        final(out)@ == old(out)@ + fixed32_bytes(v),
{
    let written = write_fixed32_no_tag(out, v);
    assert(written is Ok);
}

/// Appends the eight bytes of `v`, low byte first.
pub fn put_fixed64(out: &mut Vec<u8>, v: u64)
    ensures
        final(out)@ == old(out)@ + fixed64_bytes(v),
{
    let written = write_fixed64_no_tag(out, v);
    assert(written is Ok);
}

/// Appends the tag of field `number` with `wire_type`. Fails, and appends
/// nothing, where no tag can carry `number`.
pub fn put_tag(out: &mut Vec<u8>, number: u32, wire_type: WireType) -> (r: Result<(), Error>)
    ensures
        match r {
            Ok(()) => valid_field_number(number as int) && final(out)@ == old(out)@ + tag_bytes(
                number,
                wire_type,
            ),
            Err(e) => !valid_field_number(number as int) && e@ == ErrorView::InvalidFieldNumber
                && final(out)@ == old(out)@,
        },
{
    if number == 0 || number > FIELD_NUMBER_MAX {
        return Err(Error::InvalidFieldNumber);
    }
    put_varint64(out, (number * 8 + wire_type.number()) as u64);
    Ok(())
}

/// Appends the length of `payload` as a varint, then `payload`.
pub fn put_delimited(out: &mut Vec<u8>, payload: &[u8])
    ensures
        final(out)@ == old(out)@ + delimited_bytes(payload@),
{
    put_varint64(out, payload.len() as u64);
    let ghost mid = out@;
    out.extend_from_slice(payload);
    assert(out@ =~= mid + payload@);
    assert(out@ =~= old(out)@ + delimited_bytes(payload@));
}

} // verus!
