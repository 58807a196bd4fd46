use byteorder::{BigEndian, ReadBytesExt};
use vstd::prelude::*;

verus! {

/// A read position over a borrowed byte buffer.
///
/// The position may lie beyond the end of the buffer; reads at such a
/// position find no data.
pub struct ByteCursor<'a> {
    data: &'a [u8],
    pos: usize,
}

impl<'a> ByteCursor<'a> {
    /// The bytes the cursor reads from.
    pub closed spec fn bytes(&self) -> Seq<u8> {
        self.data@
    }

    /// The current read position.
    pub closed spec fn pos(&self) -> nat {
        self.pos as nat
    }

    /// The bytes from the current position to the end of the buffer
    /// (empty when the position lies at or beyond the end).
    pub open spec fn remaining(&self) -> Seq<u8> {
        suffix_from(self.bytes(), self.pos())
    }

    /// A cursor at the start of `data`.
    pub fn new(data: &'a [u8]) -> (c: Self)
        ensures
            c.bytes() == data@,
            c.pos() == 0,
    {
        ByteCursor { data, pos: 0 }
    }

    /// The current read position.
    pub fn position(&self) -> (p: usize)
        ensures
            p == self.pos(),
    {
        self.pos
    }

    /// The underlying buffer.
    pub fn get_ref(&self) -> (d: &'a [u8])
        ensures
            d@ == self.bytes(),
    {
        self.data
    }

    /// Moves the read position to `pos`.
    pub fn set_position(&mut self, pos: usize)
        ensures
            final(self).bytes() == old(self).bytes(),
            final(self).pos() == pos,
    {
        self.pos = pos;
    }

    /// Reads one byte and advances past it; `None` (and no move) when no
    /// byte is left.
    pub fn read_u8(&mut self) -> (r: Option<u8>)
        ensures
            final(self).bytes() == old(self).bytes(),
            old(self).pos() < old(self).bytes().len() ==> {
                &&& r == Some(old(self).bytes()[old(self).pos() as int])
                &&& final(self).pos() == old(self).pos() + 1
            },
            old(self).pos() >= old(self).bytes().len() ==> {
                &&& r is None
                &&& final(self).pos() == old(self).pos()
            },
    {
        let len = self.data.len();
        let r = byte_at(self.data, self.pos);
        assert(r is Some ==> self.pos < len);
        if r.is_some() {
            self.pos = self.pos + 1;
        }
        r
    }

    /// Reads a big-endian `u16` and advances past it; `None` (and no move)
    /// when fewer than two bytes are left.
    pub fn read_u16_be(&mut self) -> (r: Option<u16>)
        ensures
            final(self).bytes() == old(self).bytes(),
            old(self).pos() + 2 <= old(self).bytes().len() ==> {
                &&& r == Some(be_u16(old(self).bytes()[old(self).pos() as int], old(self).bytes()[old(self).pos() + 1int]))
                &&& final(self).pos() == old(self).pos() + 2
            },
            old(self).pos() + 2 > old(self).bytes().len() ==> {
                &&& r is None
                &&& final(self).pos() == old(self).pos()
            },
    {
        let len = self.data.len();
        let r = u16_be_at(self.data, self.pos);
        assert(r is Some ==> self.pos + 2 <= len);
        if r.is_some() {
            self.pos = self.pos + 2;
        }
        r
    }
}

/// The bytes of `s` from index `p` on (empty when `p` lies at or beyond
/// the end).
pub open spec fn suffix_from(s: Seq<u8>, p: nat) -> Seq<u8> {
    if p < s.len() {
        s.subrange(p as int, s.len() as int)
    } else {
        Seq::empty()
    }
}

/// The value of two bytes read as a big-endian unsigned 16-bit integer.
pub open spec fn be_u16(hi: u8, lo: u8) -> u16 {
    (hi as int * 256 + lo as int) as u16
}

/// Calls `ReadBytesExt::read_u8` of the `byteorder` crate on a
/// `std::io::Cursor` over `data` placed at `pos`.
///
/// Trusted: that call fills one byte through `read_exact`, so it gives the
/// byte at `pos` when `pos` lies inside `data`, and an end-of-file error
/// (here `None`) otherwise.
#[verifier::external_body]
fn byte_at(data: &[u8], pos: usize) -> (r: Option<u8>)
    ensures
        pos < data@.len() ==> r == Some(data@[pos as int]),
        pos >= data@.len() ==> r is None,
{
    let mut reader = std::io::Cursor::new(data);
    reader.set_position(pos as u64);
    reader.read_u8().ok()
}

/// Calls `ReadBytesExt::read_u16::<BigEndian>` of the `byteorder` crate on
/// a `std::io::Cursor` over `data` placed at `pos`.
///
/// Trusted: that call fills two bytes through `read_exact` and decodes them
/// with `u16::from_be_bytes`, so it gives `data[pos] * 256 + data[pos + 1]`
/// when both bytes lie inside `data`, and an end-of-file error (here
/// `None`) otherwise.
#[verifier::external_body]
fn u16_be_at(data: &[u8], pos: usize) -> (r: Option<u16>)
    ensures
        pos + 2 <= data@.len() ==> r == Some(be_u16(data@[pos as int], data@[pos + 1int])),
        pos + 2 > data@.len() ==> r is None,
{
    let mut reader = std::io::Cursor::new(data);
    reader.set_position(pos as u64);
    reader.read_u16::<BigEndian>().ok()
}

} // verus!
