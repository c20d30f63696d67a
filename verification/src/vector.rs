//! Three-component vectors as stored on disk.

use vstd::prelude::*;

use crate::error::VolitionError;
use crate::record::Record;
use crate::util::{
    lemma_u32_at_of, lemma_u32_le_of_read, push_bytes, put_u32_le, read_u32_le, spec_u32_at, u32_le,
};

verus! {

/// Three single-precision components, kept as their IEEE-754 bit patterns.
#[derive(Debug, Clone, Copy, PartialEq, Eq, Structural)]
pub struct Vector {
    pub x: u32,
    pub y: u32,
    pub z: u32,
}

impl Vector {
    /// What reading the 0xc bytes `b` gives.
    pub open spec fn spec_from_le_bytes(b: Seq<u8>) -> Result<Self, VolitionError> {
        let x = spec_u32_at(b, 0);
        let y = spec_u32_at(b, 4);
        let z = spec_u32_at(b, 8);
        Ok(Vector { x, y, z })
    }

    /// The 0xc bytes written for `self`.
    pub open spec fn spec_to_le_bytes(self) -> Seq<u8> {
        u32_le(self.x) + u32_le(self.y) + u32_le(self.z)
    }

    /// Reads the record stored at `buf[off..off + 0xc]`.
    pub fn parse_at(buf: &[u8], off: usize) -> (r: Result<Self, VolitionError>)
        requires
            off + 0xc <= buf.len(),
        ensures
            r == Self::spec_from_le_bytes(buf@.subrange(off as int, off + 0xc)),
    {
        let ghost b = buf@.subrange(off as int, off + 0xc);
        let x = read_u32_le(buf, off + 0);
        let y = read_u32_le(buf, off + 4);
        let z = read_u32_le(buf, off + 8);
        Ok(Vector { x, y, z })
    }

    /// Reads the record from the first 0xc bytes of `buf`.
    pub fn from_le_unsized(buf: &[u8]) -> (r: Result<Self, VolitionError>)
        ensures
            buf@.len() < 0xc ==> r == Err::<Self, VolitionError>(
                VolitionError::BufferTooSmall { needed: 0xc, got: buf@.len() as usize },
            ),
            buf@.len() >= 0xc ==> r == Self::spec_from_le_bytes(buf@.take(0xc)),
    {
        if buf.len() < 0xc {
            return Err(VolitionError::BufferTooSmall { needed: 0xc, got: buf.len() });
        }
        assert(buf@.subrange(0, 0xc) =~= buf@.take(0xc));
        Self::parse_at(buf, 0)
    }

    /// Reads the record from exactly 0xc bytes.
    pub fn from_le_bytes(buf: &[u8; 0xc]) -> (r: Result<Self, VolitionError>)
        ensures
            r == Self::spec_from_le_bytes(buf@),
    {
        let s = buf.as_slice();
        assert(s@.subrange(0, 0xc) =~= buf@);
        Self::parse_at(s, 0)
    }

    /// The 0xc bytes of `self`.
    pub fn to_le_bytes(&self) -> (r: [u8; 0xc])
        ensures
            r@ == self.spec_to_le_bytes(),
    {
        let mut bytes = [0u8; 0xc];
        put_u32_le(&mut bytes, 0, self.x);
        put_u32_le(&mut bytes, 4, self.y);
        put_u32_le(&mut bytes, 8, self.z);
        assert(bytes@ =~= self.spec_to_le_bytes());
        bytes
    }

    /// Writing a record and reading the bytes back gives the record.
    pub proof fn lemma_write_read(x: Self)
        ensures
            x.spec_to_le_bytes().len() == 0xc,
            Self::spec_from_le_bytes(x.spec_to_le_bytes()) == Ok::<Self, VolitionError>(x),
    {
        let b = x.spec_to_le_bytes();
        assert(b.subrange(0int, 0int + 4) =~= u32_le(x.x));
        lemma_u32_at_of(b, 0, x.x);
        assert(b.subrange(4int, 4int + 4) =~= u32_le(x.y));
        lemma_u32_at_of(b, 4, x.y);
        assert(b.subrange(8int, 8int + 4) =~= u32_le(x.z));
        lemma_u32_at_of(b, 8, x.z);
    }

    /// Reading 0xc accepted bytes and writing the result gives the same bytes.
    pub proof fn lemma_read_write(b: Seq<u8>)
        requires
            b.len() == 0xc,
            Self::spec_from_le_bytes(b) is Ok,
        ensures
            Self::spec_from_le_bytes(b).unwrap().spec_to_le_bytes() == b,
    {
        lemma_u32_le_of_read(b, 0);
        lemma_u32_le_of_read(b, 4);
        lemma_u32_le_of_read(b, 8);
        assert(Self::spec_from_le_bytes(b).unwrap().spec_to_le_bytes() =~= b);
    }

}

impl Record for Vector {
    open spec fn spec_size() -> nat {
        0xc
    }

    open spec fn spec_from_bytes(b: Seq<u8>) -> Result<Self, VolitionError> {
        Self::spec_from_le_bytes(b)
    }

    open spec fn spec_bytes(self) -> Seq<u8> {
        self.spec_to_le_bytes()
    }

    fn write_to(&self, out: &mut Vec<u8>) {
        let bytes = self.to_le_bytes();
        push_bytes(out, bytes.as_slice());
    }

    proof fn lemma_bytes_len(self) {
    }

    open spec fn accepted(self) -> bool {
        true
    }

    proof fn lemma_bytes_read_back(self) {
        Self::lemma_write_read(self);
    }

    proof fn lemma_read_bytes_back(b: Seq<u8>) {
        Self::lemma_read_write(b);
    }

    fn size() -> (r: usize) {
        0xc
    }

    fn read_at(buf: &[u8], off: usize) -> (r: Result<Self, VolitionError>) {
        if off > buf.len() {
            Err(VolitionError::OutOfBounds { offset: off, len: buf.len() })
        } else if buf.len() - off < 0xc {
            Err(VolitionError::BufferTooSmall { needed: 0xc, got: buf.len() - off })
        } else {
            Self::parse_at(buf, off)
        }
    }
}

} // verus!
