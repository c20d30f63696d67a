//! Rotations as stored on disk.

use vstd::prelude::*;

use crate::error::VolitionError;
use crate::record::Record;
use crate::util::{
    lemma_u32_at_of, lemma_u32_le_of_read, push_bytes, put_u32_le, read_u32_le, spec_u32_at, u32_le,
};

verus! {

/// Four single-precision components, kept as their IEEE-754 bit patterns.
#[derive(Debug, Clone, Copy, PartialEq, Eq, Structural)]
pub struct Quaternion {
    pub x: u32,
    pub y: u32,
    pub z: u32,
    pub w: u32,
}

impl Quaternion {
    /// What reading the 0x10 bytes `b` gives.
    pub open spec fn spec_from_le_bytes(b: Seq<u8>) -> Result<Self, VolitionError> {
        let x = spec_u32_at(b, 0);
        let y = spec_u32_at(b, 4);
        let z = spec_u32_at(b, 8);
        let w = spec_u32_at(b, 12);
        Ok(Quaternion { x, y, z, w })
    }

    /// The 0x10 bytes written for `self`.
    pub open spec fn spec_to_le_bytes(self) -> Seq<u8> {
        u32_le(self.x) + u32_le(self.y) + u32_le(self.z) + u32_le(self.w)
    }

    /// Reads the record stored at `buf[off..off + 0x10]`.
    pub fn parse_at(buf: &[u8], off: usize) -> (r: Result<Self, VolitionError>)
        requires
            off + 0x10 <= buf.len(),
        ensures
            r == Self::spec_from_le_bytes(buf@.subrange(off as int, off + 0x10)),
    {
        let ghost b = buf@.subrange(off as int, off + 0x10);
        let x = read_u32_le(buf, off + 0);
        let y = read_u32_le(buf, off + 4);
        let z = read_u32_le(buf, off + 8);
        let w = read_u32_le(buf, off + 12);
        Ok(Quaternion { x, y, z, w })
    }

    /// Reads the record from the first 0x10 bytes of `buf`.
    pub fn from_le_unsized(buf: &[u8]) -> (r: Result<Self, VolitionError>)
        ensures
            buf@.len() < 0x10 ==> r == Err::<Self, VolitionError>(
                VolitionError::BufferTooSmall { needed: 0x10, got: buf@.len() as usize },
            ),
            buf@.len() >= 0x10 ==> r == Self::spec_from_le_bytes(buf@.take(0x10)),
    {
        if buf.len() < 0x10 {
            return Err(VolitionError::BufferTooSmall { needed: 0x10, got: buf.len() });
        }
        assert(buf@.subrange(0, 0x10) =~= buf@.take(0x10));
        Self::parse_at(buf, 0)
    }

    /// Reads the record from exactly 0x10 bytes.
    pub fn from_le_bytes(buf: &[u8; 0x10]) -> (r: Result<Self, VolitionError>)
        ensures
            r == Self::spec_from_le_bytes(buf@),
    {
        let s = buf.as_slice();
        assert(s@.subrange(0, 0x10) =~= buf@);
        Self::parse_at(s, 0)
    }

    /// The 0x10 bytes of `self`.
    pub fn to_le_bytes(&self) -> (r: [u8; 0x10])
        ensures
            r@ == self.spec_to_le_bytes(),
    {
        let mut bytes = [0u8; 0x10];
        put_u32_le(&mut bytes, 0, self.x);
        put_u32_le(&mut bytes, 4, self.y);
        put_u32_le(&mut bytes, 8, self.z);
        put_u32_le(&mut bytes, 12, self.w);
        assert(bytes@ =~= self.spec_to_le_bytes());
        bytes
    }

    /// Writing a record and reading the bytes back gives the record.
    pub proof fn lemma_write_read(x: Self)
        ensures
            x.spec_to_le_bytes().len() == 0x10,
            Self::spec_from_le_bytes(x.spec_to_le_bytes()) == Ok::<Self, VolitionError>(x),
    {
        let b = x.spec_to_le_bytes();
        assert(b.subrange(0int, 0int + 4) =~= u32_le(x.x));
        lemma_u32_at_of(b, 0, x.x);
        assert(b.subrange(4int, 4int + 4) =~= u32_le(x.y));
        lemma_u32_at_of(b, 4, x.y);
        assert(b.subrange(8int, 8int + 4) =~= u32_le(x.z));
        lemma_u32_at_of(b, 8, x.z);
        assert(b.subrange(12int, 12int + 4) =~= u32_le(x.w));
        lemma_u32_at_of(b, 12, x.w);
    }

    /// Reading 0x10 accepted bytes and writing the result gives the same bytes.
    pub proof fn lemma_read_write(b: Seq<u8>)
        requires
            b.len() == 0x10,
            Self::spec_from_le_bytes(b) is Ok,
        ensures
            Self::spec_from_le_bytes(b).unwrap().spec_to_le_bytes() == b,
    {
        lemma_u32_le_of_read(b, 0);
        lemma_u32_le_of_read(b, 4);
        lemma_u32_le_of_read(b, 8);
        lemma_u32_le_of_read(b, 12);
        assert(Self::spec_from_le_bytes(b).unwrap().spec_to_le_bytes() =~= b);
    }

}

impl Record for Quaternion {
    open spec fn spec_size() -> nat {
        0x10
    }

    open spec fn spec_from_bytes(b: Seq<u8>) -> Result<Self, VolitionError> {
        Self::spec_from_le_bytes(b)
    }

    open spec fn spec_bytes(self) -> Seq<u8> {
        self.spec_to_le_bytes()
    }

    fn write_to(&self, out: &mut Vec<u8>) {
        let bytes = self.to_le_bytes();
        push_bytes(out, bytes.as_slice());
    }

    proof fn lemma_bytes_len(self) {
    }

    open spec fn accepted(self) -> bool {
        true
    }

    proof fn lemma_bytes_read_back(self) {
        Self::lemma_write_read(self);
    }

    proof fn lemma_read_bytes_back(b: Seq<u8>) {
        Self::lemma_read_write(b);
    }

    fn size() -> (r: usize) {
        0x10
    }

    fn read_at(buf: &[u8], off: usize) -> (r: Result<Self, VolitionError>) {
        if off > buf.len() {
            Err(VolitionError::OutOfBounds { offset: off, len: buf.len() })
        } else if buf.len() - off < 0x10 {
            Err(VolitionError::BufferTooSmall { needed: 0x10, got: buf.len() - off })
        } else {
            Self::parse_at(buf, off)
        }
    }
}

} // verus!
