//! The material library: its fixed-size records and the variable-size block.

use vstd::prelude::*;

use crate::error::{Check, Field, VolitionError};
use crate::record::Record;
use crate::util::{
    i16_bits, i16_le, i32_bits, i32_le, lemma_i16_at_of, lemma_i16_le_of_read, lemma_i32_at_of,
    lemma_i32_le_of_read, lemma_u16_at_of, lemma_u16_le_of_read, lemma_u32_at_of,
    lemma_u32_le_of_read, push_bytes, put_u16_le, put_u32_le, read_i16_le, read_i32_le,
    read_u16_le, read_u32_le, spec_i16_at, spec_i32_at, spec_u16_at, spec_u32_at, u16_le, u32_le,
};

verus! {

pub const MAX_MATERIALS: u32 = 200;

pub const MAX_CONSTANTS: u32 = 10000;

pub const MAX_UNKNOWN3S: u32 = 2000;

pub const MAX_UNKNOWN4S: u16 = 50;

pub const MAX_UKNOWN4_VALUE: usize = 0xffff;

/// Header of the material library, 0x24 bytes on disk.
#[derive(Debug, Clone, Copy, PartialEq, Eq, Structural)]
pub struct MaterialsHeader {
    /// Number of [`Material`] records immediately after this header.
    pub num_materials: u32,
    /// Always zero.
    pub unknown_04: i32,
    /// Always zero.
    pub unknown_08: i32,
    /// Always zero.
    pub unknown_0c: i32,
    /// Colors, etc.
    pub num_const_floats: u32,
    /// Always zero.
    pub unknown_14: i32,
    /// Always zero.
    pub unknown_18: i32,
    pub num_mat_unknown3: u32,
    /// Always zero.
    pub unknown_20: i32,
}

impl MaterialsHeader {
    /// What reading the 0x24 bytes `b` gives.
    pub open spec fn spec_from_le_bytes(b: Seq<u8>) -> Result<Self, VolitionError> {
        let num_materials = spec_u32_at(b, 0x0);
        let num_const_floats = spec_u32_at(b, 0x10);
        let num_mat_unknown3 = spec_u32_at(b, 0x1c);
        if num_materials > MAX_MATERIALS {
            Err(
                VolitionError::ValueTooHigh {
                    field: Field::MaterialsNumMaterials,
                    max: MAX_MATERIALS as usize,
                    got: num_materials as usize,
                },
            )
        } else if spec_i32_at(b, 0x4) != 0 {
            Err(
                VolitionError::ExpectedExactValue {
                    field: Field::MaterialsUnknown04,
                    expected: 0,
                    got: spec_i32_at(b, 0x4),
                },
            )
        } else if spec_i32_at(b, 0x8) != 0 {
            Err(
                VolitionError::ExpectedExactValue {
                    field: Field::MaterialsUnknown08,
                    expected: 0,
                    got: spec_i32_at(b, 0x8),
                },
            )
        } else if spec_i32_at(b, 0xc) != 0 {
            Err(
                VolitionError::ExpectedExactValue {
                    field: Field::MaterialsUnknown0c,
                    expected: 0,
                    got: spec_i32_at(b, 0xc),
                },
            )
        } else if num_const_floats > MAX_CONSTANTS {
            Err(
                VolitionError::ValueTooHigh {
                    field: Field::MaterialsNumConstFloats,
                    max: MAX_CONSTANTS as usize,
                    got: num_const_floats as usize,
                },
            )
        } else if spec_i32_at(b, 0x14) != 0 {
            Err(
                VolitionError::ExpectedExactValue {
                    field: Field::MaterialsUnknown14,
                    expected: 0,
                    got: spec_i32_at(b, 0x14),
                },
            )
        } else if spec_i32_at(b, 0x18) != 0 {
            Err(
                VolitionError::ExpectedExactValue {
                    field: Field::MaterialsUnknown18,
                    expected: 0,
                    got: spec_i32_at(b, 0x18),
                },
            )
        } else if num_mat_unknown3 > MAX_UNKNOWN3S {
            Err(
                VolitionError::ValueTooHigh {
                    field: Field::MaterialsNumUnknown3,
                    max: MAX_UNKNOWN3S as usize,
                    got: num_mat_unknown3 as usize,
                },
            )
        } else if spec_i32_at(b, 0x20) != 0 {
            Err(
                VolitionError::ExpectedExactValue {
                    field: Field::MaterialsUnknown20,
                    expected: 0,
                    got: spec_i32_at(b, 0x20),
                },
            )
        } else {
            Ok(
                MaterialsHeader {
                    num_materials,
                    unknown_04: 0,
                    unknown_08: 0,
                    unknown_0c: 0,
                    num_const_floats,
                    unknown_14: 0,
                    unknown_18: 0,
                    num_mat_unknown3,
                    unknown_20: 0,
                },
            )
        }
    }

    /// The 0x24 bytes written for `self`; the always-zero fields are written as zero.
    pub open spec fn spec_to_le_bytes(self) -> Seq<u8> {
        u32_le(self.num_materials) + u32_le(0) + u32_le(0) + u32_le(0) + u32_le(
            self.num_const_floats,
        ) + u32_le(0) + u32_le(0) + u32_le(self.num_mat_unknown3) + u32_le(0)
    }

    /// A header that reading accepts: counts within their limits, reserved fields zero.
    pub open spec fn wf(self) -> bool {
        &&& self.num_materials <= MAX_MATERIALS
        &&& self.num_const_floats <= MAX_CONSTANTS
        &&& self.num_mat_unknown3 <= MAX_UNKNOWN3S
        &&& self.unknown_04 == 0
        &&& self.unknown_08 == 0
        &&& self.unknown_0c == 0
        &&& self.unknown_14 == 0
        &&& self.unknown_18 == 0
        &&& self.unknown_20 == 0
    }

    /// A header with the given counts and every reserved field zero.
    pub fn new(num_materials: u32, num_const_floats: u32, num_mat_unknown3: u32) -> (r: Self)
        ensures
            r == (MaterialsHeader {
                num_materials,
                unknown_04: 0,
                unknown_08: 0,
                unknown_0c: 0,
                num_const_floats,
                unknown_14: 0,
                unknown_18: 0,
                num_mat_unknown3,
                unknown_20: 0,
            }),
    {
        Self {
            num_materials,
            unknown_04: 0,
            unknown_08: 0,
            unknown_0c: 0,
            num_const_floats,
            unknown_14: 0,
            unknown_18: 0,
            num_mat_unknown3,
            unknown_20: 0,
        }
    }

    /// Reads the header stored at `buf[off..off + 0x24]`.
    pub fn parse_at(buf: &[u8], off: usize) -> (r: Result<Self, VolitionError>)
        requires
            off + 0x24 <= buf.len(),
        ensures
            r == Self::spec_from_le_bytes(buf@.subrange(off as int, off + 0x24)),
    {
        let ghost b = buf@.subrange(off as int, off + 0x24);
        let num_materials = read_u32_le(buf, off);
        if num_materials > MAX_MATERIALS {
            return Err(
                VolitionError::ValueTooHigh {
                    field: Field::MaterialsNumMaterials,
                    max: MAX_MATERIALS as usize,
                    got: num_materials as usize,
                },
            );
        }
        let unknown_04 = read_i32_le(buf, off + 0x4);
        if unknown_04 != 0 {
            return Err(
                VolitionError::ExpectedExactValue {
                    field: Field::MaterialsUnknown04,
                    expected: 0,
                    got: unknown_04,
                },
            );
        }
        let unknown_08 = read_i32_le(buf, off + 0x8);
        if unknown_08 != 0 {
            return Err(
                VolitionError::ExpectedExactValue {
                    field: Field::MaterialsUnknown08,
                    expected: 0,
                    got: unknown_08,
                },
            );
        }
        let unknown_0c = read_i32_le(buf, off + 0xc);
        if unknown_0c != 0 {
            return Err(
                VolitionError::ExpectedExactValue {
                    field: Field::MaterialsUnknown0c,
                    expected: 0,
                    got: unknown_0c,
                },
            );
        }
        let num_const_floats = read_u32_le(buf, off + 0x10);
        if num_const_floats > MAX_CONSTANTS {
            return Err(
                VolitionError::ValueTooHigh {
                    field: Field::MaterialsNumConstFloats,
                    max: MAX_CONSTANTS as usize,
                    got: num_const_floats as usize,
                },
            );
        }
        let unknown_14 = read_i32_le(buf, off + 0x14);
        if unknown_14 != 0 {
            return Err(
                VolitionError::ExpectedExactValue {
                    field: Field::MaterialsUnknown14,
                    expected: 0,
                    got: unknown_14,
                },
            );
        }
        let unknown_18 = read_i32_le(buf, off + 0x18);
        if unknown_18 != 0 {
            return Err(
                VolitionError::ExpectedExactValue {
                    field: Field::MaterialsUnknown18,
                    expected: 0,
                    got: unknown_18,
                },
            );
        }
        let num_mat_unknown3 = read_u32_le(buf, off + 0x1c);
        if num_mat_unknown3 > MAX_UNKNOWN3S {
            return Err(
                VolitionError::ValueTooHigh {
                    field: Field::MaterialsNumUnknown3,
                    max: MAX_UNKNOWN3S as usize,
                    got: num_mat_unknown3 as usize,
                },
            );
        }
        let unknown_20 = read_i32_le(buf, off + 0x20);
        if unknown_20 != 0 {
            return Err(
                VolitionError::ExpectedExactValue {
                    field: Field::MaterialsUnknown20,
                    expected: 0,
                    got: unknown_20,
                },
            );
        }
        Ok(
            Self {
                num_materials,
                unknown_04,
                unknown_08,
                unknown_0c,
                num_const_floats,
                unknown_14,
                unknown_18,
                num_mat_unknown3,
                unknown_20,
            },
        )
    }

    /// Reads a header from the first 0x24 bytes of `buf`.
    pub fn from_le_unsized(buf: &[u8]) -> (r: Result<Self, VolitionError>)
        ensures
            buf@.len() < 0x24 ==> r == Err::<Self, VolitionError>(
                VolitionError::BufferTooSmall { needed: 0x24, got: buf@.len() as usize },
            ),
            buf@.len() >= 0x24 ==> r == Self::spec_from_le_bytes(buf@.take(0x24)),
    {
        if buf.len() < 0x24 {
            return Err(VolitionError::BufferTooSmall { needed: 0x24, got: buf.len() });
        }
        assert(buf@.subrange(0, 0x24) =~= buf@.take(0x24));
        Self::parse_at(buf, 0)
    }

    /// Reads a header from exactly 0x24 bytes.
    pub fn from_le_bytes(buf: &[u8; 0x24]) -> (r: Result<Self, VolitionError>)
        ensures
            r == Self::spec_from_le_bytes(buf@),
    {
        let s = buf.as_slice();
        assert(s@.subrange(0, 0x24) =~= buf@);
        Self::parse_at(s, 0)
    }

    /// The 0x24 bytes of `self`.
    pub fn to_le_bytes(&self) -> (r: [u8; 0x24])
        ensures
            r@ == self.spec_to_le_bytes(),
    {
        let mut bytes = [0u8; 0x24];
        put_u32_le(&mut bytes, 0x00, self.num_materials);
        put_u32_le(&mut bytes, 0x04, 0);
        put_u32_le(&mut bytes, 0x08, 0);
        put_u32_le(&mut bytes, 0x0c, 0);
        put_u32_le(&mut bytes, 0x10, self.num_const_floats);
        put_u32_le(&mut bytes, 0x14, 0);
        put_u32_le(&mut bytes, 0x18, 0);
        put_u32_le(&mut bytes, 0x1c, self.num_mat_unknown3);
        put_u32_le(&mut bytes, 0x20, 0);
        assert(bytes@ =~= self.spec_to_le_bytes());
        bytes
    }

    /// Writing a well-formed header and reading it back gives the header.
    pub proof fn lemma_write_read(h: Self)
        requires
            h.wf(),
        ensures
            h.spec_to_le_bytes().len() == 0x24,
            Self::spec_from_le_bytes(h.spec_to_le_bytes()) == Ok::<Self, VolitionError>(h),
    {
    }

    /// Reading 0x24 bytes that are accepted and writing the result back gives the same bytes.
    pub proof fn lemma_read_write(b: Seq<u8>)
        requires
            b.len() == 0x24,
            Self::spec_from_le_bytes(b) is Ok,
        ensures
            Self::spec_from_le_bytes(b).unwrap().wf(),
            Self::spec_from_le_bytes(b).unwrap().spec_to_le_bytes() == b,
    {
        lemma_u32_le_of_read(b, 0x0);
        lemma_u32_le_of_read(b, 0x4);
        lemma_u32_le_of_read(b, 0x8);
        lemma_u32_le_of_read(b, 0xc);
        lemma_u32_le_of_read(b, 0x10);
        lemma_u32_le_of_read(b, 0x14);
        lemma_u32_le_of_read(b, 0x18);
        lemma_u32_le_of_read(b, 0x1c);
        lemma_u32_le_of_read(b, 0x20);
        assert(Self::spec_from_le_bytes(b).unwrap().spec_to_le_bytes() =~= b);
    }
}

impl Record for MaterialsHeader {
    open spec fn spec_size() -> nat {
        0x24
    }

    open spec fn spec_from_bytes(b: Seq<u8>) -> Result<Self, VolitionError> {
        Self::spec_from_le_bytes(b)
    }

    open spec fn spec_bytes(self) -> Seq<u8> {
        self.spec_to_le_bytes()
    }

    fn write_to(&self, out: &mut Vec<u8>) {
        let bytes = self.to_le_bytes();
        push_bytes(out, bytes.as_slice());
    }

    proof fn lemma_bytes_len(self) {
    }

    open spec fn accepted(self) -> bool {
        self.wf()
    }

    proof fn lemma_bytes_read_back(self) {
        Self::lemma_write_read(self);
    }

    proof fn lemma_read_bytes_back(b: Seq<u8>) {
        Self::lemma_read_write(b);
    }

    fn size() -> (r: usize) {
        0x24
    }

    fn read_at(buf: &[u8], off: usize) -> (r: Result<Self, VolitionError>) {
        if off > buf.len() {
            Err(VolitionError::OutOfBounds { offset: off, len: buf.len() })
        } else if buf.len() - off < 0x24 {
            Err(VolitionError::BufferTooSmall { needed: 0x24, got: buf.len() - off })
        } else {
            Self::parse_at(buf, off)
        }
    }
}

/// Material record, 0x18 bytes on disk.
#[derive(Debug, Clone, Copy, PartialEq, Eq, Structural)]
pub struct Material {
    /// name checksum?
    pub shader_hash: i32,
    /// name checksum?
    pub material_hash: i32,
    pub flags: i32,
    pub num_unknown: u16,
    pub num_textures: u16,
    pub unk_10: i16,
    pub unk_12: i16,
    pub ptr_14: i32,
}

impl Material {
    /// What reading the 0x18 bytes `b` gives.
    pub open spec fn spec_from_le_bytes(b: Seq<u8>) -> Result<Self, VolitionError> {
        let shader_hash = spec_i32_at(b, 0);
        let material_hash = spec_i32_at(b, 4);
        let flags = spec_i32_at(b, 8);
        let num_unknown = spec_u16_at(b, 12);
        let num_textures = spec_u16_at(b, 14);
        let unk_10 = spec_i16_at(b, 16);
        let unk_12 = spec_i16_at(b, 18);
        let ptr_14 = spec_i32_at(b, 20);
        if !(ptr_14 == 0 || ptr_14 == -1) {
            Err(VolitionError::UnexpectedValue { desc: Check::MaterialPtr14ZeroOrMinusOne, got: ptr_14 })
        } else if num_unknown != 0 && ptr_14 != -1 {
            Err(VolitionError::UnexpectedValue { desc: Check::MaterialPtr14MinusOne, got: ptr_14 })
        } else {
            Ok(Material { shader_hash, material_hash, flags, num_unknown, num_textures, unk_10, unk_12, ptr_14 })
        }
    }

    /// The 0x18 bytes written for `self`.
    pub open spec fn spec_to_le_bytes(self) -> Seq<u8> {
        i32_le(self.shader_hash) + i32_le(self.material_hash) + i32_le(self.flags) + u16_le(self.num_unknown) + u16_le(self.num_textures) + i16_le(self.unk_10) + i16_le(self.unk_12) + i32_le(self.ptr_14)
    }

    /// A record that reading accepts and writing keeps unchanged.
    pub open spec fn wf(self) -> bool {
        let shader_hash = self.shader_hash;
        let material_hash = self.material_hash;
        let flags = self.flags;
        let num_unknown = self.num_unknown;
        let num_textures = self.num_textures;
        let unk_10 = self.unk_10;
        let unk_12 = self.unk_12;
        let ptr_14 = self.ptr_14;
        !(!(ptr_14 == 0 || ptr_14 == -1)) && !(num_unknown != 0 && ptr_14 != -1)
    }

    /// Reads the record stored at `buf[off..off + 0x18]`.
    pub fn parse_at(buf: &[u8], off: usize) -> (r: Result<Self, VolitionError>)
        requires
            off + 0x18 <= buf.len(),
        ensures
            r == Self::spec_from_le_bytes(buf@.subrange(off as int, off + 0x18)),
    {
        let ghost b = buf@.subrange(off as int, off + 0x18);
        let shader_hash = read_i32_le(buf, off + 0);
        let material_hash = read_i32_le(buf, off + 4);
        let flags = read_i32_le(buf, off + 8);
        let num_unknown = read_u16_le(buf, off + 12);
        let num_textures = read_u16_le(buf, off + 14);
        let unk_10 = read_i16_le(buf, off + 16);
        let unk_12 = read_i16_le(buf, off + 18);
        let ptr_14 = read_i32_le(buf, off + 20);
        if !(ptr_14 == 0 || ptr_14 == -1) {
            return Err(VolitionError::UnexpectedValue { desc: Check::MaterialPtr14ZeroOrMinusOne, got: ptr_14 });
        }
        if num_unknown != 0 && ptr_14 != -1 {
            return Err(VolitionError::UnexpectedValue { desc: Check::MaterialPtr14MinusOne, got: ptr_14 });
        }
        Ok(Material { shader_hash, material_hash, flags, num_unknown, num_textures, unk_10, unk_12, ptr_14 })
    }

    /// Reads the record from the first 0x18 bytes of `buf`.
    pub fn from_le_unsized(buf: &[u8]) -> (r: Result<Self, VolitionError>)
        ensures
            buf@.len() < 0x18 ==> r == Err::<Self, VolitionError>(
                VolitionError::BufferTooSmall { needed: 0x18, got: buf@.len() as usize },
            ),
            buf@.len() >= 0x18 ==> r == Self::spec_from_le_bytes(buf@.take(0x18)),
    {
        if buf.len() < 0x18 {
            return Err(VolitionError::BufferTooSmall { needed: 0x18, got: buf.len() });
        }
        assert(buf@.subrange(0, 0x18) =~= buf@.take(0x18));
        Self::parse_at(buf, 0)
    }

    /// Reads the record from exactly 0x18 bytes.
    pub fn from_le_bytes(buf: &[u8; 0x18]) -> (r: Result<Self, VolitionError>)
        ensures
            r == Self::spec_from_le_bytes(buf@),
    {
        let s = buf.as_slice();
        assert(s@.subrange(0, 0x18) =~= buf@);
        Self::parse_at(s, 0)
    }

    /// The 0x18 bytes of `self`.
    pub fn to_le_bytes(&self) -> (r: [u8; 0x18])
        ensures
            r@ == self.spec_to_le_bytes(),
    {
        let mut bytes = [0u8; 0x18];
        put_u32_le(&mut bytes, 0, i32_bits(self.shader_hash));
        put_u32_le(&mut bytes, 4, i32_bits(self.material_hash));
        put_u32_le(&mut bytes, 8, i32_bits(self.flags));
        put_u16_le(&mut bytes, 12, self.num_unknown);
        put_u16_le(&mut bytes, 14, self.num_textures);
        put_u16_le(&mut bytes, 16, i16_bits(self.unk_10));
        put_u16_le(&mut bytes, 18, i16_bits(self.unk_12));
        put_u32_le(&mut bytes, 20, i32_bits(self.ptr_14));
        assert(bytes@ =~= self.spec_to_le_bytes());
        bytes
    }

    /// Writing a well-formed record and reading the bytes back gives the record.
    pub proof fn lemma_write_read(x: Self)
        requires
            x.wf(),
        ensures
            x.spec_to_le_bytes().len() == 0x18,
            Self::spec_from_le_bytes(x.spec_to_le_bytes()) == Ok::<Self, VolitionError>(x),
    {
        let b = x.spec_to_le_bytes();
        assert(b.subrange(0int, 0int + 4) =~= i32_le(x.shader_hash));
        lemma_i32_at_of(b, 0, x.shader_hash);
        assert(b.subrange(4int, 4int + 4) =~= i32_le(x.material_hash));
        lemma_i32_at_of(b, 4, x.material_hash);
        assert(b.subrange(8int, 8int + 4) =~= i32_le(x.flags));
        lemma_i32_at_of(b, 8, x.flags);
        assert(b.subrange(12int, 12int + 2) =~= u16_le(x.num_unknown));
        lemma_u16_at_of(b, 12, x.num_unknown);
        assert(b.subrange(14int, 14int + 2) =~= u16_le(x.num_textures));
        lemma_u16_at_of(b, 14, x.num_textures);
        assert(b.subrange(16int, 16int + 2) =~= i16_le(x.unk_10));
        lemma_i16_at_of(b, 16, x.unk_10);
        assert(b.subrange(18int, 18int + 2) =~= i16_le(x.unk_12));
        lemma_i16_at_of(b, 18, x.unk_12);
        assert(b.subrange(20int, 20int + 4) =~= i32_le(x.ptr_14));
        lemma_i32_at_of(b, 20, x.ptr_14);
    }

    /// Reading 0x18 accepted bytes and writing the result gives the same bytes.
    pub proof fn lemma_read_write(b: Seq<u8>)
        requires
            b.len() == 0x18,
            Self::spec_from_le_bytes(b) is Ok,
        ensures
            Self::spec_from_le_bytes(b).unwrap().wf(),
            Self::spec_from_le_bytes(b).unwrap().spec_to_le_bytes() == b,
    {
        lemma_i32_le_of_read(b, 0);
        lemma_i32_le_of_read(b, 4);
        lemma_i32_le_of_read(b, 8);
        lemma_u16_le_of_read(b, 12);
        lemma_u16_le_of_read(b, 14);
        lemma_i16_le_of_read(b, 16);
        lemma_i16_le_of_read(b, 18);
        lemma_i32_le_of_read(b, 20);
        assert(Self::spec_from_le_bytes(b).unwrap().spec_to_le_bytes() =~= b);
    }

}

impl Record for Material {
    open spec fn spec_size() -> nat {
        0x18
    }

    open spec fn spec_from_bytes(b: Seq<u8>) -> Result<Self, VolitionError> {
        Self::spec_from_le_bytes(b)
    }

    open spec fn spec_bytes(self) -> Seq<u8> {
        self.spec_to_le_bytes()
    }

    fn write_to(&self, out: &mut Vec<u8>) {
        let bytes = self.to_le_bytes();
        push_bytes(out, bytes.as_slice());
    }

    proof fn lemma_bytes_len(self) {
    }

    open spec fn accepted(self) -> bool {
        self.wf()
    }

    proof fn lemma_bytes_read_back(self) {
        Self::lemma_write_read(self);
    }

    proof fn lemma_read_bytes_back(b: Seq<u8>) {
        Self::lemma_read_write(b);
    }

    fn size() -> (r: usize) {
        0x18
    }

    fn read_at(buf: &[u8], off: usize) -> (r: Result<Self, VolitionError>) {
        if off > buf.len() {
            Err(VolitionError::OutOfBounds { offset: off, len: buf.len() })
        } else if buf.len() - off < 0x18 {
            Err(VolitionError::BufferTooSmall { needed: 0x18, got: buf.len() - off })
        } else {
            Self::parse_at(buf, off)
        }
    }
}

/// Per-material record of unknown meaning, 6 bytes on disk.
#[derive(Debug, Clone, Copy, PartialEq, Eq, Structural)]
pub struct MaterialUnknown1 {
    pub unk_00: i16,
    pub unk_02: i16,
    pub unk_04: i16,
}

impl MaterialUnknown1 {
    /// What reading the 0x6 bytes `b` gives.
    pub open spec fn spec_from_le_bytes(b: Seq<u8>) -> Result<Self, VolitionError> {
        let unk_00 = spec_i16_at(b, 0);
        let unk_02 = spec_i16_at(b, 2);
        let unk_04 = spec_i16_at(b, 4);
        Ok(MaterialUnknown1 { unk_00, unk_02, unk_04 })
    }

    /// The 0x6 bytes written for `self`.
    pub open spec fn spec_to_le_bytes(self) -> Seq<u8> {
        i16_le(self.unk_00) + i16_le(self.unk_02) + i16_le(self.unk_04)
    }

    /// Reads the record stored at `buf[off..off + 0x6]`.
    pub fn parse_at(buf: &[u8], off: usize) -> (r: Result<Self, VolitionError>)
        requires
            off + 0x6 <= buf.len(),
        ensures
            r == Self::spec_from_le_bytes(buf@.subrange(off as int, off + 0x6)),
    {
        let ghost b = buf@.subrange(off as int, off + 0x6);
        let unk_00 = read_i16_le(buf, off + 0);
        let unk_02 = read_i16_le(buf, off + 2);
        let unk_04 = read_i16_le(buf, off + 4);
        Ok(MaterialUnknown1 { unk_00, unk_02, unk_04 })
    }

    /// Reads the record from the first 0x6 bytes of `buf`.
    pub fn from_le_unsized(buf: &[u8]) -> (r: Result<Self, VolitionError>)
        ensures
            buf@.len() < 0x6 ==> r == Err::<Self, VolitionError>(
                VolitionError::BufferTooSmall { needed: 0x6, got: buf@.len() as usize },
            ),
            buf@.len() >= 0x6 ==> r == Self::spec_from_le_bytes(buf@.take(0x6)),
    {
        if buf.len() < 0x6 {
            return Err(VolitionError::BufferTooSmall { needed: 0x6, got: buf.len() });
        }
        assert(buf@.subrange(0, 0x6) =~= buf@.take(0x6));
        Self::parse_at(buf, 0)
    }

    /// Reads the record from exactly 0x6 bytes.
    pub fn from_le_bytes(buf: &[u8; 0x6]) -> (r: Result<Self, VolitionError>)
        ensures
            r == Self::spec_from_le_bytes(buf@),
    {
        let s = buf.as_slice();
        assert(s@.subrange(0, 0x6) =~= buf@);
        Self::parse_at(s, 0)
    }

    /// The 0x6 bytes of `self`.
    pub fn to_le_bytes(&self) -> (r: [u8; 0x6])
        ensures
            r@ == self.spec_to_le_bytes(),
    {
        let mut bytes = [0u8; 0x6];
        put_u16_le(&mut bytes, 0, i16_bits(self.unk_00));
        put_u16_le(&mut bytes, 2, i16_bits(self.unk_02));
        put_u16_le(&mut bytes, 4, i16_bits(self.unk_04));
        assert(bytes@ =~= self.spec_to_le_bytes());
        bytes
    }

    /// Writing a record and reading the bytes back gives the record.
    pub proof fn lemma_write_read(x: Self)
        ensures
            x.spec_to_le_bytes().len() == 0x6,
            Self::spec_from_le_bytes(x.spec_to_le_bytes()) == Ok::<Self, VolitionError>(x),
    {
        let b = x.spec_to_le_bytes();
        assert(b.subrange(0int, 0int + 2) =~= i16_le(x.unk_00));
        lemma_i16_at_of(b, 0, x.unk_00);
        assert(b.subrange(2int, 2int + 2) =~= i16_le(x.unk_02));
        lemma_i16_at_of(b, 2, x.unk_02);
        assert(b.subrange(4int, 4int + 2) =~= i16_le(x.unk_04));
        lemma_i16_at_of(b, 4, x.unk_04);
    }

    /// Reading 0x6 accepted bytes and writing the result gives the same bytes.
    pub proof fn lemma_read_write(b: Seq<u8>)
        requires
            b.len() == 0x6,
            Self::spec_from_le_bytes(b) is Ok,
        ensures
            Self::spec_from_le_bytes(b).unwrap().spec_to_le_bytes() == b,
    {
        lemma_i16_le_of_read(b, 0);
        lemma_i16_le_of_read(b, 2);
        lemma_i16_le_of_read(b, 4);
        assert(Self::spec_from_le_bytes(b).unwrap().spec_to_le_bytes() =~= b);
    }

}

impl Record for MaterialUnknown1 {
    open spec fn spec_size() -> nat {
        0x6
    }

    open spec fn spec_from_bytes(b: Seq<u8>) -> Result<Self, VolitionError> {
        Self::spec_from_le_bytes(b)
    }

    open spec fn spec_bytes(self) -> Seq<u8> {
        self.spec_to_le_bytes()
    }

    fn write_to(&self, out: &mut Vec<u8>) {
        let bytes = self.to_le_bytes();
        push_bytes(out, bytes.as_slice());
    }

    proof fn lemma_bytes_len(self) {
    }

    open spec fn accepted(self) -> bool {
        true
    }

    proof fn lemma_bytes_read_back(self) {
        Self::lemma_write_read(self);
    }

    proof fn lemma_read_bytes_back(b: Seq<u8>) {
        Self::lemma_read_write(b);
    }

    fn size() -> (r: usize) {
        0x6
    }

    fn read_at(buf: &[u8], off: usize) -> (r: Result<Self, VolitionError>) {
        if off > buf.len() {
            Err(VolitionError::OutOfBounds { offset: off, len: buf.len() })
        } else if buf.len() - off < 0x6 {
            Err(VolitionError::BufferTooSmall { needed: 0x6, got: buf.len() - off })
        } else {
            Self::parse_at(buf, off)
        }
    }
}

/// Where a material's constants sit in the constant block, 8 bytes on disk.
#[derive(Debug, Clone, Copy, PartialEq, Eq, Structural)]
pub struct MaterialConstHeader {
    pub num_floats: u32,
    pub first_float: u32,
}

impl MaterialConstHeader {
    /// What reading the 0x8 bytes `b` gives.
    pub open spec fn spec_from_le_bytes(b: Seq<u8>) -> Result<Self, VolitionError> {
        let num_floats = spec_u32_at(b, 0);
        let first_float = spec_u32_at(b, 4);
        Ok(MaterialConstHeader { num_floats, first_float })
    }

    /// The 0x8 bytes written for `self`.
    pub open spec fn spec_to_le_bytes(self) -> Seq<u8> {
        u32_le(self.num_floats) + u32_le(self.first_float)
    }

    /// Reads the record stored at `buf[off..off + 0x8]`.
    pub fn parse_at(buf: &[u8], off: usize) -> (r: Result<Self, VolitionError>)
        requires
            off + 0x8 <= buf.len(),
        ensures
            r == Self::spec_from_le_bytes(buf@.subrange(off as int, off + 0x8)),
    {
        let ghost b = buf@.subrange(off as int, off + 0x8);
        let num_floats = read_u32_le(buf, off + 0);
        let first_float = read_u32_le(buf, off + 4);
        Ok(MaterialConstHeader { num_floats, first_float })
    }

    /// Reads the record from the first 0x8 bytes of `buf`.
    pub fn from_le_unsized(buf: &[u8]) -> (r: Result<Self, VolitionError>)
        ensures
            buf@.len() < 0x8 ==> r == Err::<Self, VolitionError>(
                VolitionError::BufferTooSmall { needed: 0x8, got: buf@.len() as usize },
            ),
            buf@.len() >= 0x8 ==> r == Self::spec_from_le_bytes(buf@.take(0x8)),
    {
        if buf.len() < 0x8 {
            return Err(VolitionError::BufferTooSmall { needed: 0x8, got: buf.len() });
        }
        assert(buf@.subrange(0, 0x8) =~= buf@.take(0x8));
        Self::parse_at(buf, 0)
    }

    /// Reads the record from exactly 0x8 bytes.
    pub fn from_le_bytes(buf: &[u8; 0x8]) -> (r: Result<Self, VolitionError>)
        ensures
            r == Self::spec_from_le_bytes(buf@),
    {
        let s = buf.as_slice();
        assert(s@.subrange(0, 0x8) =~= buf@);
        Self::parse_at(s, 0)
    }

    /// The 0x8 bytes of `self`.
    pub fn to_le_bytes(&self) -> (r: [u8; 0x8])
        ensures
            r@ == self.spec_to_le_bytes(),
    {
        let mut bytes = [0u8; 0x8];
        put_u32_le(&mut bytes, 0, self.num_floats);
        put_u32_le(&mut bytes, 4, self.first_float);
        assert(bytes@ =~= self.spec_to_le_bytes());
        bytes
    }

    /// Writing a record and reading the bytes back gives the record.
    pub proof fn lemma_write_read(x: Self)
        ensures
            x.spec_to_le_bytes().len() == 0x8,
            Self::spec_from_le_bytes(x.spec_to_le_bytes()) == Ok::<Self, VolitionError>(x),
    {
        let b = x.spec_to_le_bytes();
        assert(b.subrange(0int, 0int + 4) =~= u32_le(x.num_floats));
        lemma_u32_at_of(b, 0, x.num_floats);
        assert(b.subrange(4int, 4int + 4) =~= u32_le(x.first_float));
        lemma_u32_at_of(b, 4, x.first_float);
    }

    /// Reading 0x8 accepted bytes and writing the result gives the same bytes.
    pub proof fn lemma_read_write(b: Seq<u8>)
        requires
            b.len() == 0x8,
            Self::spec_from_le_bytes(b) is Ok,
        ensures
            Self::spec_from_le_bytes(b).unwrap().spec_to_le_bytes() == b,
    {
        lemma_u32_le_of_read(b, 0);
        lemma_u32_le_of_read(b, 4);
        assert(Self::spec_from_le_bytes(b).unwrap().spec_to_le_bytes() =~= b);
    }

}

impl Record for MaterialConstHeader {
    open spec fn spec_size() -> nat {
        0x8
    }

    open spec fn spec_from_bytes(b: Seq<u8>) -> Result<Self, VolitionError> {
        Self::spec_from_le_bytes(b)
    }

    open spec fn spec_bytes(self) -> Seq<u8> {
        self.spec_to_le_bytes()
    }

    fn write_to(&self, out: &mut Vec<u8>) {
        let bytes = self.to_le_bytes();
        push_bytes(out, bytes.as_slice());
    }

    proof fn lemma_bytes_len(self) {
    }

    open spec fn accepted(self) -> bool {
        true
    }

    proof fn lemma_bytes_read_back(self) {
        Self::lemma_write_read(self);
    }

    proof fn lemma_read_bytes_back(b: Seq<u8>) {
        Self::lemma_read_write(b);
    }

    fn size() -> (r: usize) {
        0x8
    }

    fn read_at(buf: &[u8], off: usize) -> (r: Result<Self, VolitionError>) {
        if off > buf.len() {
            Err(VolitionError::OutOfBounds { offset: off, len: buf.len() })
        } else if buf.len() - off < 0x8 {
            Err(VolitionError::BufferTooSmall { needed: 0x8, got: buf.len() - off })
        } else {
            Self::parse_at(buf, off)
        }
    }
}

/// Texture slot of a material, 4 bytes on disk.
#[derive(Debug, Clone, Copy, PartialEq, Eq, Structural)]
pub struct MaterialTextureEntry {
    /// Texture index. -1 if the entry is unused.
    pub index: i16,
    /// Texture flags? -1 if the entry is unused.
    pub flags: i16,
}

impl MaterialTextureEntry {
    /// What reading the 0x4 bytes `b` gives.
    pub open spec fn spec_from_le_bytes(b: Seq<u8>) -> Result<Self, VolitionError> {
        let index = spec_i16_at(b, 0);
        let flags = spec_i16_at(b, 2);
        Ok(MaterialTextureEntry { index, flags })
    }

    /// The 0x4 bytes written for `self`.
    pub open spec fn spec_to_le_bytes(self) -> Seq<u8> {
        i16_le(self.index) + i16_le(self.flags)
    }

    /// Reads the record stored at `buf[off..off + 0x4]`.
    pub fn parse_at(buf: &[u8], off: usize) -> (r: Result<Self, VolitionError>)
        requires
            off + 0x4 <= buf.len(),
        ensures
            r == Self::spec_from_le_bytes(buf@.subrange(off as int, off + 0x4)),
    {
        let ghost b = buf@.subrange(off as int, off + 0x4);
        let index = read_i16_le(buf, off + 0);
        let flags = read_i16_le(buf, off + 2);
        Ok(MaterialTextureEntry { index, flags })
    }

    /// Reads the record from the first 0x4 bytes of `buf`.
    pub fn from_le_unsized(buf: &[u8]) -> (r: Result<Self, VolitionError>)
        ensures
            buf@.len() < 0x4 ==> r == Err::<Self, VolitionError>(
                VolitionError::BufferTooSmall { needed: 0x4, got: buf@.len() as usize },
            ),
            buf@.len() >= 0x4 ==> r == Self::spec_from_le_bytes(buf@.take(0x4)),
    {
        if buf.len() < 0x4 {
            return Err(VolitionError::BufferTooSmall { needed: 0x4, got: buf.len() });
        }
        assert(buf@.subrange(0, 0x4) =~= buf@.take(0x4));
        Self::parse_at(buf, 0)
    }

    /// Reads the record from exactly 0x4 bytes.
    pub fn from_le_bytes(buf: &[u8; 0x4]) -> (r: Result<Self, VolitionError>)
        ensures
            r == Self::spec_from_le_bytes(buf@),
    {
        let s = buf.as_slice();
        assert(s@.subrange(0, 0x4) =~= buf@);
        Self::parse_at(s, 0)
    }

    /// The 0x4 bytes of `self`.
    pub fn to_le_bytes(&self) -> (r: [u8; 0x4])
        ensures
            r@ == self.spec_to_le_bytes(),
    {
        let mut bytes = [0u8; 0x4];
        put_u16_le(&mut bytes, 0, i16_bits(self.index));
        put_u16_le(&mut bytes, 2, i16_bits(self.flags));
        assert(bytes@ =~= self.spec_to_le_bytes());
        bytes
    }

    /// Writing a record and reading the bytes back gives the record.
    pub proof fn lemma_write_read(x: Self)
        ensures
            x.spec_to_le_bytes().len() == 0x4,
            Self::spec_from_le_bytes(x.spec_to_le_bytes()) == Ok::<Self, VolitionError>(x),
    {
        let b = x.spec_to_le_bytes();
        assert(b.subrange(0int, 0int + 2) =~= i16_le(x.index));
        lemma_i16_at_of(b, 0, x.index);
        assert(b.subrange(2int, 2int + 2) =~= i16_le(x.flags));
        lemma_i16_at_of(b, 2, x.flags);
    }

    /// Reading 0x4 accepted bytes and writing the result gives the same bytes.
    pub proof fn lemma_read_write(b: Seq<u8>)
        requires
            b.len() == 0x4,
            Self::spec_from_le_bytes(b) is Ok,
        ensures
            Self::spec_from_le_bytes(b).unwrap().spec_to_le_bytes() == b,
    {
        lemma_i16_le_of_read(b, 0);
        lemma_i16_le_of_read(b, 2);
        assert(Self::spec_from_le_bytes(b).unwrap().spec_to_le_bytes() =~= b);
    }

    /// Both fields are -1.
    pub fn is_placeholder(&self) -> (r: bool)
        ensures
            r == self.is_placeholder_spec(),
    {
        self.index == -1 && self.flags == -1
    }

    /// The index is non-negative and the flags are not -1.
    pub fn is_valid(&self) -> (r: bool)
        ensures
            r == self.is_valid_spec(),
    {
        self.index >= 0 && self.flags != -1
    }

    /// The entry written into unused slots: both fields -1.
    pub fn placeholder() -> (r: Self)
        ensures
            r == Self::spec_placeholder(),
    {
        Self { index: -1, flags: -1 }
    }

    pub open spec fn spec_placeholder() -> Self {
        MaterialTextureEntry { index: -1i16, flags: -1i16 }
    }

    pub open spec fn is_placeholder_spec(self) -> bool {
        self.index == -1 && self.flags == -1
    }

    pub open spec fn is_valid_spec(self) -> bool {
        self.index >= 0 && self.flags != -1
    }

    /// The placeholder is a placeholder and not a valid entry.
    pub proof fn lemma_placeholder_not_valid()
        ensures
            Self::spec_placeholder().is_placeholder_spec(),
            !Self::spec_placeholder().is_valid_spec(),
    {
    }

}

impl Record for MaterialTextureEntry {
    open spec fn spec_size() -> nat {
        0x4
    }

    open spec fn spec_from_bytes(b: Seq<u8>) -> Result<Self, VolitionError> {
        Self::spec_from_le_bytes(b)
    }

    open spec fn spec_bytes(self) -> Seq<u8> {
        self.spec_to_le_bytes()
    }

    fn write_to(&self, out: &mut Vec<u8>) {
        let bytes = self.to_le_bytes();
        push_bytes(out, bytes.as_slice());
    }

    proof fn lemma_bytes_len(self) {
    }

    open spec fn accepted(self) -> bool {
        true
    }

    proof fn lemma_bytes_read_back(self) {
        Self::lemma_write_read(self);
    }

    proof fn lemma_read_bytes_back(b: Seq<u8>) {
        Self::lemma_read_write(b);
    }

    fn size() -> (r: usize) {
        0x4
    }

    fn read_at(buf: &[u8], off: usize) -> (r: Result<Self, VolitionError>) {
        if off > buf.len() {
            Err(VolitionError::OutOfBounds { offset: off, len: buf.len() })
        } else if buf.len() - off < 0x4 {
            Err(VolitionError::BufferTooSmall { needed: 0x4, got: buf.len() - off })
        } else {
            Self::parse_at(buf, off)
        }
    }
}

/// Library-level record of unknown meaning, 0x10 bytes on disk.
#[derive(Debug, Clone, Copy, PartialEq, Eq, Structural)]
pub struct MaterialUnknown3 {
    pub unk_00: i32,
    pub unk_04: i32,
    pub num_mat_unk4: u16,
    pub unk_06: i16,
    pub ptr_08: i32,
}

impl MaterialUnknown3 {
    /// What reading the 0x10 bytes `b` gives.
    pub open spec fn spec_from_le_bytes(b: Seq<u8>) -> Result<Self, VolitionError> {
        let unk_00 = spec_i32_at(b, 0);
        let unk_04 = spec_i32_at(b, 4);
        let num_mat_unk4 = spec_u16_at(b, 8);
        let unk_06 = spec_i16_at(b, 10);
        let ptr_08 = spec_i32_at(b, 12);
        if num_mat_unk4 > MAX_UNKNOWN4S {
            Err(VolitionError::ValueTooHigh { field: Field::Unknown3NumUnknown4, max: MAX_UNKNOWN4S as usize, got: num_mat_unk4 as usize })
        } else if ptr_08 != -1 {
            Err(VolitionError::ExpectedExactValue { field: Field::Unknown3Ptr08, expected: -1i32, got: ptr_08 })
        } else {
            Ok(MaterialUnknown3 { unk_00, unk_04, num_mat_unk4, unk_06, ptr_08 })
        }
    }

    /// The 0x10 bytes written for `self`.
    pub open spec fn spec_to_le_bytes(self) -> Seq<u8> {
        i32_le(self.unk_00) + i32_le(self.unk_04) + u16_le(self.num_mat_unk4) + i16_le(self.unk_06) + i32_le(-1i32)
    }

    /// A record that reading accepts and writing keeps unchanged.
    pub open spec fn wf(self) -> bool {
        let unk_00 = self.unk_00;
        let unk_04 = self.unk_04;
        let num_mat_unk4 = self.num_mat_unk4;
        let unk_06 = self.unk_06;
        let ptr_08 = self.ptr_08;
        !(num_mat_unk4 > MAX_UNKNOWN4S) && !(ptr_08 != -1)
    }

    /// Reads the record stored at `buf[off..off + 0x10]`.
    pub fn parse_at(buf: &[u8], off: usize) -> (r: Result<Self, VolitionError>)
        requires
            off + 0x10 <= buf.len(),
        ensures
            r == Self::spec_from_le_bytes(buf@.subrange(off as int, off + 0x10)),
    {
        let ghost b = buf@.subrange(off as int, off + 0x10);
        let unk_00 = read_i32_le(buf, off + 0);
        let unk_04 = read_i32_le(buf, off + 4);
        let num_mat_unk4 = read_u16_le(buf, off + 8);
        let unk_06 = read_i16_le(buf, off + 10);
        let ptr_08 = read_i32_le(buf, off + 12);
        if num_mat_unk4 > MAX_UNKNOWN4S {
            return Err(VolitionError::ValueTooHigh { field: Field::Unknown3NumUnknown4, max: MAX_UNKNOWN4S as usize, got: num_mat_unk4 as usize });
        }
        if ptr_08 != -1 {
            return Err(VolitionError::ExpectedExactValue { field: Field::Unknown3Ptr08, expected: -1i32, got: ptr_08 });
        }
        Ok(MaterialUnknown3 { unk_00, unk_04, num_mat_unk4, unk_06, ptr_08 })
    }

    /// Reads the record from the first 0x10 bytes of `buf`.
    pub fn from_le_unsized(buf: &[u8]) -> (r: Result<Self, VolitionError>)
        ensures
            buf@.len() < 0x10 ==> r == Err::<Self, VolitionError>(
                VolitionError::BufferTooSmall { needed: 0x10, got: buf@.len() as usize },
            ),
            buf@.len() >= 0x10 ==> r == Self::spec_from_le_bytes(buf@.take(0x10)),
    {
        if buf.len() < 0x10 {
            return Err(VolitionError::BufferTooSmall { needed: 0x10, got: buf.len() });
        }
        assert(buf@.subrange(0, 0x10) =~= buf@.take(0x10));
        Self::parse_at(buf, 0)
    }

    /// Reads the record from exactly 0x10 bytes.
    pub fn from_le_bytes(buf: &[u8; 0x10]) -> (r: Result<Self, VolitionError>)
        ensures
            r == Self::spec_from_le_bytes(buf@),
    {
        let s = buf.as_slice();
        assert(s@.subrange(0, 0x10) =~= buf@);
        Self::parse_at(s, 0)
    }

    /// The 0x10 bytes of `self`.
    pub fn to_le_bytes(&self) -> (r: [u8; 0x10])
        ensures
            r@ == self.spec_to_le_bytes(),
    {
        let mut bytes = [0u8; 0x10];
        put_u32_le(&mut bytes, 0, i32_bits(self.unk_00));
        put_u32_le(&mut bytes, 4, i32_bits(self.unk_04));
        put_u16_le(&mut bytes, 8, self.num_mat_unk4);
        put_u16_le(&mut bytes, 10, i16_bits(self.unk_06));
        put_u32_le(&mut bytes, 12, i32_bits(-1i32));
        assert(bytes@ =~= self.spec_to_le_bytes());
        bytes
    }

    /// Writing a well-formed record and reading the bytes back gives the record.
    pub proof fn lemma_write_read(x: Self)
        requires
            x.wf(),
        ensures
            x.spec_to_le_bytes().len() == 0x10,
            Self::spec_from_le_bytes(x.spec_to_le_bytes()) == Ok::<Self, VolitionError>(x),
    {
        let b = x.spec_to_le_bytes();
        assert(b.subrange(0int, 0int + 4) =~= i32_le(x.unk_00));
        lemma_i32_at_of(b, 0, x.unk_00);
        assert(b.subrange(4int, 4int + 4) =~= i32_le(x.unk_04));
        lemma_i32_at_of(b, 4, x.unk_04);
        assert(b.subrange(8int, 8int + 2) =~= u16_le(x.num_mat_unk4));
        lemma_u16_at_of(b, 8, x.num_mat_unk4);
        assert(b.subrange(10int, 10int + 2) =~= i16_le(x.unk_06));
        lemma_i16_at_of(b, 10, x.unk_06);
        assert(b.subrange(12int, 12int + 4) =~= i32_le(-1i32));
        lemma_i32_at_of(b, 12, -1i32);
    }

    /// Reading 0x10 accepted bytes and writing the result gives the same bytes.
    pub proof fn lemma_read_write(b: Seq<u8>)
        requires
            b.len() == 0x10,
            Self::spec_from_le_bytes(b) is Ok,
        ensures
            Self::spec_from_le_bytes(b).unwrap().wf(),
            Self::spec_from_le_bytes(b).unwrap().spec_to_le_bytes() == b,
    {
        lemma_i32_le_of_read(b, 0);
        lemma_i32_le_of_read(b, 4);
        lemma_u16_le_of_read(b, 8);
        lemma_i16_le_of_read(b, 10);
        lemma_i32_le_of_read(b, 12);
        assert(Self::spec_from_le_bytes(b).unwrap().spec_to_le_bytes() =~= b);
    }

}

impl Record for MaterialUnknown3 {
    open spec fn spec_size() -> nat {
        0x10
    }

    open spec fn spec_from_bytes(b: Seq<u8>) -> Result<Self, VolitionError> {
        Self::spec_from_le_bytes(b)
    }

    open spec fn spec_bytes(self) -> Seq<u8> {
        self.spec_to_le_bytes()
    }

    fn write_to(&self, out: &mut Vec<u8>) {
        let bytes = self.to_le_bytes();
        push_bytes(out, bytes.as_slice());
    }

    proof fn lemma_bytes_len(self) {
    }

    open spec fn accepted(self) -> bool {
        self.wf()
    }

    proof fn lemma_bytes_read_back(self) {
        Self::lemma_write_read(self);
    }

    proof fn lemma_read_bytes_back(b: Seq<u8>) {
        Self::lemma_read_write(b);
    }

    fn size() -> (r: usize) {
        0x10
    }

    fn read_at(buf: &[u8], off: usize) -> (r: Result<Self, VolitionError>) {
        if off > buf.len() {
            Err(VolitionError::OutOfBounds { offset: off, len: buf.len() })
        } else if buf.len() - off < 0x10 {
            Err(VolitionError::BufferTooSmall { needed: 0x10, got: buf.len() - off })
        } else {
            Self::parse_at(buf, off)
        }
    }
}

} // verus!
