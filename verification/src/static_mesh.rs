//! The static-mesh container: its header, navpoints, and the sections up to the material
//! library.

use vstd::prelude::*;
use vstd::utf8::encode_utf8;

use crate::error::{Check, Field, VolitionError};
use crate::quaternion::Quaternion;
use crate::record::Record;
use crate::util::{
    i16_bits, i16_le, i32_bits, i32_le, lemma_i16_at_of, lemma_i16_le_of_read, lemma_i32_at_of,
    lemma_i32_le_of_read, lemma_u16_at_of, lemma_u16_le_of_read, lemma_u32_at_of,
    lemma_u32_le_of_read, push_bytes, put_u16_le, put_u32_le, read_i16_le, read_i32_le,
    read_u16_le, read_u32_le, spec_i16_at, spec_i32_at, spec_u16_at, spec_u32_at, u16_le, u32_le,
};
use crate::text::{read_cstr, spec_cstr_at};
use crate::vector::Vector;

verus! {

pub const MAX_TEXTURES: u16 = 100;

pub const MAX_NAVPOINTS: u16 = 100;

pub const MAX_BONES: u32 = 500;

/// Magic number that starts every static mesh.
pub const SIGNATURE: i32 = 0x424BD00D;

/// The only static-mesh version this library reads.
pub const VERSION: i16 = 33;

impl StaticMeshHeader {
    /// Magic number that starts every static mesh.
    pub const SIGNATURE: i32 = SIGNATURE;

    /// The only static-mesh version this library reads.
    pub const VERSION: i16 = VERSION;
}

/// Header of a static mesh, 0x30 bytes on disk.
#[derive(Debug, Clone, Copy, PartialEq, Eq, Structural)]
pub struct StaticMeshHeader {
    pub magic: i32,
    pub version: i16,
    pub mesh_flags: i16,
    pub unk_08: i32,
    pub num_textures: u16,
    pub num_navpoints: u16,
    pub unk_10: i32,
    pub bounding_center: Vector,
    /// Bit pattern of the single-precision radius.
    pub bounding_radius: u32,
    /// maybe?
    pub num_bones: u32,
    pub unk_28: i32,
    pub unk_2c: i32,
}

impl StaticMeshHeader {
    /// What reading the 0x30 bytes `b` gives.
    pub open spec fn spec_from_le_bytes(b: Seq<u8>) -> Result<Self, VolitionError> {
        let magic = spec_i32_at(b, 0);
        let version = spec_i16_at(b, 4);
        let mesh_flags = spec_i16_at(b, 6);
        let unk_08 = spec_i32_at(b, 8);
        let num_textures = spec_u16_at(b, 12);
        let num_navpoints = spec_u16_at(b, 14);
        let unk_10 = spec_i32_at(b, 16);
        let bounding_center = Vector::spec_from_le_bytes(b.subrange(20int, 32int)).unwrap();
        let bounding_radius = spec_u32_at(b, 32);
        let num_bones = spec_u32_at(b, 36);
        let unk_28 = spec_i32_at(b, 40);
        let unk_2c = spec_i32_at(b, 44);
        if magic != SIGNATURE {
            Err(VolitionError::ExpectedExactValue { field: Field::StaticMeshMagic, expected: SIGNATURE, got: magic })
        } else if version != VERSION {
            Err(VolitionError::UnknownStaticMeshVersion(version))
        } else if num_textures > MAX_TEXTURES {
            Err(VolitionError::ValueTooHigh { field: Field::StaticMeshNumTextures, max: MAX_TEXTURES as usize, got: num_textures as usize })
        } else if num_navpoints > MAX_NAVPOINTS {
            Err(VolitionError::ValueTooHigh { field: Field::StaticMeshNumNavpoints, max: MAX_NAVPOINTS as usize, got: num_navpoints as usize })
        } else if num_bones > MAX_BONES {
            Err(VolitionError::ValueTooHigh { field: Field::StaticMeshNumBones, max: MAX_BONES as usize, got: num_bones as usize })
        } else if !(unk_2c == 0 || unk_2c == 2) {
            Err(VolitionError::UnexpectedValue { desc: Check::StaticMeshUnk2c, got: unk_2c })
        } else {
            Ok(StaticMeshHeader { magic, version, mesh_flags, unk_08, num_textures, num_navpoints, unk_10, bounding_center, bounding_radius, num_bones, unk_28, unk_2c })
        }
    }

    /// The 0x30 bytes written for `self`.
    pub open spec fn spec_to_le_bytes(self) -> Seq<u8> {
        i32_le(SIGNATURE) + i16_le(VERSION) + i16_le(self.mesh_flags) + i32_le(self.unk_08) + u16_le(self.num_textures) + u16_le(self.num_navpoints) + i32_le(self.unk_10) + self.bounding_center.spec_to_le_bytes() + u32_le(self.bounding_radius) + u32_le(self.num_bones) + i32_le(self.unk_28) + i32_le(self.unk_2c)
    }

    /// A record that reading accepts and writing keeps unchanged.
    pub open spec fn wf(self) -> bool {
        let magic = self.magic;
        let version = self.version;
        let mesh_flags = self.mesh_flags;
        let unk_08 = self.unk_08;
        let num_textures = self.num_textures;
        let num_navpoints = self.num_navpoints;
        let unk_10 = self.unk_10;
        let bounding_center = self.bounding_center;
        let bounding_radius = self.bounding_radius;
        let num_bones = self.num_bones;
        let unk_28 = self.unk_28;
        let unk_2c = self.unk_2c;
        !(magic != SIGNATURE) && !(version != VERSION) && !(num_textures > MAX_TEXTURES) && !(num_navpoints > MAX_NAVPOINTS) && !(num_bones > MAX_BONES) && !(!(unk_2c == 0 || unk_2c == 2))
    }

    /// Reads the record stored at `buf[off..off + 0x30]`.
    pub fn parse_at(buf: &[u8], off: usize) -> (r: Result<Self, VolitionError>)
        requires
            off + 0x30 <= buf.len(),
        ensures
            r == Self::spec_from_le_bytes(buf@.subrange(off as int, off + 0x30)),
    {
        let ghost b = buf@.subrange(off as int, off + 0x30);
        let magic = read_i32_le(buf, off + 0);
        let version = read_i16_le(buf, off + 4);
        let mesh_flags = read_i16_le(buf, off + 6);
        let unk_08 = read_i32_le(buf, off + 8);
        let num_textures = read_u16_le(buf, off + 12);
        let num_navpoints = read_u16_le(buf, off + 14);
        let unk_10 = read_i32_le(buf, off + 16);
        let bounding_center = match Vector::parse_at(buf, off + 20) { Ok(v) => v, Err(e) => return Err(e) };
        assert(buf@.subrange(off + 20, off + 32) =~= b.subrange(20int, 32int));
        let bounding_radius = read_u32_le(buf, off + 32);
        let num_bones = read_u32_le(buf, off + 36);
        let unk_28 = read_i32_le(buf, off + 40);
        let unk_2c = read_i32_le(buf, off + 44);
        if magic != SIGNATURE {
            return Err(VolitionError::ExpectedExactValue { field: Field::StaticMeshMagic, expected: SIGNATURE, got: magic });
        }
        if version != VERSION {
            return Err(VolitionError::UnknownStaticMeshVersion(version));
        }
        if num_textures > MAX_TEXTURES {
            return Err(VolitionError::ValueTooHigh { field: Field::StaticMeshNumTextures, max: MAX_TEXTURES as usize, got: num_textures as usize });
        }
        if num_navpoints > MAX_NAVPOINTS {
            return Err(VolitionError::ValueTooHigh { field: Field::StaticMeshNumNavpoints, max: MAX_NAVPOINTS as usize, got: num_navpoints as usize });
        }
        if num_bones > MAX_BONES {
            return Err(VolitionError::ValueTooHigh { field: Field::StaticMeshNumBones, max: MAX_BONES as usize, got: num_bones as usize });
        }
        if !(unk_2c == 0 || unk_2c == 2) {
            return Err(VolitionError::UnexpectedValue { desc: Check::StaticMeshUnk2c, got: unk_2c });
        }
        Ok(StaticMeshHeader { magic, version, mesh_flags, unk_08, num_textures, num_navpoints, unk_10, bounding_center, bounding_radius, num_bones, unk_28, unk_2c })
    }

    /// Reads the record from the first 0x30 bytes of `buf`.
    pub fn from_le_unsized(buf: &[u8]) -> (r: Result<Self, VolitionError>)
        ensures
            buf@.len() < 0x30 ==> r == Err::<Self, VolitionError>(
                VolitionError::BufferTooSmall { needed: 0x30, got: buf@.len() as usize },
            ),
            buf@.len() >= 0x30 ==> r == Self::spec_from_le_bytes(buf@.take(0x30)),
    {
        if buf.len() < 0x30 {
            return Err(VolitionError::BufferTooSmall { needed: 0x30, got: buf.len() });
        }
        assert(buf@.subrange(0, 0x30) =~= buf@.take(0x30));
        Self::parse_at(buf, 0)
    }

    /// Reads the record from exactly 0x30 bytes.
    pub fn from_le_bytes(buf: &[u8; 0x30]) -> (r: Result<Self, VolitionError>)
        ensures
            r == Self::spec_from_le_bytes(buf@),
    {
        let s = buf.as_slice();
        assert(s@.subrange(0, 0x30) =~= buf@);
        Self::parse_at(s, 0)
    }

    /// The 0x30 bytes of `self`.
    pub fn to_le_bytes(&self) -> (r: [u8; 0x30])
        ensures
            r@ == self.spec_to_le_bytes(),
    {
        let mut bytes = [0u8; 0x30];
        put_u32_le(&mut bytes, 0, i32_bits(SIGNATURE));
        put_u16_le(&mut bytes, 4, i16_bits(VERSION));
        put_u16_le(&mut bytes, 6, i16_bits(self.mesh_flags));
        put_u32_le(&mut bytes, 8, i32_bits(self.unk_08));
        put_u16_le(&mut bytes, 12, self.num_textures);
        put_u16_le(&mut bytes, 14, self.num_navpoints);
        put_u32_le(&mut bytes, 16, i32_bits(self.unk_10));
        put_u32_le(&mut bytes, 20, self.bounding_center.x);
        put_u32_le(&mut bytes, 24, self.bounding_center.y);
        put_u32_le(&mut bytes, 28, self.bounding_center.z);
        put_u32_le(&mut bytes, 32, self.bounding_radius);
        put_u32_le(&mut bytes, 36, self.num_bones);
        put_u32_le(&mut bytes, 40, i32_bits(self.unk_28));
        put_u32_le(&mut bytes, 44, i32_bits(self.unk_2c));
        assert(bytes@ =~= self.spec_to_le_bytes());
        bytes
    }

    /// Writing a well-formed record and reading the bytes back gives the record.
    #[verifier::rlimit(80)]
    pub proof fn lemma_write_read(x: Self)
        requires
            x.wf(),
        ensures
            x.spec_to_le_bytes().len() == 0x30,
            Self::spec_from_le_bytes(x.spec_to_le_bytes()) == Ok::<Self, VolitionError>(x),
    {
        let b = x.spec_to_le_bytes();
        assert(b.subrange(0int, 0int + 4) =~= i32_le(SIGNATURE));
        lemma_i32_at_of(b, 0, SIGNATURE);
        assert(b.subrange(4int, 4int + 2) =~= i16_le(VERSION));
        lemma_i16_at_of(b, 4, VERSION);
        assert(b.subrange(6int, 6int + 2) =~= i16_le(x.mesh_flags));
        lemma_i16_at_of(b, 6, x.mesh_flags);
        assert(b.subrange(8int, 8int + 4) =~= i32_le(x.unk_08));
        lemma_i32_at_of(b, 8, x.unk_08);
        assert(b.subrange(12int, 12int + 2) =~= u16_le(x.num_textures));
        lemma_u16_at_of(b, 12, x.num_textures);
        assert(b.subrange(14int, 14int + 2) =~= u16_le(x.num_navpoints));
        lemma_u16_at_of(b, 14, x.num_navpoints);
        assert(b.subrange(16int, 16int + 4) =~= i32_le(x.unk_10));
        lemma_i32_at_of(b, 16, x.unk_10);
        assert(b.subrange(20int, 20int + 12) =~= x.bounding_center.spec_to_le_bytes());
        Vector::lemma_write_read(x.bounding_center);
        assert(b.subrange(32int, 32int + 4) =~= u32_le(x.bounding_radius));
        lemma_u32_at_of(b, 32, x.bounding_radius);
        assert(b.subrange(36int, 36int + 4) =~= u32_le(x.num_bones));
        lemma_u32_at_of(b, 36, x.num_bones);
        assert(b.subrange(40int, 40int + 4) =~= i32_le(x.unk_28));
        lemma_i32_at_of(b, 40, x.unk_28);
        assert(b.subrange(44int, 44int + 4) =~= i32_le(x.unk_2c));
        lemma_i32_at_of(b, 44, x.unk_2c);
    }

    /// Reading 0x30 accepted bytes and writing the result gives the same bytes.
    pub proof fn lemma_read_write(b: Seq<u8>)
        requires
            b.len() == 0x30,
            Self::spec_from_le_bytes(b) is Ok,
        ensures
            Self::spec_from_le_bytes(b).unwrap().wf(),
            Self::spec_from_le_bytes(b).unwrap().spec_to_le_bytes() == b,
    {
        lemma_i32_le_of_read(b, 0);
        lemma_i16_le_of_read(b, 4);
        lemma_i16_le_of_read(b, 6);
        lemma_i32_le_of_read(b, 8);
        lemma_u16_le_of_read(b, 12);
        lemma_u16_le_of_read(b, 14);
        lemma_i32_le_of_read(b, 16);
        lemma_u32_le_of_read(b, 20);
        lemma_u32_le_of_read(b, 24);
        lemma_u32_le_of_read(b, 28);
        lemma_u32_le_of_read(b, 32);
        lemma_u32_le_of_read(b, 36);
        lemma_i32_le_of_read(b, 40);
        lemma_i32_le_of_read(b, 44);
        assert(Self::spec_from_le_bytes(b).unwrap().spec_to_le_bytes() =~= b);
    }

}

impl Record for StaticMeshHeader {
    open spec fn spec_size() -> nat {
        0x30
    }

    open spec fn spec_from_bytes(b: Seq<u8>) -> Result<Self, VolitionError> {
        Self::spec_from_le_bytes(b)
    }

    open spec fn spec_bytes(self) -> Seq<u8> {
        self.spec_to_le_bytes()
    }

    fn write_to(&self, out: &mut Vec<u8>) {
        let bytes = self.to_le_bytes();
        push_bytes(out, bytes.as_slice());
    }

    proof fn lemma_bytes_len(self) {
    }

    open spec fn accepted(self) -> bool {
        self.wf()
    }

    proof fn lemma_bytes_read_back(self) {
        Self::lemma_write_read(self);
    }

    proof fn lemma_read_bytes_back(b: Seq<u8>) {
        Self::lemma_read_write(b);
    }

    fn size() -> (r: usize) {
        0x30
    }

    fn read_at(buf: &[u8], off: usize) -> (r: Result<Self, VolitionError>) {
        if off > buf.len() {
            Err(VolitionError::OutOfBounds { offset: off, len: buf.len() })
        } else if buf.len() - off < 0x30 {
            Err(VolitionError::BufferTooSmall { needed: 0x30, got: buf.len() - off })
        } else {
            Self::parse_at(buf, off)
        }
    }
}

/// The 64-byte array holding `s[0..64]`.
#[verifier::opaque]
pub open spec fn spec_name_array(s: Seq<u8>) -> [u8; 64] {
    [s[0], s[1], s[2], s[3], s[4], s[5], s[6], s[7], s[8], s[9], s[10], s[11], s[12], s[13], s[14], s[15], s[16], s[17], s[18], s[19], s[20], s[21], s[22], s[23], s[24], s[25], s[26], s[27], s[28], s[29], s[30], s[31], s[32], s[33], s[34], s[35], s[36], s[37], s[38], s[39], s[40], s[41], s[42], s[43], s[44], s[45], s[46], s[47], s[48], s[49], s[50], s[51], s[52], s[53], s[54], s[55], s[56], s[57], s[58], s[59], s[60], s[61], s[62], s[63]]
}

/// The array built from 64 bytes views as those bytes.
pub proof fn lemma_name_array(s: Seq<u8>)
    requires
        s.len() == 64,
    ensures
        spec_name_array(s)@ == s,
{
    reveal(spec_name_array);
    assert(spec_name_array(s)@ =~= s);
}

/// Navigation reference point, 0x60 bytes on disk. Used for IK?
#[derive(Debug, Clone, Copy, PartialEq, Eq)]
pub struct StaticMeshNavpoint {
    /// Name to reference the navpoint by, NUL-terminated.
    pub name: [u8; 64],
    /// Vertex id this navpoint is attached to.
    pub vid: i32,
    /// Position of the navpoint in object coordinates.
    pub pos: Vector,
    /// Orientation of the navpoint.
    pub orient: Quaternion,
}

impl StaticMeshNavpoint {
    /// What reading the 0x60 bytes `b` gives.
    pub open spec fn spec_from_le_bytes(b: Seq<u8>) -> Result<Self, VolitionError> {
        Ok(
            StaticMeshNavpoint {
                name: spec_name_array(b.subrange(0, 0x40)),
                vid: spec_i32_at(b, 0x40),
                pos: Vector::spec_from_le_bytes(b.subrange(0x44, 0x50)).unwrap(),
                orient: Quaternion::spec_from_le_bytes(b.subrange(0x50, 0x60)).unwrap(),
            },
        )
    }

    /// The 0x60 bytes written for `self`.
    pub open spec fn spec_to_le_bytes(self) -> Seq<u8> {
        self.name@ + i32_le(self.vid) + self.pos.spec_to_le_bytes() + self.orient.spec_to_le_bytes()
    }

    /// Reads the navpoint stored at `buf[off..off + 0x60]`.
    pub fn parse_at(buf: &[u8], off: usize) -> (r: Result<Self, VolitionError>)
        requires
            off + 0x60 <= buf.len(),
        ensures
            r == Self::spec_from_le_bytes(buf@.subrange(off as int, off + 0x60)),
    {
        let ghost b = buf@.subrange(off as int, off + 0x60);
        let mut name = [0u8; 64];
        let mut i: usize = 0;
        while i < 64
            invariant
                i <= 64,
                off + 0x60 <= buf.len(),
                b == buf@.subrange(off as int, off + 0x60),
                name@.take(i as int) == b.take(i as int),
            decreases 64 - i,
        {
            name[i] = buf[off + i];
            i = i + 1;
            assert(name@.take(i as int) =~= b.take(i as int));
        }
        let vid = read_i32_le(buf, off + 0x40);
        let pos = match Vector::parse_at(buf, off + 0x44) {
            Ok(v) => v,
            Err(e) => return Err(e),
        };
        let orient = match Quaternion::parse_at(buf, off + 0x50) {
            Ok(q) => q,
            Err(e) => return Err(e),
        };
        let n = StaticMeshNavpoint { name, vid, pos, orient };
        assert(buf@.subrange(off + 0x44, off + 0x50) =~= b.subrange(0x44, 0x50));
        assert(buf@.subrange(off + 0x50, off + 0x60) =~= b.subrange(0x50, 0x60));
        proof {
            assert(name@ =~= b.subrange(0, 0x40));
            lemma_name_array(b.subrange(0, 0x40));
            assert(name =~= spec_name_array(b.subrange(0, 0x40)));
        }
        Ok(n)
    }

    /// Reads a navpoint from the first 0x60 bytes of `buf`.
    pub fn from_le_unsized(buf: &[u8]) -> (r: Result<Self, VolitionError>)
        ensures
            buf@.len() < 0x60 ==> r == Err::<Self, VolitionError>(
                VolitionError::BufferTooSmall { needed: 0x60, got: buf@.len() as usize },
            ),
            buf@.len() >= 0x60 ==> r == Self::spec_from_le_bytes(buf@.take(0x60)),
    {
        if buf.len() < 0x60 {
            return Err(VolitionError::BufferTooSmall { needed: 0x60, got: buf.len() });
        }
        assert(buf@.subrange(0, 0x60) =~= buf@.take(0x60));
        Self::parse_at(buf, 0)
    }

    /// Reads a navpoint from exactly 0x60 bytes.
    pub fn from_le_bytes(buf: &[u8; 0x60]) -> (r: Result<Self, VolitionError>)
        ensures
            r == Self::spec_from_le_bytes(buf@),
    {
        let s = buf.as_slice();
        assert(s@.subrange(0, 0x60) =~= buf@);
        Self::parse_at(s, 0)
    }

    /// The 0x60 bytes of `self`.
    pub fn to_le_bytes(&self) -> (r: [u8; 0x60])
        ensures
            r@ == self.spec_to_le_bytes(),
    {
        let mut bytes = [0u8; 0x60];
        let mut i: usize = 0;
        while i < 64
            invariant
                i <= 64,
                bytes@.len() == 0x60,
                bytes@.take(i as int) == self.name@.take(i as int),
            decreases 64 - i,
        {
            bytes[i] = self.name[i];
            i = i + 1;
            assert(bytes@.take(i as int) =~= self.name@.take(i as int));
        }
        put_u32_le(&mut bytes, 0x40, i32_bits(self.vid));
        put_u32_le(&mut bytes, 0x44, self.pos.x);
        put_u32_le(&mut bytes, 0x48, self.pos.y);
        put_u32_le(&mut bytes, 0x4c, self.pos.z);
        put_u32_le(&mut bytes, 0x50, self.orient.x);
        put_u32_le(&mut bytes, 0x54, self.orient.y);
        put_u32_le(&mut bytes, 0x58, self.orient.z);
        put_u32_le(&mut bytes, 0x5c, self.orient.w);
        assert(bytes@ =~= self.spec_to_le_bytes());
        bytes
    }

    /// The name: the bytes of `name` up to the first NUL, which must exist and be UTF-8.
    pub fn name(&self) -> (r: Result<&str, VolitionError>)
        ensures
            match spec_cstr_at(self.name@, 0) {
                Ok(b) => r is Ok && encode_utf8(r->Ok_0@) == b,
                Err(e) => r == Err::<&str, VolitionError>(e),
            },
    {
        read_cstr(self.name.as_slice(), 0)
    }

    /// Writing a navpoint and reading the bytes back gives the navpoint.
    #[verifier::rlimit(80)]
    pub proof fn lemma_write_read(x: Self)
        ensures
            x.spec_to_le_bytes().len() == 0x60,
            Self::spec_from_le_bytes(x.spec_to_le_bytes()) == Ok::<Self, VolitionError>(x),
    {
        let b = x.spec_to_le_bytes();
        assert(b.subrange(0, 0x40) =~= x.name@);
        lemma_name_array(x.name@);
        assert(spec_name_array(x.name@) =~= x.name);
        assert(b.subrange(0x40, 0x44) =~= i32_le(x.vid));
        lemma_i32_at_of(b, 0x40, x.vid);
        assert(b.subrange(0x44, 0x50) =~= x.pos.spec_to_le_bytes());
        Vector::lemma_write_read(x.pos);
        assert(b.subrange(0x50, 0x60) =~= x.orient.spec_to_le_bytes());
        Quaternion::lemma_write_read(x.orient);
    }

    /// Reading 0x60 bytes and writing the result gives the same bytes.
    pub proof fn lemma_read_write(b: Seq<u8>)
        requires
            b.len() == 0x60,
        ensures
            Self::spec_from_le_bytes(b).unwrap().spec_to_le_bytes() == b,
    {
        Vector::lemma_read_write(b.subrange(0x44, 0x50));
        Quaternion::lemma_read_write(b.subrange(0x50, 0x60));
        lemma_i32_le_of_read(b, 0x40);
        lemma_name_array(b.subrange(0, 0x40));
        assert(Self::spec_from_le_bytes(b).unwrap().spec_to_le_bytes() =~= b);
    }
}

impl Record for StaticMeshNavpoint {
    open spec fn spec_size() -> nat {
        0x60
    }

    open spec fn spec_from_bytes(b: Seq<u8>) -> Result<Self, VolitionError> {
        Self::spec_from_le_bytes(b)
    }

    open spec fn spec_bytes(self) -> Seq<u8> {
        self.spec_to_le_bytes()
    }

    fn write_to(&self, out: &mut Vec<u8>) {
        let bytes = self.to_le_bytes();
        push_bytes(out, bytes.as_slice());
    }

    proof fn lemma_bytes_len(self) {
    }

    open spec fn accepted(self) -> bool {
        true
    }

    proof fn lemma_bytes_read_back(self) {
        Self::lemma_write_read(self);
    }

    proof fn lemma_read_bytes_back(b: Seq<u8>) {
        Self::lemma_read_write(b);
    }

    fn size() -> (r: usize) {
        0x60
    }

    fn read_at(buf: &[u8], off: usize) -> (r: Result<Self, VolitionError>) {
        if off > buf.len() {
            Err(VolitionError::OutOfBounds { offset: off, len: buf.len() })
        } else if buf.len() - off < 0x60 {
            Err(VolitionError::BufferTooSmall { needed: 0x60, got: buf.len() - off })
        } else {
            Self::parse_at(buf, off)
        }
    }
}

} // verus!
