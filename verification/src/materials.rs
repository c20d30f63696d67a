//! The material library as a whole: reading it from a buffer and writing it back.

use vstd::prelude::*;

use crate::error::{Check, Field, VolitionError};
use crate::material::{
    MaterialsHeader, Material, MaterialConstHeader, MaterialTextureEntry, MaterialUnknown1, MaterialUnknown3,
    MAX_UKNOWN4_VALUE,
};
use crate::record::{lemma_read_run_within, read_run, spec_read_run, spec_record_at, Record, Step};
use crate::util::{align, read_i32_le, read_u32_le, spec_align, spec_i32_at, spec_u32_at};

verus! {

/// Four single-precision material constants, kept as their IEEE-754 bit patterns.
pub type MaterialConst = [u32; 4];

/// A material together with the records that the library stores for it elsewhere.
#[derive(Debug, Clone, PartialEq)]
pub struct MaterialDeserialized {
    /// name checksum?
    pub shader_hash: i32,
    /// name checksum?
    pub material_hash: i32,
    pub flags: i32,
    pub unknown1s: Vec<MaterialUnknown1>,
    pub consts_a_first: u32,
    pub const_vecs_a: Vec<MaterialConst>,
    pub consts_b_first: u32,
    pub const_vecs_b: Vec<MaterialConst>,
    pub textures: Vec<MaterialTextureEntry>,
    pub unk_10: i16,
    pub unk_12: i16,
    pub ptr_14: i32,
}

/// The value of a [`MaterialDeserialized`], with its vectors as sequences.
pub struct MaterialModel {
    pub shader_hash: i32,
    pub material_hash: i32,
    pub flags: i32,
    pub unknown1s: Seq<MaterialUnknown1>,
    pub consts_a_first: u32,
    pub const_vecs_a: Seq<MaterialConst>,
    pub consts_b_first: u32,
    pub const_vecs_b: Seq<MaterialConst>,
    pub textures: Seq<MaterialTextureEntry>,
    pub unk_10: i16,
    pub unk_12: i16,
    pub ptr_14: i32,
}

impl View for MaterialDeserialized {
    type V = MaterialModel;

    open spec fn view(&self) -> MaterialModel {
        MaterialModel {
            shader_hash: self.shader_hash,
            material_hash: self.material_hash,
            flags: self.flags,
            unknown1s: self.unknown1s@,
            consts_a_first: self.consts_a_first,
            const_vecs_a: self.const_vecs_a@,
            consts_b_first: self.consts_b_first,
            const_vecs_b: self.const_vecs_b@,
            textures: self.textures@,
            unk_10: self.unk_10,
            unk_12: self.unk_12,
            ptr_14: self.ptr_14,
        }
    }
}

/// The material with the fields of `mat` and everything else empty or zero.
pub open spec fn spec_material_new(mat: Material) -> MaterialModel {
    MaterialModel {
        shader_hash: mat.shader_hash,
        material_hash: mat.material_hash,
        flags: mat.flags,
        unknown1s: Seq::empty(),
        consts_a_first: 0,
        const_vecs_a: Seq::empty(),
        consts_b_first: 0,
        const_vecs_b: Seq::empty(),
        textures: Seq::empty(),
        unk_10: mat.unk_10,
        unk_12: mat.unk_12,
        ptr_14: mat.ptr_14,
    }
}

/// The on-disk record of `m`: its counts are the lengths of its vectors, truncated to 16 bits.
pub open spec fn spec_to_disk(m: MaterialModel) -> Material {
    Material {
        shader_hash: m.shader_hash,
        material_hash: m.material_hash,
        flags: m.flags,
        num_unknown: m.unknown1s.len() as u16,
        num_textures: m.textures.len() as u16,
        unk_10: m.unk_10,
        unk_12: m.unk_12,
        ptr_14: m.ptr_14,
    }
}

/// A new material written back to disk gives the record it was made from, with no unknown1
/// records and no textures.
pub proof fn lemma_new_to_disk(mat: Material)
    ensures
        spec_to_disk(spec_material_new(mat)) == (Material { num_unknown: 0, num_textures: 0, ..mat }),
{
}

impl MaterialDeserialized {
    /// A material with the fields of `mat` and no records attached.
    pub fn new(mat: &Material) -> (r: Self)
        ensures
            r@ == spec_material_new(*mat),
    {
        Self {
            shader_hash: mat.shader_hash,
            material_hash: mat.material_hash,
            flags: mat.flags,
            unknown1s: Vec::new(),
            consts_a_first: 0,
            const_vecs_a: Vec::new(),
            consts_b_first: 0,
            const_vecs_b: Vec::new(),
            textures: Vec::new(),
            unk_10: mat.unk_10,
            unk_12: mat.unk_12,
            ptr_14: mat.ptr_14,
        }
    }

    /// The on-disk record of this material.
    pub fn to_disk(&self) -> (r: Material)
        ensures
            r == spec_to_disk(self@),
    {
        Material {
            shader_hash: self.shader_hash,
            material_hash: self.material_hash,
            flags: self.flags,
            num_unknown: self.unknown1s.len() as u16,
            num_textures: self.textures.len() as u16,
            unk_10: self.unk_10,
            unk_12: self.unk_12,
            ptr_14: self.ptr_14,
        }
    }
}


/// The views of a vector of vectors.
pub open spec fn seqs_of<T>(v: Seq<Vec<T>>) -> Seq<Seq<T>> {
    v.map_values(|x: Vec<T>| x@)
}

/// Reading the unknown1 records of the materials `headers[acc.len()..]`, after those in
/// `acc`: each material's run starts at the next multiple of 4.
pub open spec fn spec_read_unknown1s(
    buf: Seq<u8>,
    off: int,
    headers: Seq<Material>,
    acc: Seq<Seq<MaterialUnknown1>>,
) -> Step<Seq<Seq<MaterialUnknown1>>>
    decreases headers.len() - acc.len(),
{
    if acc.len() >= headers.len() {
        Ok((acc, off))
    } else {
        match spec_read_run::<MaterialUnknown1>(
            buf,
            spec_align(off, 4),
            headers[acc.len() as int].num_unknown as nat,
            Seq::empty(),
        ) {
            Err(e) => Err(e),
            Ok((run, next)) => spec_read_unknown1s(buf, next, headers, acc.push(run)),
        }
    }
}

/// Reads the unknown1 records of every material in `headers`.
fn read_unknown1s(buf: &[u8], off: &mut usize, headers: &Vec<Material>) -> (r: Result<
    Vec<Vec<MaterialUnknown1>>,
    VolitionError,
>)
    requires
        *old(off) <= buf@.len(),
        buf@.len() <= isize::MAX,
    ensures
        match spec_read_unknown1s(buf@, *old(off) as int, headers@, Seq::empty()) {
            Ok((v, o)) => r is Ok && seqs_of(r->Ok_0@) == v && *final(off) == o,
            Err((e, o)) => r == Err::<Vec<Vec<MaterialUnknown1>>, VolitionError>(e) && *final(off)
                == o,
        },
        r is Ok ==> *final(off) <= buf@.len() || (*final(off) % 4 == 0 && *final(off)
            <= buf@.len() + 3),
        r is Ok ==> r->Ok_0@.len() == headers@.len(),
{
    let mut out: Vec<Vec<MaterialUnknown1>> = Vec::new();
    let mut i: usize = 0;
    assert(seqs_of(out@) =~= Seq::<Seq<MaterialUnknown1>>::empty());
    while i < headers.len()
        invariant
            i <= headers@.len(),
            out@.len() == i,
            *off <= buf@.len() || (*off % 4 == 0 && *off <= buf@.len() + 3),
            buf@.len() <= isize::MAX,
            spec_read_unknown1s(buf@, *old(off) as int, headers@, Seq::empty())
                == spec_read_unknown1s(buf@, *off as int, headers@, seqs_of(out@)),
        decreases headers@.len() - i,
    {
        align(off, 4);
        let ghost start = *off;
        let run = read_run::<MaterialUnknown1>(buf, off, headers[i].num_unknown as usize);
        match run {
            Err(e) => {
                return Err(e);
            },
            Ok(run) => {
                proof {
                    lemma_read_run_within::<MaterialUnknown1>(
                        buf@,
                        start as int,
                        headers@[i as int].num_unknown as nat,
                        Seq::empty(),
                    );
                }
                let ghost prev = seqs_of(out@);
                out.push(run);
                assert(seqs_of(out@) =~= prev.push(run@));
            },
        }
        i = i + 1;
    }
    Ok(out)
}


/// Reading a constant-range header at `off`: both its fields must be multiples of 4.
pub open spec fn spec_const_header_at(buf: Seq<u8>, off: int) -> Result<
    MaterialConstHeader,
    VolitionError,
> {
    match spec_record_at::<MaterialConstHeader>(buf, off) {
        Err(e) => Err(e),
        Ok(h) => if h.num_floats % 4 != 0 {
            Err(
                VolitionError::UnexpectedValue {
                    desc: Check::ConstNumFloatsMultipleOf4,
                    got: h.num_floats as i32,
                },
            )
        } else if h.first_float % 4 != 0 {
            Err(
                VolitionError::UnexpectedValue {
                    desc: Check::ConstFirstFloatMultipleOf4,
                    got: h.first_float as i32,
                },
            )
        } else {
            Ok(h)
        },
    }
}

/// Reading `count - acc.len()` more pairs of constant-range headers from `off`.
pub open spec fn spec_read_const_headers(
    buf: Seq<u8>,
    off: int,
    count: nat,
    acc: Seq<(MaterialConstHeader, MaterialConstHeader)>,
) -> Step<Seq<(MaterialConstHeader, MaterialConstHeader)>>
    decreases count - acc.len(),
{
    if acc.len() >= count {
        Ok((acc, off))
    } else {
        match spec_const_header_at(buf, off) {
            Err(e) => Err((e, off)),
            Ok(a) => match spec_const_header_at(buf, off + 8) {
                Err(e) => Err((e, off + 8)),
                Ok(b) => spec_read_const_headers(buf, off + 16, count, acc.push((a, b))),
            },
        }
    }
}

/// Reads a constant-range header at `off` and checks its fields.
fn read_const_header(buf: &[u8], off: usize) -> (r: Result<MaterialConstHeader, VolitionError>)
    ensures
        r == spec_const_header_at(buf@, off as int),
        r is Ok ==> off + 8 <= buf@.len(),
{
    let rd = MaterialConstHeader::read_at(buf, off);
    assert(rd == spec_record_at::<MaterialConstHeader>(buf@, off as int));
    match rd {
        Err(e) => Err(e),
        Ok(h) => {
            if h.num_floats % 4 != 0 {
                return Err(
                    VolitionError::UnexpectedValue {
                        desc: Check::ConstNumFloatsMultipleOf4,
                        got: h.num_floats as i32,
                    },
                );
            }
            if h.first_float % 4 != 0 {
                return Err(
                    VolitionError::UnexpectedValue {
                        desc: Check::ConstFirstFloatMultipleOf4,
                        got: h.first_float as i32,
                    },
                );
            }
            Ok(h)
        },
    }
}

/// Reads `count` pairs of constant-range headers starting at `*off`.
fn read_const_headers(buf: &[u8], off: &mut usize, count: usize) -> (r: Result<
    Vec<(MaterialConstHeader, MaterialConstHeader)>,
    VolitionError,
>)
    requires
        *old(off) <= buf@.len() + 3,
        buf@.len() <= isize::MAX,
    ensures
        match spec_read_const_headers(buf@, *old(off) as int, count as nat, Seq::empty()) {
            Ok((v, o)) => r is Ok && r->Ok_0@ == v && *final(off) == o,
            Err((e, o)) => r == Err::<Vec<(MaterialConstHeader, MaterialConstHeader)>, VolitionError>(e)
                && *final(off) == o,
        },
        r is Ok ==> *final(off) <= buf@.len() + 3,
        r is Ok ==> r->Ok_0@.len() == count,
{
    let mut out: Vec<(MaterialConstHeader, MaterialConstHeader)> = Vec::new();
    let mut i: usize = 0;
    while i < count
        invariant
            i <= count,
            out@.len() == i,
            *off <= buf@.len() + 3,
            buf@.len() <= isize::MAX,
            spec_read_const_headers(buf@, *old(off) as int, count as nat, Seq::empty())
                == spec_read_const_headers(buf@, *off as int, count as nat, out@),
        decreases count - i,
    {
        let a = match read_const_header(buf, *off) {
            Err(e) => {
                return Err(e);
            },
            Ok(a) => a,
        };
        *off = *off + 8;
        let b = match read_const_header(buf, *off) {
            Err(e) => {
                return Err(e);
            },
            Ok(b) => b,
        };
        *off = *off + 8;
        out.push((a, b));
        i = i + 1;
    }
    Ok(out)
}


/// Reading one constant vector (four 32-bit words) at `off`.
pub open spec fn spec_const_vec_at(buf: Seq<u8>, off: int) -> Result<MaterialConst, VolitionError> {
    if off + 16 > buf.len() {
        Err(VolitionError::OutOfBounds { offset: off as usize, len: buf.len() as usize })
    } else {
        Ok(
            [
                spec_u32_at(buf, off),
                spec_u32_at(buf, off + 4),
                spec_u32_at(buf, off + 8),
                spec_u32_at(buf, off + 12),
            ],
        )
    }
}

/// Reading `count` more constant vectors back to back from `off`, after those in `acc`.
pub open spec fn spec_read_const_vecs(
    buf: Seq<u8>,
    off: int,
    count: nat,
    acc: Seq<MaterialConst>,
) -> Result<Seq<MaterialConst>, VolitionError>
    decreases count,
{
    if count == 0 {
        Ok(acc)
    } else {
        match spec_const_vec_at(buf, off) {
            Err(e) => Err(e),
            Ok(v) => spec_read_const_vecs(buf, off + 16, (count - 1) as nat, acc.push(v)),
        }
    }
}

/// Reading the constants of the materials `pairs[acc.len()..]` from the block that spans
/// `off_consts..end_consts`: each range must end inside the block.
pub open spec fn spec_read_consts(
    buf: Seq<u8>,
    off_consts: int,
    end_consts: int,
    pairs: Seq<(MaterialConstHeader, MaterialConstHeader)>,
    acc: Seq<(Seq<MaterialConst>, Seq<MaterialConst>)>,
) -> Result<Seq<(Seq<MaterialConst>, Seq<MaterialConst>)>, VolitionError>
    decreases pairs.len() - acc.len(),
{
    if acc.len() >= pairs.len() {
        Ok(acc)
    } else {
        let a = pairs[acc.len() as int].0;
        let b = pairs[acc.len() as int].1;
        let start_a = off_consts + a.first_float * 4;
        let start_b = off_consts + b.first_float * 4;
        let end_a = start_a + a.num_floats * 4;
        let end_b = start_b + b.num_floats * 4;
        if end_a > end_consts {
            Err(VolitionError::UnexpectedValue { desc: Check::ConstsEndAInBlock, got: end_a as i32 })
        } else if end_b > end_consts {
            Err(VolitionError::UnexpectedValue { desc: Check::ConstsEndBInBlock, got: end_b as i32 })
        } else {
            match spec_read_const_vecs(buf, start_a, (a.num_floats / 4) as nat, Seq::empty()) {
                Err(e) => Err(e),
                Ok(va) => match spec_read_const_vecs(
                    buf,
                    start_b,
                    (b.num_floats / 4) as nat,
                    Seq::empty(),
                ) {
                    Err(e) => Err(e),
                    Ok(vb) => spec_read_consts(buf, off_consts, end_consts, pairs, acc.push((va, vb))),
                },
            }
        }
    }
}

/// The views of a vector of pairs of vectors.
pub open spec fn pairs_of<T>(v: Seq<(Vec<T>, Vec<T>)>) -> Seq<(Seq<T>, Seq<T>)> {
    v.map_values(|x: (Vec<T>, Vec<T>)| (x.0@, x.1@))
}

/// Reads the constant vector at `off`.
fn read_const_vec(buf: &[u8], off: usize) -> (r: Result<MaterialConst, VolitionError>)
    ensures
        r == spec_const_vec_at(buf@, off as int),
{
    if off > buf.len() || buf.len() - off < 16 {
        return Err(VolitionError::OutOfBounds { offset: off, len: buf.len() });
    }
    Ok(
        [
            read_u32_le(buf, off),
            read_u32_le(buf, off + 4),
            read_u32_le(buf, off + 8),
            read_u32_le(buf, off + 12),
        ],
    )
}

/// Reads `count` constant vectors back to back from `off`.
fn read_const_vecs(buf: &[u8], off: usize, count: usize) -> (r: Result<
    Vec<MaterialConst>,
    VolitionError,
>)
    requires
        off + 16 * count <= usize::MAX,
    ensures
        match spec_read_const_vecs(buf@, off as int, count as nat, Seq::empty()) {
            Ok(v) => r is Ok && r->Ok_0@ == v,
            Err(e) => r == Err::<Vec<MaterialConst>, VolitionError>(e),
        },
{
    let mut out: Vec<MaterialConst> = Vec::new();
    let mut i: usize = 0;
    while i < count
        invariant
            i <= count,
            off + 16 * count <= usize::MAX,
            spec_read_const_vecs(buf@, off as int, count as nat, Seq::empty())
                == spec_read_const_vecs(buf@, off + 16 * i, (count - i) as nat, out@),
        decreases count - i,
    {
        match read_const_vec(buf, off + 16 * i) {
            Err(e) => {
                return Err(e);
            },
            Ok(v) => {
                out.push(v);
            },
        }
        i = i + 1;
    }
    Ok(out)
}

/// Reads the constants of every material whose ranges are `pairs`.
fn read_consts(
    buf: &[u8],
    off_consts: usize,
    end_consts: usize,
    pairs: &Vec<(MaterialConstHeader, MaterialConstHeader)>,
) -> (r: Result<Vec<(Vec<MaterialConst>, Vec<MaterialConst>)>, VolitionError>)
    requires
        off_consts <= end_consts,
        end_consts <= 0xffff_fff0_0000_0000u64,
    ensures
        match spec_read_consts(
            buf@,
            off_consts as int,
            end_consts as int,
            pairs@,
            Seq::empty(),
        ) {
            Ok(v) => r is Ok && pairs_of(r->Ok_0@) == v,
            Err(e) => r == Err::<Vec<(Vec<MaterialConst>, Vec<MaterialConst>)>, VolitionError>(e),
        },
        r is Ok ==> r->Ok_0@.len() == pairs@.len(),
{
    let mut out: Vec<(Vec<MaterialConst>, Vec<MaterialConst>)> = Vec::new();
    let mut i: usize = 0;
    assert(pairs_of(out@) =~= Seq::<(Seq<MaterialConst>, Seq<MaterialConst>)>::empty());
    while i < pairs.len()
        invariant
            i <= pairs@.len(),
            out@.len() == i,
            off_consts <= end_consts,
            end_consts <= 0xffff_fff0_0000_0000u64,
            spec_read_consts(buf@, off_consts as int, end_consts as int, pairs@, Seq::empty())
                == spec_read_consts(
                buf@,
                off_consts as int,
                end_consts as int,
                pairs@,
                pairs_of(out@),
            ),
        decreases pairs@.len() - i,
    {
        let a = pairs[i].0;
        let b = pairs[i].1;
        let start_a: u64 = off_consts as u64 + a.first_float as u64 * 4;
        let start_b: u64 = off_consts as u64 + b.first_float as u64 * 4;
        let end_a: u64 = start_a + a.num_floats as u64 * 4;
        let end_b: u64 = start_b + b.num_floats as u64 * 4;
        if end_a > end_consts as u64 {
            return Err(
                VolitionError::UnexpectedValue { desc: Check::ConstsEndAInBlock, got: end_a as i32 },
            );
        }
        if end_b > end_consts as u64 {
            return Err(
                VolitionError::UnexpectedValue { desc: Check::ConstsEndBInBlock, got: end_b as i32 },
            );
        }
        let va = match read_const_vecs(buf, start_a as usize, (a.num_floats / 4) as usize) {
            Err(e) => {
                return Err(e);
            },
            Ok(v) => v,
        };
        let vb = match read_const_vecs(buf, start_b as usize, (b.num_floats / 4) as usize) {
            Err(e) => {
                return Err(e);
            },
            Ok(v) => v,
        };
        let ghost prev = pairs_of(out@);
        out.push((va, vb));
        assert(pairs_of(out@) =~= prev.push((va@, vb@)));
        i = i + 1;
    }
    Ok(out)
}


/// Reading texture slot `slot` of a material that uses `num_textures` slots: used slots must
/// hold valid entries and the others placeholders.
pub open spec fn spec_texture_slot_at(buf: Seq<u8>, off: int, slot: int, num_textures: u16) -> Result<
    MaterialTextureEntry,
    VolitionError,
> {
    match spec_record_at::<MaterialTextureEntry>(buf, off) {
        Err(e) => Err(e),
        Ok(t) => if slot < num_textures && !t.is_valid_spec() {
            Err(
                VolitionError::UnexpectedValue {
                    desc: Check::TextureEntryValid,
                    got: spec_i32_at(buf, off),
                },
            )
        } else if slot >= num_textures && !t.is_placeholder_spec() {
            Err(
                VolitionError::UnexpectedValue {
                    desc: Check::TextureEntryPlaceholder,
                    got: spec_i32_at(buf, off),
                },
            )
        } else {
            Ok(t)
        },
    }
}

/// Reading the 16 texture slots of a material from slot `slot` on: the entries of the used
/// slots are kept in `acc`.
pub open spec fn spec_read_texture_slots(
    buf: Seq<u8>,
    off: int,
    num_textures: u16,
    slot: nat,
    acc: Seq<MaterialTextureEntry>,
) -> Step<Seq<MaterialTextureEntry>>
    decreases 16 - slot,
{
    if slot >= 16 {
        Ok((acc, off))
    } else {
        match spec_texture_slot_at(buf, off, slot as int, num_textures) {
            Err(e) => Err((e, off)),
            Ok(t) => spec_read_texture_slots(
                buf,
                off + 4,
                num_textures,
                slot + 1,
                if slot < num_textures {
                    acc.push(t)
                } else {
                    acc
                },
            ),
        }
    }
}

/// Reading the texture slots of the materials `headers[acc.len()..]`.
pub open spec fn spec_read_textures(
    buf: Seq<u8>,
    off: int,
    headers: Seq<Material>,
    acc: Seq<Seq<MaterialTextureEntry>>,
) -> Step<Seq<Seq<MaterialTextureEntry>>>
    decreases headers.len() - acc.len(),
{
    if acc.len() >= headers.len() {
        Ok((acc, off))
    } else {
        match spec_read_texture_slots(
            buf,
            off,
            headers[acc.len() as int].num_textures,
            0,
            Seq::empty(),
        ) {
            Err(e) => Err(e),
            Ok((t, next)) => spec_read_textures(buf, next, headers, acc.push(t)),
        }
    }
}

/// Reads texture slot `slot` at `off`.
fn read_texture_slot(buf: &[u8], off: usize, slot: u16, num_textures: u16) -> (r: Result<
    MaterialTextureEntry,
    VolitionError,
>)
    ensures
        r == spec_texture_slot_at(buf@, off as int, slot as int, num_textures),
        r is Ok ==> off + 4 <= buf@.len(),
{
    let rd = MaterialTextureEntry::read_at(buf, off);
    assert(rd == spec_record_at::<MaterialTextureEntry>(buf@, off as int));
    match rd {
        Err(e) => Err(e),
        Ok(entry) => {
            if slot < num_textures && !entry.is_valid() {
                let got = read_i32_le(buf, off);
                return Err(VolitionError::UnexpectedValue { desc: Check::TextureEntryValid, got });
            } else if slot >= num_textures && !entry.is_placeholder() {
                let got = read_i32_le(buf, off);
                return Err(
                    VolitionError::UnexpectedValue { desc: Check::TextureEntryPlaceholder, got },
                );
            }
            Ok(entry)
        },
    }
}

/// Reads the texture slots of every material in `headers`, starting at `*off`.
fn read_textures(buf: &[u8], off: &mut usize, headers: &Vec<Material>) -> (r: Result<
    Vec<Vec<MaterialTextureEntry>>,
    VolitionError,
>)
    requires
        *old(off) <= usize::MAX - 64,
        buf@.len() <= isize::MAX,
    ensures
        match spec_read_textures(buf@, *old(off) as int, headers@, Seq::empty()) {
            Ok((v, o)) => r is Ok && seqs_of(r->Ok_0@) == v && *final(off) == o,
            Err((e, o)) => r == Err::<Vec<Vec<MaterialTextureEntry>>, VolitionError>(e)
                && *final(off) == o,
        },
        r is Ok ==> *final(off) == *old(off) || *final(off) <= buf@.len(),
        r is Ok ==> r->Ok_0@.len() == headers@.len(),
{
    let mut out: Vec<Vec<MaterialTextureEntry>> = Vec::new();
    let mut i: usize = 0;
    assert(seqs_of(out@) =~= Seq::<Seq<MaterialTextureEntry>>::empty());
    while i < headers.len()
        invariant
            i <= headers@.len(),
            out@.len() == i,
            *off <= usize::MAX - 64,
            buf@.len() <= isize::MAX,
            *off == *old(off) || *off <= buf@.len(),
            spec_read_textures(buf@, *old(off) as int, headers@, Seq::empty())
                == spec_read_textures(buf@, *off as int, headers@, seqs_of(out@)),
        decreases headers@.len() - i,
    {
        let num_textures = headers[i].num_textures;
        let mut used: Vec<MaterialTextureEntry> = Vec::new();
        let mut slot: u16 = 0;
        let ghost start = *off;
        while slot < 16
            invariant
                slot <= 16,
                i < headers@.len(),
                out@.len() == i,
                num_textures == headers@[i as int].num_textures,
                spec_read_textures(buf@, *old(off) as int, headers@, Seq::empty())
                    == spec_read_textures(buf@, start as int, headers@, seqs_of(out@)),
                start == *old(off) || start <= buf@.len(),
                buf@.len() <= isize::MAX,
                start <= usize::MAX - 64,
                *off == start + 4 * slot,
                slot > 0 ==> *off <= buf@.len(),
                spec_read_texture_slots(buf@, start as int, num_textures, 0, Seq::empty())
                    == spec_read_texture_slots(
                    buf@,
                    *off as int,
                    num_textures,
                    slot as nat,
                    used@,
                ),
            decreases 16 - slot,
        {
            let entry = match read_texture_slot(buf, *off, slot, num_textures) {
                Err(e) => {
                    return Err(e);
                },
                Ok(t) => t,
            };
            if slot < num_textures {
                used.push(entry);
            }
            *off = *off + 4;
            slot = slot + 1;
        }
        let ghost prev = seqs_of(out@);
        out.push(used);
        assert(seqs_of(out@) =~= prev.push(used@));
        i = i + 1;
    }
    Ok(out)
}


/// Reading one unknown4 value at `off`: it must lie in `0..=MAX_UKNOWN4_VALUE`.
pub open spec fn spec_unknown4_at(buf: Seq<u8>, off: int) -> Result<i32, VolitionError> {
    if off + 4 > buf.len() {
        Err(VolitionError::OutOfBounds { offset: off as usize, len: buf.len() as usize })
    } else {
        let v = spec_i32_at(buf, off);
        if (v as usize) > MAX_UKNOWN4_VALUE {
            Err(
                VolitionError::ValueTooHigh {
                    field: Field::MaterialUnknown4,
                    max: MAX_UKNOWN4_VALUE,
                    got: v as usize,
                },
            )
        } else {
            Ok(v)
        }
    }
}

/// Reading `count` more unknown4 values from `off`, after those in `acc`.
pub open spec fn spec_read_unknown4_run(buf: Seq<u8>, off: int, count: nat, acc: Seq<i32>) -> Step<
    Seq<i32>,
>
    decreases count,
{
    if count == 0 {
        Ok((acc, off))
    } else {
        match spec_unknown4_at(buf, off) {
            Err(e) => Err((e, off)),
            Ok(v) => spec_read_unknown4_run(buf, off + 4, (count - 1) as nat, acc.push(v)),
        }
    }
}

/// Reading the unknown4 values of the records `unk3s[i..]`, after those in `acc`.
pub open spec fn spec_read_unknown4s(
    buf: Seq<u8>,
    off: int,
    unk3s: Seq<MaterialUnknown3>,
    i: nat,
    acc: Seq<i32>,
) -> Step<Seq<i32>>
    decreases unk3s.len() - i,
{
    if i >= unk3s.len() {
        Ok((acc, off))
    } else {
        match spec_read_unknown4_run(buf, off, unk3s[i as int].num_mat_unk4 as nat, acc) {
            Err(e) => Err(e),
            Ok((next_acc, next)) => spec_read_unknown4s(buf, next, unk3s, i + 1, next_acc),
        }
    }
}

/// Reads the unknown4 values of every record in `unk3s`, starting at `*off`.
fn read_unknown4s(buf: &[u8], off: &mut usize, unk3s: &Vec<MaterialUnknown3>) -> (r: Result<
    Vec<i32>,
    VolitionError,
>)
    requires
        *old(off) <= usize::MAX - 4,
        buf@.len() <= isize::MAX,
    ensures
        match spec_read_unknown4s(buf@, *old(off) as int, unk3s@, 0, Seq::empty()) {
            Ok((v, o)) => r is Ok && r->Ok_0@ == v && *final(off) == o,
            Err((e, o)) => r == Err::<Vec<i32>, VolitionError>(e) && *final(off) == o,
        },
{
    let mut out: Vec<i32> = Vec::new();
    let mut i: usize = 0;
    while i < unk3s.len()
        invariant
            i <= unk3s@.len(),
            buf@.len() <= isize::MAX,
            *off <= usize::MAX - 4,
            spec_read_unknown4s(buf@, *old(off) as int, unk3s@, 0, Seq::empty())
                == spec_read_unknown4s(buf@, *off as int, unk3s@, i as nat, out@),
        decreases unk3s@.len() - i,
    {
        let count = unk3s[i].num_mat_unk4;
        let mut k: u16 = 0;
        let ghost start = *off;
        let ghost start_acc = out@;
        while k < count
            invariant
                k <= count,
                i < unk3s@.len(),
                count == unk3s@[i as int].num_mat_unk4,
                buf@.len() <= isize::MAX,
                *off <= usize::MAX - 4,
                spec_read_unknown4s(buf@, *old(off) as int, unk3s@, 0, Seq::empty())
                    == spec_read_unknown4s(buf@, start as int, unk3s@, i as nat, start_acc),
                spec_read_unknown4_run(buf@, start as int, count as nat, start_acc)
                    == spec_read_unknown4_run(buf@, *off as int, (count - k) as nat, out@),
            decreases count - k,
        {
            if *off > buf.len() || buf.len() - *off < 4 {
                return Err(VolitionError::OutOfBounds { offset: *off, len: buf.len() });
            }
            let value = read_i32_le(buf, *off);
            if value as usize > MAX_UKNOWN4_VALUE {
                return Err(
                    VolitionError::ValueTooHigh {
                        field: Field::MaterialUnknown4,
                        max: MAX_UKNOWN4_VALUE,
                        got: value as usize,
                    },
                );
            }
            out.push(value);
            *off = *off + 4;
            k = k + 1;
        }
        i = i + 1;
    }
    Ok(out)
}


/// Deserialized material library.
#[derive(Debug, Clone, PartialEq)]
pub struct MaterialsDeserialized {
    pub materials: Vec<MaterialDeserialized>,
    pub mat_unknown3s: Vec<MaterialUnknown3>,
    pub mat_unknown4s: Vec<i32>,
}

/// The value of a [`MaterialsDeserialized`].
pub struct MaterialsModel {
    pub materials: Seq<MaterialModel>,
    pub mat_unknown3s: Seq<MaterialUnknown3>,
    pub mat_unknown4s: Seq<i32>,
}

impl View for MaterialsDeserialized {
    type V = MaterialsModel;

    open spec fn view(&self) -> MaterialsModel {
        MaterialsModel {
            materials: self.materials@.map_values(|m: MaterialDeserialized| m@),
            mat_unknown3s: self.mat_unknown3s@,
            mat_unknown4s: self.mat_unknown4s@,
        }
    }
}

/// A material put together from its record and the parts read for it elsewhere.
pub open spec fn spec_assemble(
    mat: Material,
    unknown1s: Seq<MaterialUnknown1>,
    ranges: (MaterialConstHeader, MaterialConstHeader),
    consts: (Seq<MaterialConst>, Seq<MaterialConst>),
    textures: Seq<MaterialTextureEntry>,
) -> MaterialModel {
    MaterialModel {
        unknown1s,
        consts_a_first: ranges.0.first_float,
        const_vecs_a: consts.0,
        consts_b_first: ranges.1.first_float,
        const_vecs_b: consts.1,
        textures,
        ..spec_material_new(mat)
    }
}

/// The materials put together from the parts read for each of them.
pub open spec fn spec_assemble_all(
    headers: Seq<Material>,
    unknown1s: Seq<Seq<MaterialUnknown1>>,
    ranges: Seq<(MaterialConstHeader, MaterialConstHeader)>,
    consts: Seq<(Seq<MaterialConst>, Seq<MaterialConst>)>,
    textures: Seq<Seq<MaterialTextureEntry>>,
) -> Seq<MaterialModel> {
    Seq::new(
        headers.len(),
        |i: int| spec_assemble(headers[i], unknown1s[i], ranges[i], consts[i], textures[i]),
    )
}

impl MaterialsDeserialized {
    /// Reading the material library at `off`, in the order the format lays it out: the
    /// header; the material records; each material's unknown1 records (each run aligned to
    /// 4); the pairs of constant-range headers (aligned to 4); the constant block (aligned to
    /// 16, `num_const_floats` words long); 16 texture slots per material; the unknown3
    /// records; the unknown4 values of each unknown3 record.
    pub open spec fn spec_from_data(buf: Seq<u8>, off: int) -> Step<MaterialsModel> {
        match spec_record_at::<MaterialsHeader>(buf, off) {
            Err(e) => Err((e, off)),
            Ok(h) => match spec_read_run::<Material>(
                buf,
                off + 0x24,
                h.num_materials as nat,
                Seq::empty(),
            ) {
                Err(e) => Err(e),
                Ok((headers, o_unk1)) => match spec_read_unknown1s(
                    buf,
                    o_unk1,
                    headers,
                    Seq::empty(),
                ) {
                    Err(e) => Err(e),
                    Ok((unknown1s, o_ranges)) => match spec_read_const_headers(
                        buf,
                        spec_align(o_ranges, 4),
                        h.num_materials as nat,
                        Seq::empty(),
                    ) {
                        Err(e) => Err(e),
                        Ok((ranges, o_consts)) => {
                            let off_consts = spec_align(o_consts, 16);
                            let end_consts = off_consts + h.num_const_floats * 4;
                            match spec_read_consts(
                                buf,
                                off_consts,
                                end_consts,
                                ranges,
                                Seq::empty(),
                            ) {
                                Err(e) => Err((e, off_consts)),
                                Ok(consts) => match spec_read_textures(
                                    buf,
                                    end_consts,
                                    headers,
                                    Seq::empty(),
                                ) {
                                    Err(e) => Err(e),
                                    Ok((textures, o_unk3)) => match spec_read_run::<
                                        MaterialUnknown3,
                                    >(buf, o_unk3, h.num_mat_unknown3 as nat, Seq::empty()) {
                                        Err(e) => Err(e),
                                        Ok((unk3s, o_unk4)) => match spec_read_unknown4s(
                                            buf,
                                            o_unk4,
                                            unk3s,
                                            0,
                                            Seq::empty(),
                                        ) {
                                            Err(e) => Err(e),
                                            Ok((unk4s, o_end)) => Ok(
                                                (
                                                    MaterialsModel {
                                                        materials: spec_assemble_all(
                                                            headers,
                                                            unknown1s,
                                                            ranges,
                                                            consts,
                                                            textures,
                                                        ),
                                                        mat_unknown3s: unk3s,
                                                        mat_unknown4s: unk4s,
                                                    },
                                                    o_end,
                                                ),
                                            ),
                                        },
                                    },
                                },
                            }
                        },
                    },
                },
            },
        }
    }

    /// Reads the material library that starts at `*data_offset`. On success `*data_offset`
    /// is the offset just past the library; on an error it is where reading stopped.
    pub fn from_data(buf: &[u8], data_offset: &mut usize) -> (r: Result<Self, VolitionError>)
        requires
            buf@.len() <= isize::MAX,
        ensures
            match Self::spec_from_data(buf@, *old(data_offset) as int) {
                Ok((m, o)) => r is Ok && r->Ok_0@ == m && *final(data_offset) == o,
                Err((e, o)) => r == Err::<Self, VolitionError>(e) && *final(data_offset) == o,
            },
    {
        let rd = MaterialsHeader::read_at(buf, *data_offset);
        assert(rd == spec_record_at::<MaterialsHeader>(buf@, *data_offset as int));
        let header = match rd {
            Err(e) => {
                return Err(e);
            },
            Ok(h) => h,
        };
        *data_offset = *data_offset + 0x24;
        let ghost o_hdr = *data_offset;
        let material_headers = match read_run::<Material>(
            buf,
            data_offset,
            header.num_materials as usize,
        ) {
            Err(e) => {
                return Err(e);
            },
            Ok(v) => v,
        };
        proof {
            lemma_read_run_within::<Material>(
                buf@,
                o_hdr as int,
                header.num_materials as nat,
                Seq::empty(),
            );
        }
        let unknown1s = match read_unknown1s(buf, data_offset, &material_headers) {
            Err(e) => {
                return Err(e);
            },
            Ok(v) => v,
        };
        align(data_offset, 4);
        let ranges = match read_const_headers(buf, data_offset, header.num_materials as usize) {
            Err(e) => {
                return Err(e);
            },
            Ok(v) => v,
        };
        align(data_offset, 16);
        let off_consts = *data_offset;
        let end_consts = off_consts + header.num_const_floats as usize * 4;
        let consts = match read_consts(buf, off_consts, end_consts, &ranges) {
            Err(e) => {
                return Err(e);
            },
            Ok(v) => v,
        };
        *data_offset = end_consts;
        let textures = match read_textures(buf, data_offset, &material_headers) {
            Err(e) => {
                return Err(e);
            },
            Ok(v) => v,
        };
        let ghost o_unk3 = *data_offset;
        let mat_unknown3s = match read_run::<MaterialUnknown3>(
            buf,
            data_offset,
            header.num_mat_unknown3 as usize,
        ) {
            Err(e) => {
                return Err(e);
            },
            Ok(v) => v,
        };
        proof {
            lemma_read_run_within::<MaterialUnknown3>(
                buf@,
                o_unk3 as int,
                header.num_mat_unknown3 as nat,
                Seq::empty(),
            );
        }
        let mat_unknown4s = match read_unknown4s(buf, data_offset, &mat_unknown3s) {
            Err(e) => {
                return Err(e);
            },
            Ok(v) => v,
        };
        let materials = assemble_materials(
            &material_headers,
            unknown1s,
            &ranges,
            consts,
            textures,
        );
        Ok(MaterialsDeserialized { materials, mat_unknown3s, mat_unknown4s })
    }
}

/// Puts each material together from its record and the parts read for it.
fn assemble_materials(
    headers: &Vec<Material>,
    unknown1s: Vec<Vec<MaterialUnknown1>>,
    ranges: &Vec<(MaterialConstHeader, MaterialConstHeader)>,
    consts: Vec<(Vec<MaterialConst>, Vec<MaterialConst>)>,
    textures: Vec<Vec<MaterialTextureEntry>>,
) -> (r: Vec<MaterialDeserialized>)
    requires
        unknown1s@.len() == headers@.len(),
        ranges@.len() == headers@.len(),
        consts@.len() == headers@.len(),
        textures@.len() == headers@.len(),
    ensures
        r@.map_values(|m: MaterialDeserialized| m@) == spec_assemble_all(
            headers@,
            seqs_of(unknown1s@),
            ranges@,
            pairs_of(consts@),
            seqs_of(textures@),
        ),
{
    let ghost all = spec_assemble_all(
        headers@,
        seqs_of(unknown1s@),
        ranges@,
        pairs_of(consts@),
        seqs_of(textures@),
    );
    let ghost u0 = unknown1s@;
    let ghost c0 = consts@;
    let ghost t0 = textures@;
    let mut unknown1s = unknown1s;
    let mut consts = consts;
    let mut textures = textures;
    let mut out: Vec<MaterialDeserialized> = Vec::new();
    let mut i: usize = 0;
    while i < headers.len()
        invariant
            i <= headers@.len(),
            u0.len() == headers@.len(),
            ranges@.len() == headers@.len(),
            c0.len() == headers@.len(),
            t0.len() == headers@.len(),
            unknown1s@ == u0.skip(i as int),
            consts@ == c0.skip(i as int),
            textures@ == t0.skip(i as int),
            all == spec_assemble_all(headers@, seqs_of(u0), ranges@, pairs_of(c0), seqs_of(t0)),
            out@.len() == i,
            forall|j: int| 0 <= j < i ==> #[trigger] out@[j]@ == all[j],
        decreases headers@.len() - i,
    {
        let mut m = MaterialDeserialized::new(&headers[i]);
        let u = unknown1s.remove(0);
        let (ca, cb) = consts.remove(0);
        let t = textures.remove(0);
        assert(u0.skip(i as int)[0] == u0[i as int]);
        assert(c0.skip(i as int)[0] == c0[i as int]);
        assert(t0.skip(i as int)[0] == t0[i as int]);
        m.unknown1s = u;
        m.consts_a_first = ranges[i].0.first_float;
        m.const_vecs_a = ca;
        m.consts_b_first = ranges[i].1.first_float;
        m.const_vecs_b = cb;
        m.textures = t;
        out.push(m);
        assert(u0.skip(i as int).remove(0) =~= u0.skip(i + 1));
        assert(c0.skip(i as int).remove(0) =~= c0.skip(i + 1));
        assert(t0.skip(i as int).remove(0) =~= t0.skip(i + 1));
        i = i + 1;
    }
    assert(out@.map_values(|m: MaterialDeserialized| m@) =~= all);
    out
}

} // verus!
