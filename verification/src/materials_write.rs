//! Writing the material library back to bytes.

use vstd::prelude::*;

use crate::material::{MaterialConstHeader, MaterialTextureEntry, MaterialsHeader};
use crate::materials::{
    spec_to_disk, MaterialConst, MaterialDeserialized, MaterialModel, MaterialsDeserialized,
    MaterialsModel,
};
use crate::record::{
    concat_bytes, lemma_concat_bytes_push, lemma_records_bytes_len,
    records_bytes, write_run, Record,
};
use vstd::seq_lib::lemma_concat_associative;

use crate::util::{
    align_pad, i32_bits, i32_le, push_bytes, push_u32_le, set_u32_le, spec_pad,
    splice, u32_le,
};

verus! {

/// The 16 bytes of a constant vector.
pub open spec fn spec_const_vec_bytes(v: MaterialConst) -> Seq<u8> {
    u32_le(v[0]) + u32_le(v[1]) + u32_le(v[2]) + u32_le(v[3])
}

/// The bytes of the constant vectors `vs`, back to back.
pub open spec fn spec_const_vecs_bytes(vs: Seq<MaterialConst>) -> Seq<u8> {
    concat_bytes(vs, |v: MaterialConst| spec_const_vec_bytes(v))
}

/// How many constant vectors the materials hold in all.
pub open spec fn spec_num_const_vecs(mats: Seq<MaterialModel>) -> nat
    decreases mats.len(),
{
    if mats.len() == 0 {
        0
    } else {
        spec_num_const_vecs(mats.drop_last()) + mats.last().const_vecs_a.len()
            + mats.last().const_vecs_b.len()
    }
}

/// The constant-range headers written for a material: its vector counts times 4 (in 32-bit
/// arithmetic) and its first-float indices.
pub open spec fn spec_const_ranges(m: MaterialModel) -> (MaterialConstHeader, MaterialConstHeader) {
    (
        MaterialConstHeader {
            num_floats: ((m.const_vecs_a.len() as u32) * 4) as u32,
            first_float: m.consts_a_first,
        },
        MaterialConstHeader {
            num_floats: ((m.const_vecs_b.len() as u32) * 4) as u32,
            first_float: m.consts_b_first,
        },
    )
}

/// The unknown1 section written from offset `off`: each material's records, each run
/// preceded by zero padding to a multiple of 4.
pub open spec fn spec_write_unknown1s(mats: Seq<MaterialModel>, off: int) -> Seq<u8>
    decreases mats.len(),
{
    if mats.len() == 0 {
        Seq::empty()
    } else {
        let prev = spec_write_unknown1s(mats.drop_last(), off);
        prev + spec_pad(off + prev.len(), 4) + records_bytes(mats.last().unknown1s)
    }
}

/// The constant-range section written from offset `off`: each material's pair of headers,
/// preceded by zero padding to a multiple of 4.
pub open spec fn spec_write_const_ranges(mats: Seq<MaterialModel>, off: int) -> Seq<u8>
    decreases mats.len(),
{
    if mats.len() == 0 {
        Seq::empty()
    } else {
        let prev = spec_write_const_ranges(mats.drop_last(), off);
        prev + spec_pad(off + prev.len(), 4) + spec_const_ranges(mats.last()).0.spec_to_le_bytes()
            + spec_const_ranges(mats.last()).1.spec_to_le_bytes()
    }
}

/// `block` with each material's constant vectors written at their first-float index (times
/// 4), materials in order and the first range before the second, later writes over earlier.
pub open spec fn spec_fill_consts(block: Seq<u8>, mats: Seq<MaterialModel>) -> Seq<u8>
    decreases mats.len(),
{
    if mats.len() == 0 {
        block
    } else {
        spec_fill_material(spec_fill_consts(block, mats.drop_last()), mats.last())
    }
}

/// `block` with the constant vectors of `m` written over it: the first range, then the
/// second.
pub open spec fn spec_fill_material(block: Seq<u8>, m: MaterialModel) -> Seq<u8> {
    let with_a = if m.const_vecs_a.len() == 0 {
        block
    } else {
        splice(block, m.consts_a_first * 4, spec_const_vecs_bytes(m.const_vecs_a))
    };
    if m.const_vecs_b.len() == 0 {
        with_a
    } else {
        splice(with_a, m.consts_b_first * 4, spec_const_vecs_bytes(m.const_vecs_b))
    }
}

/// The constant block: `16` bytes per vector, 0xff where no vector is written.
pub open spec fn spec_const_block(mats: Seq<MaterialModel>) -> Seq<u8> {
    spec_fill_consts(Seq::new(spec_num_const_vecs(mats) * 16, |i: int| 0xffu8), mats)
}

/// The 16 texture slots written for a material: its first 16 entries, then placeholders.
pub open spec fn spec_texture_slots(textures: Seq<MaterialTextureEntry>) -> Seq<
    MaterialTextureEntry,
> {
    Seq::new(
        16,
        |i: int|
            if i < textures.len() {
                textures[i]
            } else {
                MaterialTextureEntry::spec_placeholder()
            },
    )
}

/// The on-disk records of the materials, back to back.
pub open spec fn spec_material_records_bytes(mats: Seq<MaterialModel>) -> Seq<u8> {
    concat_bytes(mats, |x: MaterialModel| spec_to_disk(x).spec_to_le_bytes())
}

/// The texture slots of the materials, back to back.
pub open spec fn spec_textures_bytes(mats: Seq<MaterialModel>) -> Seq<u8> {
    concat_bytes(mats, |x: MaterialModel| records_bytes(spec_texture_slots(x.textures)))
}

/// The 32-bit values, back to back, little-endian.
pub open spec fn spec_i32s_bytes(values: Seq<i32>) -> Seq<u8> {
    concat_bytes(values, |v: i32| i32_le(v))
}

/// Every material's vector counts times 4 fit in 32 bits.
pub open spec fn spec_ranges_fit(mats: Seq<MaterialModel>) -> bool {
    forall|i: int|
        0 <= i < mats.len() ==> ((#[trigger] mats[i]).const_vecs_a.len() as u32) * 4 <= u32::MAX
            && (mats[i].const_vecs_b.len() as u32) * 4 <= u32::MAX
}

/// Every non-empty constant range lies inside a block of `total` vectors.
pub open spec fn spec_consts_placed(mats: Seq<MaterialModel>, total: int) -> bool {
    forall|i: int|
        0 <= i < mats.len() ==> ((#[trigger] mats[i]).const_vecs_a.len() > 0 ==> mats[i].consts_a_first
            * 4 + 16 * mats[i].const_vecs_a.len() <= total * 16) && (mats[i].const_vecs_b.len()
            > 0 ==> mats[i].consts_b_first * 4 + 16 * mats[i].const_vecs_b.len() <= total * 16)
}

/// The header written for the library.
pub open spec fn spec_written_header(m: MaterialsModel) -> MaterialsHeader {
    MaterialsHeader {
        num_materials: m.materials.len() as u32,
        unknown_04: 0,
        unknown_08: 0,
        unknown_0c: 0,
        num_const_floats: (spec_num_const_vecs(m.materials) * 4) as u32,
        unknown_14: 0,
        unknown_18: 0,
        num_mat_unknown3: m.mat_unknown3s.len() as u32,
        unknown_20: 0,
    }
}

/// Writing the library from offset `off`: padding to 4; the header; the material records;
/// the unknown1 section; the constant-range section; padding to 16; the constant block; 16
/// texture slots per material; the unknown3 records; the unknown4 values.
#[verifier::opaque]
pub open spec fn spec_write_matlib(m: MaterialsModel, off: int) -> Seq<u8> {
    let p0 = spec_pad(off, 4);
    let hdr = spec_written_header(m).spec_to_le_bytes();
    let recs = spec_material_records_bytes(m.materials);
    let o_unk1 = off + p0.len() + hdr.len() + recs.len();
    let unk1 = spec_write_unknown1s(m.materials, o_unk1);
    let o_ranges = o_unk1 + unk1.len();
    let ranges = spec_write_const_ranges(m.materials, o_ranges);
    let p16 = spec_pad(o_ranges + ranges.len(), 16);
    p0 + hdr + recs + unk1 + ranges + p16 + spec_const_block(m.materials) + spec_textures_bytes(
        m.materials,
    ) + records_bytes(m.mat_unknown3s) + spec_i32s_bytes(m.mat_unknown4s)
}

/// What writing needs: vector counts whose 32-bit float counts do not overflow, a constant
/// block whose size fits in memory, every non-empty constant range inside the block, and an
/// end offset that fits in `usize`.
#[verifier::opaque]
pub open spec fn spec_matlib_write_ok(m: MaterialsModel, off: int) -> bool {
    &&& spec_ranges_fit(m.materials)
    &&& spec_num_const_vecs(m.materials) * 16 <= usize::MAX
    &&& spec_consts_placed(m.materials, spec_num_const_vecs(m.materials) as int)
    &&& off + spec_write_matlib(m, off).len() <= usize::MAX
}


/// The views of a vector of materials.
pub open spec fn models_of(v: Seq<MaterialDeserialized>) -> Seq<MaterialModel> {
    v.map_values(|m: MaterialDeserialized| m@)
}

pub(crate) proof fn lemma_write_unknown1s_prefix(mats: Seq<MaterialModel>, off: int, i: int)
    requires
        0 <= i <= mats.len(),
    ensures
        spec_write_unknown1s(mats.take(i), off).len() <= spec_write_unknown1s(mats, off).len(),
    decreases mats.len(),
{
    if i < mats.len() {
        lemma_write_unknown1s_prefix(mats.drop_last(), off, i);
        assert(mats.drop_last().take(i) =~= mats.take(i));
    } else {
        assert(mats.take(i) =~= mats);
    }
}

pub(crate) proof fn lemma_write_const_ranges_prefix(mats: Seq<MaterialModel>, off: int, i: int)
    requires
        0 <= i <= mats.len(),
    ensures
        spec_write_const_ranges(mats.take(i), off).len() <= spec_write_const_ranges(mats, off).len(),
    decreases mats.len(),
{
    if i < mats.len() {
        lemma_write_const_ranges_prefix(mats.drop_last(), off, i);
        assert(mats.drop_last().take(i) =~= mats.take(i));
    } else {
        assert(mats.take(i) =~= mats);
    }
}

/// Appends the on-disk record of every material.
fn write_material_records(w: &mut Vec<u8>, materials: &Vec<MaterialDeserialized>)
    ensures
        final(w)@ == old(w)@ + spec_material_records_bytes(models_of(materials@)),
{
    let ghost f = |x: MaterialModel| spec_to_disk(x).spec_to_le_bytes();
    let mut i: usize = 0;
    while i < materials.len()
        invariant
            i <= materials@.len(),
            f == (|x: MaterialModel| spec_to_disk(x).spec_to_le_bytes()),
            w@ == old(w)@ + concat_bytes(models_of(materials@).take(i as int), f),
        decreases materials@.len() - i,
    {
        materials[i].to_disk().write_to(w);
        proof {
            let ms = models_of(materials@);
            lemma_concat_bytes_push(ms.take(i as int), f, ms[i as int]);
            assert(ms.take(i as int).push(ms[i as int]) =~= ms.take(i + 1));
        }
        i = i + 1;
    }
    assert(models_of(materials@).take(materials@.len() as int) =~= models_of(materials@));
}

/// Appends the unknown1 section, which starts at offset `off`.
fn write_unknown1s(w: &mut Vec<u8>, off: usize, materials: &Vec<MaterialDeserialized>)
    requires
        off + spec_write_unknown1s(models_of(materials@), off as int).len() <= usize::MAX,
    ensures
        final(w)@ == old(w)@ + spec_write_unknown1s(models_of(materials@), off as int),
{
    let ghost ms = models_of(materials@);
    let mut cur = off;
    let mut i: usize = 0;
    while i < materials.len()
        invariant
            i <= materials@.len(),
            ms == models_of(materials@),
            off + spec_write_unknown1s(ms, off as int).len() <= usize::MAX,
            w@ == old(w)@ + spec_write_unknown1s(ms.take(i as int), off as int),
            cur == off + spec_write_unknown1s(ms.take(i as int), off as int).len(),
        decreases materials@.len() - i,
    {
        proof {
            lemma_write_unknown1s_prefix(ms, off as int, i + 1);
            assert(ms.take(i + 1).drop_last() =~= ms.take(i as int));
            lemma_records_bytes_len(ms[i as int].unknown1s);
        }
        align_pad(w, &mut cur, 4);
        write_run(w, &materials[i].unknown1s);
        cur = cur + 6 * materials[i].unknown1s.len();
        i = i + 1;
    }
    assert(ms.take(materials@.len() as int) =~= ms);
}

/// Appends the constant-range section, which starts at offset `off`.
fn write_const_ranges(w: &mut Vec<u8>, off: usize, materials: &Vec<MaterialDeserialized>)
    requires
        off + spec_write_const_ranges(models_of(materials@), off as int).len() <= usize::MAX,
        spec_ranges_fit(models_of(materials@)),
    ensures
        final(w)@ == old(w)@ + spec_write_const_ranges(models_of(materials@), off as int),
{
    let ghost ms = models_of(materials@);
    let mut cur = off;
    let mut i: usize = 0;
    while i < materials.len()
        invariant
            i <= materials@.len(),
            ms == models_of(materials@),
            off + spec_write_const_ranges(ms, off as int).len() <= usize::MAX,
            spec_ranges_fit(ms),
            w@ == old(w)@ + spec_write_const_ranges(ms.take(i as int), off as int),
            cur == off + spec_write_const_ranges(ms.take(i as int), off as int).len(),
        decreases materials@.len() - i,
    {
        proof {
            lemma_write_const_ranges_prefix(ms, off as int, i + 1);
            assert(ms.take(i + 1).drop_last() =~= ms.take(i as int));
        }
        align_pad(w, &mut cur, 4);
        let m = &materials[i];
        assert(ms[i as int] == m@);
        let a = MaterialConstHeader {
            num_floats: m.const_vecs_a.len() as u32 * 4,
            first_float: m.consts_a_first,
        };
        let b = MaterialConstHeader {
            num_floats: m.const_vecs_b.len() as u32 * 4,
            first_float: m.consts_b_first,
        };
        let ab = a.to_le_bytes();
        push_bytes(w, ab.as_slice());
        let bb = b.to_le_bytes();
        push_bytes(w, bb.as_slice());
        cur = cur + 16;
        i = i + 1;
    }
    assert(ms.take(materials@.len() as int) =~= ms);
}


pub(crate) proof fn lemma_num_const_vecs_prefix(mats: Seq<MaterialModel>, i: int)
    requires
        0 <= i <= mats.len(),
    ensures
        spec_num_const_vecs(mats.take(i)) <= spec_num_const_vecs(mats),
    decreases mats.len(),
{
    if i < mats.len() {
        lemma_num_const_vecs_prefix(mats.drop_last(), i);
        assert(mats.drop_last().take(i) =~= mats.take(i));
    } else {
        assert(mats.take(i) =~= mats);
    }
}

/// How many constant vectors the materials hold in all.
fn count_const_vecs(materials: &Vec<MaterialDeserialized>) -> (r: usize)
    requires
        spec_num_const_vecs(models_of(materials@)) * 16 <= usize::MAX,
    ensures
        r == spec_num_const_vecs(models_of(materials@)),
{
    let ghost ms = models_of(materials@);
    let mut total: usize = 0;
    let mut i: usize = 0;
    while i < materials.len()
        invariant
            i <= materials@.len(),
            ms == models_of(materials@),
            spec_num_const_vecs(ms) * 16 <= usize::MAX,
            total == spec_num_const_vecs(ms.take(i as int)),
        decreases materials@.len() - i,
    {
        proof {
            lemma_num_const_vecs_prefix(ms, i + 1);
            assert(ms.take(i + 1).drop_last() =~= ms.take(i as int));
        }
        total = total + materials[i].const_vecs_a.len() + materials[i].const_vecs_b.len();
        i = i + 1;
    }
    assert(ms.take(materials@.len() as int) =~= ms);
    total
}

/// Writing two pieces back to back is writing their concatenation.
proof fn lemma_splice_concat(s: Seq<u8>, off: int, x: Seq<u8>, y: Seq<u8>)
    requires
        0 <= off,
        off + x.len() + y.len() <= s.len(),
    ensures
        splice(splice(s, off, x), off + x.len(), y) == splice(s, off, x + y),
{
    assert(splice(splice(s, off, x), off + x.len(), y) =~= splice(s, off, x + y));
}

pub(crate) proof fn lemma_const_vecs_bytes_len(vs: Seq<MaterialConst>)
    ensures
        spec_const_vecs_bytes(vs).len() == 16 * vs.len(),
    decreases vs.len(),
{
    if vs.len() > 0 {
        lemma_const_vecs_bytes_len(vs.drop_last());
    }
}

/// Writes the constant vectors `vs` into `buf` from byte `off` on.
fn fill_const_vecs(buf: &mut Vec<u8>, off: usize, vs: &Vec<MaterialConst>)
    requires
        off + 16 * vs@.len() <= old(buf).len(),
    ensures
        final(buf)@ == splice(old(buf)@, off as int, spec_const_vecs_bytes(vs@)),
        final(buf).len() == old(buf).len(),
{
    let ghost f = |v: MaterialConst| spec_const_vec_bytes(v);
    let mut i: usize = 0;
    assert(splice(old(buf)@, off as int, spec_const_vecs_bytes(vs@.take(0))) =~= old(buf)@);
    while i < vs.len()
        invariant
            i <= vs@.len(),
            f == (|v: MaterialConst| spec_const_vec_bytes(v)),
            off + 16 * vs@.len() <= old(buf).len(),
            buf.len() == old(buf).len(),
            buf@ == splice(old(buf)@, off as int, spec_const_vecs_bytes(vs@.take(i as int))),
        decreases vs@.len() - i,
    {
        let v = vs[i];
        let p = off + 16 * i;
        proof {
            lemma_const_vecs_bytes_len(vs@.take(i as int));
        }
        let ghost before = buf@;
        set_u32_le(buf, p, v[0]);
        set_u32_le(buf, p + 4, v[1]);
        set_u32_le(buf, p + 8, v[2]);
        set_u32_le(buf, p + 12, v[3]);
        proof {
            assert(buf@ =~= splice(before, p as int, spec_const_vec_bytes(v)));
            lemma_splice_concat(
                old(buf)@,
                off as int,
                spec_const_vecs_bytes(vs@.take(i as int)),
                spec_const_vec_bytes(v),
            );
            lemma_concat_bytes_push(vs@.take(i as int), f, v);
            assert(vs@.take(i as int).push(v) =~= vs@.take(i + 1));
        }
        i = i + 1;
    }
    assert(vs@.take(vs@.len() as int) =~= vs@);
}

/// Writes the constant vectors of `m` into `buf`.
fn fill_material(buf: &mut Vec<u8>, m: &MaterialDeserialized, total: usize)
    requires
        old(buf).len() == total * 16,
        m.const_vecs_a@.len() > 0 ==> m.consts_a_first * 4 + 16 * m.const_vecs_a@.len() <= total
            * 16,
        m.const_vecs_b@.len() > 0 ==> m.consts_b_first * 4 + 16 * m.const_vecs_b@.len() <= total
            * 16,
    ensures
        final(buf)@ == spec_fill_material(old(buf)@, m@),
        final(buf).len() == old(buf).len(),
{
    if m.const_vecs_a.len() > 0 {
        fill_const_vecs(buf, m.consts_a_first as usize * 4, &m.const_vecs_a);
    }
    if m.const_vecs_b.len() > 0 {
        fill_const_vecs(buf, m.consts_b_first as usize * 4, &m.const_vecs_b);
    }
}

/// The constant block of the materials.
fn const_block(materials: &Vec<MaterialDeserialized>, total: usize) -> (r: Vec<u8>)
    requires
        total == spec_num_const_vecs(models_of(materials@)),
        total * 16 <= usize::MAX,
        spec_consts_placed(models_of(materials@), total as int),
    ensures
        r@ == spec_const_block(models_of(materials@)),
{
    let ghost ms = models_of(materials@);
    let n = total * 16;
    let mut buf: Vec<u8> = Vec::new();
    let mut k: usize = 0;
    while k < n
        invariant
            k <= n,
            buf@ == Seq::new(k as nat, |i: int| 0xffu8),
        decreases n - k,
    {
        buf.push(0xff);
        k = k + 1;
        assert(buf@ =~= Seq::new(k as nat, |i: int| 0xffu8));
    }
    let ghost init = buf@;
    let mut i: usize = 0;
    while i < materials.len()
        invariant
            i <= materials@.len(),
            ms == models_of(materials@),
            n == total * 16,
            init == Seq::new(n as nat, |i: int| 0xffu8),
            init == Seq::new(spec_num_const_vecs(ms) * 16, |i: int| 0xffu8),
            spec_consts_placed(ms, total as int),
            buf@.len() == n,
            buf@ == spec_fill_consts(init, ms.take(i as int)),
        decreases materials@.len() - i,
    {
        assert(ms.take(i + 1).drop_last() =~= ms.take(i as int));
        assert(ms[i as int] == materials@[i as int]@);
        fill_material(&mut buf, &materials[i], total);
        i = i + 1;
    }
    assert(ms.take(materials@.len() as int) =~= ms);
    buf
}

/// Appends the 16 texture slots of a material.
fn write_texture_slots(w: &mut Vec<u8>, textures: &Vec<MaterialTextureEntry>)
    ensures
        final(w)@ == old(w)@ + records_bytes(spec_texture_slots(textures@)),
{
    let ghost slots = spec_texture_slots(textures@);
    let ghost f = |r: MaterialTextureEntry| r.spec_bytes();
    let mut i: usize = 0;
    while i < 16
        invariant
            i <= 16,
            slots == spec_texture_slots(textures@),
            f == (|r: MaterialTextureEntry| r.spec_bytes()),
            w@ == old(w)@ + concat_bytes(slots.take(i as int), f),
        decreases 16 - i,
    {
        let entry = if i < textures.len() {
            textures[i]
        } else {
            MaterialTextureEntry::placeholder()
        };
        entry.write_to(w);
        proof {
            lemma_concat_bytes_push(slots.take(i as int), f, slots[i as int]);
            assert(slots.take(i as int).push(slots[i as int]) =~= slots.take(i + 1));
        }
        i = i + 1;
    }
    assert(slots.take(16) =~= slots);
}

/// Appends the texture slots of every material.
fn write_textures(w: &mut Vec<u8>, materials: &Vec<MaterialDeserialized>)
    ensures
        final(w)@ == old(w)@ + spec_textures_bytes(models_of(materials@)),
{
    let ghost ms = models_of(materials@);
    let ghost f = |x: MaterialModel| records_bytes(spec_texture_slots(x.textures));
    let mut i: usize = 0;
    while i < materials.len()
        invariant
            i <= materials@.len(),
            ms == models_of(materials@),
            f == (|x: MaterialModel| records_bytes(spec_texture_slots(x.textures))),
            w@ == old(w)@ + concat_bytes(ms.take(i as int), f),
        decreases materials@.len() - i,
    {
        write_texture_slots(w, &materials[i].textures);
        proof {
            lemma_concat_bytes_push(ms.take(i as int), f, ms[i as int]);
            assert(ms.take(i as int).push(ms[i as int]) =~= ms.take(i + 1));
        }
        i = i + 1;
    }
    assert(ms.take(materials@.len() as int) =~= ms);
}

/// Appends the 32-bit values, little-endian.
pub(crate) fn write_i32s(w: &mut Vec<u8>, values: &Vec<i32>)
    ensures
        final(w)@ == old(w)@ + spec_i32s_bytes(values@),
{
    let ghost f = |v: i32| i32_le(v);
    let mut i: usize = 0;
    while i < values.len()
        invariant
            i <= values@.len(),
            f == (|v: i32| i32_le(v)),
            w@ == old(w)@ + concat_bytes(values@.take(i as int), f),
        decreases values@.len() - i,
    {
        push_u32_le(w, i32_bits(values[i]));
        proof {
            lemma_concat_bytes_push(values@.take(i as int), f, values@[i as int]);
            assert(values@.take(i as int).push(values@[i as int]) =~= values@.take(i + 1));
        }
        i = i + 1;
    }
    assert(values@.take(values@.len() as int) =~= values@);
}


/// The sections of the library, appended one after the other to `w0`, are `w0` followed by
/// the library's bytes.
proof fn lemma_write_assembled(w0: Seq<u8>, m: MaterialsModel, off0: int, w: Seq<u8>)
    requires
        w == w0 + spec_pad(off0, 4) + spec_written_header(m).spec_to_le_bytes()
            + spec_material_records_bytes(m.materials) + spec_write_unknown1s(
            m.materials,
            off0 + spec_pad(off0, 4).len() + spec_written_header(m).spec_to_le_bytes().len()
                + spec_material_records_bytes(m.materials).len(),
        ) + spec_write_const_ranges(
            m.materials,
            off0 + spec_pad(off0, 4).len() + spec_written_header(m).spec_to_le_bytes().len()
                + spec_material_records_bytes(m.materials).len() + spec_write_unknown1s(
                m.materials,
                off0 + spec_pad(off0, 4).len() + spec_written_header(m).spec_to_le_bytes().len()
                    + spec_material_records_bytes(m.materials).len(),
            ).len(),
        ) + spec_pad(
            off0 + spec_pad(off0, 4).len() + spec_written_header(m).spec_to_le_bytes().len()
                + spec_material_records_bytes(m.materials).len() + spec_write_unknown1s(
                m.materials,
                off0 + spec_pad(off0, 4).len() + spec_written_header(m).spec_to_le_bytes().len()
                    + spec_material_records_bytes(m.materials).len(),
            ).len() + spec_write_const_ranges(
                m.materials,
                off0 + spec_pad(off0, 4).len() + spec_written_header(m).spec_to_le_bytes().len()
                    + spec_material_records_bytes(m.materials).len() + spec_write_unknown1s(
                    m.materials,
                    off0 + spec_pad(off0, 4).len() + spec_written_header(
                        m,
                    ).spec_to_le_bytes().len() + spec_material_records_bytes(m.materials).len(),
                ).len(),
            ).len(),
            16,
        ) + spec_const_block(m.materials) + spec_textures_bytes(m.materials) + records_bytes(
            m.mat_unknown3s,
        ) + spec_i32s_bytes(m.mat_unknown4s),
    ensures
        w == w0 + spec_write_matlib(m, off0),
{
    reveal(spec_write_matlib);
    let a1 = spec_pad(off0, 4);
    let a2 = spec_written_header(m).spec_to_le_bytes();
    let a3 = spec_material_records_bytes(m.materials);
    let o_unk1 = off0 + a1.len() + a2.len() + a3.len();
    let a4 = spec_write_unknown1s(m.materials, o_unk1);
    let o_ranges = o_unk1 + a4.len();
    let a5 = spec_write_const_ranges(m.materials, o_ranges);
    let a6 = spec_pad(o_ranges + a5.len(), 16);
    let a7 = spec_const_block(m.materials);
    let a8 = spec_textures_bytes(m.materials);
    let a9 = records_bytes(m.mat_unknown3s);
    let a10 = spec_i32s_bytes(m.mat_unknown4s);
    lemma_concat_associative(w0, a1, a2);
    lemma_concat_associative(w0, a1 + a2, a3);
    lemma_concat_associative(w0, a1 + a2 + a3, a4);
    lemma_concat_associative(w0, a1 + a2 + a3 + a4, a5);
    lemma_concat_associative(w0, a1 + a2 + a3 + a4 + a5, a6);
    lemma_concat_associative(w0, a1 + a2 + a3 + a4 + a5 + a6, a7);
    lemma_concat_associative(w0, a1 + a2 + a3 + a4 + a5 + a6 + a7, a8);
    lemma_concat_associative(w0, a1 + a2 + a3 + a4 + a5 + a6 + a7 + a8, a9);
    lemma_concat_associative(w0, a1 + a2 + a3 + a4 + a5 + a6 + a7 + a8 + a9, a10);
}

impl MaterialsDeserialized {
    /// Appends the library to `w`, which stands at offset `*data_offset` of the output, and
    /// advances `*data_offset` by the number of bytes written. Counts in the header and in the
    /// material records are taken from the lengths of the vectors.
    #[verifier::rlimit(40)]
    pub fn write(&self, w: &mut Vec<u8>, data_offset: &mut usize)
        requires
            spec_matlib_write_ok(self@, *old(data_offset) as int),
        ensures
            final(w)@ == old(w)@ + spec_write_matlib(self@, *old(data_offset) as int),
            *final(data_offset) == *old(data_offset) + spec_write_matlib(
                self@,
                *old(data_offset) as int,
            ).len(),
    {
        reveal(spec_write_matlib);
        reveal(spec_matlib_write_ok);
        let ghost m = self@;
        let ghost off0 = *data_offset as int;
        let ghost w0 = w@;
        assert(models_of(self.materials@) == m.materials);
        let start_len = w.len();
        let start_off = *data_offset;
        let mut cur = start_off;
        align_pad(w, &mut cur, 4);
        let total = count_const_vecs(&self.materials);
        let header = MaterialsHeader::new(
            self.materials.len() as u32,
            (total * 4) as u32,
            self.mat_unknown3s.len() as u32,
        );
        assert(header == spec_written_header(m));
        header.write_to(w);
        write_material_records(w, &self.materials);
        let cur = start_off + (w.len() - start_len);
        write_unknown1s(w, cur, &self.materials);
        let cur = start_off + (w.len() - start_len);
        write_const_ranges(w, cur, &self.materials);
        let mut cur = start_off + (w.len() - start_len);
        align_pad(w, &mut cur, 16);
        let block = const_block(&self.materials, total);
        push_bytes(w, block.as_slice());
        write_textures(w, &self.materials);
        write_run(w, &self.mat_unknown3s);
        write_i32s(w, &self.mat_unknown4s);
        proof {
            lemma_write_assembled(w0, m, off0, w@);
        }
        *data_offset = start_off + (w.len() - start_len);
    }
}

} // verus!
