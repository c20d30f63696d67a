//! Whether a material library or a static mesh can be written from a given offset, decided in
//! executable code, and where writing ends.

use vstd::prelude::*;

use crate::materials::{spec_to_disk, MaterialDeserialized, MaterialModel, MaterialsDeserialized};
use crate::materials_write::{
    lemma_const_vecs_bytes_len, lemma_num_const_vecs_prefix, lemma_write_const_ranges_prefix,
    lemma_write_unknown1s_prefix, models_of, spec_const_block, spec_const_vecs_bytes,
    spec_consts_placed, spec_fill_consts, spec_i32s_bytes, spec_material_records_bytes,
    spec_matlib_write_ok, spec_num_const_vecs, spec_ranges_fit, spec_textures_bytes,
    spec_write_const_ranges, spec_write_matlib, spec_write_unknown1s, spec_written_header,
};
use crate::record::{concat_bytes, lemma_concat_bytes_push, lemma_records_bytes_len, Record};
use crate::smesh::{
    spec_names_bytes, spec_smesh_write_ok, spec_write_front, spec_write_smesh, strings_of,
    StaticMesh,
};
use crate::util::{spec_align, splice};
use vstd::utf8::encode_utf8;

verus! {

/// `cur` moved up to the next multiple of `alignment`, where that fits in `usize`.
pub(crate) fn checked_align(cur: usize, alignment: usize) -> (r: Option<usize>)
    requires
        0 < alignment <= 16,
    ensures
        match r {
            Some(v) => v == spec_align(cur as int, alignment as int),
            None => spec_align(cur as int, alignment as int) > usize::MAX,
        },
{
    let rem = cur % alignment;
    if rem == 0 {
        Some(cur)
    } else if cur > usize::MAX - (alignment - rem) {
        None
    } else {
        Some(cur + (alignment - rem))
    }
}

/// `cur + k * n`, where that fits in `usize`.
pub(crate) fn checked_advance(cur: usize, k: usize, n: usize) -> (r: Option<usize>)
    requires
        k <= 0x60,
    ensures
        match r {
            Some(v) => v == cur + k * n,
            None => cur + k * n > usize::MAX,
        },
{
    assert(usize::MAX <= 0xffff_ffff_ffff_ffff);
    assert(k * n <= 0x60 * 0xffff_ffff_ffff_ffff) by (nonlinear_arith)
        requires
            k <= 0x60,
            n <= 0xffff_ffff_ffff_ffff,
    ;
    let v: u128 = cur as u128 + (k as u128) * (n as u128);
    if v > usize::MAX as u128 {
        None
    } else {
        Some(v as usize)
    }
}

/// The material records are 0x18 bytes each.
proof fn lemma_material_records_len(mats: Seq<MaterialModel>)
    ensures
        spec_material_records_bytes(mats).len() == 0x18 * mats.len(),
    decreases mats.len(),
{
    if mats.len() > 0 {
        lemma_material_records_len(mats.drop_last());
        spec_to_disk(mats.last()).lemma_bytes_len();
    }
}

/// The texture slots are 64 bytes per material.
proof fn lemma_textures_len(mats: Seq<MaterialModel>)
    ensures
        spec_textures_bytes(mats).len() == 64 * mats.len(),
    decreases mats.len(),
{
    if mats.len() > 0 {
        lemma_textures_len(mats.drop_last());
        lemma_records_bytes_len(crate::materials_write::spec_texture_slots(mats.last().textures));
    }
}

/// 32-bit values are 4 bytes each.
proof fn lemma_i32s_len(vals: Seq<i32>)
    ensures
        spec_i32s_bytes(vals).len() == 4 * vals.len(),
    decreases vals.len(),
{
    if vals.len() > 0 {
        lemma_i32s_len(vals.drop_last());
    }
}

/// Writing the constant vectors of materials whose ranges lie inside a block of `total`
/// vectors keeps the block's length.
proof fn lemma_fill_consts_len(block: Seq<u8>, mats: Seq<MaterialModel>, total: int)
    requires
        block.len() == total * 16,
        spec_consts_placed(mats, total),
    ensures
        spec_fill_consts(block, mats).len() == block.len(),
    decreases mats.len(),
{
    if mats.len() > 0 {
        let prev = mats.drop_last();
        assert forall|i: int| 0 <= i < prev.len() implies ((#[trigger] prev[i]).const_vecs_a.len()
            > 0 ==> prev[i].consts_a_first * 4 + 16 * prev[i].const_vecs_a.len() <= total * 16)
            && (prev[i].const_vecs_b.len() > 0 ==> prev[i].consts_b_first * 4 + 16
            * prev[i].const_vecs_b.len() <= total * 16) by {
            assert(prev[i] == mats[i]);
        }
        lemma_fill_consts_len(block, prev, total);
        let m = mats[mats.len() - 1];
        assert(mats.last() == m);
        lemma_const_vecs_bytes_len(m.const_vecs_a);
        lemma_const_vecs_bytes_len(m.const_vecs_b);
        let f0 = spec_fill_consts(block, prev);
        let f1 = if m.const_vecs_a.len() == 0 {
            f0
        } else {
            splice(f0, m.consts_a_first * 4, spec_const_vecs_bytes(m.const_vecs_a))
        };
        assert(f1.len() == block.len());
    }
}

/// Whether every material's vector counts times 4 fit in 32 bits.
fn ranges_fit(materials: &Vec<MaterialDeserialized>) -> (r: bool)
    ensures
        r == spec_ranges_fit(models_of(materials@)),
{
    let ghost ms = models_of(materials@);
    let mut i: usize = 0;
    while i < materials.len()
        invariant
            i <= materials@.len(),
            ms == models_of(materials@),
            forall|j: int|
                0 <= j < i ==> ((#[trigger] ms[j]).const_vecs_a.len() as u32) * 4 <= u32::MAX
                    && (ms[j].const_vecs_b.len() as u32) * 4 <= u32::MAX,
        decreases materials@.len() - i,
    {
        assert(ms[i as int] == materials@[i as int]@);
        let a = materials[i].const_vecs_a.len() as u32;
        let b = materials[i].const_vecs_b.len() as u32;
        if a > 0x3fff_ffff || b > 0x3fff_ffff {
            return false;
        }
        i = i + 1;
    }
    true
}

/// How many constant vectors the materials hold in all, where 16 bytes for each fit in
/// `usize`.
fn total_vecs(materials: &Vec<MaterialDeserialized>) -> (r: Option<usize>)
    ensures
        match r {
            Some(t) => t == spec_num_const_vecs(models_of(materials@)) && t * 16 <= usize::MAX,
            None => spec_num_const_vecs(models_of(materials@)) * 16 > usize::MAX,
        },
{
    let ghost ms = models_of(materials@);
    let limit = usize::MAX / 16;
    let mut total: usize = 0;
    let mut i: usize = 0;
    while i < materials.len()
        invariant
            i <= materials@.len(),
            ms == models_of(materials@),
            limit == usize::MAX / 16,
            total <= limit,
            total == spec_num_const_vecs(ms.take(i as int)),
        decreases materials@.len() - i,
    {
        proof {
            lemma_num_const_vecs_prefix(ms, i + 1);
            assert(ms.take(i + 1).drop_last() =~= ms.take(i as int));
        }
        assert(ms[i as int] == materials@[i as int]@);
        let a = materials[i].const_vecs_a.len();
        let b = materials[i].const_vecs_b.len();
        if a > limit - total {
            return None;
        }
        let t1 = total + a;
        if b > limit - t1 {
            return None;
        }
        total = t1 + b;
        i = i + 1;
    }
    assert(ms.take(materials@.len() as int) =~= ms);
    Some(total)
}

/// Whether every non-empty constant range lies inside a block of `total` vectors.
fn consts_placed(materials: &Vec<MaterialDeserialized>, total: usize) -> (r: bool)
    ensures
        r == spec_consts_placed(models_of(materials@), total as int),
{
    let ghost ms = models_of(materials@);
    let end: u128 = total as u128 * 16;
    let mut i: usize = 0;
    while i < materials.len()
        invariant
            i <= materials@.len(),
            ms == models_of(materials@),
            end == total * 16,
            forall|j: int|
                0 <= j < i ==> ((#[trigger] ms[j]).const_vecs_a.len() > 0 ==> ms[j].consts_a_first
                    * 4 + 16 * ms[j].const_vecs_a.len() <= total * 16) && (ms[j].const_vecs_b.len()
                    > 0 ==> ms[j].consts_b_first * 4 + 16 * ms[j].const_vecs_b.len() <= total * 16),
        decreases materials@.len() - i,
    {
        assert(ms[i as int] == materials@[i as int]@);
        let m = &materials[i];
        let na = m.const_vecs_a.len();
        let nb = m.const_vecs_b.len();
        if na > 0 && m.consts_a_first as u128 * 4 + 16 * (na as u128) > end {
            return false;
        }
        if nb > 0 && m.consts_b_first as u128 * 4 + 16 * (nb as u128) > end {
            return false;
        }
        i = i + 1;
    }
    true
}

/// Where the unknown1 section written from `off` ends, where that fits in `usize`.
fn unknown1s_end(materials: &Vec<MaterialDeserialized>, off: usize) -> (r: Option<usize>)
    ensures
        match r {
            Some(e) => e == off + spec_write_unknown1s(models_of(materials@), off as int).len(),
            None => off + spec_write_unknown1s(models_of(materials@), off as int).len()
                > usize::MAX,
        },
{
    let ghost ms = models_of(materials@);
    let mut cur = off;
    let mut i: usize = 0;
    while i < materials.len()
        invariant
            i <= materials@.len(),
            ms == models_of(materials@),
            cur == off + spec_write_unknown1s(ms.take(i as int), off as int).len(),
        decreases materials@.len() - i,
    {
        proof {
            lemma_write_unknown1s_prefix(ms, off as int, i + 1);
            assert(ms.take(i + 1).drop_last() =~= ms.take(i as int));
            lemma_records_bytes_len(ms[i as int].unknown1s);
        }
        assert(ms[i as int] == materials@[i as int]@);
        let a = match checked_align(cur, 4) {
            None => {
                return None;
            },
            Some(a) => a,
        };
        cur = match checked_advance(a, 6, materials[i].unknown1s.len()) {
            None => {
                return None;
            },
            Some(c) => c,
        };
        i = i + 1;
    }
    assert(ms.take(materials@.len() as int) =~= ms);
    Some(cur)
}

/// Where the constant-range section written from `off` ends, where that fits in `usize`.
fn const_ranges_end(materials: &Vec<MaterialDeserialized>, off: usize) -> (r: Option<usize>)
    ensures
        match r {
            Some(e) => e == off + spec_write_const_ranges(models_of(materials@), off as int).len(),
            None => off + spec_write_const_ranges(models_of(materials@), off as int).len()
                > usize::MAX,
        },
{
    let ghost ms = models_of(materials@);
    let mut cur = off;
    let mut i: usize = 0;
    while i < materials.len()
        invariant
            i <= materials@.len(),
            ms == models_of(materials@),
            cur == off + spec_write_const_ranges(ms.take(i as int), off as int).len(),
        decreases materials@.len() - i,
    {
        proof {
            lemma_write_const_ranges_prefix(ms, off as int, i + 1);
            assert(ms.take(i + 1).drop_last() =~= ms.take(i as int));
        }
        let a = match checked_align(cur, 4) {
            None => {
                return None;
            },
            Some(a) => a,
        };
        cur = match checked_advance(a, 1, 16) {
            None => {
                return None;
            },
            Some(c) => c,
        };
        i = i + 1;
    }
    assert(ms.take(materials@.len() as int) =~= ms);
    Some(cur)
}

impl MaterialsDeserialized {
    /// Where writing the library from offset `data_offset` ends, or `None` where it cannot be
    /// written there: `Some` exactly when [`spec_matlib_write_ok`] holds, that is when the
    /// 32-bit float counts do not overflow, the constant block fits in memory, every non-empty
    /// constant range lies inside the block and the end offset fits in `usize`.
    pub fn write_end(&self, data_offset: usize) -> (r: Option<usize>)
        ensures
            r is Some <==> spec_matlib_write_ok(self@, data_offset as int),
            r matches Some(e) ==> e == data_offset + spec_write_matlib(
                self@,
                data_offset as int,
            ).len(),
    {
        reveal(spec_matlib_write_ok);
        reveal(spec_write_matlib);
        let ghost m = self@;
        let ghost ms = m.materials;
        assert(models_of(self.materials@) == ms);
        if !ranges_fit(&self.materials) {
            return None;
        }
        let total = match total_vecs(&self.materials) {
            None => {
                return None;
            },
            Some(t) => t,
        };
        if !consts_placed(&self.materials, total) {
            return None;
        }
        proof {
            lemma_material_records_len(ms);
            lemma_textures_len(ms);
            lemma_fill_consts_len(
                Seq::new(spec_num_const_vecs(ms) * 16, |i: int| 0xffu8),
                ms,
                spec_num_const_vecs(ms) as int,
            );
            assert(spec_const_block(ms).len() == total * 16);
            lemma_records_bytes_len(m.mat_unknown3s);
            lemma_i32s_len(m.mat_unknown4s);
            spec_written_header(m).lemma_bytes_len();
        }
        let n = self.materials.len();
        let c0 = match checked_align(data_offset, 4) {
            None => {
                return None;
            },
            Some(c) => c,
        };
        let c1 = match checked_advance(c0, 1, 0x24) {
            None => {
                return None;
            },
            Some(c) => c,
        };
        let c2 = match checked_advance(c1, 0x18, n) {
            None => {
                return None;
            },
            Some(c) => c,
        };
        let c3 = match unknown1s_end(&self.materials, c2) {
            None => {
                return None;
            },
            Some(c) => c,
        };
        let c4 = match const_ranges_end(&self.materials, c3) {
            None => {
                return None;
            },
            Some(c) => c,
        };
        let c5 = match checked_align(c4, 16) {
            None => {
                return None;
            },
            Some(c) => c,
        };
        let c6 = match checked_advance(c5, 16, total) {
            None => {
                return None;
            },
            Some(c) => c,
        };
        let c7 = match checked_advance(c6, 64, n) {
            None => {
                return None;
            },
            Some(c) => c,
        };
        let c8 = match checked_advance(c7, 16, self.mat_unknown3s.len()) {
            None => {
                return None;
            },
            Some(c) => c,
        };
        let c9 = match checked_advance(c8, 4, self.mat_unknown4s.len()) {
            None => {
                return None;
            },
            Some(c) => c,
        };
        Some(c9)
    }
}

/// The pieces before position `i` are no longer than all of them.
proof fn lemma_concat_bytes_prefix_len<T>(s: Seq<T>, f: spec_fn(T) -> Seq<u8>, i: int)
    requires
        0 <= i <= s.len(),
    ensures
        concat_bytes(s.take(i), f).len() <= concat_bytes(s, f).len(),
    decreases s.len(),
{
    if i < s.len() {
        lemma_concat_bytes_prefix_len(s.drop_last(), f, i);
        assert(s.drop_last().take(i) =~= s.take(i));
    } else {
        assert(s.take(i) =~= s);
    }
}

/// Where the names written from `off`, each followed by a NUL byte, end, where that fits in
/// `usize`.
fn names_end(names: &Vec<String>, off: usize) -> (r: Option<usize>)
    ensures
        match r {
            Some(e) => e == off + spec_names_bytes(strings_of(names@)).len(),
            None => off + spec_names_bytes(strings_of(names@)).len() > usize::MAX,
        },
{
    let ghost ns = strings_of(names@);
    let ghost f = |n: Seq<char>| encode_utf8(n) + seq![0u8];
    let mut cur = off;
    let mut i: usize = 0;
    while i < names.len()
        invariant
            i <= names@.len(),
            ns == strings_of(names@),
            f == (|n: Seq<char>| encode_utf8(n) + seq![0u8]),
            cur == off + concat_bytes(ns.take(i as int), f).len(),
        decreases names@.len() - i,
    {
        proof {
            lemma_concat_bytes_push(ns.take(i as int), f, ns[i as int]);
            assert(ns.take(i as int).push(ns[i as int]) =~= ns.take(i + 1));
            lemma_concat_bytes_prefix_len(ns, f, i + 1);
        }
        let len = names[i].as_str().as_bytes().len();
        let c = match checked_advance(cur, 1, len) {
            None => {
                return None;
            },
            Some(c) => c,
        };
        cur = match checked_advance(c, 1, 1) {
            None => {
                return None;
            },
            Some(c) => c,
        };
        i = i + 1;
    }
    assert(ns.take(names@.len() as int) =~= ns);
    Some(cur)
}

impl StaticMesh {
    /// Where writing the mesh from offset `data_offset` ends, or `None` where it cannot be
    /// written there: `Some` exactly when [`spec_smesh_write_ok`] holds, that is when its
    /// material library can be written where it lands and the end offset fits in `usize`.
    pub fn write_end(&self, data_offset: usize) -> (r: Option<usize>)
        ensures
            r is Some <==> spec_smesh_write_ok(self@, data_offset as int),
            r matches Some(e) ==> e == data_offset + spec_write_smesh(self@, data_offset as int).len(),
    {
        reveal(spec_write_front);
        let ghost m = self@;
        proof {
            m.header.lemma_bytes_len();
            lemma_i32s_len(m.texture_addr_maybe);
            lemma_records_bytes_len(m.navpoints);
            lemma_i32s_len(m.bone_indices);
        }
        let c0 = match checked_align(data_offset, 16) {
            None => {
                return None;
            },
            Some(c) => c,
        };
        let c1 = match checked_advance(c0, 1, 0x40) {
            None => {
                return None;
            },
            Some(c) => c,
        };
        let c2 = match checked_advance(c1, 4, self.texture_addr_maybe.len()) {
            None => {
                return None;
            },
            Some(c) => c,
        };
        let c3 = match checked_align(c2, 16) {
            None => {
                return None;
            },
            Some(c) => c,
        };
        let c4 = match checked_advance(c3, 1, 1) {
            None => {
                return None;
            },
            Some(c) => c,
        };
        let c5 = match names_end(&self.texture_names, c4) {
            None => {
                return None;
            },
            Some(c) => c,
        };
        let c6 = if self.navpoints.len() > 0 {
            let a = match checked_align(c5, 16) {
                None => {
                    return None;
                },
                Some(c) => c,
            };
            match checked_advance(a, 0x60, self.navpoints.len()) {
                None => {
                    return None;
                },
                Some(c) => c,
            }
        } else {
            c5
        };
        let c7 = if self.bone_indices.len() > 0 {
            let a = match checked_align(c6, 16) {
                None => {
                    return None;
                },
                Some(c) => c,
            };
            match checked_advance(a, 4, self.bone_indices.len()) {
                None => {
                    return None;
                },
                Some(c) => c,
            }
        } else {
            c6
        };
        let e = match self.matlib.write_end(c7) {
            None => {
                return None;
            },
            Some(e) => e,
        };
        let c8 = match checked_advance(e, 1, self.lod_section.len()) {
            None => {
                return None;
            },
            Some(c) => c,
        };
        checked_align(c8, 16)
    }
}

} // verus!
