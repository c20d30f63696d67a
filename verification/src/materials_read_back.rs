//! Reading back a written material library gives the library.

use vstd::prelude::*;
use vstd::arithmetic::div_mod::{lemma_fundamental_div_mod, lemma_mod_multiples_basic};

use crate::material::{
    Material, MaterialConstHeader, MaterialTextureEntry, MaterialUnknown1, MaterialUnknown3,
    MaterialsHeader, MAX_CONSTANTS, MAX_MATERIALS, MAX_UKNOWN4_VALUE, MAX_UNKNOWN3S,
};
use crate::materials::{
    spec_assemble_all, spec_const_header_at, spec_const_vec_at, spec_read_const_headers,
    spec_read_const_vecs, spec_read_consts, spec_read_texture_slots, spec_read_textures,
    spec_read_unknown1s, spec_read_unknown4_run, spec_read_unknown4s, spec_to_disk, MaterialConst,
    MaterialModel, MaterialsDeserialized, MaterialsModel,
};
use crate::materials_write::{
    lemma_const_vecs_bytes_len, spec_const_block, spec_const_ranges, spec_const_vec_bytes,
    spec_const_vecs_bytes, spec_fill_consts, spec_i32s_bytes, spec_material_records_bytes,
    spec_num_const_vecs, spec_texture_slots, spec_textures_bytes, spec_write_const_ranges,
    spec_write_matlib, spec_write_unknown1s, spec_written_header,
};
use crate::record::{
    bytes_at, lemma_bytes_at_split, lemma_bytes_at_take, lemma_concat_bytes_at,
    lemma_concat_bytes_congruent, lemma_read_run_of, lemma_record_at_of, lemma_records_bytes_len,
    records_bytes, spec_read_run, spec_record_at, Record,
};
use crate::util::{i32_le, lemma_i32_at_of, lemma_u32_at_of, spec_align, spec_pad, splice, u32_le};

verus! {

/// The on-disk records of the materials.
pub open spec fn disk_of(mats: Seq<MaterialModel>) -> Seq<Material> {
    mats.map_values(|x: MaterialModel| spec_to_disk(x))
}

/// The unknown1 records of each material.
pub open spec fn unknown1s_of(mats: Seq<MaterialModel>) -> Seq<Seq<MaterialUnknown1>> {
    mats.map_values(|x: MaterialModel| x.unknown1s)
}

/// A prefix of `x + y` no longer than `x` is a prefix of `x`.
proof fn lemma_take_concat(x: Seq<u8>, y: Seq<u8>, j: int)
    requires
        0 <= j <= x.len(),
    ensures
        (x + y).take(j) == x.take(j),
{
    assert((x + y).take(j) =~= x.take(j));
}

/// The unknown1 section of the first `k` materials begins the whole section.
proof fn lemma_write_unknown1s_take(mats: Seq<MaterialModel>, base: int, k: int)
    requires
        0 <= k <= mats.len(),
    ensures
        spec_write_unknown1s(mats.take(k), base).len() <= spec_write_unknown1s(mats, base).len(),
        spec_write_unknown1s(mats, base).take(spec_write_unknown1s(mats.take(k), base).len() as int)
            == spec_write_unknown1s(mats.take(k), base),
    decreases mats.len(),
{
    let whole = spec_write_unknown1s(mats, base);
    if k == mats.len() {
        assert(mats.take(k) =~= mats);
        assert(whole.take(whole.len() as int) =~= whole);
    } else {
        let prev = spec_write_unknown1s(mats.drop_last(), base);
        lemma_write_unknown1s_take(mats.drop_last(), base, k);
        assert(mats.drop_last().take(k) =~= mats.take(k));
        let part = spec_write_unknown1s(mats.take(k), base);
        assert(whole == prev + (spec_pad(base + prev.len(), 4) + records_bytes(mats.last().unknown1s)));
        lemma_take_concat(prev, spec_pad(base + prev.len(), 4) + records_bytes(mats.last().unknown1s), part.len() as int);
    }
}

/// `spec_align` never goes back.
pub(crate) proof fn lemma_align_ge(off: int, alignment: int)
    requires
        0 <= off,
        0 < alignment,
    ensures
        off <= spec_align(off, alignment) < off + alignment,
        spec_align(off, alignment) % alignment == 0,
        spec_pad(off, alignment).len() == spec_align(off, alignment) - off,
{
    if off % alignment != 0 {
        lemma_fundamental_div_mod(off, alignment);
        let q = off / alignment;
        assert(off + (alignment - off % alignment) == (q + 1) * alignment) by (nonlinear_arith)
            requires
                off == alignment * q + off % alignment,
        ;
        lemma_mod_multiples_basic(q + 1, alignment);
    }
}

/// Reading the unknown1 sections back, from the `k`-th material on.
proof fn lemma_read_unknown1s_from(buf: Seq<u8>, base: int, mats: Seq<MaterialModel>, k: int)
    requires
        bytes_at(buf, base, spec_write_unknown1s(mats, base)),
        forall|i: int| 0 <= i < mats.len() ==> (#[trigger] mats[i]).unknown1s.len() <= u16::MAX,
        0 <= k <= mats.len(),
    ensures
        spec_read_unknown1s(
            buf,
            base + spec_write_unknown1s(mats.take(k), base).len(),
            disk_of(mats),
            unknown1s_of(mats).take(k),
        ) == Ok::<(Seq<Seq<MaterialUnknown1>>, int), (crate::error::VolitionError, int)>(
            (unknown1s_of(mats), base + spec_write_unknown1s(mats, base).len()),
        ),
    decreases mats.len() - k,
{
    if k == mats.len() {
        assert(mats.take(k) =~= mats);
        assert(unknown1s_of(mats).take(k) =~= unknown1s_of(mats));
    } else {
        let uk = spec_write_unknown1s(mats.take(k), base);
        let uk1 = spec_write_unknown1s(mats.take(k + 1), base);
        assert(mats.take(k + 1).drop_last() =~= mats.take(k));
        assert(mats.take(k + 1).last() == mats[k]);
        let o = base + uk.len();
        let pad = spec_pad(o, 4);
        let run = records_bytes(mats[k].unknown1s);
        assert(uk1 == uk + pad + run);
        lemma_write_unknown1s_take(mats, base, k + 1);
        lemma_bytes_at_take(buf, base, spec_write_unknown1s(mats, base), uk1.len() as int);
        lemma_bytes_at_split(buf, base, uk + pad, run);
        lemma_align_ge(o, 4);
        lemma_read_run_of::<MaterialUnknown1>(buf, spec_align(o, 4), mats[k].unknown1s);
        assert(disk_of(mats)[k].num_unknown == mats[k].unknown1s.len());
        lemma_read_unknown1s_from(buf, base, mats, k + 1);
        assert(unknown1s_of(mats).take(k).push(mats[k].unknown1s) =~= unknown1s_of(mats).take(
            k + 1,
        ));
    }
}


/// The constant-range headers written for each material.
pub open spec fn ranges_of(mats: Seq<MaterialModel>) -> Seq<(MaterialConstHeader, MaterialConstHeader)> {
    mats.map_values(|x: MaterialModel| spec_const_ranges(x))
}

/// The constant-range section of the first `k` materials begins the whole section.
proof fn lemma_write_const_ranges_take(mats: Seq<MaterialModel>, base: int, k: int)
    requires
        0 <= k <= mats.len(),
    ensures
        spec_write_const_ranges(mats.take(k), base).len() <= spec_write_const_ranges(mats, base).len(),
        spec_write_const_ranges(mats, base).take(spec_write_const_ranges(mats.take(k), base).len() as int)
            == spec_write_const_ranges(mats.take(k), base),
    decreases mats.len(),
{
    let whole = spec_write_const_ranges(mats, base);
    if k == mats.len() {
        assert(mats.take(k) =~= mats);
        assert(whole.take(whole.len() as int) =~= whole);
    } else {
        let prev = spec_write_const_ranges(mats.drop_last(), base);
        lemma_write_const_ranges_take(mats.drop_last(), base, k);
        assert(mats.drop_last().take(k) =~= mats.take(k));
        let part = spec_write_const_ranges(mats.take(k), base);
        let rest = spec_pad(base + prev.len(), 4) + spec_const_ranges(mats.last()).0.spec_to_le_bytes()
            + spec_const_ranges(mats.last()).1.spec_to_le_bytes();
        assert(whole == prev + rest);
        lemma_take_concat(prev, rest, part.len() as int);
    }
}

/// The constant ranges of a material as written: counts of floats that fit in 32 bits, and
/// first-float indices that are multiples of 4.
pub open spec fn spec_ranges_read_back(m: MaterialModel) -> bool {
    &&& m.const_vecs_a.len() * 4 <= u32::MAX
    &&& m.const_vecs_b.len() * 4 <= u32::MAX
    &&& m.consts_a_first % 4 == 0
    &&& m.consts_b_first % 4 == 0
}

/// A constant-range header as written reads back unchanged.
proof fn lemma_const_header_of(buf: Seq<u8>, off: int, h: MaterialConstHeader)
    requires
        bytes_at(buf, off, h.spec_to_le_bytes()),
        h.num_floats % 4 == 0,
        h.first_float % 4 == 0,
    ensures
        spec_const_header_at(buf, off) == Ok::<MaterialConstHeader, crate::error::VolitionError>(h),
{
    crate::record::lemma_record_at_of(buf, off, h);
}

/// The pair of constant-range headers written for `m` reads back at `off`.
proof fn lemma_const_pair_at(buf: Seq<u8>, off: int, m: MaterialModel)
    requires
        bytes_at(buf, off, spec_const_ranges(m).0.spec_to_le_bytes()),
        bytes_at(buf, off + 8, spec_const_ranges(m).1.spec_to_le_bytes()),
        spec_ranges_read_back(m),
    ensures
        spec_const_header_at(buf, off) == Ok::<MaterialConstHeader, crate::error::VolitionError>(
            spec_const_ranges(m).0,
        ),
        spec_const_header_at(buf, off + 8) == Ok::<MaterialConstHeader, crate::error::VolitionError>(
            spec_const_ranges(m).1,
        ),
{
    lemma_const_ranges_counts(m);
    lemma_const_header_of(buf, off, spec_const_ranges(m).0);
    lemma_const_header_of(buf, off + 8, spec_const_ranges(m).1);
}

/// The headers written for `m` count 4 floats per vector and start where `m` says.
proof fn lemma_const_ranges_counts(m: MaterialModel)
    requires
        spec_ranges_read_back(m),
    ensures
        spec_const_ranges(m).0.num_floats == m.const_vecs_a.len() * 4,
        spec_const_ranges(m).1.num_floats == m.const_vecs_b.len() * 4,
        spec_const_ranges(m).0.first_float == m.consts_a_first,
        spec_const_ranges(m).1.first_float == m.consts_b_first,
        spec_const_ranges(m).0.num_floats % 4 == 0,
        spec_const_ranges(m).1.num_floats % 4 == 0,
        spec_const_ranges(m).0.first_float % 4 == 0,
        spec_const_ranges(m).1.first_float % 4 == 0,
{
    assert(m.const_vecs_a.len() as u32 == m.const_vecs_a.len());
    assert(m.const_vecs_b.len() as u32 == m.const_vecs_b.len());
}

/// The section of the first `k + 1` materials is that of the first `k`, padding, and the
/// pair of the `k`-th.
pub(crate) proof fn lemma_write_const_ranges_next(mats: Seq<MaterialModel>, base: int, k: int)
    requires
        0 <= k < mats.len(),
    ensures
        spec_write_const_ranges(mats.take(k + 1), base) == spec_write_const_ranges(mats.take(k), base)
            + spec_pad(base + spec_write_const_ranges(mats.take(k), base).len(), 4)
            + spec_const_ranges(mats[k]).0.spec_to_le_bytes()
            + spec_const_ranges(mats[k]).1.spec_to_le_bytes(),
{
    assert(mats.take(k + 1).drop_last() =~= mats.take(k));
    assert(mats.take(k + 1).last() == mats[k]);
}

/// Where the pair of the `k`-th material lies in the constant-range section.
#[verifier::spinoff_prover]
#[verifier::rlimit(30)]
proof fn lemma_const_ranges_step(buf: Seq<u8>, base: int, mats: Seq<MaterialModel>, k: int)
    requires
        bytes_at(buf, base, spec_write_const_ranges(mats, base)),
        0 <= k < mats.len(),
    ensures
        ({
            let p = spec_align(base + spec_write_const_ranges(mats.take(k), base).len(), 4);
            &&& bytes_at(buf, p, spec_const_ranges(mats[k]).0.spec_to_le_bytes())
            &&& bytes_at(buf, p + 8, spec_const_ranges(mats[k]).1.spec_to_le_bytes())
            &&& p + 16 == spec_align(base + spec_write_const_ranges(mats.take(k + 1), base).len(), 4)
        }),
{
    let wk = spec_write_const_ranges(mats.take(k), base);
    let wk1 = spec_write_const_ranges(mats.take(k + 1), base);
    let o = base + wk.len();
    let pad = spec_pad(o, 4);
    let a = spec_const_ranges(mats[k]).0.spec_to_le_bytes();
    let b = spec_const_ranges(mats[k]).1.spec_to_le_bytes();
    lemma_write_const_ranges_next(mats, base, k);
    lemma_write_const_ranges_take(mats, base, k + 1);
    lemma_bytes_at_take(buf, base, spec_write_const_ranges(mats, base), wk1.len() as int);
    lemma_bytes_at_split(buf, base, wk + pad + a, b);
    lemma_bytes_at_split(buf, base, wk + pad, a);
    lemma_align_ge(o, 4);
    assert(a.len() == 8);
    assert(b.len() == 8);
    lemma_align_ge(base + wk1.len(), 4);
}

/// Reading the constant-range section back, from the `k`-th material on.
proof fn lemma_read_const_headers_from(buf: Seq<u8>, base: int, mats: Seq<MaterialModel>, k: int)
    requires
        bytes_at(buf, base, spec_write_const_ranges(mats, base)),
        forall|i: int| 0 <= i < mats.len() ==> spec_ranges_read_back(#[trigger] mats[i]),
        0 <= k <= mats.len(),
    ensures
        spec_read_const_headers(
            buf,
            spec_align(base + spec_write_const_ranges(mats.take(k), base).len(), 4),
            mats.len(),
            ranges_of(mats).take(k),
        ) == Ok::<(Seq<(MaterialConstHeader, MaterialConstHeader)>, int), (crate::error::VolitionError, int)>(
            (ranges_of(mats), spec_align(base + spec_write_const_ranges(mats, base).len(), 4)),
        ),
    decreases mats.len() - k,
{
    if k == mats.len() {
        assert(mats.take(k) =~= mats);
        assert(ranges_of(mats).take(k) =~= ranges_of(mats));
    } else {
        lemma_const_ranges_step(buf, base, mats, k);
        lemma_const_pair_at(
            buf,
            spec_align(base + spec_write_const_ranges(mats.take(k), base).len(), 4),
            mats[k],
        );
        lemma_read_const_headers_from(buf, base, mats, k + 1);
        assert(ranges_of(mats).take(k).push(spec_const_ranges(mats[k])) =~= ranges_of(mats).take(
            k + 1,
        ));
    }
}

/// Byte offset, inside the constant block, of range `side` (0: the first, 1: the second) of
/// `m`.
pub open spec fn range_start(m: MaterialModel, side: int) -> int {
    if side == 0 {
        m.consts_a_first * 4
    } else {
        m.consts_b_first * 4
    }
}

/// The constant vectors of range `side` of `m`.
pub open spec fn range_vecs(m: MaterialModel, side: int) -> Seq<MaterialConst> {
    if side == 0 {
        m.const_vecs_a
    } else {
        m.const_vecs_b
    }
}

/// Whether byte `x` of the constant block lies in range `side` of `m`.
pub open spec fn in_range(m: MaterialModel, side: int, x: int) -> bool {
    range_start(m, side) <= x < range_start(m, side) + 16 * range_vecs(m, side).len()
}

/// The byte that range `side` of `m` puts at byte `x` of the constant block.
pub open spec fn range_byte(m: MaterialModel, side: int, x: int) -> u8 {
    spec_const_vecs_bytes(range_vecs(m, side))[x - range_start(m, side)]
}

/// Where two constant ranges of the materials overlap, they put the same bytes there.
pub open spec fn spec_consts_agree(mats: Seq<MaterialModel>) -> bool {
    forall|i: int, p: int, j: int, q: int, x: int|
        #![trigger range_byte(mats[i], p, x), range_byte(mats[j], q, x)]
        0 <= i < mats.len() && 0 <= j < mats.len() && 0 <= p < 2 && 0 <= q < 2 && in_range(
            mats[i],
            p,
            x,
        ) && in_range(mats[j], q, x) ==> range_byte(mats[i], p, x) == range_byte(mats[j], q, x)
}

/// Every constant range of the materials ends inside a block of `len` bytes.
pub open spec fn spec_consts_within(mats: Seq<MaterialModel>, len: int) -> bool {
    forall|i: int, p: int|
        0 <= i < mats.len() && 0 <= p < 2 ==> #[trigger] range_start(mats[i], p) + 16 * range_vecs(
            mats[i],
            p,
        ).len() <= len
}

/// After the constant vectors of the materials are written into `block`, every byte that a
/// range covers holds what that range puts there.
proof fn lemma_fill_consts_bytes(block: Seq<u8>, mats: Seq<MaterialModel>)
    requires
        spec_consts_agree(mats),
        spec_consts_within(mats, block.len() as int),
    ensures
        spec_fill_consts(block, mats).len() == block.len(),
        forall|i: int, p: int, x: int|
            0 <= i < mats.len() && 0 <= p < 2 && in_range(mats[i], p, x) ==> spec_fill_consts(
                block,
                mats,
            )[x] == #[trigger] range_byte(mats[i], p, x),
    decreases mats.len(),
{
    if mats.len() > 0 {
        let n = mats.len() - 1;
        let prev = mats.drop_last();
        assert forall|i: int, p: int, j: int, q: int, x: int|
            #![trigger range_byte(prev[i], p, x), range_byte(prev[j], q, x)]
            0 <= i < prev.len() && 0 <= j < prev.len() && 0 <= p < 2 && 0 <= q < 2 && in_range(
                prev[i],
                p,
                x,
            ) && in_range(prev[j], q, x) implies range_byte(prev[i], p, x) == range_byte(
            prev[j],
            q,
            x,
        ) by {
            assert(prev[i] == mats[i]);
            assert(prev[j] == mats[j]);
            assert(range_byte(mats[i], p, x) == range_byte(mats[j], q, x));
        }
        assert forall|i: int, p: int| 0 <= i < prev.len() && 0 <= p < 2 implies #[trigger] range_start(
            prev[i],
            p,
        ) + 16 * range_vecs(prev[i], p).len() <= block.len() by {
            assert(prev[i] == mats[i]);
            assert(range_start(mats[i], p) + 16 * range_vecs(mats[i], p).len() <= block.len());
        }
        lemma_fill_consts_bytes(block, prev);
        let f0 = spec_fill_consts(block, prev);
        let m = mats[n];
        assert(mats.last() == m);
        let a0 = m.consts_a_first * 4;
        let b0 = m.consts_b_first * 4;
        let va = spec_const_vecs_bytes(m.const_vecs_a);
        let vb = spec_const_vecs_bytes(m.const_vecs_b);
        lemma_const_vecs_bytes_len(m.const_vecs_a);
        lemma_const_vecs_bytes_len(m.const_vecs_b);
        assert(range_start(mats[n], 0) + 16 * range_vecs(mats[n], 0).len() <= block.len());
        assert(range_start(mats[n], 1) + 16 * range_vecs(mats[n], 1).len() <= block.len());
        let f1 = if m.const_vecs_a.len() == 0 {
            f0
        } else {
            splice(f0, a0, va)
        };
        let f2 = if m.const_vecs_b.len() == 0 {
            f1
        } else {
            splice(f1, b0, vb)
        };
        assert(spec_fill_consts(block, mats) == f2);
        assert(f1.len() == block.len());
        assert(f2.len() == block.len());
        assert forall|i: int, p: int, x: int|
            0 <= i < mats.len() && 0 <= p < 2 && in_range(mats[i], p, x) implies f2[x]
            == #[trigger] range_byte(mats[i], p, x) by {
            if m.const_vecs_b.len() > 0 && in_range(m, 1, x) {
                assert(f2[x] == vb[x - b0]);
                assert(range_byte(mats[n], 1, x) == range_byte(mats[i], p, x));
            } else if m.const_vecs_a.len() > 0 && in_range(m, 0, x) {
                assert(f2[x] == f1[x]);
                assert(f1[x] == va[x - a0]);
                assert(range_byte(mats[n], 0, x) == range_byte(mats[i], p, x));
            } else {
                assert(f2[x] == f1[x]);
                assert(f1[x] == f0[x]);
                if i < n {
                    assert(prev[i] == mats[i]);
                    assert(f0[x] == range_byte(prev[i], p, x));
                }
            }
        }
    }
}

/// After the constant vectors of the materials are written into `block`, each non-empty
/// range holds its vectors.
proof fn lemma_fill_consts_holds(block: Seq<u8>, mats: Seq<MaterialModel>)
    requires
        spec_consts_agree(mats),
        spec_consts_within(mats, block.len() as int),
    ensures
        spec_fill_consts(block, mats).len() == block.len(),
        forall|i: int, p: int|
            0 <= i < mats.len() && 0 <= p < 2 && range_vecs(mats[i], p).len() > 0
                ==> spec_fill_consts(block, mats).subrange(
                #[trigger] range_start(mats[i], p),
                range_start(mats[i], p) + 16 * range_vecs(mats[i], p).len(),
            ) == spec_const_vecs_bytes(range_vecs(mats[i], p)),
{
    lemma_fill_consts_bytes(block, mats);
    let f = spec_fill_consts(block, mats);
    assert forall|i: int, p: int|
        0 <= i < mats.len() && 0 <= p < 2 && range_vecs(mats[i], p).len() > 0 implies f.subrange(
        #[trigger] range_start(mats[i], p),
        range_start(mats[i], p) + 16 * range_vecs(mats[i], p).len(),
    ) == spec_const_vecs_bytes(range_vecs(mats[i], p)) by {
        let lo = range_start(mats[i], p);
        let hi = lo + 16 * range_vecs(mats[i], p).len();
        let bytes = spec_const_vecs_bytes(range_vecs(mats[i], p));
        lemma_const_vecs_bytes_len(range_vecs(mats[i], p));
        assert(hi <= block.len());
        assert forall|k: int| 0 <= k < hi - lo implies #[trigger] f.subrange(lo, hi)[k]
            == bytes[k] by {
            assert(in_range(mats[i], p, lo + k));
            assert(f[lo + k] == range_byte(mats[i], p, lo + k));
        }
        assert(f.subrange(lo, hi) =~= bytes);
    }
}

/// The bytes `x` held at `off` hold each of their slices.
proof fn lemma_bytes_at_slice(buf: Seq<u8>, off: int, x: Seq<u8>, lo: int, hi: int)
    requires
        bytes_at(buf, off, x),
        0 <= lo <= hi <= x.len(),
    ensures
        bytes_at(buf, off + lo, x.subrange(lo, hi)),
{
    assert(buf.subrange(off + lo, off + hi) =~= x.subrange(lo, hi)) by {
        assert forall|k: int| 0 <= k < hi - lo implies buf.subrange(off + lo, off + hi)[k]
            == x.subrange(lo, hi)[k] by {
            assert(buf.subrange(off, off + x.len())[lo + k] == x[lo + k]);
        }
    }
}

/// A constant vector as written reads back at `off`.
proof fn lemma_const_vec_of(buf: Seq<u8>, off: int, v: MaterialConst)
    requires
        bytes_at(buf, off, spec_const_vec_bytes(v)),
    ensures
        spec_const_vec_at(buf, off) == Ok::<MaterialConst, crate::error::VolitionError>(v),
{
    let b0 = u32_le(v[0]);
    let b1 = u32_le(v[1]);
    let b2 = u32_le(v[2]);
    let b3 = u32_le(v[3]);
    lemma_bytes_at_split(buf, off, b0 + b1 + b2, b3);
    lemma_bytes_at_split(buf, off, b0 + b1, b2);
    lemma_bytes_at_split(buf, off, b0, b1);
    lemma_u32_at_of(buf, off, v[0]);
    lemma_u32_at_of(buf, off + 4, v[1]);
    lemma_u32_at_of(buf, off + 8, v[2]);
    lemma_u32_at_of(buf, off + 12, v[3]);
    let r = spec_const_vec_at(buf, off).unwrap();
    assert(r =~= v);
}

/// Reading back constant vectors as written, from the `k`-th on.
proof fn lemma_read_const_vecs_from(buf: Seq<u8>, off: int, vs: Seq<MaterialConst>, k: int)
    requires
        bytes_at(buf, off, spec_const_vecs_bytes(vs)),
        0 <= k <= vs.len(),
    ensures
        spec_read_const_vecs(buf, off + 16 * k, (vs.len() - k) as nat, vs.take(k)) == Ok::<
            Seq<MaterialConst>,
            crate::error::VolitionError,
        >(vs),
    decreases vs.len() - k,
{
    if k == vs.len() {
        assert(vs.take(k) =~= vs);
    } else {
        let f = |v: MaterialConst| spec_const_vec_bytes(v);
        assert forall|i: int| 0 <= i < vs.len() implies (#[trigger] f(vs[i])).len() == 16 by {
        }
        lemma_concat_bytes_at(buf, off, vs, f, 16, k);
        lemma_const_vec_of(buf, off + k * 16, vs[k]);
        lemma_read_const_vecs_from(buf, off, vs, k + 1);
        assert(vs.take(k).push(vs[k]) =~= vs.take(k + 1));
    }
}

/// The constant vectors of each material.
pub open spec fn consts_of(mats: Seq<MaterialModel>) -> Seq<(Seq<MaterialConst>, Seq<MaterialConst>)> {
    mats.map_values(|x: MaterialModel| (x.const_vecs_a, x.const_vecs_b))
}

/// A non-empty range of a block that holds its vectors reads back from the block; an empty
/// one reads back empty.
proof fn lemma_read_range(
    buf: Seq<u8>,
    off_consts: int,
    block: Seq<u8>,
    mats: Seq<MaterialModel>,
    i: int,
    p: int,
)
    requires
        bytes_at(buf, off_consts, block),
        0 <= i < mats.len(),
        0 <= p < 2,
        range_start(mats[i], p) + 16 * range_vecs(mats[i], p).len() <= block.len(),
        range_vecs(mats[i], p).len() > 0 ==> block.subrange(
            range_start(mats[i], p),
            range_start(mats[i], p) + 16 * range_vecs(mats[i], p).len(),
        ) == spec_const_vecs_bytes(range_vecs(mats[i], p)),
    ensures
        spec_read_const_vecs(
            buf,
            off_consts + range_start(mats[i], p),
            range_vecs(mats[i], p).len(),
            Seq::empty(),
        ) == Ok::<Seq<MaterialConst>, crate::error::VolitionError>(range_vecs(mats[i], p)),
{
    let vs = range_vecs(mats[i], p);
    if vs.len() == 0 {
        assert(vs =~= Seq::<MaterialConst>::empty());
    } else {
        let lo = range_start(mats[i], p);
        lemma_bytes_at_slice(buf, off_consts, block, lo, lo + 16 * vs.len());
        lemma_read_const_vecs_from(buf, off_consts + lo, vs, 0);
        assert(vs.take(0) =~= Seq::<MaterialConst>::empty());
    }
}

/// Reading back the constants of the materials from a block as written, from the `k`-th
/// material on.
proof fn lemma_read_consts_from(
    buf: Seq<u8>,
    off_consts: int,
    block: Seq<u8>,
    mats: Seq<MaterialModel>,
    k: int,
)
    requires
        bytes_at(buf, off_consts, block),
        spec_consts_within(mats, block.len() as int),
        forall|i: int| 0 <= i < mats.len() ==> spec_ranges_read_back(#[trigger] mats[i]),
        forall|i: int, p: int|
            0 <= i < mats.len() && 0 <= p < 2 && range_vecs(mats[i], p).len() > 0
                ==> block.subrange(
                #[trigger] range_start(mats[i], p),
                range_start(mats[i], p) + 16 * range_vecs(mats[i], p).len(),
            ) == spec_const_vecs_bytes(range_vecs(mats[i], p)),
        0 <= k <= mats.len(),
    ensures
        spec_read_consts(
            buf,
            off_consts,
            off_consts + block.len(),
            ranges_of(mats),
            consts_of(mats).take(k),
        ) == Ok::<Seq<(Seq<MaterialConst>, Seq<MaterialConst>)>, crate::error::VolitionError>(
            consts_of(mats),
        ),
    decreases mats.len() - k,
{
    if k == mats.len() {
        assert(consts_of(mats).take(k) =~= consts_of(mats));
    } else {
        let m = mats[k];
        assert(spec_ranges_read_back(m));
        let a = spec_const_ranges(m).0;
        let b = spec_const_ranges(m).1;
        lemma_const_ranges_counts(m);
        assert(ranges_of(mats)[k] == (a, b));
        assert(range_start(mats[k], 0) + 16 * range_vecs(mats[k], 0).len() <= block.len());
        assert(range_start(mats[k], 1) + 16 * range_vecs(mats[k], 1).len() <= block.len());
        lemma_read_range(buf, off_consts, block, mats, k, 0);
        lemma_read_range(buf, off_consts, block, mats, k, 1);
        lemma_read_consts_from(buf, off_consts, block, mats, k + 1);
        assert(consts_of(mats).take(k).push((m.const_vecs_a, m.const_vecs_b)) =~= consts_of(
            mats,
        ).take(k + 1));
    }
}


/// The texture entries of each material.
pub open spec fn textures_of(mats: Seq<MaterialModel>) -> Seq<Seq<MaterialTextureEntry>> {
    mats.map_values(|x: MaterialModel| x.textures)
}

/// At most 16 texture entries, all valid.
pub open spec fn spec_textures_read_back(textures: Seq<MaterialTextureEntry>) -> bool {
    &&& textures.len() <= 16
    &&& forall|k: int| 0 <= k < textures.len() ==> (#[trigger] textures[k]).is_valid_spec()
}

/// Reading back the 16 texture slots written for `textures`, from slot `slot` on.
proof fn lemma_read_texture_slots_from(
    buf: Seq<u8>,
    off: int,
    textures: Seq<MaterialTextureEntry>,
    slot: int,
)
    requires
        bytes_at(buf, off, records_bytes(spec_texture_slots(textures))),
        spec_textures_read_back(textures),
        0 <= slot <= 16,
    ensures
        spec_read_texture_slots(
            buf,
            off + 4 * slot,
            textures.len() as u16,
            slot as nat,
            textures.take(
                if slot < textures.len() {
                    slot
                } else {
                    textures.len() as int
                },
            ),
        ) == Ok::<(Seq<MaterialTextureEntry>, int), (crate::error::VolitionError, int)>(
            (textures, off + 64),
        ),
    decreases 16 - slot,
{
    let n = textures.len();
    assert(n as u16 == n);
    if slot == 16 {
        assert(textures.take(n as int) =~= textures);
    } else {
        let slots = spec_texture_slots(textures);
        let f = |r: MaterialTextureEntry| r.spec_bytes();
        assert forall|i: int| 0 <= i < slots.len() implies (#[trigger] f(slots[i])).len() == 4 by {
            slots[i].lemma_bytes_len();
        }
        lemma_concat_bytes_at(buf, off, slots, f, 4, slot);
        crate::record::lemma_record_at_of(buf, off + slot * 4, slots[slot]);
        lemma_read_texture_slots_from(buf, off, textures, slot + 1);
        if slot < n {
            assert(textures.take(slot).push(textures[slot]) =~= textures.take(slot + 1));
        }
    }
}

/// Reading back the texture slots of the materials, from the `k`-th material on.
proof fn lemma_read_textures_from(buf: Seq<u8>, off: int, mats: Seq<MaterialModel>, k: int)
    requires
        bytes_at(buf, off, spec_textures_bytes(mats)),
        forall|i: int| 0 <= i < mats.len() ==> spec_textures_read_back(#[trigger] mats[i].textures),
        0 <= k <= mats.len(),
    ensures
        spec_textures_bytes(mats).len() == 64 * mats.len(),
        spec_read_textures(buf, off + 64 * k, disk_of(mats), textures_of(mats).take(k)) == Ok::<
            (Seq<Seq<MaterialTextureEntry>>, int),
            (crate::error::VolitionError, int),
        >((textures_of(mats), off + 64 * mats.len())),
    decreases mats.len() - k,
{
    let g = |x: MaterialModel| records_bytes(spec_texture_slots(x.textures));
    assert forall|i: int| 0 <= i < mats.len() implies (#[trigger] g(mats[i])).len() == 64 by {
        lemma_records_bytes_len(spec_texture_slots(mats[i].textures));
    }
    if mats.len() > 0 {
        lemma_concat_bytes_at(buf, off, mats, g, 64, 0);
    }
    if k == mats.len() {
        assert(textures_of(mats).take(k) =~= textures_of(mats));
    } else {
        lemma_concat_bytes_at(buf, off, mats, g, 64, k);
        assert(spec_textures_read_back(mats[k].textures));
        lemma_read_texture_slots_from(buf, off + k * 64, mats[k].textures, 0);
        assert(mats[k].textures.take(0) =~= Seq::<MaterialTextureEntry>::empty());
        lemma_read_textures_from(buf, off, mats, k + 1);
        assert(textures_of(mats).take(k).push(mats[k].textures) =~= textures_of(mats).take(k + 1));
    }
}

/// How many unknown4 values the unknown3 records announce in all.
pub open spec fn spec_unknown4_count(unk3s: Seq<MaterialUnknown3>) -> nat
    decreases unk3s.len(),
{
    if unk3s.len() == 0 {
        0
    } else {
        spec_unknown4_count(unk3s.drop_last()) + unk3s.last().num_mat_unk4 as nat
    }
}

/// The records before the `i`-th announce no more values than all of them.
proof fn lemma_unknown4_count_take(unk3s: Seq<MaterialUnknown3>, i: int)
    requires
        0 <= i < unk3s.len(),
    ensures
        spec_unknown4_count(unk3s.take(i + 1)) == spec_unknown4_count(unk3s.take(i))
            + unk3s[i].num_mat_unk4,
        spec_unknown4_count(unk3s.take(i + 1)) <= spec_unknown4_count(unk3s),
    decreases unk3s.len(),
{
    assert(unk3s.take(i + 1).drop_last() =~= unk3s.take(i));
    if i + 1 < unk3s.len() {
        lemma_unknown4_count_take(unk3s.drop_last(), i);
        assert(unk3s.drop_last().take(i + 1) =~= unk3s.take(i + 1));
        assert(unk3s.drop_last().take(i) =~= unk3s.take(i));
    } else {
        assert(unk3s.take(i + 1) =~= unk3s);
    }
}

/// Every value lies in `0..=MAX_UKNOWN4_VALUE`.
pub open spec fn spec_unknown4s_in_range(values: Seq<i32>) -> bool {
    forall|k: int| 0 <= k < values.len() ==> 0 <= #[trigger] values[k] <= MAX_UKNOWN4_VALUE
}

/// Reading back `c` values as written, from the `pos`-th on.
proof fn lemma_read_unknown4_run_of(buf: Seq<u8>, base: int, vals: Seq<i32>, pos: int, c: nat)
    requires
        bytes_at(buf, base, spec_i32s_bytes(vals)),
        spec_unknown4s_in_range(vals),
        0 <= pos,
        pos + c <= vals.len(),
    ensures
        spec_read_unknown4_run(buf, base + 4 * pos, c, vals.take(pos)) == Ok::<
            (Seq<i32>, int),
            (crate::error::VolitionError, int),
        >((vals.take(pos + c), base + 4 * (pos + c))),
    decreases c,
{
    if c > 0 {
        let f = |v: i32| i32_le(v);
        assert forall|i: int| 0 <= i < vals.len() implies (#[trigger] f(vals[i])).len() == 4 by {
        }
        lemma_concat_bytes_at(buf, base, vals, f, 4, pos);
        lemma_i32_at_of(buf, base + pos * 4, vals[pos]);
        assert(0 <= vals[pos] <= MAX_UKNOWN4_VALUE);
        lemma_read_unknown4_run_of(buf, base, vals, pos + 1, (c - 1) as nat);
        assert(vals.take(pos).push(vals[pos]) =~= vals.take(pos + 1));
    }
}

/// Reading back the unknown4 values of the records, from the `i`-th record on.
proof fn lemma_read_unknown4s_from(
    buf: Seq<u8>,
    base: int,
    unk3s: Seq<MaterialUnknown3>,
    vals: Seq<i32>,
    i: int,
)
    requires
        bytes_at(buf, base, spec_i32s_bytes(vals)),
        spec_unknown4s_in_range(vals),
        spec_unknown4_count(unk3s) == vals.len(),
        0 <= i <= unk3s.len(),
    ensures
        spec_read_unknown4s(
            buf,
            base + 4 * spec_unknown4_count(unk3s.take(i)),
            unk3s,
            i as nat,
            vals.take(spec_unknown4_count(unk3s.take(i)) as int),
        ) == Ok::<(Seq<i32>, int), (crate::error::VolitionError, int)>(
            (vals, base + 4 * vals.len()),
        ),
    decreases unk3s.len() - i,
{
    if i == unk3s.len() {
        assert(unk3s.take(i) =~= unk3s);
        assert(vals.take(vals.len() as int) =~= vals);
    } else {
        lemma_unknown4_count_take(unk3s, i);
        let pos = spec_unknown4_count(unk3s.take(i));
        lemma_read_unknown4_run_of(buf, base, vals, pos as int, unk3s[i].num_mat_unk4 as nat);
        lemma_read_unknown4s_from(buf, base, unk3s, vals, i + 1);
    }
}


/// A multiple of `alignment` at or after `off` is at or after `spec_align(off, alignment)`.
proof fn lemma_align_least(off: int, alignment: int, c: int)
    requires
        0 <= off <= c,
        0 < alignment,
        c % alignment == 0,
    ensures
        spec_align(off, alignment) <= c,
{
    if off % alignment != 0 {
        lemma_fundamental_div_mod(off, alignment);
        lemma_fundamental_div_mod(c, alignment);
        let q = off / alignment;
        let k = c / alignment;
        assert(off + (alignment - off % alignment) == alignment * (q + 1)) by (nonlinear_arith)
            requires
                off == alignment * q + off % alignment,
        ;
        assert(k >= q + 1) by (nonlinear_arith)
            requires
                off == alignment * q + off % alignment,
                c == alignment * k,
                0 < off % alignment < alignment,
                off <= c,
                0 < alignment,
        ;
        assert(alignment * k >= alignment * (q + 1)) by (nonlinear_arith)
            requires
                k >= q + 1,
                0 < alignment,
        ;
    }
}

/// Aligning to 4 and then to 16 is aligning to 16.
pub(crate) proof fn lemma_align_4_16(x: int)
    requires
        0 <= x,
    ensures
        spec_align(spec_align(x, 4), 16) == spec_align(x, 16),
{
    let z = spec_align(x, 4);
    let y = spec_align(x, 16);
    lemma_align_ge(x, 4);
    lemma_align_ge(x, 16);
    lemma_align_ge(z, 16);
    lemma_fundamental_div_mod(y, 16);
    assert(y == 4 * (4 * (y / 16))) by (nonlinear_arith)
        requires
            y == 16 * (y / 16) + y % 16,
            y % 16 == 0,
    ;
    lemma_mod_multiples_basic(4 * (y / 16), 4);
    assert((4 * (y / 16)) * 4 == y);
    lemma_align_least(x, 4, y);
    lemma_align_least(z, 16, y);
    lemma_align_least(x, 16, spec_align(z, 16));
}

/// A material that reads back as written into a constant block of `total` vectors: `ptr_14`
/// is 0 or -1, and -1 when it has unknown1 records; at most `u16::MAX` unknown1 records;
/// at most 16 texture entries, all valid; both constant ranges start at a multiple of 4
/// floats and end inside the block.
pub open spec fn spec_material_reads_back(m: MaterialModel, total: int) -> bool {
    &&& m.ptr_14 == 0 || m.ptr_14 == -1
    &&& m.unknown1s.len() > 0 ==> m.ptr_14 == -1
    &&& m.unknown1s.len() <= u16::MAX
    &&& spec_textures_read_back(m.textures)
    &&& m.consts_a_first % 4 == 0
    &&& m.consts_b_first % 4 == 0
    &&& m.consts_a_first * 4 + 16 * m.const_vecs_a.len() <= total * 16
    &&& m.consts_b_first * 4 + 16 * m.const_vecs_b.len() <= total * 16
}

/// A library that reads back as written: counts within the limits that reading checks,
/// materials that read back, constant ranges that agree where they overlap, well-formed
/// unknown3 records that announce exactly the unknown4 values there are, and unknown4 values
/// in `0..=MAX_UKNOWN4_VALUE`.
pub open spec fn spec_matlib_reads_back(m: MaterialsModel) -> bool {
    let mats = m.materials;
    let total = spec_num_const_vecs(mats);
    &&& mats.len() <= MAX_MATERIALS
    &&& total * 4 <= MAX_CONSTANTS
    &&& m.mat_unknown3s.len() <= MAX_UNKNOWN3S
    &&& forall|i: int|
        0 <= i < mats.len() ==> spec_material_reads_back(#[trigger] mats[i], total as int)
    &&& spec_consts_agree(mats)
    &&& forall|i: int| 0 <= i < m.mat_unknown3s.len() ==> (#[trigger] m.mat_unknown3s[i]).wf()
    &&& spec_unknown4_count(m.mat_unknown3s) == m.mat_unknown4s.len()
    &&& spec_unknown4s_in_range(m.mat_unknown4s)
}

/// The facts about the materials that the sections need.
proof fn lemma_materials_facts(mats: Seq<MaterialModel>, total: int)
    requires
        total * 4 <= MAX_CONSTANTS,
        forall|i: int| 0 <= i < mats.len() ==> spec_material_reads_back(#[trigger] mats[i], total),
    ensures
        forall|i: int| 0 <= i < mats.len() ==> spec_ranges_read_back(#[trigger] mats[i]),
        forall|i: int| 0 <= i < mats.len() ==> (#[trigger] mats[i]).unknown1s.len() <= u16::MAX,
        forall|i: int|
            0 <= i < mats.len() ==> spec_textures_read_back(#[trigger] mats[i].textures),
        forall|i: int| 0 <= i < mats.len() ==> (#[trigger] disk_of(mats)[i]).accepted(),
        spec_consts_within(mats, total * 16),
{
    assert forall|i: int| 0 <= i < mats.len() implies spec_ranges_read_back(#[trigger] mats[i]) by {
        assert(spec_material_reads_back(mats[i], total));
    }
    assert forall|i: int| 0 <= i < mats.len() implies (#[trigger] disk_of(mats)[i]).accepted() by {
        assert(spec_material_reads_back(mats[i], total));
        assert(mats[i].unknown1s.len() as u16 == mats[i].unknown1s.len());
    }
    assert forall|i: int, p: int| 0 <= i < mats.len() && 0 <= p < 2 implies #[trigger] range_start(
        mats[i],
        p,
    ) + 16 * range_vecs(mats[i], p).len() <= total * 16 by {
        assert(spec_material_reads_back(mats[i], total));
    }
}

/// Where each piece of a written library lies.
proof fn lemma_matlib_pieces(m: MaterialsModel, buf: Seq<u8>, off: int)
    requires
        bytes_at(buf, off, spec_write_matlib(m, off)),
    ensures
        ({
            let mats = m.materials;
            let start = spec_align(off, 4);
            let recs = spec_material_records_bytes(mats);
            let o_unk1 = start + 0x24 + recs.len();
            let unk1 = spec_write_unknown1s(mats, o_unk1);
            let o_ranges = o_unk1 + unk1.len();
            let ranges = spec_write_const_ranges(mats, o_ranges);
            let off_consts = spec_align(o_ranges + ranges.len(), 16);
            let block = spec_const_block(mats);
            let tex = spec_textures_bytes(mats);
            let o_unk3 = off_consts + block.len() + tex.len();
            let u3 = records_bytes(m.mat_unknown3s);
            let u4 = spec_i32s_bytes(m.mat_unknown4s);
            &&& off <= start
            &&& bytes_at(buf, start, spec_written_header(m).spec_to_le_bytes())
            &&& bytes_at(buf, start + 0x24, recs)
            &&& bytes_at(buf, o_unk1, unk1)
            &&& bytes_at(buf, o_ranges, ranges)
            &&& bytes_at(buf, off_consts, block)
            &&& bytes_at(buf, off_consts + block.len(), tex)
            &&& bytes_at(buf, o_unk3, u3)
            &&& bytes_at(buf, o_unk3 + u3.len(), u4)
            &&& o_unk3 + u3.len() + u4.len() == off + spec_write_matlib(m, off).len()
        }),
{
    reveal(spec_write_matlib);
    let mats = m.materials;
    let p0 = spec_pad(off, 4);
    let hdr = spec_written_header(m).spec_to_le_bytes();
    let recs = spec_material_records_bytes(mats);
    let o_unk1 = off + p0.len() + hdr.len() + recs.len();
    let unk1 = spec_write_unknown1s(mats, o_unk1);
    let o_ranges = o_unk1 + unk1.len();
    let ranges = spec_write_const_ranges(mats, o_ranges);
    let p16 = spec_pad(o_ranges + ranges.len(), 16);
    let block = spec_const_block(mats);
    let tex = spec_textures_bytes(mats);
    let u3 = records_bytes(m.mat_unknown3s);
    let u4 = spec_i32s_bytes(m.mat_unknown4s);
    let x1 = p0 + hdr;
    let x2 = x1 + recs;
    let x3 = x2 + unk1;
    let x4 = x3 + ranges;
    let x5 = x4 + p16;
    let x6 = x5 + block;
    let x7 = x6 + tex;
    let x8 = x7 + u3;
    assert(spec_write_matlib(m, off) == x8 + u4);
    lemma_bytes_at_split(buf, off, x8, u4);
    lemma_bytes_at_split(buf, off, x7, u3);
    lemma_bytes_at_split(buf, off, x6, tex);
    lemma_bytes_at_split(buf, off, x5, block);
    lemma_bytes_at_split(buf, off, x4, p16);
    lemma_bytes_at_split(buf, off, x3, ranges);
    lemma_bytes_at_split(buf, off, x2, unk1);
    lemma_bytes_at_split(buf, off, x1, recs);
    lemma_bytes_at_split(buf, off, p0, hdr);
    lemma_align_ge(off, 4);
    lemma_align_ge(o_ranges + ranges.len(), 16);
    spec_written_header(m).lemma_bytes_len();
}

/// The first pieces that reading the library meets, read back from what writing left: the
/// header, the material records, the unknown1 records and the constant ranges.
#[verifier::spinoff_prover]
#[verifier::rlimit(60)]
proof fn lemma_matlib_sections_head(m: MaterialsModel, buf: Seq<u8>, off: int)
    requires
        spec_matlib_reads_back(m),
        bytes_at(buf, off, spec_write_matlib(m, off)),
    ensures
        ({
            let mats = m.materials;
            let start = spec_align(off, 4);
            let o_unk1 = start + 0x24 + spec_material_records_bytes(mats).len();
            let o_ranges = o_unk1 + spec_write_unknown1s(mats, o_unk1).len();
            let o_consts = spec_align(o_ranges + spec_write_const_ranges(mats, o_ranges).len(), 4);
            &&& spec_record_at::<MaterialsHeader>(buf, start) == Ok::<MaterialsHeader, crate::error::VolitionError>(
                spec_written_header(m),
            )
            &&& spec_read_run::<Material>(buf, start + 0x24, mats.len(), Seq::empty()) == Ok::<
                (Seq<Material>, int),
                (crate::error::VolitionError, int),
            >((disk_of(mats), o_unk1))
            &&& spec_read_unknown1s(buf, o_unk1, disk_of(mats), Seq::empty()) == Ok::<
                (Seq<Seq<MaterialUnknown1>>, int),
                (crate::error::VolitionError, int),
            >((unknown1s_of(mats), o_ranges))
            &&& spec_read_const_headers(buf, spec_align(o_ranges, 4), mats.len(), Seq::empty())
                == Ok::<(Seq<(MaterialConstHeader, MaterialConstHeader)>, int), (crate::error::VolitionError, int)>(
                (ranges_of(mats), o_consts),
            )
        }),
{
    let mats = m.materials;
    let total = spec_num_const_vecs(mats) as int;
    lemma_materials_facts(mats, total);
    lemma_matlib_pieces(m, buf, off);
    let recs = spec_material_records_bytes(mats);
    let start = spec_align(off, 4);
    let o_unk1 = start + 0x24 + recs.len();
    let unk1 = spec_write_unknown1s(mats, o_unk1);
    let o_ranges = o_unk1 + unk1.len();
    assert((total * 4) as u32 == total * 4);
    assert(mats.len() as u32 == mats.len());
    assert(m.mat_unknown3s.len() as u32 == m.mat_unknown3s.len());
    lemma_record_at_of(buf, start, spec_written_header(m));
    lemma_concat_bytes_congruent(
        mats,
        |x: MaterialModel| spec_to_disk(x).spec_to_le_bytes(),
        disk_of(mats),
        |r: Material| r.spec_bytes(),
    );
    lemma_read_run_of::<Material>(buf, start + 0x24, disk_of(mats));
    assert(mats.take(0) =~= Seq::<MaterialModel>::empty());
    assert(unknown1s_of(mats).take(0) =~= Seq::<Seq<MaterialUnknown1>>::empty());
    lemma_read_unknown1s_from(buf, o_unk1, mats, 0);
    assert(ranges_of(mats).take(0) =~= Seq::<(MaterialConstHeader, MaterialConstHeader)>::empty());
    lemma_read_const_headers_from(buf, o_ranges, mats, 0);
}

/// The last pieces that reading the library meets, read back from what writing left: the
/// constant block, the texture slots, the unknown3 records and the unknown4 values.
#[verifier::spinoff_prover]
#[verifier::rlimit(60)]
proof fn lemma_matlib_sections_tail(m: MaterialsModel, buf: Seq<u8>, off: int)
    requires
        spec_matlib_reads_back(m),
        bytes_at(buf, off, spec_write_matlib(m, off)),
    ensures
        ({
            let mats = m.materials;
            let total = spec_num_const_vecs(mats);
            let start = spec_align(off, 4);
            let o_unk1 = start + 0x24 + spec_material_records_bytes(mats).len();
            let o_ranges = o_unk1 + spec_write_unknown1s(mats, o_unk1).len();
            let o_consts = spec_align(o_ranges + spec_write_const_ranges(mats, o_ranges).len(), 4);
            let off_consts = spec_align(o_consts, 16);
            let end_consts = off_consts + total * 16;
            let o_unk3 = end_consts + 64 * mats.len();
            let o_unk4 = o_unk3 + records_bytes(m.mat_unknown3s).len();
            &&& spec_read_consts(buf, off_consts, end_consts, ranges_of(mats), Seq::empty()) == Ok::<
                Seq<(Seq<MaterialConst>, Seq<MaterialConst>)>,
                crate::error::VolitionError,
            >(consts_of(mats))
            &&& spec_read_textures(buf, end_consts, disk_of(mats), Seq::empty()) == Ok::<
                (Seq<Seq<MaterialTextureEntry>>, int),
                (crate::error::VolitionError, int),
            >((textures_of(mats), o_unk3))
            &&& spec_read_run::<MaterialUnknown3>(buf, o_unk3, m.mat_unknown3s.len(), Seq::empty())
                == Ok::<(Seq<MaterialUnknown3>, int), (crate::error::VolitionError, int)>(
                (m.mat_unknown3s, o_unk4),
            )
            &&& spec_read_unknown4s(buf, o_unk4, m.mat_unknown3s, 0, Seq::empty()) == Ok::<
                (Seq<i32>, int),
                (crate::error::VolitionError, int),
            >((m.mat_unknown4s, off + spec_write_matlib(m, off).len()))
        }),
{
    let mats = m.materials;
    let total = spec_num_const_vecs(mats) as int;
    lemma_materials_facts(mats, total);
    lemma_matlib_pieces(m, buf, off);
    let recs = spec_material_records_bytes(mats);
    let start = spec_align(off, 4);
    let o_unk1 = start + 0x24 + recs.len();
    let unk1 = spec_write_unknown1s(mats, o_unk1);
    let o_ranges = o_unk1 + unk1.len();
    let ranges = spec_write_const_ranges(mats, o_ranges);
    let block = spec_const_block(mats);
    let u3 = records_bytes(m.mat_unknown3s);
    let o_consts = spec_align(o_ranges + ranges.len(), 4);
    lemma_align_4_16(o_ranges + ranges.len());
    let off_consts = spec_align(o_consts, 16);
    let init = Seq::new(spec_num_const_vecs(mats) * 16, |i: int| 0xffu8);
    lemma_fill_consts_holds(init, mats);
    assert(block.len() == total * 16);
    assert(consts_of(mats).take(0) =~= Seq::<(Seq<MaterialConst>, Seq<MaterialConst>)>::empty());
    lemma_read_consts_from(buf, off_consts, block, mats, 0);
    let end_consts = off_consts + total * 16;
    assert(textures_of(mats).take(0) =~= Seq::<Seq<MaterialTextureEntry>>::empty());
    lemma_read_textures_from(buf, end_consts, mats, 0);
    let o_unk3 = end_consts + 64 * mats.len();
    lemma_read_run_of::<MaterialUnknown3>(buf, o_unk3, m.mat_unknown3s);
    let o_unk4 = o_unk3 + u3.len();
    assert(m.mat_unknown3s.take(0) =~= Seq::<MaterialUnknown3>::empty());
    assert(m.mat_unknown4s.take(0) =~= Seq::<i32>::empty());
    lemma_read_unknown4s_from(buf, o_unk4, m.mat_unknown3s, m.mat_unknown4s, 0);
    let f4 = |v: i32| i32_le(v);
    if m.mat_unknown4s.len() > 0 {
        assert forall|i: int| 0 <= i < m.mat_unknown4s.len() implies (#[trigger] f4(
            m.mat_unknown4s[i],
        )).len() == 4 by {
        }
        lemma_concat_bytes_at(buf, o_unk4, m.mat_unknown4s, f4, 4, 0);
    }
}

/// Reading back a written library gives the library. A library that satisfies
/// [`spec_matlib_reads_back`], written from offset `off` of any buffer, is read from the
/// first multiple of 4 at or after `off` as the same library, and reading ends just past the
/// written bytes.
pub proof fn lemma_matlib_write_then_read(m: MaterialsModel, buf: Seq<u8>, off: int)
    requires
        spec_matlib_reads_back(m),
        bytes_at(buf, off, spec_write_matlib(m, off)),
    ensures
        MaterialsDeserialized::spec_from_data(buf, spec_align(off, 4)) == Ok::<
            (MaterialsModel, int),
            (crate::error::VolitionError, int),
        >((m, off + spec_write_matlib(m, off).len())),
{
    let mats = m.materials;
    let total = spec_num_const_vecs(mats) as int;
    lemma_matlib_sections_head(m, buf, off);
    lemma_matlib_sections_tail(m, buf, off);
    lemma_materials_facts(mats, total);
    let all = spec_assemble_all(
        disk_of(mats),
        unknown1s_of(mats),
        ranges_of(mats),
        consts_of(mats),
        textures_of(mats),
    );
    assert forall|i: int| 0 <= i < mats.len() implies all[i] == mats[i] by {
        lemma_const_ranges_counts(mats[i]);
    }
    assert(all =~= mats);
    assert((total * 4) as u32 == total * 4);
    assert(mats.len() as u32 == mats.len());
    assert(m.mat_unknown3s.len() as u32 == m.mat_unknown3s.len());
}

} // verus!
