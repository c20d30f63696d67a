//! Writing back a library that was read gives the bytes it was read from.

use vstd::prelude::*;

use crate::error::VolitionError;
use crate::material::{
    Material, MaterialConstHeader, MaterialTextureEntry, MaterialUnknown1, MaterialUnknown3,
    MaterialsHeader,
};
use crate::materials::{
    spec_assemble_all, spec_const_vec_at, spec_read_const_headers, spec_read_const_vecs,
    spec_read_consts, spec_read_texture_slots, spec_read_textures, spec_read_unknown1s,
    spec_read_unknown4_run, spec_read_unknown4s, spec_texture_slot_at, MaterialConst, MaterialModel,
    MaterialsDeserialized, MaterialsModel,
};
use crate::materials_read_back::{
    lemma_align_4_16, lemma_align_ge, lemma_write_const_ranges_next, range_start, range_vecs,
};
use crate::materials_write::{
    lemma_const_vecs_bytes_len, spec_const_block, spec_const_ranges, spec_const_vec_bytes,
    spec_const_vecs_bytes, spec_fill_consts, spec_i32s_bytes, spec_material_records_bytes,
    spec_num_const_vecs, spec_texture_slots, spec_textures_bytes, spec_write_const_ranges,
    spec_write_matlib, spec_write_unknown1s, spec_written_header, spec_consts_placed,
    spec_matlib_write_ok, spec_ranges_fit,
};
use crate::record::{
    bytes_at, lemma_bytes_at_concat, lemma_bytes_at_split, lemma_bytes_of_read_run,
    lemma_bytes_of_record_at, lemma_concat_bytes_at, lemma_concat_bytes_congruent,
    lemma_concat_bytes_first, lemma_concat_bytes_of_pointwise, lemma_read_run_within,
    lemma_records_bytes_len, records_bytes, spec_read_run, spec_record_at, Record,
};
use crate::util::{
    i32_le, lemma_i32_le_of_read, lemma_u16_at_of, lemma_u32_at_of, lemma_u32_le_of_read,
    spec_align, spec_i32_at, spec_pad, spec_u16_at, spec_u32_at, splice, u16_le, u32_le,
};

verus! {

/// The bytes `lo..hi` of `buf` lie inside it and are zero.
pub open spec fn zeros_at(buf: Seq<u8>, lo: int, hi: int) -> bool {
    &&& 0 <= lo <= hi <= buf.len()
    &&& forall|i: int| lo <= i < hi ==> buf[i] == 0
}

/// Zero bytes up to the next multiple of `alignment` are the padding written there.
pub(crate) proof fn lemma_pad_of_zeros(buf: Seq<u8>, off: int, alignment: int)
    requires
        0 <= off,
        0 < alignment,
        zeros_at(buf, off, spec_align(off, alignment)),
    ensures
        bytes_at(buf, off, spec_pad(off, alignment)),
{
    lemma_align_ge(off, alignment);
    assert(buf.subrange(off, off + spec_pad(off, alignment).len()) =~= spec_pad(off, alignment));
}

/// The unknown1 section of the first `k + 1` materials is that of the first `k`, padding,
/// and the records of the `k`-th.
proof fn lemma_write_unknown1s_next(mats: Seq<MaterialModel>, base: int, k: int)
    requires
        0 <= k < mats.len(),
    ensures
        spec_write_unknown1s(mats.take(k + 1), base) == spec_write_unknown1s(mats.take(k), base)
            + spec_pad(base + spec_write_unknown1s(mats.take(k), base).len(), 4) + records_bytes(
            mats[k].unknown1s,
        ),
{
    assert(mats.take(k + 1).drop_last() =~= mats.take(k));
    assert(mats.take(k + 1).last() == mats[k]);
}

/// Reading the unknown1 runs after those in `acc`: the result extends `acc` to one run per
/// material record.
proof fn lemma_read_unknown1s_extends(
    buf: Seq<u8>,
    off: int,
    headers: Seq<crate::material::Material>,
    acc: Seq<Seq<MaterialUnknown1>>,
)
    requires
        0 <= off,
        acc.len() <= headers.len(),
        spec_read_unknown1s(buf, off, headers, acc) is Ok,
    ensures
        spec_read_unknown1s(buf, off, headers, acc)->Ok_0.0.len() == headers.len(),
        spec_read_unknown1s(buf, off, headers, acc)->Ok_0.0.take(acc.len() as int) == acc,
        forall|k: int|
            acc.len() <= k < headers.len() ==> (#[trigger] spec_read_unknown1s(
                buf,
                off,
                headers,
                acc,
            )->Ok_0.0[k]).len() == headers[k].num_unknown,
        off <= spec_read_unknown1s(buf, off, headers, acc)->Ok_0.1,
    decreases headers.len() - acc.len(),
{
    let v = spec_read_unknown1s(buf, off, headers, acc)->Ok_0.0;
    if acc.len() == headers.len() {
        assert(v.take(acc.len() as int) =~= acc);
    } else {
        lemma_align_ge(off, 4);
        let (run0, next0) = crate::record::spec_read_run::<MaterialUnknown1>(
            buf,
            spec_align(off, 4),
            headers[acc.len() as int].num_unknown as nat,
            Seq::empty(),
        )->Ok_0;
        crate::record::lemma_read_run_within::<MaterialUnknown1>(
            buf,
            spec_align(off, 4),
            headers[acc.len() as int].num_unknown as nat,
            Seq::empty(),
        );
        let (run, next) = crate::record::spec_read_run::<MaterialUnknown1>(
            buf,
            spec_align(off, 4),
            headers[acc.len() as int].num_unknown as nat,
            Seq::empty(),
        )->Ok_0;
        lemma_read_unknown1s_extends(buf, next, headers, acc.push(run));
        assert(v.take(acc.len() as int) =~= v.take(acc.len() as int + 1).take(acc.len() as int));
        assert(v[acc.len() as int] == v.take(acc.len() as int + 1)[acc.len() as int]);
    }
}

/// Writing back the unknown1 runs that were read, from the `k`-th material on: with zero
/// padding, the buffer holds what writing them gives.
proof fn lemma_unknown1s_cycle(
    buf: Seq<u8>,
    base: int,
    headers: Seq<crate::material::Material>,
    mats: Seq<MaterialModel>,
    v: Seq<Seq<MaterialUnknown1>>,
    o: int,
    k: int,
)
    requires
        0 <= base,
        mats.len() == headers.len(),
        v.len() == headers.len(),
        forall|i: int| 0 <= i < mats.len() ==> (#[trigger] mats[i]).unknown1s == v[i],
        0 <= k <= mats.len(),
        spec_read_unknown1s(
            buf,
            base + spec_write_unknown1s(mats.take(k), base).len(),
            headers,
            v.take(k),
        ) == Ok::<(Seq<Seq<MaterialUnknown1>>, int), (VolitionError, int)>((v, o)),
        bytes_at(buf, base, spec_write_unknown1s(mats.take(k), base)),
        forall|j: int|
            k <= j < mats.len() ==> zeros_at(
                buf,
                base + spec_write_unknown1s(#[trigger] mats.take(j), base).len(),
                spec_align(base + spec_write_unknown1s(mats.take(j), base).len(), 4),
            ),
    ensures
        bytes_at(buf, base, spec_write_unknown1s(mats, base)),
        o == base + spec_write_unknown1s(mats, base).len(),
    decreases mats.len() - k,
{
    if k == mats.len() {
        assert(mats.take(k) =~= mats);
        assert(v.take(k) =~= v);
    } else {
        let wk = spec_write_unknown1s(mats.take(k), base);
        let p = base + wk.len();
        assert(zeros_at(buf, p, spec_align(p, 4)));
        lemma_align_ge(p, 4);
        let rd = crate::record::spec_read_run::<MaterialUnknown1>(
            buf,
            spec_align(p, 4),
            headers[k].num_unknown as nat,
            Seq::empty(),
        );
        let (run, next) = rd->Ok_0;
        lemma_bytes_of_read_run::<MaterialUnknown1>(
            buf,
            spec_align(p, 4),
            headers[k].num_unknown as nat,
            Seq::empty(),
        );
        lemma_read_unknown1s_extends(buf, next, headers, v.take(k).push(run));
        assert(v.take(k).push(run) =~= v.take(k + 1));
        assert(v[k] == v.take(k + 1)[k]);
        lemma_bytes_of_read_run::<MaterialUnknown1>(
            buf,
            spec_align(p, 4),
            headers[k].num_unknown as nat,
            Seq::empty(),
        );
        assert(run.skip(0) =~= run);
        lemma_pad_of_zeros(buf, p, 4);
        lemma_bytes_at_concat(buf, base, wk, spec_pad(p, 4));
        lemma_bytes_at_concat(buf, base, wk + spec_pad(p, 4), records_bytes(run));
        lemma_write_unknown1s_next(mats, base, k);
        assert(mats[k].unknown1s == v[k]);
        lemma_unknown1s_cycle(buf, base, headers, mats, v, o, k + 1);
    }
}

/// Reading the constant-range pairs after those in `acc`: the result extends `acc` to
/// `count` pairs.
proof fn lemma_read_const_headers_extends(
    buf: Seq<u8>,
    off: int,
    count: nat,
    acc: Seq<(MaterialConstHeader, MaterialConstHeader)>,
)
    requires
        acc.len() <= count,
        spec_read_const_headers(buf, off, count, acc) is Ok,
    ensures
        spec_read_const_headers(buf, off, count, acc)->Ok_0.0.len() == count,
        spec_read_const_headers(buf, off, count, acc)->Ok_0.0.take(acc.len() as int) == acc,
        spec_read_const_headers(buf, off, count, acc)->Ok_0.1 == off + 16 * (count - acc.len()),
    decreases count - acc.len(),
{
    let v = spec_read_const_headers(buf, off, count, acc)->Ok_0.0;
    if acc.len() == count {
        assert(v.take(acc.len() as int) =~= acc);
    } else {
        let a = crate::materials::spec_const_header_at(buf, off)->Ok_0;
        let b = crate::materials::spec_const_header_at(buf, off + 8)->Ok_0;
        lemma_read_const_headers_extends(buf, off + 16, count, acc.push((a, b)));
        assert(v.take(acc.len() as int) =~= v.take(acc.len() as int + 1).take(acc.len() as int));
    }
}

/// The constant-range pairs that reading from `off` on gives.
spec fn pairs_read(
    buf: Seq<u8>,
    off: int,
    count: nat,
    acc: Seq<(MaterialConstHeader, MaterialConstHeader)>,
) -> Seq<(MaterialConstHeader, MaterialConstHeader)> {
    spec_read_const_headers(buf, off, count, acc)->Ok_0.0
}

/// The constant-range pairs read from `off` on, after those in `acc`: the buffer holds the
/// bytes of each, 16 bytes apart, and each count and start is a multiple of 4.
proof fn lemma_read_const_headers_bytes(
    buf: Seq<u8>,
    off: int,
    count: nat,
    acc: Seq<(MaterialConstHeader, MaterialConstHeader)>,
)
    requires
        0 <= off,
        acc.len() <= count,
        spec_read_const_headers(buf, off, count, acc) is Ok,
    ensures
        forall|j: int|
            acc.len() <= j < count ==> {
                &&& bytes_at(
                    buf,
                    off + 16 * (j - acc.len()),
                    (#[trigger] pairs_read(buf, off, count, acc)[j]).0.spec_to_le_bytes(),
                )
                &&& bytes_at(
                    buf,
                    off + 16 * (j - acc.len()) + 8,
                    pairs_read(buf, off, count, acc)[j].1.spec_to_le_bytes(),
                )
                &&& pairs_read(buf, off, count, acc)[j].0.num_floats % 4 == 0
                &&& pairs_read(buf, off, count, acc)[j].1.num_floats % 4 == 0
                &&& pairs_read(buf, off, count, acc)[j].0.first_float % 4 == 0
                &&& pairs_read(buf, off, count, acc)[j].1.first_float % 4 == 0
            },
    decreases count - acc.len(),
{
    let v = pairs_read(buf, off, count, acc);
    if acc.len() < count {
        let a = crate::materials::spec_const_header_at(buf, off)->Ok_0;
        let b = crate::materials::spec_const_header_at(buf, off + 8)->Ok_0;
        lemma_bytes_of_record_at::<MaterialConstHeader>(buf, off);
        lemma_bytes_of_record_at::<MaterialConstHeader>(buf, off + 8);
        lemma_read_const_headers_extends(buf, off + 16, count, acc.push((a, b)));
        lemma_read_const_headers_bytes(buf, off + 16, count, acc.push((a, b)));
        let n = acc.len() as int;
        assert(v.take(n + 1)[n] == (a, b));
        assert(pairs_read(buf, off + 16, count, acc.push((a, b))) == v);
        assert forall|j: int| acc.len() <= j < count implies {
            &&& bytes_at(buf, off + 16 * (j - acc.len()), (#[trigger] v[j]).0.spec_to_le_bytes())
            &&& bytes_at(buf, off + 16 * (j - acc.len()) + 8, v[j].1.spec_to_le_bytes())
            &&& v[j].0.num_floats % 4 == 0
            &&& v[j].1.num_floats % 4 == 0
            &&& v[j].0.first_float % 4 == 0
            &&& v[j].1.first_float % 4 == 0
        } by {
            if j > n {
                assert(off + 16 + 16 * (j - (n + 1)) == off + 16 * (j - n));
            }
        }
    }
}

/// Writing back the constant-range pairs that were read, from the `k`-th material on: with
/// zero padding before the first, the buffer holds what writing them gives.
proof fn lemma_const_ranges_cycle(
    buf: Seq<u8>,
    base: int,
    mats: Seq<MaterialModel>,
    v: Seq<(MaterialConstHeader, MaterialConstHeader)>,
    k: int,
)
    requires
        0 <= base,
        v.len() == mats.len(),
        forall|i: int| 0 <= i < mats.len() ==> spec_const_ranges(#[trigger] mats[i]) == v[i],
        forall|j: int|
            0 <= j < mats.len() ==> bytes_at(
                buf,
                spec_align(base, 4) + 16 * j,
                (#[trigger] v[j]).0.spec_to_le_bytes(),
            ) && bytes_at(buf, spec_align(base, 4) + 16 * j + 8, v[j].1.spec_to_le_bytes()),
        mats.len() > 0 ==> zeros_at(buf, base, spec_align(base, 4)),
        0 <= k <= mats.len(),
        bytes_at(buf, base, spec_write_const_ranges(mats.take(k), base)),
        base + spec_write_const_ranges(mats.take(k), base).len() == if k == 0 {
            base
        } else {
            spec_align(base, 4) + 16 * k
        },
    ensures
        bytes_at(buf, base, spec_write_const_ranges(mats, base)),
        base + spec_write_const_ranges(mats, base).len() == if mats.len() == 0 {
            base
        } else {
            spec_align(base, 4) + 16 * mats.len()
        },
    decreases mats.len() - k,
{
    lemma_align_ge(base, 4);
    if k == mats.len() {
        assert(mats.take(k) =~= mats);
    } else {
        let wk = spec_write_const_ranges(mats.take(k), base);
        let p = base + wk.len();
        let q = spec_align(base, 4) + 16 * k;
        if k > 0 {
            lemma_align_ge(p, 4);
            assert(p % 4 == 0);
            assert(spec_align(p, 4) == p);
            assert(zeros_at(buf, p, p));
        }
        assert(spec_align(p, 4) == q);
        assert(spec_const_ranges(mats[k]) == v[k]);
        lemma_const_ranges_bytes_step(buf, base, mats, k);
        lemma_const_ranges_cycle(buf, base, mats, v, k + 1);
    }
}

/// The bytes of the pair of the `k`-th material, after zero padding, extend what the buffer
/// holds of the section.
proof fn lemma_const_ranges_bytes_step(buf: Seq<u8>, base: int, mats: Seq<MaterialModel>, k: int)
    requires
        0 <= base,
        0 <= k < mats.len(),
        bytes_at(buf, base, spec_write_const_ranges(mats.take(k), base)),
        zeros_at(
            buf,
            base + spec_write_const_ranges(mats.take(k), base).len(),
            spec_align(base + spec_write_const_ranges(mats.take(k), base).len(), 4),
        ),
        bytes_at(
            buf,
            spec_align(base + spec_write_const_ranges(mats.take(k), base).len(), 4),
            spec_const_ranges(mats[k]).0.spec_to_le_bytes(),
        ),
        bytes_at(
            buf,
            spec_align(base + spec_write_const_ranges(mats.take(k), base).len(), 4) + 8,
            spec_const_ranges(mats[k]).1.spec_to_le_bytes(),
        ),
    ensures
        bytes_at(buf, base, spec_write_const_ranges(mats.take(k + 1), base)),
        base + spec_write_const_ranges(mats.take(k + 1), base).len() == spec_align(
            base + spec_write_const_ranges(mats.take(k), base).len(),
            4,
        ) + 16,
{
    let wk = spec_write_const_ranges(mats.take(k), base);
    let p = base + wk.len();
    let pad = spec_pad(p, 4);
    let a = spec_const_ranges(mats[k]).0.spec_to_le_bytes();
    let b = spec_const_ranges(mats[k]).1.spec_to_le_bytes();
    lemma_align_ge(p, 4);
    lemma_pad_of_zeros(buf, p, 4);
    assert(a.len() == 8);
    assert(b.len() == 8);
    lemma_bytes_at_concat(buf, base, wk, pad);
    lemma_bytes_at_concat(buf, base, wk + pad, a);
    lemma_bytes_at_concat(buf, base, wk + pad + a, b);
    lemma_write_const_ranges_next(mats, base, k);
}


/// Byte `j` of the constant block lies in the non-empty range `side` of `m`.
pub open spec fn in_range(m: MaterialModel, side: int, j: int) -> bool {
    &&& range_vecs(m, side).len() > 0
    &&& range_start(m, side) <= j < range_start(m, side) + 16 * range_vecs(m, side).len()
}

/// Byte `j` of the constant block lies in some non-empty constant range of the materials.
pub open spec fn spec_covered(mats: Seq<MaterialModel>, j: int) -> bool
    decreases mats.len(),
{
    if mats.len() == 0 {
        false
    } else {
        spec_covered(mats.drop_last(), j) || in_range(mats.last(), 0, j) || in_range(
            mats.last(),
            1,
            j,
        )
    }
}

/// Byte `j` after writing `x` at `off`.
proof fn lemma_splice_index(s: Seq<u8>, off: int, x: Seq<u8>, j: int)
    requires
        0 <= off,
        off + x.len() <= s.len(),
        0 <= j < s.len(),
    ensures
        splice(s, off, x).len() == s.len(),
        splice(s, off, x)[j] == if off <= j < off + x.len() {
            x[j - off]
        } else {
            s[j]
        },
{
}

/// Filling an all-0xff block with constant ranges that hold the bytes of `b` gives `b` where
/// a range covers it and 0xff elsewhere.
proof fn lemma_fill_consts_matches(init: Seq<u8>, b: Seq<u8>, mats: Seq<MaterialModel>)
    requires
        init.len() == b.len(),
        forall|j: int| 0 <= j < init.len() ==> init[j] == 0xff,
        forall|i: int, p: int|
            0 <= i < mats.len() && 0 <= p < 2 && range_vecs(mats[i], p).len() > 0 ==> {
                &&& #[trigger] range_start(mats[i], p) + 16 * range_vecs(mats[i], p).len()
                    <= b.len()
                &&& b.subrange(
                    range_start(mats[i], p),
                    range_start(mats[i], p) + 16 * range_vecs(mats[i], p).len(),
                ) == spec_const_vecs_bytes(range_vecs(mats[i], p))
            },
    ensures
        spec_fill_consts(init, mats).len() == b.len(),
        forall|j: int|
            0 <= j < b.len() ==> #[trigger] spec_fill_consts(init, mats)[j] == if spec_covered(
                mats,
                j,
            ) {
                b[j]
            } else {
                0xffu8
            },
    decreases mats.len(),
{
    if mats.len() > 0 {
        let n = mats.len() - 1;
        let prev = mats.drop_last();
        assert forall|i: int, p: int|
            0 <= i < prev.len() && 0 <= p < 2 && range_vecs(prev[i], p).len() > 0 implies {
                &&& #[trigger] range_start(prev[i], p) + 16 * range_vecs(prev[i], p).len()
                    <= b.len()
                &&& b.subrange(
                    range_start(prev[i], p),
                    range_start(prev[i], p) + 16 * range_vecs(prev[i], p).len(),
                ) == spec_const_vecs_bytes(range_vecs(prev[i], p))
            } by {
            assert(prev[i] == mats[i]);
            assert(range_start(mats[i], p) == range_start(prev[i], p));
        }
        lemma_fill_consts_matches(init, b, prev);
        let f0 = spec_fill_consts(init, prev);
        let m = mats[n];
        assert(mats.last() == m);
        let va = spec_const_vecs_bytes(m.const_vecs_a);
        let vb = spec_const_vecs_bytes(m.const_vecs_b);
        lemma_const_vecs_bytes_len(m.const_vecs_a);
        lemma_const_vecs_bytes_len(m.const_vecs_b);
        let sa = m.consts_a_first * 4;
        let sb = m.consts_b_first * 4;
        if m.const_vecs_a.len() > 0 {
            assert(range_start(mats[n], 0) == sa);
        }
        if m.const_vecs_b.len() > 0 {
            assert(range_start(mats[n], 1) == sb);
        }
        let f1 = if m.const_vecs_a.len() == 0 {
            f0
        } else {
            splice(f0, sa, va)
        };
        let f2 = if m.const_vecs_b.len() == 0 {
            f1
        } else {
            splice(f1, sb, vb)
        };
        assert(spec_fill_consts(init, mats) == f2);
        assert forall|j: int| 0 <= j < b.len() implies #[trigger] f2[j] == if spec_covered(
            mats,
            j,
        ) {
            b[j]
        } else {
            0xffu8
        } by {
            if m.const_vecs_a.len() > 0 {
                lemma_splice_index(f0, sa, va, j);
                if sa <= j < sa + va.len() {
                    assert(b.subrange(sa, sa + va.len())[j - sa] == b[j]);
                }
            }
            if m.const_vecs_b.len() > 0 {
                lemma_splice_index(f1, sb, vb, j);
                if sb <= j < sb + vb.len() {
                    assert(b.subrange(sb, sb + vb.len())[j - sb] == b[j]);
                }
            }
            assert(f0[j] == if spec_covered(prev, j) {
                b[j]
            } else {
                0xffu8
            });
        }
        assert(f2.len() == b.len());
    }
}

/// The constant vectors read from `off` on, after those in `acc`: the result extends `acc`
/// by `count` vectors, whose bytes the buffer holds from `off` on.
proof fn lemma_read_const_vecs_bytes(buf: Seq<u8>, off: int, count: nat, acc: Seq<MaterialConst>)
    requires
        0 <= off,
        spec_read_const_vecs(buf, off, count, acc) is Ok,
    ensures
        spec_read_const_vecs(buf, off, count, acc)->Ok_0.len() == acc.len() + count,
        spec_read_const_vecs(buf, off, count, acc)->Ok_0.take(acc.len() as int) == acc,
        count > 0 ==> bytes_at(
            buf,
            off,
            spec_const_vecs_bytes(
                spec_read_const_vecs(buf, off, count, acc)->Ok_0.skip(acc.len() as int),
            ),
        ),
    decreases count,
{
    let v = spec_read_const_vecs(buf, off, count, acc)->Ok_0;
    let a = acc.len() as int;
    if count == 0 {
        assert(v.take(a) =~= acc);
    } else {
        let c = spec_const_vec_at(buf, off)->Ok_0;
        lemma_read_const_vecs_bytes(buf, off + 16, (count - 1) as nat, acc.push(c));
        assert(v.take(a) =~= v.take(a + 1).take(a));
        assert(v[a] == v.take(a + 1)[a]);
        lemma_u32_le_of_read(buf, off);
        lemma_u32_le_of_read(buf, off + 4);
        lemma_u32_le_of_read(buf, off + 8);
        lemma_u32_le_of_read(buf, off + 12);
        assert(spec_const_vec_bytes(c) =~= buf.subrange(off, off + 16));
        let rest = v.skip(a);
        assert(rest.drop_first() =~= v.skip(a + 1));
        assert(rest[0] == c);
        lemma_concat_bytes_first(rest, |x: MaterialConst| spec_const_vec_bytes(x));
        if count == 1 {
            assert(v.skip(a + 1) =~= Seq::<MaterialConst>::empty());
            assert(buf.subrange(off + 16, off + 16) =~= Seq::<u8>::empty());
        }
        lemma_bytes_at_concat(buf, off, spec_const_vec_bytes(c), spec_const_vecs_bytes(v.skip(a + 1)));
    }
}


/// The constants that reading the ranges `pairs` from the block at `oc` gives.
spec fn consts_read(
    buf: Seq<u8>,
    oc: int,
    ec: int,
    pairs: Seq<(MaterialConstHeader, MaterialConstHeader)>,
    acc: Seq<(Seq<MaterialConst>, Seq<MaterialConst>)>,
) -> Seq<(Seq<MaterialConst>, Seq<MaterialConst>)> {
    spec_read_consts(buf, oc, ec, pairs, acc)->Ok_0
}

/// The constants read for the ranges `pairs` after those in `acc`: each range has as many
/// vectors as its count says, ends inside the block, and the buffer holds the bytes of its
/// vectors where it starts.
proof fn lemma_read_consts_bytes(
    buf: Seq<u8>,
    oc: int,
    ec: int,
    pairs: Seq<(MaterialConstHeader, MaterialConstHeader)>,
    acc: Seq<(Seq<MaterialConst>, Seq<MaterialConst>)>,
)
    requires
        0 <= oc,
        acc.len() <= pairs.len(),
        spec_read_consts(buf, oc, ec, pairs, acc) is Ok,
    ensures
        consts_read(buf, oc, ec, pairs, acc).len() == pairs.len(),
        consts_read(buf, oc, ec, pairs, acc).take(acc.len() as int) == acc,
        forall|j: int|
            acc.len() <= j < pairs.len() ==> {
                &&& (#[trigger] consts_read(buf, oc, ec, pairs, acc)[j]).0.len()
                    == pairs[j].0.num_floats / 4
                &&& consts_read(buf, oc, ec, pairs, acc)[j].1.len() == pairs[j].1.num_floats / 4
                &&& oc + pairs[j].0.first_float * 4 + pairs[j].0.num_floats * 4 <= ec
                &&& oc + pairs[j].1.first_float * 4 + pairs[j].1.num_floats * 4 <= ec
                &&& consts_read(buf, oc, ec, pairs, acc)[j].0.len() > 0 ==> bytes_at(
                    buf,
                    oc + pairs[j].0.first_float * 4,
                    spec_const_vecs_bytes(consts_read(buf, oc, ec, pairs, acc)[j].0),
                )
                &&& consts_read(buf, oc, ec, pairs, acc)[j].1.len() > 0 ==> bytes_at(
                    buf,
                    oc + pairs[j].1.first_float * 4,
                    spec_const_vecs_bytes(consts_read(buf, oc, ec, pairs, acc)[j].1),
                )
            },
    decreases pairs.len() - acc.len(),
{
    let v = consts_read(buf, oc, ec, pairs, acc);
    let k = acc.len() as int;
    if k == pairs.len() {
        assert(v.take(k) =~= acc);
    } else {
        let a = pairs[k].0;
        let b = pairs[k].1;
        let sa = oc + a.first_float * 4;
        let sb = oc + b.first_float * 4;
        let va = spec_read_const_vecs(buf, sa, (a.num_floats / 4) as nat, Seq::empty())->Ok_0;
        let vb = spec_read_const_vecs(buf, sb, (b.num_floats / 4) as nat, Seq::empty())->Ok_0;
        lemma_read_const_vecs_bytes(buf, sa, (a.num_floats / 4) as nat, Seq::empty());
        lemma_read_const_vecs_bytes(buf, sb, (b.num_floats / 4) as nat, Seq::empty());
        assert(va.skip(0) =~= va);
        assert(vb.skip(0) =~= vb);
        lemma_read_consts_bytes(buf, oc, ec, pairs, acc.push((va, vb)));
        assert(consts_read(buf, oc, ec, pairs, acc.push((va, vb))) == v);
        assert(v.take(k) =~= v.take(k + 1).take(k));
        assert(v[k] == v.take(k + 1)[k]);
    }
}


/// The entries that reading texture slots from `slot` on gives.
spec fn slots_read(
    buf: Seq<u8>,
    off: int,
    n: u16,
    slot: nat,
    acc: Seq<MaterialTextureEntry>,
) -> Seq<MaterialTextureEntry> {
    spec_read_texture_slots(buf, off, n, slot, acc)->Ok_0.0
}

/// The texture slots read from slot `slot` on: with at most 16 used slots, the entries are
/// those of the used slots and the buffer holds, slot by slot, what writing them gives.
proof fn lemma_read_texture_slots_bytes(
    buf: Seq<u8>,
    off: int,
    n: u16,
    slot: nat,
    acc: Seq<MaterialTextureEntry>,
)
    requires
        0 <= off,
        n <= 16,
        slot <= 16,
        acc.len() == if slot < n {
            slot as int
        } else {
            n as int
        },
        spec_read_texture_slots(buf, off, n, slot, acc) is Ok,
    ensures
        slots_read(buf, off, n, slot, acc).len() == n,
        slots_read(buf, off, n, slot, acc).take(acc.len() as int) == acc,
        spec_read_texture_slots(buf, off, n, slot, acc)->Ok_0.1 == off + 4 * (16 - slot),
        forall|i: int|
            slot <= i < 16 ==> bytes_at(
                buf,
                off + 4 * (i - slot),
                (#[trigger] spec_texture_slots(slots_read(buf, off, n, slot, acc))[i]).spec_bytes(),
            ),
    decreases 16 - slot,
{
    let t = slots_read(buf, off, n, slot, acc);
    if slot == 16 {
        assert(t.take(acc.len() as int) =~= acc);
    } else {
        let e = spec_texture_slot_at(buf, off, slot as int, n)->Ok_0;
        lemma_bytes_of_record_at::<MaterialTextureEntry>(buf, off);
        let next = if slot < n {
            acc.push(e)
        } else {
            acc
        };
        lemma_read_texture_slots_bytes(buf, off + 4, n, slot + 1, next);
        assert(slots_read(buf, off + 4, n, slot + 1, next) == t);
        assert(t.take(acc.len() as int) =~= t.take(next.len() as int).take(acc.len() as int));
        if slot < n {
            assert(t[slot as int] == t.take(next.len() as int)[slot as int]);
            assert(spec_texture_slots(t)[slot as int] == e);
        } else {
            assert(e == MaterialTextureEntry::spec_placeholder());
            assert(spec_texture_slots(t)[slot as int] == e);
        }
        assert forall|i: int| slot <= i < 16 implies bytes_at(
            buf,
            off + 4 * (i - slot),
            (#[trigger] spec_texture_slots(t)[i]).spec_bytes(),
        ) by {
            if i > slot {
                assert(off + 4 + 4 * (i - (slot + 1)) == off + 4 * (i - slot));
            }
        }
    }
}

/// The texture entries that reading the slots of the materials gives.
spec fn textures_read(
    buf: Seq<u8>,
    off: int,
    headers: Seq<Material>,
    acc: Seq<Seq<MaterialTextureEntry>>,
) -> Seq<Seq<MaterialTextureEntry>> {
    spec_read_textures(buf, off, headers, acc)->Ok_0.0
}

/// The texture slots of the materials read from `off` on, after those in `acc`: with at most
/// 16 textures per material, the buffer holds what writing each material's entries gives.
proof fn lemma_read_textures_bytes(
    buf: Seq<u8>,
    off: int,
    headers: Seq<Material>,
    acc: Seq<Seq<MaterialTextureEntry>>,
)
    requires
        0 <= off,
        acc.len() <= headers.len(),
        forall|k: int| 0 <= k < headers.len() ==> (#[trigger] headers[k]).num_textures <= 16,
        spec_read_textures(buf, off, headers, acc) is Ok,
    ensures
        textures_read(buf, off, headers, acc).len() == headers.len(),
        textures_read(buf, off, headers, acc).take(acc.len() as int) == acc,
        spec_read_textures(buf, off, headers, acc)->Ok_0.1 == off + 64 * (headers.len()
            - acc.len()),
        forall|k: int|
            acc.len() <= k < headers.len() ==> {
                &&& (#[trigger] textures_read(buf, off, headers, acc)[k]).len()
                    == headers[k].num_textures
                &&& bytes_at(
                    buf,
                    off + 64 * (k - acc.len()),
                    records_bytes(spec_texture_slots(textures_read(buf, off, headers, acc)[k])),
                )
            },
    decreases headers.len() - acc.len(),
{
    let v = textures_read(buf, off, headers, acc);
    let a = acc.len() as int;
    if a == headers.len() {
        assert(v.take(a) =~= acc);
    } else {
        let n = headers[a].num_textures;
        let (t, next) = spec_read_texture_slots(buf, off, n, 0, Seq::empty())->Ok_0;
        lemma_read_texture_slots_bytes(buf, off, n, 0, Seq::empty());
        let slots = spec_texture_slots(t);
        let f = |r: MaterialTextureEntry| r.spec_bytes();
        assert forall|i: int| 0 <= i < slots.len() implies (#[trigger] f(slots[i])).len() == 4
            && bytes_at(buf, off + i * 4, f(slots[i])) by {
            slots[i].lemma_bytes_len();
        }
        lemma_concat_bytes_of_pointwise(buf, off, slots, f, 4);
        lemma_read_textures_bytes(buf, next, headers, acc.push(t));
        assert(textures_read(buf, next, headers, acc.push(t)) == v);
        assert(v.take(a) =~= v.take(a + 1).take(a));
        assert(v[a] == v.take(a + 1)[a]);
        assert forall|k: int| a <= k < headers.len() implies {
            &&& (#[trigger] v[k]).len() == headers[k].num_textures
            &&& bytes_at(buf, off + 64 * (k - a), records_bytes(spec_texture_slots(v[k])))
        } by {
            if k > a {
                assert(off + 64 + 64 * (k - (a + 1)) == off + 64 * (k - a));
            }
        }
    }
}

/// The values that reading the unknown4 values gives.
spec fn values_read(
    buf: Seq<u8>,
    off: int,
    unk3s: Seq<MaterialUnknown3>,
    i: nat,
    acc: Seq<i32>,
) -> Seq<i32> {
    spec_read_unknown4s(buf, off, unk3s, i, acc)->Ok_0.0
}

/// A run of unknown4 values read from `off` on, after those in `acc`: the buffer holds each
/// value's bytes, 4 bytes apart.
proof fn lemma_read_unknown4_run_bytes(buf: Seq<u8>, off: int, count: nat, acc: Seq<i32>)
    requires
        0 <= off,
        spec_read_unknown4_run(buf, off, count, acc) is Ok,
    ensures
        spec_read_unknown4_run(buf, off, count, acc)->Ok_0.0.len() == acc.len() + count,
        spec_read_unknown4_run(buf, off, count, acc)->Ok_0.0.take(acc.len() as int) == acc,
        spec_read_unknown4_run(buf, off, count, acc)->Ok_0.1 == off + 4 * count,
        forall|j: int|
            acc.len() <= j < acc.len() + count ==> bytes_at(
                buf,
                off + 4 * (j - acc.len()),
                i32_le(#[trigger] spec_read_unknown4_run(buf, off, count, acc)->Ok_0.0[j]),
            ),
    decreases count,
{
    let v = spec_read_unknown4_run(buf, off, count, acc)->Ok_0.0;
    let a = acc.len() as int;
    if count == 0 {
        assert(v.take(a) =~= acc);
    } else {
        let x = spec_i32_at(buf, off);
        lemma_read_unknown4_run_bytes(buf, off + 4, (count - 1) as nat, acc.push(x));
        assert(v.take(a) =~= v.take(a + 1).take(a));
        assert(v[a] == v.take(a + 1)[a]);
        lemma_i32_le_of_read(buf, off);
        assert forall|j: int| a <= j < a + count implies bytes_at(
            buf,
            off + 4 * (j - a),
            i32_le(#[trigger] v[j]),
        ) by {
            if j > a {
                assert(off + 4 + 4 * (j - (a + 1)) == off + 4 * (j - a));
            }
        }
    }
}

/// The unknown4 values of the records from the `i`-th on, read from `off` on after those in
/// `acc`: the buffer holds each value's bytes, 4 bytes apart, up to where reading ends.
proof fn lemma_read_unknown4s_bytes(
    buf: Seq<u8>,
    off: int,
    unk3s: Seq<MaterialUnknown3>,
    i: nat,
    acc: Seq<i32>,
)
    requires
        0 <= off,
        spec_read_unknown4s(buf, off, unk3s, i, acc) is Ok,
    ensures
        values_read(buf, off, unk3s, i, acc).len() >= acc.len(),
        values_read(buf, off, unk3s, i, acc).take(acc.len() as int) == acc,
        spec_read_unknown4s(buf, off, unk3s, i, acc)->Ok_0.1 == off + 4 * (values_read(
            buf,
            off,
            unk3s,
            i,
            acc,
        ).len() - acc.len()),
        forall|j: int|
            acc.len() <= j < values_read(buf, off, unk3s, i, acc).len() ==> bytes_at(
                buf,
                off + 4 * (j - acc.len()),
                i32_le(#[trigger] values_read(buf, off, unk3s, i, acc)[j]),
            ),
    decreases unk3s.len() - i,
{
    let v = values_read(buf, off, unk3s, i, acc);
    let a = acc.len() as int;
    if i >= unk3s.len() {
        assert(v.take(a) =~= acc);
    } else {
        let c = unk3s[i as int].num_mat_unk4 as nat;
        let (mid, next) = spec_read_unknown4_run(buf, off, c, acc)->Ok_0;
        lemma_read_unknown4_run_bytes(buf, off, c, acc);
        lemma_read_unknown4s_bytes(buf, next, unk3s, i + 1, mid);
        assert(values_read(buf, next, unk3s, i + 1, mid) == v);
        assert(v.take(a) =~= v.take(mid.len() as int).take(a));
        assert forall|j: int| a <= j < v.len() implies bytes_at(
            buf,
            off + 4 * (j - a),
            i32_le(#[trigger] v[j]),
        ) by {
            if j < mid.len() {
                assert(v[j] == v.take(mid.len() as int)[j]);
                assert(mid[j] == v[j]);
            } else {
                assert(next + 4 * (j - mid.len()) == off + 4 * (j - a));
            }
        }
    }
}


/// The library header read at `s`.
spec fn rd_header(buf: Seq<u8>, s: int) -> MaterialsHeader {
    spec_record_at::<MaterialsHeader>(buf, s)->Ok_0
}

/// The material records read after the header, and where they end.
spec fn rd_records(buf: Seq<u8>, s: int) -> (Seq<Material>, int) {
    spec_read_run::<Material>(buf, s + 0x24, rd_header(buf, s).num_materials as nat, Seq::empty())->Ok_0
}

/// The unknown1 runs read after the material records, and where they end.
spec fn rd_unknown1s(buf: Seq<u8>, s: int) -> (Seq<Seq<MaterialUnknown1>>, int) {
    spec_read_unknown1s(buf, rd_records(buf, s).1, rd_records(buf, s).0, Seq::empty())->Ok_0
}

/// The constant-range pairs read after the unknown1 runs, and where they end.
spec fn rd_ranges(buf: Seq<u8>, s: int) -> (Seq<(MaterialConstHeader, MaterialConstHeader)>, int) {
    spec_read_const_headers(
        buf,
        spec_align(rd_unknown1s(buf, s).1, 4),
        rd_header(buf, s).num_materials as nat,
        Seq::empty(),
    )->Ok_0
}

/// Where the constant block starts.
spec fn rd_off_consts(buf: Seq<u8>, s: int) -> int {
    spec_align(rd_ranges(buf, s).1, 16)
}

/// Where the constant block ends.
spec fn rd_end_consts(buf: Seq<u8>, s: int) -> int {
    rd_off_consts(buf, s) + rd_header(buf, s).num_const_floats * 4
}

/// The constants read from the block.
spec fn rd_consts(buf: Seq<u8>, s: int) -> Seq<(Seq<MaterialConst>, Seq<MaterialConst>)> {
    spec_read_consts(
        buf,
        rd_off_consts(buf, s),
        rd_end_consts(buf, s),
        rd_ranges(buf, s).0,
        Seq::empty(),
    )->Ok_0
}

/// The texture entries read after the block, and where they end.
spec fn rd_textures(buf: Seq<u8>, s: int) -> (Seq<Seq<MaterialTextureEntry>>, int) {
    spec_read_textures(buf, rd_end_consts(buf, s), rd_records(buf, s).0, Seq::empty())->Ok_0
}

/// The unknown3 records read after the texture slots, and where they end.
spec fn rd_unknown3s(buf: Seq<u8>, s: int) -> (Seq<MaterialUnknown3>, int) {
    spec_read_run::<MaterialUnknown3>(
        buf,
        rd_textures(buf, s).1,
        rd_header(buf, s).num_mat_unknown3 as nat,
        Seq::empty(),
    )->Ok_0
}

/// The unknown4 values read after the unknown3 records, and where they end.
spec fn rd_unknown4s(buf: Seq<u8>, s: int) -> (Seq<i32>, int) {
    spec_read_unknown4s(buf, rd_unknown3s(buf, s).1, rd_unknown3s(buf, s).0, 0, Seq::empty())->Ok_0
}

/// Every piece of a library read at `s` reads without error.
#[verifier::opaque]
spec fn read_ok(buf: Seq<u8>, s: int) -> bool {
    &&& spec_record_at::<MaterialsHeader>(buf, s) is Ok
    &&& spec_read_run::<Material>(buf, s + 0x24, rd_header(buf, s).num_materials as nat, Seq::empty()) is Ok
    &&& spec_read_unknown1s(buf, rd_records(buf, s).1, rd_records(buf, s).0, Seq::empty()) is Ok
    &&& spec_read_const_headers(
        buf,
        spec_align(rd_unknown1s(buf, s).1, 4),
        rd_header(buf, s).num_materials as nat,
        Seq::empty(),
    ) is Ok
    &&& spec_read_consts(
        buf,
        rd_off_consts(buf, s),
        rd_end_consts(buf, s),
        rd_ranges(buf, s).0,
        Seq::empty(),
    ) is Ok
    &&& spec_read_textures(buf, rd_end_consts(buf, s), rd_records(buf, s).0, Seq::empty()) is Ok
    &&& spec_read_run::<MaterialUnknown3>(
        buf,
        rd_textures(buf, s).1,
        rd_header(buf, s).num_mat_unknown3 as nat,
        Seq::empty(),
    ) is Ok
    &&& spec_read_unknown4s(buf, rd_unknown3s(buf, s).1, rd_unknown3s(buf, s).0, 0, Seq::empty()) is Ok
}

/// The library put together from the pieces read at `s`.
spec fn rd_model(buf: Seq<u8>, s: int) -> MaterialsModel {
    MaterialsModel {
        materials: spec_assemble_all(
            rd_records(buf, s).0,
            rd_unknown1s(buf, s).0,
            rd_ranges(buf, s).0,
            rd_consts(buf, s),
            rd_textures(buf, s).0,
        ),
        mat_unknown3s: rd_unknown3s(buf, s).0,
        mat_unknown4s: rd_unknown4s(buf, s).0,
    }
}

/// A library read at `s` is put together from the pieces read one after the other.
proof fn lemma_matlib_read_parts(buf: Seq<u8>, s: int)
    requires
        MaterialsDeserialized::spec_from_data(buf, s) is Ok,
    ensures
        read_ok(buf, s),
        MaterialsDeserialized::spec_from_data(buf, s) == Ok::<(MaterialsModel, int), (VolitionError, int)>(
            (rd_model(buf, s), rd_unknown4s(buf, s).1),
        ),
{
    reveal(read_ok);
}

/// One piece of a library read at `s` reads without error: the header.
proof fn lemma_ok_header(buf: Seq<u8>, s: int)
    requires
        read_ok(buf, s),
    ensures
        spec_record_at::<MaterialsHeader>(buf, s) is Ok,
{
    reveal(read_ok);
}

/// One piece of a library read at `s` reads without error: the records.
proof fn lemma_ok_records(buf: Seq<u8>, s: int)
    requires
        read_ok(buf, s),
    ensures
        spec_read_run::<Material>(buf, s + 0x24, rd_header(buf, s).num_materials as nat, Seq::empty()) is Ok,
{
    reveal(read_ok);
}

/// One piece of a library read at `s` reads without error: the unknown1s.
proof fn lemma_ok_unknown1s(buf: Seq<u8>, s: int)
    requires
        read_ok(buf, s),
    ensures
        spec_read_unknown1s(buf, rd_records(buf, s).1, rd_records(buf, s).0, Seq::empty()) is Ok,
{
    reveal(read_ok);
}

/// One piece of a library read at `s` reads without error: the ranges.
proof fn lemma_ok_ranges(buf: Seq<u8>, s: int)
    requires
        read_ok(buf, s),
    ensures
        spec_read_const_headers(
            buf,
            spec_align(rd_unknown1s(buf, s).1, 4),
            rd_header(buf, s).num_materials as nat,
            Seq::empty(),
        ) is Ok,
{
    reveal(read_ok);
}

/// One piece of a library read at `s` reads without error: the consts.
proof fn lemma_ok_consts(buf: Seq<u8>, s: int)
    requires
        read_ok(buf, s),
    ensures
        spec_read_consts(
            buf,
            rd_off_consts(buf, s),
            rd_end_consts(buf, s),
            rd_ranges(buf, s).0,
            Seq::empty(),
        ) is Ok,
{
    reveal(read_ok);
}

/// One piece of a library read at `s` reads without error: the textures.
proof fn lemma_ok_textures(buf: Seq<u8>, s: int)
    requires
        read_ok(buf, s),
    ensures
        spec_read_textures(buf, rd_end_consts(buf, s), rd_records(buf, s).0, Seq::empty()) is Ok,
{
    reveal(read_ok);
}

/// One piece of a library read at `s` reads without error: the unknown3s.
proof fn lemma_ok_unknown3s(buf: Seq<u8>, s: int)
    requires
        read_ok(buf, s),
    ensures
        spec_read_run::<MaterialUnknown3>(
            buf,
            rd_textures(buf, s).1,
            rd_header(buf, s).num_mat_unknown3 as nat,
            Seq::empty(),
        ) is Ok,
{
    reveal(read_ok);
}

/// One piece of a library read at `s` reads without error: the unknown4s.
proof fn lemma_ok_unknown4s(buf: Seq<u8>, s: int)
    requires
        read_ok(buf, s),
    ensures
        spec_read_unknown4s(buf, rd_unknown3s(buf, s).1, rd_unknown3s(buf, s).0, 0, Seq::empty()) is Ok,
{
    reveal(read_ok);
}

/// Where writing `m` at `s` puts the unknown1 section.
pub open spec fn layout_unknown1s(m: MaterialsModel, s: int) -> int {
    s + 0x24 + spec_material_records_bytes(m.materials).len()
}

/// Where writing `m` at `s` puts the constant-range section.
pub open spec fn layout_ranges(m: MaterialsModel, s: int) -> int {
    layout_unknown1s(m, s) + spec_write_unknown1s(m.materials, layout_unknown1s(m, s)).len()
}

/// Where writing `m` at `s` puts the padding before the constant block.
pub open spec fn layout_pad16(m: MaterialsModel, s: int) -> int {
    layout_ranges(m, s) + spec_write_const_ranges(m.materials, layout_ranges(m, s)).len()
}

/// Where writing `m` at `s` puts the `k`-th material's unknown1 padding.
pub open spec fn layout_unknown1_pad(m: MaterialsModel, s: int, k: int) -> int {
    layout_unknown1s(m, s) + spec_write_unknown1s(m.materials.take(k), layout_unknown1s(m, s)).len()
}

/// A library read at `s` whose bytes are laid out as writing lays them out: `s` is a
/// multiple of 4; the padding before each material's unknown1 records, before the constant
/// ranges and before the constant block is zero; the header counts 4 floats per constant
/// vector of the materials; every byte of the constant block that no constant range covers is
/// 0xff; and no material record counts more than 16 textures.
#[verifier::opaque]
pub open spec fn spec_matlib_canonical(buf: Seq<u8>, s: int, m: MaterialsModel) -> bool {
    let mats = m.materials;
    let total = spec_num_const_vecs(mats);
    let off_consts = spec_align(layout_pad16(m, s), 16);
    &&& s % 4 == 0
    &&& forall|k: int|
        0 <= k < mats.len() ==> zeros_at(
            buf,
            #[trigger] layout_unknown1_pad(m, s, k),
            spec_align(layout_unknown1_pad(m, s, k), 4),
        )
    &&& mats.len() > 0 ==> zeros_at(buf, layout_ranges(m, s), spec_align(layout_ranges(m, s), 4))
    &&& zeros_at(buf, layout_pad16(m, s), off_consts)
    &&& spec_u32_at(buf, s + 0x10) == total * 4
    &&& forall|j: int|
        0 <= j < total * 16 && !spec_covered(mats, j) ==> #[trigger] buf[off_consts + j] == 0xff
    &&& forall|k: int|
        0 <= k < mats.len() ==> #[trigger] spec_u16_at(buf, s + 0x24 + 0x18 * k + 0xe) <= 16
}

/// The padding before each material's unknown1 records is zero.
proof fn lemma_canon_unknown1_pads(buf: Seq<u8>, s: int, m: MaterialsModel)
    requires
        spec_matlib_canonical(buf, s, m),
    ensures
        forall|k: int|
            0 <= k < m.materials.len() ==> zeros_at(
                buf,
                layout_unknown1s(m, s) + spec_write_unknown1s(
                    #[trigger] m.materials.take(k),
                    layout_unknown1s(m, s),
                ).len(),
                spec_align(
                    layout_unknown1s(m, s) + spec_write_unknown1s(
                        m.materials.take(k),
                        layout_unknown1s(m, s),
                    ).len(),
                    4,
                ),
            ),
{
    reveal(spec_matlib_canonical);
    assert forall|k: int| 0 <= k < m.materials.len() implies zeros_at(
        buf,
        layout_unknown1s(m, s) + spec_write_unknown1s(
            #[trigger] m.materials.take(k),
            layout_unknown1s(m, s),
        ).len(),
        spec_align(
            layout_unknown1s(m, s) + spec_write_unknown1s(m.materials.take(k), layout_unknown1s(m, s)).len(),
            4,
        ),
    ) by {
        assert(zeros_at(buf, layout_unknown1_pad(m, s, k), spec_align(layout_unknown1_pad(m, s, k), 4)));
    }
}

/// The other layout facts of a canonical library.
proof fn lemma_canon_facts(buf: Seq<u8>, s: int, m: MaterialsModel)
    requires
        spec_matlib_canonical(buf, s, m),
    ensures
        s % 4 == 0,
        m.materials.len() > 0 ==> zeros_at(
            buf,
            layout_ranges(m, s),
            spec_align(layout_ranges(m, s), 4),
        ),
        zeros_at(buf, layout_pad16(m, s), spec_align(layout_pad16(m, s), 16)),
        spec_u32_at(buf, s + 0x10) == spec_num_const_vecs(m.materials) * 4,
        forall|k: int|
            0 <= k < m.materials.len() ==> #[trigger] spec_u16_at(buf, s + 0x24 + 0x18 * k + 0xe)
                <= 16,
{
    reveal(spec_matlib_canonical);
}

/// The unused bytes of the constant block of a canonical library are 0xff.
proof fn lemma_canon_block(buf: Seq<u8>, s: int, m: MaterialsModel)
    requires
        spec_matlib_canonical(buf, s, m),
    ensures
        forall|j: int|
            0 <= j < spec_num_const_vecs(m.materials) * 16 && !spec_covered(m.materials, j)
                ==> #[trigger] buf[spec_align(layout_pad16(m, s), 16) + j] == 0xff,
{
    reveal(spec_matlib_canonical);
}

/// The `k`-th of the material records held from `base` on counts as many textures as the
/// bytes there say.
proof fn lemma_record_num_textures(buf: Seq<u8>, base: int, recs: Seq<Material>, k: int)
    requires
        bytes_at(buf, base, records_bytes(recs)),
        0 <= k < recs.len(),
    ensures
        recs[k].num_textures == spec_u16_at(buf, base + 0x18 * k + 0xe),
{
    let f = |r: Material| r.spec_bytes();
    assert forall|i: int| 0 <= i < recs.len() implies (#[trigger] f(recs[i])).len() == 0x18 by {
    }
    lemma_concat_bytes_at(buf, base, recs, f, 0x18, k);
    let r = recs[k];
    let x3 = i32_le(r.shader_hash) + i32_le(r.material_hash) + i32_le(r.flags) + u16_le(
        r.num_unknown,
    );
    let x4 = x3 + u16_le(r.num_textures);
    let x5 = x4 + crate::util::i16_le(r.unk_10);
    let x6 = x5 + crate::util::i16_le(r.unk_12);
    assert(r.spec_to_le_bytes() == x6 + i32_le(r.ptr_14));
    lemma_bytes_at_split(buf, base + k * 0x18, x6, i32_le(r.ptr_14));
    lemma_bytes_at_split(buf, base + k * 0x18, x5, crate::util::i16_le(r.unk_12));
    lemma_bytes_at_split(buf, base + k * 0x18, x4, crate::util::i16_le(r.unk_10));
    lemma_bytes_at_split(buf, base + k * 0x18, x3, u16_le(r.num_textures));
    assert(x3.len() == 14);
    lemma_u16_at_of(buf, base + k * 0x18 + 14, r.num_textures);
}

/// The relations between a library read at `s` and the pieces read for it.
#[verifier::spinoff_prover]
proof fn lemma_cycle_materials(buf: Seq<u8>, s: int, m: MaterialsModel)
    requires
        0 <= s,
        read_ok(buf, s),
        m == rd_model(buf, s),
        spec_matlib_canonical(buf, s, m),
    ensures
        m.materials.len() == rd_records(buf, s).0.len(),
        m.materials.len() == rd_header(buf, s).num_materials,
        rd_unknown1s(buf, s).0.len() == m.materials.len(),
        rd_ranges(buf, s).0.len() == m.materials.len(),
        rd_consts(buf, s).len() == m.materials.len(),
        rd_textures(buf, s).0.len() == m.materials.len(),
        s <= rd_records(buf, s).1 <= rd_unknown1s(buf, s).1,
        rd_ranges(buf, s).1 == spec_align(rd_unknown1s(buf, s).1, 4) + 16 * m.materials.len(),
        forall|i: int|
            0 <= i < m.materials.len() ==> {
                &&& crate::materials::spec_to_disk(#[trigger] m.materials[i]) == rd_records(buf, s).0[i]
                &&& spec_const_ranges(m.materials[i]) == rd_ranges(buf, s).0[i]
                &&& m.materials[i].unknown1s == rd_unknown1s(buf, s).0[i]
                &&& m.materials[i].textures == rd_textures(buf, s).0[i]
                &&& m.materials[i].const_vecs_a == rd_consts(buf, s)[i].0
                &&& m.materials[i].const_vecs_b == rd_consts(buf, s)[i].1
                &&& rd_records(buf, s).0[i].num_textures <= 16
            },
{
    lemma_ok_header(buf, s);
    lemma_ok_records(buf, s);
    lemma_ok_unknown1s(buf, s);
    lemma_ok_ranges(buf, s);
    lemma_ok_consts(buf, s);
    lemma_ok_textures(buf, s);
    lemma_canon_facts(buf, s, m);
    let h = rd_header(buf, s);
    let headers = rd_records(buf, s).0;
    let mats = m.materials;
    let n = mats.len();
    lemma_bytes_of_record_at::<MaterialsHeader>(buf, s);
    lemma_read_run_within::<Material>(buf, s + 0x24, h.num_materials as nat, Seq::empty());
    let o_unk1 = rd_records(buf, s).1;
    lemma_read_unknown1s_extends(buf, o_unk1, headers, Seq::empty());
    let u1 = rd_unknown1s(buf, s).0;
    let o_ranges = rd_unknown1s(buf, s).1;
    lemma_align_ge(o_ranges, 4);
    lemma_read_const_headers_extends(buf, spec_align(o_ranges, 4), n, Seq::empty());
    lemma_read_const_headers_bytes(buf, spec_align(o_ranges, 4), n, Seq::empty());
    let ranges = rd_ranges(buf, s).0;
    assert(pairs_read(buf, spec_align(o_ranges, 4), n, Seq::empty()) == ranges);
    let oc = rd_off_consts(buf, s);
    lemma_align_ge(rd_ranges(buf, s).1, 16);
    lemma_read_consts_bytes(buf, oc, rd_end_consts(buf, s), ranges, Seq::empty());
    let consts = rd_consts(buf, s);
    assert(consts_read(buf, oc, rd_end_consts(buf, s), ranges, Seq::empty()) == consts);
    lemma_bytes_of_read_run::<Material>(buf, s + 0x24, h.num_materials as nat, Seq::empty());
    assert(headers.skip(0) =~= headers);
    assert forall|k: int| 0 <= k < headers.len() implies (#[trigger] headers[k]).num_textures
        <= 16 by {
        lemma_record_num_textures(buf, s + 0x24, headers, k);
        assert(spec_u16_at(buf, s + 0x24 + 0x18 * k + 0xe) <= 16);
    }
    lemma_read_textures_bytes(buf, rd_end_consts(buf, s), headers, Seq::empty());
    let tex = rd_textures(buf, s).0;
    assert(textures_read(buf, rd_end_consts(buf, s), headers, Seq::empty()) == tex);
    assert forall|i: int| 0 <= i < n implies {
        &&& crate::materials::spec_to_disk(#[trigger] mats[i]) == headers[i]
        &&& spec_const_ranges(mats[i]) == ranges[i]
        &&& mats[i].unknown1s == u1[i]
        &&& mats[i].textures == tex[i]
        &&& mats[i].const_vecs_a == consts[i].0
        &&& mats[i].const_vecs_b == consts[i].1
        &&& headers[i].num_textures <= 16
    } by {
        let la = consts[i].0.len();
        let lb = consts[i].1.len();
        assert(la * 4 == ranges[i].0.num_floats);
        assert(lb * 4 == ranges[i].1.num_floats);
        assert(la as u32 == la);
        assert(lb as u32 == lb);
        assert(u1[i].len() as u16 == u1[i].len());
        assert(tex[i].len() as u16 == tex[i].len());
    }
}


/// The header read at `s` counts what the bytes there say.
proof fn lemma_header_num_const_floats(buf: Seq<u8>, s: int, h: MaterialsHeader)
    requires
        bytes_at(buf, s, h.spec_to_le_bytes()),
    ensures
        h.num_const_floats == spec_u32_at(buf, s + 0x10),
{
    let x3 = u32_le(h.num_materials) + u32_le(0) + u32_le(0) + u32_le(0);
    let x4 = x3 + u32_le(h.num_const_floats);
    assert(h.spec_to_le_bytes() == x4 + u32_le(0) + u32_le(0) + u32_le(h.num_mat_unknown3) + u32_le(
        0,
    ));
    let y1 = x4 + u32_le(0);
    let y2 = y1 + u32_le(0);
    let y3 = y2 + u32_le(h.num_mat_unknown3);
    lemma_bytes_at_split(buf, s, y3, u32_le(0));
    lemma_bytes_at_split(buf, s, y2, u32_le(h.num_mat_unknown3));
    lemma_bytes_at_split(buf, s, y1, u32_le(0));
    lemma_bytes_at_split(buf, s, x4, u32_le(0));
    lemma_bytes_at_split(buf, s, x3, u32_le(h.num_const_floats));
    assert(x3.len() == 16);
    lemma_u32_at_of(buf, s + 0x10, h.num_const_floats);
}

/// A library header that reading accepts at `s`: its reserved fields are zero, the buffer
/// holds its bytes there, and its constant count is the one stored at `s + 0x10`.
proof fn lemma_header_read_fields(buf: Seq<u8>, s: int)
    requires
        0 <= s,
        spec_record_at::<MaterialsHeader>(buf, s) is Ok,
    ensures
        ({
            let h = spec_record_at::<MaterialsHeader>(buf, s)->Ok_0;
            &&& h.unknown_04 == 0
            &&& h.unknown_08 == 0
            &&& h.unknown_0c == 0
            &&& h.unknown_14 == 0
            &&& h.unknown_18 == 0
            &&& h.unknown_20 == 0
            &&& bytes_at(buf, s, h.spec_to_le_bytes())
            &&& h.num_const_floats == spec_u32_at(buf, s + 0x10)
        }),
{
    lemma_bytes_of_record_at::<MaterialsHeader>(buf, s);
    lemma_header_num_const_floats(buf, s, spec_record_at::<MaterialsHeader>(buf, s)->Ok_0);
}

/// Writing back the header of a library read at `s` gives the bytes it was read from.
proof fn lemma_cycle_header(buf: Seq<u8>, s: int, m: MaterialsModel)
    requires
        0 <= s,
        spec_record_at::<MaterialsHeader>(buf, s) is Ok,
        m.materials.len() == rd_header(buf, s).num_materials,
        m.mat_unknown3s.len() == rd_header(buf, s).num_mat_unknown3,
        spec_u32_at(buf, s + 0x10) == spec_num_const_vecs(m.materials) * 4,
    ensures
        spec_written_header(m) == rd_header(buf, s),
        bytes_at(buf, s, spec_written_header(m).spec_to_le_bytes()),
{
    let h = rd_header(buf, s);
    lemma_header_read_fields(buf, s);
    let total = spec_num_const_vecs(m.materials);
    assert(h.num_const_floats == total * 4);
    assert((total * 4) as u32 == total * 4);
    assert(m.materials.len() as u32 == m.materials.len());
    assert(m.mat_unknown3s.len() as u32 == m.mat_unknown3s.len());
}

/// Writing back the material records and the unknown1 records of a library read at `s` gives
/// the bytes they were read from.
#[verifier::spinoff_prover]
proof fn lemma_cycle_records(buf: Seq<u8>, s: int, m: MaterialsModel)
    requires
        0 <= s,
        read_ok(buf, s),
        m == rd_model(buf, s),
        spec_matlib_canonical(buf, s, m),
    ensures
        ({
            let mats = m.materials;
            let o_unk1 = s + 0x24 + spec_material_records_bytes(mats).len();
            let unk1 = spec_write_unknown1s(mats, o_unk1);
            &&& bytes_at(buf, s + 0x24, spec_material_records_bytes(mats))
            &&& bytes_at(buf, o_unk1, unk1)
            &&& rd_unknown1s(buf, s).1 == o_unk1 + unk1.len()
        }),
{
    lemma_ok_header(buf, s);
    lemma_ok_records(buf, s);
    lemma_ok_unknown1s(buf, s);
    lemma_canon_unknown1_pads(buf, s, m);
    lemma_cycle_materials(buf, s, m);
    let h = rd_header(buf, s);
    let headers = rd_records(buf, s).0;
    let mats = m.materials;
    lemma_bytes_of_record_at::<MaterialsHeader>(buf, s);
    lemma_bytes_of_read_run::<Material>(buf, s + 0x24, h.num_materials as nat, Seq::empty());
    assert(headers.skip(0) =~= headers);
    lemma_concat_bytes_congruent(
        mats,
        |x: MaterialModel| crate::materials::spec_to_disk(x).spec_to_le_bytes(),
        headers,
        |r: Material| r.spec_bytes(),
    );
    let o_unk1 = s + 0x24 + spec_material_records_bytes(mats).len();
    assert(rd_records(buf, s).1 == o_unk1);
    let u1 = rd_unknown1s(buf, s).0;
    let o_ranges_r = rd_unknown1s(buf, s).1;
    assert(mats.take(0) =~= Seq::<MaterialModel>::empty());
    assert(u1.take(0) =~= Seq::<Seq<MaterialUnknown1>>::empty());
    assert(buf.subrange(o_unk1, o_unk1) =~= Seq::<u8>::empty());
    lemma_unknown1s_cycle(buf, o_unk1, headers, mats, u1, o_ranges_r, 0);
}

/// Writing back the constant ranges of a library read at `s` gives the bytes they were read
/// from.
#[verifier::spinoff_prover]
proof fn lemma_cycle_ranges(buf: Seq<u8>, s: int, m: MaterialsModel)
    requires
        0 <= s,
        read_ok(buf, s),
        m == rd_model(buf, s),
        spec_matlib_canonical(buf, s, m),
    ensures
        ({
            let mats = m.materials;
            let o_unk1 = s + 0x24 + spec_material_records_bytes(mats).len();
            let o_ranges = o_unk1 + spec_write_unknown1s(mats, o_unk1).len();
            let ranges = spec_write_const_ranges(mats, o_ranges);
            &&& bytes_at(buf, o_ranges, ranges)
            &&& rd_off_consts(buf, s) == spec_align(o_ranges + ranges.len(), 16)
        }),
{
    lemma_ok_ranges(buf, s);
    lemma_canon_facts(buf, s, m);
    lemma_cycle_materials(buf, s, m);
    lemma_cycle_records(buf, s, m);
    let mats = m.materials;
    let n = mats.len();
    let o_unk1 = s + 0x24 + spec_material_records_bytes(mats).len();
    let o_ranges = o_unk1 + spec_write_unknown1s(mats, o_unk1).len();
    let ranges_r = rd_ranges(buf, s).0;
    lemma_align_ge(o_ranges, 4);
    lemma_read_const_headers_bytes(buf, spec_align(o_ranges, 4), n, Seq::empty());
    assert(pairs_read(buf, spec_align(o_ranges, 4), n, Seq::empty()) == ranges_r);
    assert(buf.subrange(o_ranges, o_ranges) =~= Seq::<u8>::empty());
    assert forall|j: int| 0 <= j < n implies bytes_at(
        buf,
        spec_align(o_ranges, 4) + 16 * j,
        (#[trigger] ranges_r[j]).0.spec_to_le_bytes(),
    ) && bytes_at(buf, spec_align(o_ranges, 4) + 16 * j + 8, ranges_r[j].1.spec_to_le_bytes()) by {
        assert(pairs_read(buf, spec_align(o_ranges, 4), n, Seq::empty())[j] == ranges_r[j]);
    }
    assert(mats.take(0) =~= Seq::<MaterialModel>::empty());
    lemma_const_ranges_cycle(buf, o_ranges, mats, ranges_r, 0);
    if n == 0 {
        lemma_align_4_16(o_ranges);
    }
}

/// A run of records that reading accepts has as many records as asked for.
proof fn lemma_read_run_length<R: Record>(buf: Seq<u8>, off: int, count: nat)
    requires
        0 <= off,
        spec_read_run::<R>(buf, off, count, Seq::empty()) is Ok,
    ensures
        spec_read_run::<R>(buf, off, count, Seq::empty())->Ok_0.0.len() == count,
{
    lemma_read_run_within::<R>(buf, off, count, Seq::empty());
}


/// The bytes `x` held at `oc + st` are the slice `st..st + x.len()` of the bytes from `oc`.
proof fn lemma_slice_of_bytes_at(buf: Seq<u8>, oc: int, len: int, st: int, x: Seq<u8>)
    requires
        0 <= oc,
        oc + len <= buf.len(),
        0 <= st,
        st + x.len() <= len,
        bytes_at(buf, oc + st, x),
    ensures
        buf.subrange(oc, oc + len).subrange(st, st + x.len()) == x,
{
    assert forall|k: int| 0 <= k < x.len() implies buf.subrange(oc, oc + len).subrange(
        st,
        st + x.len(),
    )[k] == x[k] by {
        assert(buf.subrange(oc + st, oc + st + x.len())[k] == x[k]);
    }
    assert(buf.subrange(oc, oc + len).subrange(st, st + x.len()) =~= x);
}

/// Each non-empty constant range of the materials, read from the block at `oc`, lies inside
/// the block of `total` vectors and holds the bytes of its vectors.
proof fn lemma_block_ranges(
    buf: Seq<u8>,
    oc: int,
    total: int,
    mats: Seq<MaterialModel>,
    ranges_r: Seq<(MaterialConstHeader, MaterialConstHeader)>,
)
    requires
        0 <= oc,
        0 <= total,
        oc + total * 16 <= buf.len(),
        spec_read_consts(buf, oc, oc + total * 16, ranges_r, Seq::empty()) is Ok,
        ranges_r.len() == mats.len(),
        forall|i: int|
            0 <= i < mats.len() ==> {
                &&& spec_const_ranges(#[trigger] mats[i]) == ranges_r[i]
                &&& mats[i].const_vecs_a == consts_read(
                    buf,
                    oc,
                    oc + total * 16,
                    ranges_r,
                    Seq::empty(),
                )[i].0
                &&& mats[i].const_vecs_b == consts_read(
                    buf,
                    oc,
                    oc + total * 16,
                    ranges_r,
                    Seq::empty(),
                )[i].1
            },
    ensures
        forall|i: int, p: int|
            0 <= i < mats.len() && 0 <= p < 2 && range_vecs(mats[i], p).len() > 0 ==> {
                &&& #[trigger] range_start(mats[i], p) + 16 * range_vecs(mats[i], p).len()
                    <= total * 16
                &&& buf.subrange(oc, oc + total * 16).subrange(
                    range_start(mats[i], p),
                    range_start(mats[i], p) + 16 * range_vecs(mats[i], p).len(),
                ) == spec_const_vecs_bytes(range_vecs(mats[i], p))
            },
        forall|i: int, p: int|
            0 <= i < mats.len() && 0 <= p < 2 ==> (#[trigger] range_vecs(mats[i], p).len() as u32)
                * 4 <= u32::MAX,
{
    let ec = oc + total * 16;
    assert forall|i: int, p: int| 0 <= i < mats.len() && 0 <= p < 2 implies (
    #[trigger] range_vecs(mats[i], p).len() as u32) * 4 <= u32::MAX by {
        let len = range_vecs(mats[i], p).len();
        assert(spec_const_ranges(mats[i]) == ranges_r[i]);
        lemma_read_consts_bytes(buf, oc, ec, ranges_r, Seq::empty());
        if p == 0 {
            assert(len == ranges_r[i].0.num_floats / 4);
        } else {
            assert(len == ranges_r[i].1.num_floats / 4);
        }
        assert(len as u32 == len);
    }
    lemma_read_consts_bytes(buf, oc, ec, ranges_r, Seq::empty());
    let consts = consts_read(buf, oc, ec, ranges_r, Seq::empty());
    assert forall|i: int, p: int|
        0 <= i < mats.len() && 0 <= p < 2 && range_vecs(mats[i], p).len() > 0 implies {
            &&& #[trigger] range_start(mats[i], p) + 16 * range_vecs(mats[i], p).len()
                <= total * 16
            &&& buf.subrange(oc, oc + total * 16).subrange(
                range_start(mats[i], p),
                range_start(mats[i], p) + 16 * range_vecs(mats[i], p).len(),
            ) == spec_const_vecs_bytes(range_vecs(mats[i], p))
        } by {
        let vecs = range_vecs(mats[i], p);
        let len = vecs.len();
        lemma_const_vecs_bytes_len(vecs);
        assert(spec_const_ranges(mats[i]) == ranges_r[i]);
        if p == 0 {
            assert(len == ranges_r[i].0.num_floats / 4);
            assert(len as u32 == len);
            assert(ranges_r[i].0.num_floats == len * 4);
        } else {
            assert(len == ranges_r[i].1.num_floats / 4);
            assert(len as u32 == len);
            assert(ranges_r[i].1.num_floats == len * 4);
        }
        lemma_slice_of_bytes_at(buf, oc, total * 16, range_start(mats[i], p), spec_const_vecs_bytes(vecs));
    }
}

/// Writing back the constant block of a library read at `s` gives the bytes it was read
/// from, and so does the padding before it.
#[verifier::spinoff_prover]
proof fn lemma_cycle_block(buf: Seq<u8>, s: int, m: MaterialsModel)
    requires
        0 <= s,
        read_ok(buf, s),
        m == rd_model(buf, s),
        spec_matlib_canonical(buf, s, m),
    ensures
        ({
            let mats = m.materials;
            let o_unk1 = s + 0x24 + spec_material_records_bytes(mats).len();
            let o_ranges = o_unk1 + spec_write_unknown1s(mats, o_unk1).len();
            let o_p16 = o_ranges + spec_write_const_ranges(mats, o_ranges).len();
            let oc = spec_align(o_p16, 16);
            &&& bytes_at(buf, o_p16, spec_pad(o_p16, 16))
            &&& bytes_at(buf, oc, spec_const_block(mats))
            &&& rd_end_consts(buf, s) == oc + spec_const_block(mats).len()
        }),
        spec_ranges_fit(m.materials),
        spec_consts_placed(m.materials, spec_num_const_vecs(m.materials) as int),
{
    lemma_ok_consts(buf, s);
    lemma_canon_facts(buf, s, m);
    lemma_canon_block(buf, s, m);
    lemma_cycle_materials(buf, s, m);
    lemma_cycle_ranges(buf, s, m);
    lemma_block_bound(buf, s, m);
    let mats = m.materials;
    let o_p16 = layout_pad16(m, s);
    let oc = spec_align(o_p16, 16);
    lemma_align_ge(o_p16, 16);
    lemma_pad_of_zeros(buf, o_p16, 16);
    let total = spec_num_const_vecs(mats) as int;
    let ec = rd_end_consts(buf, s);
    let ranges_r = rd_ranges(buf, s).0;
    assert(consts_read(buf, oc, ec, ranges_r, Seq::empty()) == rd_consts(buf, s));
    lemma_block_ranges(buf, oc, total, mats, ranges_r);
    lemma_block_is_fill(buf, oc, mats);
    assert forall|i: int| 0 <= i < mats.len() implies ((#[trigger] mats[i]).const_vecs_a.len()
        as u32) * 4 <= u32::MAX && (mats[i].const_vecs_b.len() as u32) * 4 <= u32::MAX by {
        assert((range_vecs(mats[i], 0).len() as u32) * 4 <= u32::MAX);
        assert((range_vecs(mats[i], 1).len() as u32) * 4 <= u32::MAX);
    }
    assert forall|i: int| 0 <= i < mats.len() implies ((#[trigger] mats[i]).const_vecs_a.len() > 0
        ==> mats[i].consts_a_first * 4 + 16 * mats[i].const_vecs_a.len() <= total * 16) && (
    mats[i].const_vecs_b.len() > 0 ==> mats[i].consts_b_first * 4 + 16
        * mats[i].const_vecs_b.len() <= total * 16) by {
        assert(range_start(mats[i], 0) == mats[i].consts_a_first * 4);
        assert(range_start(mats[i], 1) == mats[i].consts_b_first * 4);
    }
}

/// A block whose non-empty constant ranges hold their vectors and whose other bytes are 0xff
/// is the block that writing the materials' constants gives.
proof fn lemma_block_is_fill(buf: Seq<u8>, oc: int, mats: Seq<MaterialModel>)
    requires
        0 <= oc,
        oc + spec_num_const_vecs(mats) * 16 <= buf.len(),
        forall|i: int, p: int|
            0 <= i < mats.len() && 0 <= p < 2 && range_vecs(mats[i], p).len() > 0 ==> {
                &&& #[trigger] range_start(mats[i], p) + 16 * range_vecs(mats[i], p).len()
                    <= spec_num_const_vecs(mats) * 16
                &&& buf.subrange(oc, oc + spec_num_const_vecs(mats) * 16).subrange(
                    range_start(mats[i], p),
                    range_start(mats[i], p) + 16 * range_vecs(mats[i], p).len(),
                ) == spec_const_vecs_bytes(range_vecs(mats[i], p))
            },
        forall|j: int|
            0 <= j < spec_num_const_vecs(mats) * 16 && !spec_covered(mats, j) ==> #[trigger] buf[oc
                + j] == 0xff,
    ensures
        bytes_at(buf, oc, spec_const_block(mats)),
        spec_const_block(mats).len() == spec_num_const_vecs(mats) * 16,
{
    let total = spec_num_const_vecs(mats);
    let b = buf.subrange(oc, oc + total * 16);
    let init = Seq::new(spec_num_const_vecs(mats) * 16, |i: int| 0xffu8);
    lemma_fill_consts_matches(init, b, mats);
    assert forall|j: int| 0 <= j < b.len() implies spec_const_block(mats)[j] == b[j] by {
        if !spec_covered(mats, j) {
            assert(buf[oc + j] == 0xff);
        }
    }
    assert(spec_const_block(mats) =~= b);
}


/// Reading the texture slots of at least one material starts inside the buffer.
proof fn lemma_textures_start_inside(buf: Seq<u8>, off: int, headers: Seq<Material>)
    requires
        0 <= off,
        headers.len() > 0,
        spec_read_textures(buf, off, headers, Seq::empty()) is Ok,
    ensures
        off + 4 <= buf.len(),
{
    assert(spec_read_texture_slots(buf, off, headers[0].num_textures, 0, Seq::empty()) is Ok);
    assert(spec_texture_slot_at(buf, off, 0, headers[0].num_textures) is Ok);
}

/// The constant block of a canonical library read at `s` ends inside the buffer, 16 bytes
/// per vector after it starts.
proof fn lemma_block_bound(buf: Seq<u8>, s: int, m: MaterialsModel)
    requires
        0 <= s,
        read_ok(buf, s),
        m == rd_model(buf, s),
        spec_matlib_canonical(buf, s, m),
    ensures
        rd_end_consts(buf, s) == rd_off_consts(buf, s) + spec_num_const_vecs(m.materials) * 16,
        rd_end_consts(buf, s) <= buf.len(),
{
    lemma_ok_header(buf, s);
    lemma_ok_textures(buf, s);
    lemma_canon_facts(buf, s, m);
    lemma_header_read_fields(buf, s);
    let headers = rd_records(buf, s).0;
    let ec = rd_end_consts(buf, s);
    lemma_cycle_ranges(buf, s, m);
    lemma_align_ge(layout_pad16(m, s), 16);
    if m.materials.len() > 0 {
        lemma_textures_start_inside(buf, ec, headers);
    }
}


/// Writing back the texture slots of a library read at `s` gives the bytes they were read
/// from.
#[verifier::spinoff_prover]
proof fn lemma_cycle_textures(buf: Seq<u8>, s: int, m: MaterialsModel)
    requires
        0 <= s,
        read_ok(buf, s),
        m == rd_model(buf, s),
        spec_matlib_canonical(buf, s, m),
    ensures
        bytes_at(buf, rd_end_consts(buf, s), spec_textures_bytes(m.materials)),
        rd_textures(buf, s).1 == rd_end_consts(buf, s) + spec_textures_bytes(m.materials).len(),
{
    lemma_ok_textures(buf, s);
    lemma_cycle_materials(buf, s, m);
    lemma_cycle_ranges(buf, s, m);
    lemma_block_bound(buf, s, m);
    lemma_align_ge(layout_pad16(m, s), 16);
    let mats = m.materials;
    let headers = rd_records(buf, s).0;
    let ec = rd_end_consts(buf, s);
    assert forall|k: int| 0 <= k < headers.len() implies (#[trigger] headers[k]).num_textures
        <= 16 by {
        assert(crate::materials::spec_to_disk(mats[k]) == headers[k]);
    }
    lemma_read_textures_bytes(buf, ec, headers, Seq::empty());
    let tex = rd_textures(buf, s).0;
    assert(textures_read(buf, ec, headers, Seq::empty()) == tex);
    let g = |x: MaterialModel| records_bytes(spec_texture_slots(x.textures));
    assert forall|i: int| 0 <= i < mats.len() implies (#[trigger] g(mats[i])).len() == 64
        && bytes_at(buf, ec + i * 64, g(mats[i])) by {
        lemma_records_bytes_len(spec_texture_slots(mats[i].textures));
        assert(mats[i].textures == tex[i]);
        assert(textures_read(buf, ec, headers, Seq::empty())[i] == tex[i]);
    }
    lemma_concat_bytes_of_pointwise(buf, ec, mats, g, 64);
}

/// Writing back the unknown3 records and the unknown4 values of a library read at `s` gives
/// the bytes they were read from.
#[verifier::spinoff_prover]
proof fn lemma_cycle_tail(buf: Seq<u8>, s: int, m: MaterialsModel)
    requires
        0 <= s,
        read_ok(buf, s),
        m == rd_model(buf, s),
        spec_matlib_canonical(buf, s, m),
    ensures
        ({
            let o3 = rd_textures(buf, s).1;
            let o4 = o3 + records_bytes(m.mat_unknown3s).len();
            &&& bytes_at(buf, o3, records_bytes(m.mat_unknown3s))
            &&& bytes_at(buf, o4, spec_i32s_bytes(m.mat_unknown4s))
            &&& rd_unknown4s(buf, s).1 == o4 + spec_i32s_bytes(m.mat_unknown4s).len()
        }),
{
    lemma_ok_unknown3s(buf, s);
    lemma_ok_unknown4s(buf, s);
    lemma_cycle_textures(buf, s, m);
    let h = rd_header(buf, s);
    let o3 = rd_textures(buf, s).1;
    lemma_bytes_of_read_run::<MaterialUnknown3>(buf, o3, h.num_mat_unknown3 as nat, Seq::empty());
    let u3 = rd_unknown3s(buf, s).0;
    assert(u3.skip(0) =~= u3);
    let o4 = rd_unknown3s(buf, s).1;
    lemma_read_unknown4s_bytes(buf, o4, u3, 0, Seq::empty());
    let u4 = rd_unknown4s(buf, s).0;
    assert(values_read(buf, o4, u3, 0, Seq::empty()) == u4);
    let f = |v: i32| i32_le(v);
    assert forall|i: int| 0 <= i < u4.len() implies (#[trigger] f(u4[i])).len() == 4 && bytes_at(
        buf,
        o4 + i * 4,
        f(u4[i]),
    ) by {
        assert(values_read(buf, o4, u3, 0, Seq::empty())[i] == u4[i]);
    }
    lemma_concat_bytes_of_pointwise(buf, o4, u4, f, 4);
}


/// The pieces of `m`, each held where writing from `s` puts it, make up what writing `m`
/// from `s` gives.
proof fn lemma_matlib_pieces_join(buf: Seq<u8>, s: int, m: MaterialsModel)
    requires
        0 <= s,
        s % 4 == 0,
        ({
            let mats = m.materials;
            let o_p16 = layout_pad16(m, s);
            let oc = spec_align(o_p16, 16);
            let ec = oc + spec_const_block(mats).len();
            let o3 = ec + spec_textures_bytes(mats).len();
            let o4 = o3 + records_bytes(m.mat_unknown3s).len();
            &&& bytes_at(buf, s, spec_written_header(m).spec_to_le_bytes())
            &&& bytes_at(buf, s + 0x24, spec_material_records_bytes(mats))
            &&& bytes_at(buf, layout_unknown1s(m, s), spec_write_unknown1s(mats, layout_unknown1s(m, s)))
            &&& bytes_at(buf, layout_ranges(m, s), spec_write_const_ranges(mats, layout_ranges(m, s)))
            &&& bytes_at(buf, o_p16, spec_pad(o_p16, 16))
            &&& bytes_at(buf, oc, spec_const_block(mats))
            &&& bytes_at(buf, ec, spec_textures_bytes(mats))
            &&& bytes_at(buf, o3, records_bytes(m.mat_unknown3s))
            &&& bytes_at(buf, o4, spec_i32s_bytes(m.mat_unknown4s))
        }),
    ensures
        bytes_at(buf, s, spec_write_matlib(m, s)),
        s + spec_write_matlib(m, s).len() == spec_align(layout_pad16(m, s), 16) + spec_const_block(
            m.materials,
        ).len() + spec_textures_bytes(m.materials).len() + records_bytes(m.mat_unknown3s).len()
            + spec_i32s_bytes(m.mat_unknown4s).len(),
{
    reveal(spec_write_matlib);
    let mats = m.materials;
    let p0 = spec_pad(s, 4);
    let hdr = spec_written_header(m).spec_to_le_bytes();
    let recs = spec_material_records_bytes(mats);
    let o_unk1 = s + p0.len() + hdr.len() + recs.len();
    let unk1 = spec_write_unknown1s(mats, o_unk1);
    let o_ranges = o_unk1 + unk1.len();
    let ranges = spec_write_const_ranges(mats, o_ranges);
    let p16 = spec_pad(o_ranges + ranges.len(), 16);
    let block = spec_const_block(mats);
    let tex = spec_textures_bytes(mats);
    let u3 = records_bytes(m.mat_unknown3s);
    let u4 = spec_i32s_bytes(m.mat_unknown4s);
    lemma_align_ge(s, 4);
    assert(p0.len() == 0);
    spec_written_header(m).lemma_bytes_len();
    assert(buf.subrange(s, s) =~= p0);
    lemma_bytes_at_concat(buf, s, p0, hdr);
    let x1 = p0 + hdr;
    lemma_bytes_at_concat(buf, s, x1, recs);
    let x2 = x1 + recs;
    lemma_bytes_at_concat(buf, s, x2, unk1);
    let x3 = x2 + unk1;
    lemma_bytes_at_concat(buf, s, x3, ranges);
    let x4 = x3 + ranges;
    lemma_bytes_at_concat(buf, s, x4, p16);
    let x5 = x4 + p16;
    lemma_align_ge(o_ranges + ranges.len(), 16);
    lemma_bytes_at_concat(buf, s, x5, block);
    let x6 = x5 + block;
    lemma_bytes_at_concat(buf, s, x6, tex);
    let x7 = x6 + tex;
    lemma_bytes_at_concat(buf, s, x7, u3);
    let x8 = x7 + u3;
    lemma_bytes_at_concat(buf, s, x8, u4);
    assert(spec_write_matlib(m, s) == x8 + u4);
}

/// Writing back a library that was read gives the bytes it was read from. A library read at
/// `s` whose bytes are laid out as writing lays them out ([`spec_matlib_canonical`]) is
/// written back, from `s`, as exactly the bytes from `s` to where reading ended.
pub proof fn lemma_matlib_read_then_write(buf: Seq<u8>, s: int, m: MaterialsModel, end: int)
    requires
        0 <= s,
        MaterialsDeserialized::spec_from_data(buf, s) == Ok::<(MaterialsModel, int), (VolitionError, int)>(
            (m, end),
        ),
        spec_matlib_canonical(buf, s, m),
    ensures
        s <= end <= buf.len(),
        spec_write_matlib(m, s) == buf.subrange(s, end),
{
    lemma_matlib_read_parts(buf, s);
    lemma_matlib_cycle_pieces(buf, s, m);
    lemma_canon_facts(buf, s, m);
    lemma_matlib_pieces_join(buf, s, m);
}

/// A library that was read can be written back where it was read. A library read at `s`
/// from a buffer whose length fits in `usize` and whose bytes are laid out as writing lays
/// them out ([`spec_matlib_canonical`]) meets what writing it from `s` needs.
pub proof fn lemma_matlib_read_then_writable(buf: Seq<u8>, s: int, m: MaterialsModel, end: int)
    requires
        0 <= s,
        MaterialsDeserialized::spec_from_data(buf, s) == Ok::<(MaterialsModel, int), (VolitionError, int)>(
            (m, end),
        ),
        spec_matlib_canonical(buf, s, m),
        buf.len() <= usize::MAX,
    ensures
        spec_matlib_write_ok(m, s),
{
    reveal(spec_matlib_write_ok);
    lemma_matlib_read_then_write(buf, s, m, end);
    lemma_matlib_read_parts(buf, s);
    lemma_cycle_block(buf, s, m);
    lemma_block_bound(buf, s, m);
    lemma_align_ge(layout_pad16(m, s), 16);
}

/// Each piece of a canonical library read at `s`, written back, is held where writing puts it,
/// and reading ends where the last one ends.
#[verifier::spinoff_prover]
proof fn lemma_matlib_cycle_pieces(buf: Seq<u8>, s: int, m: MaterialsModel)
    requires
        0 <= s,
        read_ok(buf, s),
        m == rd_model(buf, s),
        spec_matlib_canonical(buf, s, m),
    ensures
        ({
            let mats = m.materials;
            let o_p16 = layout_pad16(m, s);
            let oc = spec_align(o_p16, 16);
            let ec = oc + spec_const_block(mats).len();
            let o3 = ec + spec_textures_bytes(mats).len();
            let o4 = o3 + records_bytes(m.mat_unknown3s).len();
            &&& bytes_at(buf, s, spec_written_header(m).spec_to_le_bytes())
            &&& bytes_at(buf, s + 0x24, spec_material_records_bytes(mats))
            &&& bytes_at(buf, layout_unknown1s(m, s), spec_write_unknown1s(mats, layout_unknown1s(m, s)))
            &&& bytes_at(buf, layout_ranges(m, s), spec_write_const_ranges(mats, layout_ranges(m, s)))
            &&& bytes_at(buf, o_p16, spec_pad(o_p16, 16))
            &&& bytes_at(buf, oc, spec_const_block(mats))
            &&& bytes_at(buf, ec, spec_textures_bytes(mats))
            &&& bytes_at(buf, o3, records_bytes(m.mat_unknown3s))
            &&& bytes_at(buf, o4, spec_i32s_bytes(m.mat_unknown4s))
            &&& rd_unknown4s(buf, s).1 == o4 + spec_i32s_bytes(m.mat_unknown4s).len()
        }),
{
    lemma_canon_facts(buf, s, m);
    lemma_ok_header(buf, s);
    lemma_ok_unknown3s(buf, s);
    lemma_cycle_materials(buf, s, m);
    lemma_cycle_records(buf, s, m);
    lemma_cycle_ranges(buf, s, m);
    lemma_cycle_block(buf, s, m);
    lemma_cycle_textures(buf, s, m);
    lemma_cycle_tail(buf, s, m);
    lemma_align_ge(layout_pad16(m, s), 16);
    let h = rd_header(buf, s);
    lemma_read_run_length::<MaterialUnknown3>(buf, rd_textures(buf, s).1, h.num_mat_unknown3 as nat);
    lemma_cycle_header(buf, s, m);
}

} // verus!
