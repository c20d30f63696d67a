//! Writing back a static mesh that was read gives the bytes it was read from.

use vstd::prelude::*;
use vstd::seq_lib::lemma_concat_associative;
use vstd::utf8::{decode_utf8, decode_utf8_encode_utf8, encode_utf8};

use crate::error::VolitionError;
use crate::materials::{MaterialsDeserialized, MaterialsModel};
use crate::materials_read_back::lemma_align_ge;
use crate::materials_rewrite::{
    lemma_matlib_read_then_writable, lemma_matlib_read_then_write, lemma_pad_of_zeros,
    spec_matlib_canonical, zeros_at,
};
use crate::materials_write::{
    spec_const_block, spec_i32s_bytes, spec_material_records_bytes, spec_textures_bytes,
    spec_matlib_write_ok, spec_write_const_ranges, spec_write_matlib, spec_write_unknown1s,
    spec_written_header,
};
use crate::record::{
    bytes_at, lemma_bytes_at_concat, lemma_bytes_of_read_run, lemma_bytes_of_record_at,
    lemma_concat_bytes_first, lemma_concat_bytes_of_pointwise, records_bytes, spec_read_run,
    spec_record_at, Record,
};
use crate::smesh::{
    spec_bones_section, spec_matlib_offset, spec_names_bytes, spec_navpoints_section,
    spec_read_i32_run, spec_read_names, spec_write_smesh, spec_write_smesh_head,
    spec_write_smesh_texts, spec_lod_end, spec_smesh_write_ok, spec_write_front, with_lod, StaticMesh, StaticMeshModel,
};
use crate::static_mesh::{StaticMeshHeader, StaticMeshNavpoint};
use crate::text::{lemma_nul_index_bounds, spec_cstr_at, spec_nul_index};
use crate::util::{i32_le, lemma_i32_le_of_read, spec_align, spec_i32_at, spec_pad};

verus! {

/// The values that reading a run of 32-bit values gives.
spec fn i32s_read(buf: Seq<u8>, off: int, count: nat, acc: Seq<i32>) -> Seq<i32> {
    spec_read_i32_run(buf, off, count, acc)->Ok_0.0
}

/// A run of 32-bit values read from `off` on, after those in `acc`: the buffer holds each
/// value's bytes, 4 bytes apart, and reading ends past them.
proof fn lemma_read_i32_run_bytes(buf: Seq<u8>, off: int, count: nat, acc: Seq<i32>)
    requires
        0 <= off,
        spec_read_i32_run(buf, off, count, acc) is Ok,
    ensures
        i32s_read(buf, off, count, acc).len() == acc.len() + count,
        i32s_read(buf, off, count, acc).take(acc.len() as int) == acc,
        spec_read_i32_run(buf, off, count, acc)->Ok_0.1 == off + 4 * count,
        forall|j: int|
            acc.len() <= j < acc.len() + count ==> bytes_at(
                buf,
                off + 4 * (j - acc.len()),
                i32_le(#[trigger] i32s_read(buf, off, count, acc)[j]),
            ),
    decreases count,
{
    let v = i32s_read(buf, off, count, acc);
    let a = acc.len() as int;
    if count == 0 {
        assert(v.take(a) =~= acc);
    } else {
        let x = spec_i32_at(buf, off);
        lemma_read_i32_run_bytes(buf, off + 4, (count - 1) as nat, acc.push(x));
        assert(i32s_read(buf, off + 4, (count - 1) as nat, acc.push(x)) == v);
        assert(v.take(a) =~= v.take(a + 1).take(a));
        assert(v[a] == v.take(a + 1)[a]);
        lemma_i32_le_of_read(buf, off);
        assert forall|j: int| a <= j < a + count implies bytes_at(
            buf,
            off + 4 * (j - a),
            i32_le(#[trigger] v[j]),
        ) by {
            if j > a {
                assert(off + 4 + 4 * (j - (a + 1)) == off + 4 * (j - a));
            }
        }
    }
}

/// A run of 32-bit values read from `off`: the buffer holds what writing them gives.
proof fn lemma_i32_run_cycle(buf: Seq<u8>, off: int, count: nat)
    requires
        0 <= off <= buf.len(),
        spec_read_i32_run(buf, off, count, Seq::empty()) is Ok,
    ensures
        bytes_at(buf, off, spec_i32s_bytes(i32s_read(buf, off, count, Seq::empty()))),
        spec_read_i32_run(buf, off, count, Seq::empty())->Ok_0.1 == off + spec_i32s_bytes(
            i32s_read(buf, off, count, Seq::empty()),
        ).len(),
        i32s_read(buf, off, count, Seq::empty()).len() == count,
        spec_i32s_bytes(i32s_read(buf, off, count, Seq::empty())).len() == 4 * count,
{
    lemma_read_i32_run_bytes(buf, off, count, Seq::empty());
    let v = i32s_read(buf, off, count, Seq::empty());
    let f = |x: i32| i32_le(x);
    assert forall|i: int| 0 <= i < v.len() implies (#[trigger] f(v[i])).len() == 4 && bytes_at(
        buf,
        off + i * 4,
        f(v[i]),
    ) by {
    }
    lemma_concat_bytes_of_pointwise(buf, off, v, f, 4);
}

/// The names that reading NUL-terminated names gives.
spec fn names_read(buf: Seq<u8>, off: int, count: nat, acc: Seq<Seq<char>>) -> Seq<Seq<char>> {
    spec_read_names(buf, off, count, acc)->Ok_0.0
}

/// Names read from `off` on, after those in `acc`: the buffer holds what writing them gives,
/// and reading ends past it.
proof fn lemma_names_cycle(buf: Seq<u8>, off: int, count: nat, acc: Seq<Seq<char>>)
    requires
        0 <= off <= buf.len(),
        spec_read_names(buf, off, count, acc) is Ok,
    ensures
        names_read(buf, off, count, acc).len() == acc.len() + count,
        names_read(buf, off, count, acc).take(acc.len() as int) == acc,
        bytes_at(
            buf,
            off,
            spec_names_bytes(names_read(buf, off, count, acc).skip(acc.len() as int)),
        ),
        spec_read_names(buf, off, count, acc)->Ok_0.1 == off + spec_names_bytes(
            names_read(buf, off, count, acc).skip(acc.len() as int),
        ).len(),
    decreases count,
{
    let v = names_read(buf, off, count, acc);
    let a = acc.len() as int;
    if count == 0 {
        assert(v.take(a) =~= acc);
        assert(v.skip(a) =~= Seq::<Seq<char>>::empty());
        assert(buf.subrange(off, off) =~= Seq::<u8>::empty());
    } else {
        let b = spec_cstr_at(buf, off)->Ok_0;
        let e = spec_nul_index(buf, off)->Some_0;
        lemma_nul_index_bounds(buf, off);
        let n0 = decode_utf8(b);
        decode_utf8_encode_utf8(b);
        lemma_names_cycle(buf, off + b.len() + 1, (count - 1) as nat, acc.push(n0));
        assert(names_read(buf, off + b.len() + 1, (count - 1) as nat, acc.push(n0)) == v);
        assert(v.take(a) =~= v.take(a + 1).take(a));
        assert(v[a] == v.take(a + 1)[a]);
        let rest = v.skip(a);
        assert(rest.drop_first() =~= v.skip(a + 1));
        assert(rest[0] == n0);
        let f = |n: Seq<char>| encode_utf8(n) + seq![0u8];
        lemma_concat_bytes_first(rest, f);
        assert(buf.subrange(off, off + b.len()) == b);
        assert(buf.subrange(off + b.len(), off + b.len() + 1) =~= seq![0u8]);
        lemma_bytes_at_concat(buf, off, b, seq![0u8]);
        lemma_bytes_at_concat(buf, off, b + seq![0u8], spec_names_bytes(v.skip(a + 1)));
    }
}


/// The mesh header read at the start of the buffer.
spec fn sm_header(buf: Seq<u8>) -> StaticMeshHeader {
    spec_record_at::<StaticMeshHeader>(buf, 0)->Ok_0
}

/// The texture words read after the header, and where they end.
spec fn sm_flags(buf: Seq<u8>) -> (Seq<i32>, int) {
    spec_read_i32_run(buf, 0x40, sm_header(buf).num_textures as nat, Seq::empty())->Ok_0
}

/// The texture names read after the texture words, and where they end.
spec fn sm_names(buf: Seq<u8>) -> (Seq<Seq<char>>, int) {
    spec_read_names(
        buf,
        spec_align(sm_flags(buf).1, 16) + 1,
        sm_header(buf).num_textures as nat,
        Seq::empty(),
    )->Ok_0
}

/// The navpoints read after the names, and where they end.
spec fn sm_navpoints(buf: Seq<u8>) -> (Seq<StaticMeshNavpoint>, int) {
    if sm_header(buf).num_navpoints > 0 {
        spec_read_run::<StaticMeshNavpoint>(
            buf,
            spec_align(sm_names(buf).1, 16),
            sm_header(buf).num_navpoints as nat,
            Seq::empty(),
        )->Ok_0
    } else {
        (Seq::empty(), sm_names(buf).1)
    }
}

/// The bone indices read after the navpoints, and where they end.
spec fn sm_bones(buf: Seq<u8>) -> (Seq<i32>, int) {
    if sm_header(buf).num_bones > 0 {
        spec_read_i32_run(
            buf,
            spec_align(sm_navpoints(buf).1, 16),
            sm_header(buf).num_bones as nat,
            Seq::empty(),
        )->Ok_0
    } else {
        (Seq::empty(), sm_navpoints(buf).1)
    }
}

/// Every piece of a mesh read from the start of the buffer reads without error.
#[verifier::opaque]
spec fn sm_read_ok(buf: Seq<u8>) -> bool {
    &&& spec_record_at::<StaticMeshHeader>(buf, 0) is Ok
    &&& spec_read_i32_run(buf, 0x40, sm_header(buf).num_textures as nat, Seq::empty()) is Ok
    &&& spec_read_names(
        buf,
        spec_align(sm_flags(buf).1, 16) + 1,
        sm_header(buf).num_textures as nat,
        Seq::empty(),
    ) is Ok
    &&& sm_header(buf).num_navpoints > 0 ==> spec_read_run::<StaticMeshNavpoint>(
        buf,
        spec_align(sm_names(buf).1, 16),
        sm_header(buf).num_navpoints as nat,
        Seq::empty(),
    ) is Ok
    &&& sm_header(buf).num_bones > 0 ==> spec_read_i32_run(
        buf,
        spec_align(sm_navpoints(buf).1, 16),
        sm_header(buf).num_bones as nat,
        Seq::empty(),
    ) is Ok
}

/// A mesh read from the start of the buffer is put together from the pieces read one after
/// the other.
#[verifier::spinoff_prover]
#[verifier::rlimit(60)]
proof fn lemma_smesh_read_parts(buf: Seq<u8>, m: StaticMeshModel, end: int)
    requires
        StaticMesh::spec_read_sections(buf, 0) == Ok::<(StaticMeshModel, int), (VolitionError, int)>(
            (m, end),
        ),
    ensures
        sm_read_ok(buf),
        m.header == sm_header(buf),
        m.texture_addr_maybe == sm_flags(buf).0,
        m.texture_names == sm_names(buf).0,
        m.navpoints == sm_navpoints(buf).0,
        m.bone_indices == sm_bones(buf).0,
        MaterialsDeserialized::spec_from_data(buf, spec_align(sm_bones(buf).1, 4)) == Ok::<
            (MaterialsModel, int),
            (VolitionError, int),
        >((m.matlib, end)),
{
    reveal(sm_read_ok);
}

/// The pieces of a mesh read without error, one at a time.
proof fn lemma_sm_ok(buf: Seq<u8>)
    requires
        sm_read_ok(buf),
    ensures
        spec_record_at::<StaticMeshHeader>(buf, 0) is Ok,
        spec_read_i32_run(buf, 0x40, sm_header(buf).num_textures as nat, Seq::empty()) is Ok,
        spec_read_names(
            buf,
            spec_align(sm_flags(buf).1, 16) + 1,
            sm_header(buf).num_textures as nat,
            Seq::empty(),
        ) is Ok,
        sm_header(buf).num_navpoints > 0 ==> spec_read_run::<StaticMeshNavpoint>(
            buf,
            spec_align(sm_names(buf).1, 16),
            sm_header(buf).num_navpoints as nat,
            Seq::empty(),
        ) is Ok,
        sm_header(buf).num_bones > 0 ==> spec_read_i32_run(
            buf,
            spec_align(sm_navpoints(buf).1, 16),
            sm_header(buf).num_bones as nat,
            Seq::empty(),
        ) is Ok,
{
    reveal(sm_read_ok);
}

/// A mesh read from the start of a buffer whose bytes are laid out as writing lays them out:
/// the 16 bytes after the header are zero; so are the padding after the texture words and
/// the byte after it, the padding before the navpoints and before the bone indices when
/// there are any, and the padding before the material library; and the material library is
/// laid out as writing lays it out.
#[verifier::opaque]
pub open spec fn spec_smesh_canonical(buf: Seq<u8>, m: StaticMeshModel) -> bool {
    let o_p1 = 0x40 + 4 * (m.texture_addr_maybe.len() as int);
    let o_nav = spec_write_smesh_texts(m, 0).len() as int;
    let o_bones = o_nav + spec_navpoints_section(m.navpoints, o_nav).len();
    let o_mat = spec_matlib_offset(m, 0);
    &&& zeros_at(buf, 0x30, 0x40)
    &&& zeros_at(buf, o_p1, spec_align(o_p1, 16) + 1)
    &&& m.navpoints.len() > 0 ==> zeros_at(buf, o_nav, spec_align(o_nav, 16))
    &&& m.bone_indices.len() > 0 ==> zeros_at(buf, o_bones, spec_align(o_bones, 16))
    &&& zeros_at(buf, o_mat, spec_align(o_mat, 4))
    &&& spec_matlib_canonical(buf, spec_align(o_mat, 4), m.matlib)
}

/// Writing back the first sections of a mesh read from the start of the buffer gives the
/// bytes they were read from: the header, the texture words and the names.
#[verifier::spinoff_prover]
proof fn lemma_smesh_texts_cycle(buf: Seq<u8>, m: StaticMeshModel)
    requires
        sm_read_ok(buf),
        m.header == sm_header(buf),
        m.texture_addr_maybe == sm_flags(buf).0,
        m.texture_names == sm_names(buf).0,
        spec_smesh_canonical(buf, m),
    ensures
        bytes_at(buf, 0, spec_write_smesh_texts(m, 0)),
        sm_names(buf).1 == spec_write_smesh_texts(m, 0).len(),
{
    reveal(spec_smesh_canonical);
    lemma_sm_ok(buf);
    let h = sm_header(buf);
    let nt = h.num_textures as nat;
    lemma_bytes_of_record_at::<StaticMeshHeader>(buf, 0);
    let p0 = spec_pad(0, 16);
    assert(p0.len() == 0);
    let hdr = m.header.spec_to_le_bytes();
    let zeros = Seq::new(0x10, |i: int| 0u8);
    lemma_i32_run_cycle(buf, 0x40, nt);
    assert(i32s_read(buf, 0x40, nt, Seq::empty()) == m.texture_addr_maybe);
    let flags = spec_i32s_bytes(m.texture_addr_maybe);
    let o_p1 = (p0.len() + hdr.len() + zeros.len() + flags.len()) as int;
    assert(o_p1 == 0x40 + 4 * m.texture_addr_maybe.len());
    let p1 = spec_pad(o_p1, 16);
    assert(zeros_at(buf, o_p1, spec_align(o_p1, 16)));
    lemma_pad_of_zeros(buf, o_p1, 16);
    lemma_align_ge(o_p1, 16);
    let q = spec_align(o_p1, 16);
    assert(buf.subrange(q, q + 1) =~= seq![0u8]);
    lemma_names_cycle(buf, q + 1, nt, Seq::empty());
    let names = names_read(buf, q + 1, nt, Seq::empty());
    assert(names == m.texture_names);
    assert(names.skip(0) =~= names);
    assert(buf.subrange(0x30, 0x40) =~= zeros);
    assert(buf.subrange(0, 0) =~= p0);
    lemma_bytes_at_concat(buf, 0, p0, hdr);
    lemma_bytes_at_concat(buf, 0, p0 + hdr, zeros);
    lemma_bytes_at_concat(buf, 0, p0 + hdr + zeros, flags);
    lemma_bytes_at_concat(buf, 0, p0 + hdr + zeros + flags, p1);
    lemma_bytes_at_concat(buf, 0, p0 + hdr + zeros + flags + p1, seq![0u8]);
    lemma_bytes_at_concat(buf, 0, p0 + hdr + zeros + flags + p1 + seq![0u8], spec_names_bytes(names));
}


/// Writing back the navpoint section of a mesh read from the start of the buffer gives the
/// bytes it was read from.
#[verifier::spinoff_prover]
#[verifier::rlimit(40)]
proof fn lemma_smesh_navpoints_cycle(buf: Seq<u8>, m: StaticMeshModel)
    requires
        sm_read_ok(buf),
        m.header == sm_header(buf),
        m.navpoints == sm_navpoints(buf).0,
        spec_smesh_canonical(buf, m),
        bytes_at(buf, 0, spec_write_smesh_texts(m, 0)),
        sm_names(buf).1 == spec_write_smesh_texts(m, 0).len(),
    ensures
        ({
            let o_nav = spec_write_smesh_texts(m, 0).len() as int;
            &&& bytes_at(buf, o_nav, spec_navpoints_section(m.navpoints, o_nav))
            &&& sm_navpoints(buf).1 == o_nav + spec_navpoints_section(m.navpoints, o_nav).len()
        }),
{
    reveal(spec_smesh_canonical);
    lemma_sm_ok(buf);
    let h = sm_header(buf);
    let o_nav = spec_write_smesh_texts(m, 0).len() as int;
    if h.num_navpoints > 0 {
        lemma_bytes_of_read_run::<StaticMeshNavpoint>(
            buf,
            spec_align(o_nav, 16),
            h.num_navpoints as nat,
            Seq::empty(),
        );
        assert(m.navpoints.len() > 0);
        lemma_pad_of_zeros(buf, o_nav, 16);
        lemma_align_ge(o_nav, 16);
        assert(m.navpoints.skip(0) =~= m.navpoints);
        lemma_bytes_at_concat(buf, o_nav, spec_pad(o_nav, 16), records_bytes(m.navpoints));
    } else {
        assert(m.navpoints =~= Seq::<StaticMeshNavpoint>::empty());
        assert(buf.subrange(o_nav, o_nav) =~= Seq::<u8>::empty());
    }
}

/// Writing back the bone section of a mesh read from the start of the buffer gives the bytes
/// it was read from.
proof fn lemma_smesh_bones_cycle(buf: Seq<u8>, m: StaticMeshModel)
    requires
        sm_read_ok(buf),
        m.header == sm_header(buf),
        m.bone_indices == sm_bones(buf).0,
        spec_smesh_canonical(buf, m),
        ({
            let o_nav = spec_write_smesh_texts(m, 0).len() as int;
            let o_bones = o_nav + spec_navpoints_section(m.navpoints, o_nav).len();
            &&& sm_navpoints(buf).1 == o_bones
            &&& o_bones <= buf.len()
        }),
    ensures
        ({
            let o_nav = spec_write_smesh_texts(m, 0).len() as int;
            let o_bones = o_nav + spec_navpoints_section(m.navpoints, o_nav).len();
            &&& bytes_at(buf, o_bones, spec_bones_section(m.bone_indices, o_bones))
            &&& sm_bones(buf).1 == o_bones + spec_bones_section(m.bone_indices, o_bones).len()
        }),
{
    reveal(spec_smesh_canonical);
    lemma_sm_ok(buf);
    let h = sm_header(buf);
    let o_nav = spec_write_smesh_texts(m, 0).len() as int;
    let o_bones = o_nav + spec_navpoints_section(m.navpoints, o_nav).len();
    if h.num_bones > 0 {
        lemma_align_ge(o_bones, 16);
        assert(m.bone_indices == i32s_read(
            buf,
            spec_align(o_bones, 16),
            h.num_bones as nat,
            Seq::empty(),
        ));
        lemma_i32_run_cycle(buf, spec_align(o_bones, 16), h.num_bones as nat);
        lemma_pad_of_zeros(buf, o_bones, 16);
        lemma_bytes_at_concat(buf, o_bones, spec_pad(o_bones, 16), spec_i32s_bytes(m.bone_indices));
    } else {
        assert(m.bone_indices =~= Seq::<i32>::empty());
        assert(buf.subrange(o_bones, o_bones) =~= Seq::<u8>::empty());
    }
}

/// Writing a library from `o` is padding to the next multiple of 4 and writing it from there.
proof fn lemma_write_matlib_shift(mm: MaterialsModel, o: int)
    requires
        0 <= o,
    ensures
        spec_write_matlib(mm, o) == spec_pad(o, 4) + spec_write_matlib(mm, spec_align(o, 4)),
{
    reveal(spec_write_matlib);
    lemma_align_ge(o, 4);
    let a = spec_align(o, 4);
    assert(spec_align(a, 4) == a);
    let p0 = spec_pad(o, 4);
    let e = spec_pad(a, 4);
    assert(e =~= Seq::<u8>::empty());
    let mats = mm.materials;
    let hdr = spec_written_header(mm).spec_to_le_bytes();
    let recs = spec_material_records_bytes(mats);
    let o_unk1 = a + hdr.len() + recs.len();
    let unk1 = spec_write_unknown1s(mats, o_unk1);
    let o_ranges = o_unk1 + unk1.len();
    let ranges = spec_write_const_ranges(mats, o_ranges);
    let p16 = spec_pad(o_ranges + ranges.len(), 16);
    let block = spec_const_block(mats);
    let tex = spec_textures_bytes(mats);
    let u3 = records_bytes(mm.mat_unknown3s);
    let u4 = spec_i32s_bytes(mm.mat_unknown4s);
    assert(e + hdr =~= hdr);
    let y1 = hdr;
    let y2 = y1 + recs;
    let y3 = y2 + unk1;
    let y4 = y3 + ranges;
    let y5 = y4 + p16;
    let y6 = y5 + block;
    let y7 = y6 + tex;
    let y8 = y7 + u3;
    let y9 = y8 + u4;
    assert(spec_write_matlib(mm, a) == y9);
    lemma_concat_associative(p0, y1, recs);
    lemma_concat_associative(p0, y2, unk1);
    lemma_concat_associative(p0, y3, ranges);
    lemma_concat_associative(p0, y4, p16);
    lemma_concat_associative(p0, y5, block);
    lemma_concat_associative(p0, y6, tex);
    lemma_concat_associative(p0, y7, u3);
    lemma_concat_associative(p0, y8, u4);
    assert(spec_write_matlib(mm, o) == p0 + y9);
}

/// Writing back the sections up to the material library of a mesh that was read gives the
/// bytes they were read from.
proof fn lemma_smesh_sections_cycle(buf: Seq<u8>, m: StaticMeshModel, end: int)
    requires
        StaticMesh::spec_read_sections(buf, 0) == Ok::<(StaticMeshModel, int), (VolitionError, int)>(
            (m, end),
        ),
        spec_smesh_canonical(buf, m),
    ensures
        0 <= end <= buf.len(),
        spec_write_front(m, 0) == buf.subrange(0, end),
        MaterialsDeserialized::spec_from_data(buf, spec_align(spec_matlib_offset(m, 0), 4)) == Ok::<
            (MaterialsModel, int),
            (VolitionError, int),
        >((m.matlib, end)),
{
    reveal(spec_smesh_canonical);
    reveal(spec_write_front);
    lemma_smesh_read_parts(buf, m, end);
    lemma_smesh_texts_cycle(buf, m);
    lemma_smesh_navpoints_cycle(buf, m);
    let texts = spec_write_smesh_texts(m, 0);
    let o_nav = texts.len() as int;
    let nav = spec_navpoints_section(m.navpoints, o_nav);
    let o_bones = o_nav + nav.len();
    lemma_smesh_bones_cycle(buf, m);
    let bones = spec_bones_section(m.bone_indices, o_bones);
    let head = spec_write_smesh_head(m, 0);
    assert(head == texts + nav + bones);
    lemma_bytes_at_concat(buf, 0, texts, nav);
    lemma_bytes_at_concat(buf, 0, texts + nav, bones);
    let o_mat = spec_matlib_offset(m, 0);
    assert(o_mat == head.len());
    assert(sm_bones(buf).1 == o_mat);
    lemma_align_ge(o_mat, 4);
    lemma_pad_of_zeros(buf, o_mat, 4);
    let a = spec_align(o_mat, 4);
    lemma_matlib_read_then_write(buf, a, m.matlib, end);
    let rest = spec_write_matlib(m.matlib, a);
    assert(buf.subrange(a, a + rest.len()) == rest);
    lemma_bytes_at_concat(buf, 0, head, spec_pad(o_mat, 4));
    lemma_bytes_at_concat(buf, 0, head + spec_pad(o_mat, 4), rest);
    lemma_write_matlib_shift(m.matlib, o_mat);
    lemma_concat_associative(head, spec_pad(o_mat, 4), rest);
}

/// The layout of the sections up to the material library does not depend on the LOD
/// section.
proof fn lemma_layout_ignores_lod(buf: Seq<u8>, m: StaticMeshModel, lod: Seq<u8>)
    ensures
        spec_write_front(with_lod(m, lod), 0) == spec_write_front(m, 0),
        spec_matlib_offset(with_lod(m, lod), 0) == spec_matlib_offset(m, 0),
        spec_smesh_canonical(buf, with_lod(m, lod)) == spec_smesh_canonical(buf, m),
{
    reveal(spec_smesh_canonical);
    reveal(spec_write_front);
    let n = with_lod(m, lod);
    assert(spec_write_smesh_texts(n, 0) == spec_write_smesh_texts(m, 0));
    assert(spec_write_smesh_head(n, 0) == spec_write_smesh_head(m, 0));
}

/// A mesh whose sections up to the material library are written as the first `e` bytes of
/// the buffer, and whose LOD section is the rest of a buffer whose length is a multiple of 16,
/// is written as the buffer.
proof fn lemma_assemble(buf: Seq<u8>, m: StaticMeshModel, e: int)
    requires
        0 <= e <= buf.len(),
        buf.len() % 16 == 0,
        m.lod_section == buf.subrange(e, buf.len() as int),
        spec_write_front(m, 0) == buf.subrange(0, e),
    ensures
        spec_write_smesh(m, 0) == buf,
{
    let front = spec_write_front(m, 0);
    let pad = spec_pad(spec_lod_end(m, 0), 16);
    assert(spec_lod_end(m, 0) == buf.len());
    assert(pad.len() == 0);
    assert(front + m.lod_section + pad =~= buf);
}

/// A mesh read up to its material library, with the rest of the buffer as its LOD section,
/// is written back as the buffer.
#[verifier::spinoff_prover]
#[verifier::rlimit(60)]
proof fn lemma_rewrite_parts(buf: Seq<u8>, m: StaticMeshModel, m0: StaticMeshModel, e0: int)
    requires
        StaticMesh::spec_read_sections(buf, 0) == Ok::<(StaticMeshModel, int), (VolitionError, int)>(
            (m0, e0),
        ),
        e0 < buf.len(),
        m0 == with_lod(m, Seq::empty()),
        m == with_lod(m0, buf.subrange(e0, buf.len() as int)),
        spec_smesh_canonical(buf, m),
        buf.len() % 16 == 0,
    ensures
        spec_write_smesh(m, 0) == buf,
{
    lemma_layout_ignores_lod(buf, m, Seq::empty());
    lemma_smesh_sections_cycle(buf, m0, e0);
    lemma_assemble(buf, m, e0);
}

/// Writing back a static mesh that was read gives the bytes it was read from. A mesh read
/// from the start of a buffer whose length is a multiple of 16 and whose bytes are laid out as
/// writing lays them out ([`spec_smesh_canonical`]) is written back, from offset 0, as exactly
/// the buffer.
#[verifier::spinoff_prover]
#[verifier::rlimit(60)]
pub proof fn lemma_smesh_read_then_write(buf: Seq<u8>, m: StaticMeshModel, end: int)
    requires
        StaticMesh::spec_from_data(buf, 0) == Ok::<(StaticMeshModel, int), (VolitionError, int)>(
            (m, end),
        ),
        spec_smesh_canonical(buf, m),
        buf.len() % 16 == 0,
    ensures
        end == buf.len(),
        spec_write_smesh(m, 0) == buf,
{
    let r = StaticMesh::lemma_from_data_split(buf, 0, m, end);
    lemma_rewrite_parts(buf, m, r.0, r.1);
}

/// The material library of a canonical mesh, read where it was written, can be written back
/// where it lands.
#[verifier::spinoff_prover]
#[verifier::rlimit(30)]
proof fn lemma_matlib_part_writable(buf: Seq<u8>, m: StaticMeshModel, end: int)
    requires
        MaterialsDeserialized::spec_from_data(buf, spec_align(spec_matlib_offset(m, 0), 4)) == Ok::<
            (MaterialsModel, int),
            (VolitionError, int),
        >((m.matlib, end)),
        spec_smesh_canonical(buf, m),
        buf.len() <= usize::MAX,
        0 <= spec_matlib_offset(m, 0),
    ensures
        spec_matlib_write_ok(m.matlib, spec_matlib_offset(m, 0)),
{
    reveal(spec_smesh_canonical);
    let o_mat = spec_matlib_offset(m, 0);
    lemma_align_ge(o_mat, 4);
    let a = spec_align(o_mat, 4);
    lemma_matlib_read_then_writable(buf, a, m.matlib, end);
    lemma_write_matlib_shift(m.matlib, o_mat);
    reveal(spec_matlib_write_ok);
}

/// A mesh that was read can be written back. A mesh read from the start of a buffer whose
/// length is a multiple of 16 and fits in `usize`, and whose bytes are laid out as writing
/// lays them out ([`spec_smesh_canonical`]), meets what writing it from offset 0 needs.
pub proof fn lemma_smesh_read_then_writable(buf: Seq<u8>, m: StaticMeshModel, end: int)
    requires
        StaticMesh::spec_from_data(buf, 0) == Ok::<(StaticMeshModel, int), (VolitionError, int)>(
            (m, end),
        ),
        spec_smesh_canonical(buf, m),
        buf.len() % 16 == 0,
        buf.len() <= usize::MAX,
    ensures
        spec_smesh_write_ok(m, 0),
{
    lemma_smesh_read_then_write(buf, m, end);
    let r = StaticMesh::lemma_from_data_split(buf, 0, m, end);
    lemma_layout_ignores_lod(buf, m, Seq::empty());
    lemma_smesh_sections_cycle(buf, r.0, r.1);
    assert(spec_matlib_offset(m, 0) == spec_write_smesh_head(m, 0).len());
    lemma_matlib_part_writable(buf, m, r.1);
}

} // verus!
