//! Reading back a written static mesh gives the mesh.

use vstd::prelude::*;
use vstd::utf8::{encode_utf8, encode_utf8_decode_utf8, encode_utf8_valid_utf8};

use crate::error::VolitionError;
use crate::materials_read_back::{lemma_matlib_write_then_read, spec_matlib_reads_back};
use crate::materials_write::{spec_i32s_bytes, spec_write_matlib};
use crate::record::{
    bytes_at, lemma_bytes_at_split, lemma_concat_bytes_at, lemma_concat_bytes_first,
    lemma_read_run_of, lemma_record_at_of, records_bytes, spec_read_run, spec_record_at, Record,
};
use crate::smesh::{
    spec_bones_section, spec_matlib_offset, spec_names_bytes, spec_navpoints_section,
    spec_lod_end, spec_read_i32_run, spec_write_front, spec_read_names, spec_write_smesh, spec_write_smesh_head,
    spec_write_smesh_texts, with_lod, StaticMesh, StaticMeshModel,
};
use crate::static_mesh::{StaticMeshHeader, StaticMeshNavpoint};
use crate::text::{spec_cstr_at, spec_nul_index};
use crate::util::{i32_le, lemma_i32_at_of, spec_align, spec_pad};

verus! {

/// Reading back 32-bit values as written, from the `pos`-th on.
proof fn lemma_read_i32_run_of(buf: Seq<u8>, base: int, vals: Seq<i32>, pos: int)
    requires
        bytes_at(buf, base, spec_i32s_bytes(vals)),
        0 <= pos <= vals.len(),
    ensures
        spec_read_i32_run(buf, base + 4 * pos, (vals.len() - pos) as nat, vals.take(pos)) == Ok::<
            (Seq<i32>, int),
            (VolitionError, int),
        >((vals, base + 4 * vals.len())),
    decreases vals.len() - pos,
{
    if pos == vals.len() {
        assert(vals.take(pos) =~= vals);
    } else {
        let f = |v: i32| i32_le(v);
        assert forall|i: int| 0 <= i < vals.len() implies (#[trigger] f(vals[i])).len() == 4 by {
        }
        lemma_concat_bytes_at(buf, base, vals, f, 4, pos);
        lemma_i32_at_of(buf, base + pos * 4, vals[pos]);
        lemma_read_i32_run_of(buf, base, vals, pos + 1);
        assert(vals.take(pos).push(vals[pos]) =~= vals.take(pos + 1));
    }
}

/// The bytes of 32-bit values take 4 bytes each.
proof fn lemma_i32s_bytes_len(vals: Seq<i32>)
    ensures
        spec_i32s_bytes(vals).len() == 4 * vals.len(),
    decreases vals.len(),
{
    if vals.len() > 0 {
        lemma_i32s_bytes_len(vals.drop_last());
    }
}

/// Bytes `x` without a NUL, followed by a NUL: the first NUL from `off + j` on is the one
/// after `x`.
proof fn lemma_nul_index_of(buf: Seq<u8>, off: int, x: Seq<u8>, j: int)
    requires
        bytes_at(buf, off, x + seq![0u8]),
        forall|k: int| 0 <= k < x.len() ==> x[k] != 0,
        0 <= j <= x.len(),
    ensures
        spec_nul_index(buf, off + j) == Some(off + x.len()),
    decreases x.len() - j,
{
    assert(buf.subrange(off, off + x.len() + 1)[j] == (x + seq![0u8])[j]);
    if j < x.len() {
        lemma_nul_index_of(buf, off, x, j + 1);
    }
}

/// A name with no NUL byte in its UTF-8 encoding.
pub open spec fn spec_name_without_nul(name: Seq<char>) -> bool {
    forall|k: int| 0 <= k < encode_utf8(name).len() ==> encode_utf8(name)[k] != 0
}

/// Reading back names as written: each is the UTF-8 encoding of the name and a NUL.
proof fn lemma_read_names_of(buf: Seq<u8>, off: int, names: Seq<Seq<char>>, acc: Seq<Seq<char>>)
    requires
        bytes_at(buf, off, spec_names_bytes(names)),
        forall|i: int| 0 <= i < names.len() ==> spec_name_without_nul(#[trigger] names[i]),
    ensures
        spec_read_names(buf, off, names.len(), acc) == Ok::<(Seq<Seq<char>>, int), (VolitionError, int)>(
            (acc + names, off + spec_names_bytes(names).len()),
        ),
    decreases names.len(),
{
    if names.len() == 0 {
        assert(acc + names =~= acc);
    } else {
        let f = |n: Seq<char>| encode_utf8(n) + seq![0u8];
        let n0 = names[0];
        let x = encode_utf8(n0);
        lemma_concat_bytes_first(names, f);
        lemma_bytes_at_split(buf, off, x + seq![0u8], spec_names_bytes(names.drop_first()));
        assert(spec_name_without_nul(names[0]));
        lemma_nul_index_of(buf, off, x, 0);
        lemma_bytes_at_split(buf, off, x, seq![0u8]);
        encode_utf8_valid_utf8(n0);
        encode_utf8_decode_utf8(n0);
        assert(spec_cstr_at(buf, off) == Ok::<Seq<u8>, VolitionError>(x));
        assert forall|i: int| 0 <= i < names.drop_first().len() implies spec_name_without_nul(
            #[trigger] names.drop_first()[i],
        ) by {
            assert(names.drop_first()[i] == names[i + 1]);
        }
        lemma_read_names_of(buf, off + x.len() + 1, names.drop_first(), acc.push(n0));
        assert(acc.push(n0) + names.drop_first() =~= acc + names);
    }
}


/// A mesh that reads back as written: a header that reading accepts, whose counts are the
/// lengths of the sections; names with no NUL byte in their UTF-8 encoding; and a material
/// library that reads back.
pub open spec fn spec_smesh_reads_back(m: StaticMeshModel) -> bool {
    &&& m.header.wf()
    &&& m.header.num_textures == m.texture_addr_maybe.len()
    &&& m.header.num_textures == m.texture_names.len()
    &&& m.header.num_navpoints == m.navpoints.len()
    &&& m.header.num_bones == m.bone_indices.len()
    &&& forall|i: int|
        0 <= i < m.texture_names.len() ==> spec_name_without_nul(#[trigger] m.texture_names[i])
    &&& spec_matlib_reads_back(m.matlib)
}

/// The first sections of a mesh written at offset 0 read back: the header, the texture words
/// and the names.
proof fn lemma_smesh_texts(m: StaticMeshModel, buf: Seq<u8>)
    requires
        spec_smesh_reads_back(m),
        bytes_at(buf, 0, spec_write_smesh_texts(m, 0)),
    ensures
        spec_record_at::<StaticMeshHeader>(buf, 0) == Ok::<StaticMeshHeader, VolitionError>(m.header),
        spec_read_i32_run(buf, 0x40, m.header.num_textures as nat, Seq::empty()) == Ok::<
            (Seq<i32>, int),
            (VolitionError, int),
        >((m.texture_addr_maybe, 0x40 + 4 * (m.texture_addr_maybe.len() as int))),
        spec_read_names(
            buf,
            spec_align(0x40 + 4 * (m.texture_addr_maybe.len() as int), 16) + 1,
            m.header.num_textures as nat,
            Seq::empty(),
        ) == Ok::<(Seq<Seq<char>>, int), (VolitionError, int)>(
            (m.texture_names, spec_write_smesh_texts(m, 0).len() as int),
        ),
{
    let p0 = spec_pad(0, 16);
    let hdr = m.header.spec_to_le_bytes();
    let zeros = Seq::new(0x10, |i: int| 0u8);
    let flags = spec_i32s_bytes(m.texture_addr_maybe);
    let o_p1 = (p0.len() + hdr.len() + zeros.len() + flags.len()) as int;
    let p1 = spec_pad(o_p1, 16);
    let names = spec_names_bytes(m.texture_names);
    let x1 = p0 + hdr;
    let x2 = x1 + zeros;
    let x3 = x2 + flags;
    let x4 = x3 + p1;
    let x5 = x4 + seq![0u8];
    assert(spec_write_smesh_texts(m, 0) == x5 + names);
    assert(p0.len() == 0);
    lemma_bytes_at_split(buf, 0, x5, names);
    lemma_bytes_at_split(buf, 0, x4, seq![0u8]);
    lemma_bytes_at_split(buf, 0, x3, p1);
    lemma_bytes_at_split(buf, 0, x2, flags);
    lemma_bytes_at_split(buf, 0, x1, zeros);
    lemma_bytes_at_split(buf, 0, p0, hdr);
    m.header.lemma_bytes_len();
    lemma_record_at_of(buf, 0, m.header);
    lemma_i32s_bytes_len(m.texture_addr_maybe);
    lemma_read_i32_run_of(buf, 0x40, m.texture_addr_maybe, 0);
    assert(m.texture_addr_maybe.take(0) =~= Seq::<i32>::empty());
    lemma_read_names_of(buf, spec_align(o_p1, 16) + 1, m.texture_names, Seq::empty());
    assert(Seq::<Seq<char>>::empty() + m.texture_names =~= m.texture_names);
}

/// The navpoint section written at `o_nav` reads back.
proof fn lemma_smesh_navpoints(navpoints: Seq<StaticMeshNavpoint>, buf: Seq<u8>, o_nav: int)
    requires
        bytes_at(buf, o_nav, spec_navpoints_section(navpoints, o_nav)),
    ensures
        (if navpoints.len() > 0 {
            spec_read_run::<StaticMeshNavpoint>(
                buf,
                spec_align(o_nav, 16),
                navpoints.len(),
                Seq::empty(),
            )
        } else {
            Ok((Seq::empty(), o_nav))
        }) == Ok::<(Seq<StaticMeshNavpoint>, int), (VolitionError, int)>(
            (navpoints, o_nav + spec_navpoints_section(navpoints, o_nav).len()),
        ),
{
    if navpoints.len() > 0 {
        lemma_bytes_at_split(buf, o_nav, spec_pad(o_nav, 16), records_bytes(navpoints));
        lemma_read_run_of::<StaticMeshNavpoint>(buf, spec_align(o_nav, 16), navpoints);
    } else {
        assert(navpoints =~= Seq::<StaticMeshNavpoint>::empty());
    }
}

/// The bone section written at `o_bones` reads back.
proof fn lemma_smesh_bones(bones: Seq<i32>, buf: Seq<u8>, o_bones: int)
    requires
        bytes_at(buf, o_bones, spec_bones_section(bones, o_bones)),
    ensures
        (if bones.len() > 0 {
            spec_read_i32_run(buf, spec_align(o_bones, 16), bones.len(), Seq::empty())
        } else {
            Ok((Seq::empty(), o_bones))
        }) == Ok::<(Seq<i32>, int), (VolitionError, int)>(
            (bones, o_bones + spec_bones_section(bones, o_bones).len()),
        ),
{
    if bones.len() > 0 {
        lemma_bytes_at_split(buf, o_bones, spec_pad(o_bones, 16), spec_i32s_bytes(bones));
        lemma_i32s_bytes_len(bones);
        lemma_read_i32_run_of(buf, spec_align(o_bones, 16), bones, 0);
        assert(bones.take(0) =~= Seq::<i32>::empty());
    } else {
        assert(bones =~= Seq::<i32>::empty());
    }
}

/// The sections up to the material library of a mesh written at the start of a buffer
/// read back, and reading them ends just past the material library.
#[verifier::spinoff_prover]
#[verifier::rlimit(60)]
proof fn lemma_smesh_sections(m: StaticMeshModel, buf: Seq<u8>)
    requires
        spec_smesh_reads_back(m),
        bytes_at(buf, 0, spec_write_front(m, 0)),
    ensures
        StaticMesh::spec_read_sections(buf, 0) == Ok::<(StaticMeshModel, int), (VolitionError, int)>(
            (with_lod(m, Seq::empty()), spec_write_front(m, 0).len() as int),
        ),
{
    reveal(spec_write_front);
    let texts = spec_write_smesh_texts(m, 0);
    let o_nav = texts.len() as int;
    let nav = spec_navpoints_section(m.navpoints, o_nav);
    let o_bones = o_nav + nav.len();
    let bones = spec_bones_section(m.bone_indices, o_bones);
    let head = spec_write_smesh_head(m, 0);
    let o_mat = spec_matlib_offset(m, 0);
    let lib = spec_write_matlib(m.matlib, o_mat);
    assert(head == texts + nav + bones);
    lemma_bytes_at_split(buf, 0, head, lib);
    lemma_bytes_at_split(buf, 0, texts + nav, bones);
    lemma_bytes_at_split(buf, 0, texts, nav);
    lemma_smesh_texts(m, buf);
    lemma_smesh_navpoints(m.navpoints, buf, o_nav);
    lemma_smesh_bones(m.bone_indices, buf, o_bones);
    lemma_matlib_write_then_read(m.matlib, buf, o_mat);
}

/// Reading back a written static mesh gives the mesh. A mesh that satisfies
/// [`spec_smesh_reads_back`] and has a non-empty LOD section, written from offset 0, reads
/// back from the bytes written as the same mesh, except that its LOD section gains the
/// final padding; reading ends at the end of the bytes.
#[verifier::spinoff_prover]
#[verifier::rlimit(60)]
pub proof fn lemma_smesh_write_then_read(m: StaticMeshModel, buf: Seq<u8>)
    requires
        spec_smesh_reads_back(m),
        m.lod_section.len() > 0,
        buf == spec_write_smesh(m, 0),
    ensures
        StaticMesh::spec_from_data(buf, 0) == Ok::<(StaticMeshModel, int), (VolitionError, int)>(
            (with_lod(m, m.lod_section + spec_pad(spec_lod_end(m, 0), 16)), buf.len() as int),
        ),
{
    let front = spec_write_front(m, 0);
    let pad = spec_pad(spec_lod_end(m, 0), 16);
    assert(buf == front + m.lod_section + pad);
    assert(buf.subrange(0, front.len() as int) =~= front);
    lemma_smesh_sections(m, buf);
    let o = front.len() as int;
    assert(buf.subrange(o, buf.len() as int) =~= m.lod_section + pad);
    assert(with_lod(with_lod(m, Seq::empty()), m.lod_section + pad) == with_lod(
        m,
        m.lod_section + pad,
    ));
}

} // verus!
