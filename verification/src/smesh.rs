//! A whole static mesh: reading its sections from a buffer and writing them back.

use vstd::prelude::*;
use vstd::string::StringSliceAdditionalSpecFns;
use vstd::seq_lib::lemma_concat_associative;
use vstd::utf8::{decode_utf8, encode_utf8, encode_utf8_decode_utf8};

use crate::error::VolitionError;
use crate::materials::{MaterialsDeserialized, MaterialsModel};
use crate::materials_write::{spec_i32s_bytes, spec_matlib_write_ok, spec_write_matlib, write_i32s};
use crate::record::{
    concat_bytes, lemma_concat_bytes_push, lemma_read_run_within, read_run, records_bytes,
    spec_read_run, spec_record_at, write_run, Record, Step,
};
use crate::static_mesh::{StaticMeshHeader, StaticMeshNavpoint};
use crate::text::{read_cstr, spec_cstr_at};
use crate::util::{align, align_pad, push_bytes, read_i32_le, spec_align, spec_i32_at, spec_pad};

verus! {

/// Deserialized cmesh/smesh.
#[derive(Debug, Clone, PartialEq)]
pub struct StaticMesh {
    pub header: StaticMeshHeader,
    pub texture_addr_maybe: Vec<i32>,
    pub texture_names: Vec<String>,
    pub navpoints: Vec<StaticMeshNavpoint>,
    /// Maybe.
    pub bone_indices: Vec<i32>,
    pub matlib: MaterialsDeserialized,
    /// Everything that follows the material library, as stored: the LOD mesh header, the
    /// 20-byte block that follows it when `header.unk_2c` is nonzero, the LOD mesh headers,
    /// surfaces, buffer headers and shadow buffers, and the final padding.
    pub lod_section: Vec<u8>,
}

/// The value of a [`StaticMesh`].
pub struct StaticMeshModel {
    pub header: StaticMeshHeader,
    pub texture_addr_maybe: Seq<i32>,
    pub texture_names: Seq<Seq<char>>,
    pub navpoints: Seq<StaticMeshNavpoint>,
    pub bone_indices: Seq<i32>,
    pub matlib: MaterialsModel,
    pub lod_section: Seq<u8>,
}

/// The mesh `m` with `lod` as its LOD section.
pub open spec fn with_lod(m: StaticMeshModel, lod: Seq<u8>) -> StaticMeshModel {
    StaticMeshModel {
        header: m.header,
        texture_addr_maybe: m.texture_addr_maybe,
        texture_names: m.texture_names,
        navpoints: m.navpoints,
        bone_indices: m.bone_indices,
        matlib: m.matlib,
        lod_section: lod,
    }
}

/// The views of a vector of strings.
pub open spec fn strings_of(v: Seq<String>) -> Seq<Seq<char>> {
    v.map_values(|s: String| s@)
}

impl View for StaticMesh {
    type V = StaticMeshModel;

    open spec fn view(&self) -> StaticMeshModel {
        StaticMeshModel {
            header: self.header,
            texture_addr_maybe: self.texture_addr_maybe@,
            texture_names: strings_of(self.texture_names@),
            navpoints: self.navpoints@,
            bone_indices: self.bone_indices@,
            matlib: self.matlib@,
            lod_section: self.lod_section@,
        }
    }
}

/// Reading `count` more 32-bit values back to back from `off`, after those in `acc`.
pub open spec fn spec_read_i32_run(buf: Seq<u8>, off: int, count: nat, acc: Seq<i32>) -> Step<
    Seq<i32>,
>
    decreases count,
{
    if count == 0 {
        Ok((acc, off))
    } else if off + 4 > buf.len() {
        Err((VolitionError::OutOfBounds { offset: off as usize, len: buf.len() as usize }, off))
    } else {
        spec_read_i32_run(buf, off + 4, (count - 1) as nat, acc.push(spec_i32_at(buf, off)))
    }
}

/// Reading `count` more NUL-terminated names back to back from `off`, after those in `acc`.
pub open spec fn spec_read_names(buf: Seq<u8>, off: int, count: nat, acc: Seq<Seq<char>>) -> Step<
    Seq<Seq<char>>,
>
    decreases count,
{
    if count == 0 {
        Ok((acc, off))
    } else {
        match spec_cstr_at(buf, off) {
            Err(e) => Err((e, off)),
            Ok(b) => spec_read_names(
                buf,
                off + b.len() + 1,
                (count - 1) as nat,
                acc.push(decode_utf8(b)),
            ),
        }
    }
}

/// Reads `count` 32-bit values back to back from `*off`.
fn read_i32_run(buf: &[u8], off: &mut usize, count: usize) -> (r: Result<Vec<i32>, VolitionError>)
    requires
        *old(off) <= usize::MAX - 4,
    ensures
        match spec_read_i32_run(buf@, *old(off) as int, count as nat, Seq::empty()) {
            Ok((v, o)) => r is Ok && r->Ok_0@ == v && *final(off) == o,
            Err((e, o)) => r == Err::<Vec<i32>, VolitionError>(e) && *final(off) == o,
        },
        r is Ok ==> *final(off) == *old(off) || *final(off) <= buf@.len(),
{
    let mut out: Vec<i32> = Vec::new();
    let mut i: usize = 0;
    while i < count
        invariant
            i <= count,
            *old(off) <= usize::MAX - 4,
            *off == *old(off) || *off <= buf@.len(),
            spec_read_i32_run(buf@, *old(off) as int, count as nat, Seq::empty())
                == spec_read_i32_run(buf@, *off as int, (count - i) as nat, out@),
        decreases count - i,
    {
        if *off > buf.len() || buf.len() - *off < 4 {
            return Err(VolitionError::OutOfBounds { offset: *off, len: buf.len() });
        }
        out.push(read_i32_le(buf, *off));
        *off = *off + 4;
        i = i + 1;
    }
    Ok(out)
}

/// Reads `count` NUL-terminated names back to back from `*off`.
fn read_names(buf: &[u8], off: &mut usize, count: usize) -> (r: Result<Vec<String>, VolitionError>)
    ensures
        match spec_read_names(buf@, *old(off) as int, count as nat, Seq::empty()) {
            Ok((v, o)) => r is Ok && strings_of(r->Ok_0@) == v && *final(off) == o,
            Err((e, o)) => r == Err::<Vec<String>, VolitionError>(e) && *final(off) == o,
        },
        r is Ok ==> *final(off) == *old(off) || *final(off) <= buf@.len(),
{
    let mut out: Vec<String> = Vec::new();
    let mut i: usize = 0;
    assert(strings_of(out@) =~= Seq::<Seq<char>>::empty());
    while i < count
        invariant
            i <= count,
            *off == *old(off) || *off <= buf@.len(),
            spec_read_names(buf@, *old(off) as int, count as nat, Seq::empty())
                == spec_read_names(buf@, *off as int, (count - i) as nat, strings_of(out@)),
        decreases count - i,
    {
        let name = match read_cstr(buf, *off) {
            Err(e) => {
                return Err(e);
            },
            Ok(s) => s,
        };
        proof {
            encode_utf8_decode_utf8(name@);
        }
        let ghost prev = strings_of(out@);
        assert(buf@.len() == buf.len());
        assert(name.spec_bytes() == encode_utf8(name@));
        let len = name.len();
        assert(len == encode_utf8(name@).len());
        out.push(name.to_owned());
        assert(strings_of(out@) =~= prev.push(decode_utf8(encode_utf8(name@))));
        *off = *off + len + 1;
        i = i + 1;
    }
    Ok(out)
}



/// The names, each followed by a NUL byte, back to back.
pub open spec fn spec_names_bytes(names: Seq<Seq<char>>) -> Seq<u8> {
    concat_bytes(names, |n: Seq<char>| encode_utf8(n) + seq![0u8])
}

/// The navpoint section written at offset `off`: nothing when there are no navpoints, else
/// padding to 16 and the navpoints.
pub open spec fn spec_navpoints_section(navpoints: Seq<StaticMeshNavpoint>, off: int) -> Seq<u8> {
    if navpoints.len() == 0 {
        Seq::empty()
    } else {
        spec_pad(off, 16) + records_bytes(navpoints)
    }
}

/// The bone section written at offset `off`: nothing when there are no bone indices, else
/// padding to 16 and the indices.
pub open spec fn spec_bones_section(bones: Seq<i32>, off: int) -> Seq<u8> {
    if bones.len() == 0 {
        Seq::empty()
    } else {
        spec_pad(off, 16) + spec_i32s_bytes(bones)
    }
}

/// The sections written first, from offset `off`: padding to 16; the header and zeros up
/// to 0x40; the texture words; padding to 16 and a NUL byte; the names.
pub open spec fn spec_write_smesh_texts(m: StaticMeshModel, off: int) -> Seq<u8> {
    let p0 = spec_pad(off, 16);
    let hdr = m.header.spec_to_le_bytes();
    let zeros = Seq::new(0x10, |i: int| 0u8);
    let flags = spec_i32s_bytes(m.texture_addr_maybe);
    let o_p1 = off + p0.len() + hdr.len() + zeros.len() + flags.len();
    p0 + hdr + zeros + flags + spec_pad(o_p1, 16) + seq![0u8] + spec_names_bytes(m.texture_names)
}

/// The sections written before the material library, from offset `off`: the first sections,
/// the navpoint section and the bone section.
pub open spec fn spec_write_smesh_head(m: StaticMeshModel, off: int) -> Seq<u8> {
    let texts = spec_write_smesh_texts(m, off);
    let o_nav = off + texts.len();
    let nav = spec_navpoints_section(m.navpoints, o_nav);
    texts + nav + spec_bones_section(m.bone_indices, o_nav + nav.len())
}

/// The offset at which the material library is written.
pub open spec fn spec_matlib_offset(m: StaticMeshModel, off: int) -> int {
    off + spec_write_smesh_head(m, off).len()
}

/// The sections written before the LOD section, from offset `off`: the sections before the
/// material library, then the material library.
#[verifier::opaque]
pub open spec fn spec_write_front(m: StaticMeshModel, off: int) -> Seq<u8> {
    spec_write_smesh_head(m, off) + spec_write_matlib(m.matlib, spec_matlib_offset(m, off))
}

/// The offset just past the LOD section, when writing from offset `off`.
pub open spec fn spec_lod_end(m: StaticMeshModel, off: int) -> int {
    off + spec_write_front(m, off).len() + m.lod_section.len()
}

/// Writing a static mesh from offset `off`: the sections before the material library, the
/// material library, the LOD section, and padding to 16.
pub open spec fn spec_write_smesh(m: StaticMeshModel, off: int) -> Seq<u8> {
    spec_write_front(m, off) + m.lod_section + spec_pad(spec_lod_end(m, off), 16)
}

/// What writing needs: the material library can be written where it lands, and the end
/// offset fits in `usize`.
pub open spec fn spec_smesh_write_ok(m: StaticMeshModel, off: int) -> bool {
    &&& spec_matlib_write_ok(m.matlib, spec_matlib_offset(m, off))
    &&& off + spec_write_smesh(m, off).len() <= usize::MAX
}

/// Appends each name followed by a NUL byte.
fn write_names(w: &mut Vec<u8>, names: &Vec<String>)
    ensures
        final(w)@ == old(w)@ + spec_names_bytes(strings_of(names@)),
{
    let ghost ns = strings_of(names@);
    let ghost f = |n: Seq<char>| encode_utf8(n) + seq![0u8];
    let mut i: usize = 0;
    while i < names.len()
        invariant
            i <= names@.len(),
            ns == strings_of(names@),
            f == (|n: Seq<char>| encode_utf8(n) + seq![0u8]),
            w@ == old(w)@ + concat_bytes(ns.take(i as int), f),
        decreases names@.len() - i,
    {
        let bytes = names[i].as_str().as_bytes();
        push_bytes(w, bytes);
        w.push(0);
        proof {
            lemma_concat_bytes_push(ns.take(i as int), f, ns[i as int]);
            assert(ns.take(i as int).push(ns[i as int]) =~= ns.take(i + 1));
        }
        assert(w@ =~= old(w)@ + concat_bytes(ns.take(i + 1), f));
        i = i + 1;
    }
    assert(ns.take(names@.len() as int) =~= ns);
}


/// The bytes of `buf` from `from` to its end.
fn copy_tail(buf: &[u8], from: usize) -> (r: Vec<u8>)
    requires
        from <= buf@.len(),
    ensures
        r@ == buf@.subrange(from as int, buf@.len() as int),
{
    let mut out: Vec<u8> = Vec::new();
    let mut i: usize = from;
    while i < buf.len()
        invariant
            from <= i <= buf@.len(),
            out@ == buf@.subrange(from as int, i as int),
        decreases buf@.len() - i,
    {
        out.push(buf[i]);
        i = i + 1;
        assert(out@ =~= buf@.subrange(from as int, i as int));
    }
    out
}

/// Appends `n` zero bytes.
fn write_zeros(w: &mut Vec<u8>, n: usize)
    ensures
        final(w)@ == old(w)@ + Seq::new(n as nat, |i: int| 0u8),
{
    let mut k: usize = 0;
    while k < n
        invariant
            k <= n,
            w@ == old(w)@ + Seq::new(k as nat, |i: int| 0u8),
        decreases n - k,
    {
        w.push(0);
        k = k + 1;
        assert(w@ =~= old(w)@ + Seq::new(k as nat, |i: int| 0u8));
    }
}

impl StaticMesh {
    /// Reading the sections of a static mesh up to its material library: the header from the
    /// start of the buffer; from `off + 0x40`, one texture word per texture; after aligning to
    /// 16 and skipping one byte, one name per texture; the navpoints (aligned to 16) if there
    /// are any; the bone indices (aligned to 16) if there are any; then, aligned to 4, the
    /// material library. The LOD section is left empty.
    pub open spec fn spec_read_sections(buf: Seq<u8>, off: int) -> Step<StaticMeshModel> {
        match spec_record_at::<StaticMeshHeader>(buf, 0) {
            Err(e) => Err((e, off)),
            Ok(h) => match spec_read_i32_run(
                buf,
                off + 0x40,
                h.num_textures as nat,
                Seq::empty(),
            ) {
                Err(e) => Err(e),
                Ok((flags, o_names)) => match spec_read_names(
                    buf,
                    spec_align(o_names, 16) + 1,
                    h.num_textures as nat,
                    Seq::empty(),
                ) {
                    Err(e) => Err(e),
                    Ok((names, o_nav)) => match (if h.num_navpoints > 0 {
                        spec_read_run::<StaticMeshNavpoint>(
                            buf,
                            spec_align(o_nav, 16),
                            h.num_navpoints as nat,
                            Seq::empty(),
                        )
                    } else {
                        Ok((Seq::empty(), o_nav))
                    }) {
                        Err(e) => Err(e),
                        Ok((navpoints, o_bones)) => match (if h.num_bones > 0 {
                            spec_read_i32_run(
                                buf,
                                spec_align(o_bones, 16),
                                h.num_bones as nat,
                                Seq::empty(),
                            )
                        } else {
                            Ok((Seq::empty(), o_bones))
                        }) {
                            Err(e) => Err(e),
                            Ok((bones, o_mat)) => match MaterialsDeserialized::spec_from_data(
                                buf,
                                spec_align(o_mat, 4),
                            ) {
                                Err(e) => Err(e),
                                Ok((matlib, o_end)) => Ok(
                                    (
                                        StaticMeshModel {
                                            header: h,
                                            texture_addr_maybe: flags,
                                            texture_names: names,
                                            navpoints,
                                            bone_indices: bones,
                                            matlib,
                                            lod_section: Seq::empty(),
                                        },
                                        o_end,
                                    ),
                                ),
                            },
                        },
                    },
                },
            },
        }
    }

    /// Reading a static mesh: its sections up to the material library, then the LOD section,
    /// which runs from there to the end of the buffer and is not empty.
    pub open spec fn spec_from_data(buf: Seq<u8>, off: int) -> Step<StaticMeshModel> {
        match Self::spec_read_sections(buf, off) {
            Err(e) => Err(e),
            Ok((m, o)) => if o < buf.len() {
Ok((with_lod(m, buf.subrange(o, buf.len() as int)), buf.len() as int))
            } else {
                Err((VolitionError::OutOfBounds { offset: o as usize, len: buf.len() as usize }, o))
            },
        }
    }

    /// A mesh that was read is the mesh read up to the material library, with the rest of
    /// the buffer as its LOD section.
    #[verifier::rlimit(30)]
    pub proof fn lemma_from_data_split(buf: Seq<u8>, off: int, m: StaticMeshModel, end: int) -> (r: (
        StaticMeshModel,
        int,
    ))
        requires
            Self::spec_from_data(buf, off) == Ok::<(StaticMeshModel, int), (VolitionError, int)>(
                (m, end),
            ),
        ensures
            Self::spec_read_sections(buf, off) == Ok::<(StaticMeshModel, int), (VolitionError, int)>(
                r,
            ),
            r.1 < buf.len(),
            r.0 == with_lod(m, Seq::empty()),
            m == with_lod(r.0, buf.subrange(r.1, buf.len() as int)),
            end == buf.len(),
    {
        let r = Self::spec_read_sections(buf, off)->Ok_0;
        assert(r.0.lod_section == Seq::<u8>::empty());
        r
    }

    /// Reads the sections of a static mesh up to its material library.
    fn read_sections(buf: &[u8], data_offset: &mut usize) -> (r: Result<Self, VolitionError>)
        requires
            buf@.len() <= isize::MAX,
            *old(data_offset) <= isize::MAX,
        ensures
            match Self::spec_read_sections(buf@, *old(data_offset) as int) {
                Ok((m, o)) => r is Ok && r->Ok_0@ == m && *final(data_offset) == o,
                Err((e, o)) => r == Err::<Self, VolitionError>(e) && *final(data_offset) == o,
            },
    {
        let rd = StaticMeshHeader::read_at(buf, 0);
        assert(rd == spec_record_at::<StaticMeshHeader>(buf@, 0));
        let header = match rd {
            Err(e) => {
                return Err(e);
            },
            Ok(h) => h,
        };
        *data_offset = *data_offset + 0x40;
        let texture_addr_maybe = match read_i32_run(buf, data_offset, header.num_textures as usize) {
            Err(e) => {
                return Err(e);
            },
            Ok(v) => v,
        };
        align(data_offset, 16);
        *data_offset = *data_offset + 1;
        let texture_names = match read_names(buf, data_offset, header.num_textures as usize) {
            Err(e) => {
                return Err(e);
            },
            Ok(v) => v,
        };
        let navpoints = if header.num_navpoints > 0 {
            align(data_offset, 16);
            let ghost start = *data_offset;
            match read_run::<StaticMeshNavpoint>(buf, data_offset, header.num_navpoints as usize) {
                Err(e) => {
                    return Err(e);
                },
                Ok(v) => {
                    proof {
                        lemma_read_run_within::<StaticMeshNavpoint>(
                            buf@,
                            start as int,
                            header.num_navpoints as nat,
                            Seq::empty(),
                        );
                    }
                    v
                },
            }
        } else {
            Vec::new()
        };
        let bone_indices = if header.num_bones > 0 {
            align(data_offset, 16);
            match read_i32_run(buf, data_offset, header.num_bones as usize) {
                Err(e) => {
                    return Err(e);
                },
                Ok(v) => v,
            }
        } else {
            Vec::new()
        };
        align(data_offset, 4);
        let matlib = match MaterialsDeserialized::from_data(buf, data_offset) {
            Err(e) => {
                return Err(e);
            },
            Ok(m) => m,
        };
        let lod_section: Vec<u8> = Vec::new();
        Ok(
            StaticMesh {
                header,
                texture_addr_maybe,
                texture_names,
                navpoints,
                bone_indices,
                matlib,
                lod_section,
            },
        )
    }

    /// Reads a static mesh whose header starts the buffer and whose sections start at
    /// `*data_offset + 0x40`, up to the end of the buffer. On success `*data_offset` is the
    /// buffer's length; on an error it is where reading stopped.
    pub fn from_data(buf: &[u8], data_offset: &mut usize) -> (r: Result<Self, VolitionError>)
        requires
            buf@.len() <= isize::MAX,
            *old(data_offset) <= isize::MAX,
        ensures
            match Self::spec_from_data(buf@, *old(data_offset) as int) {
                Ok((m, o)) => r is Ok && r->Ok_0@ == m && *final(data_offset) == o,
                Err((e, o)) => r == Err::<Self, VolitionError>(e) && *final(data_offset) == o,
            },
    {
        let mut mesh = match Self::read_sections(buf, data_offset) {
            Err(e) => {
                return Err(e);
            },
            Ok(m) => m,
        };
        if *data_offset >= buf.len() {
            return Err(VolitionError::OutOfBounds { offset: *data_offset, len: buf.len() });
        }
        mesh.lod_section = copy_tail(buf, *data_offset);
        *data_offset = buf.len();
        Ok(mesh)
    }

    /// Appends the sections written first.
    fn write_texts(&self, w: &mut Vec<u8>, off: usize)
        requires
            off + spec_write_smesh_texts(self@, off as int).len() <= usize::MAX,
        ensures
            final(w)@ == old(w)@ + spec_write_smesh_texts(self@, off as int),
    {
        let ghost m = self@;
        let ghost off0 = off as int;
        let ghost w0 = w@;
        let start_len = w.len();
        let ghost p0 = spec_pad(off0, 16);
        let ghost hdr = m.header.spec_to_le_bytes();
        let ghost zeros = Seq::new(0x10, |i: int| 0u8);
        let ghost flags = spec_i32s_bytes(m.texture_addr_maybe);
        let ghost o_p1 = off0 + p0.len() + hdr.len() + zeros.len() + flags.len();
        let ghost p1 = spec_pad(o_p1, 16);
        let ghost names = spec_names_bytes(m.texture_names);
        let mut cur = off;
        align_pad(w, &mut cur, 16);
        let hb = self.header.to_le_bytes();
        push_bytes(w, hb.as_slice());
        write_zeros(w, 0x10);
        write_i32s(w, &self.texture_addr_maybe);
        let mut cur = off + (w.len() - start_len);
        align_pad(w, &mut cur, 16);
        w.push(0);
        write_names(w, &self.texture_names);
        proof {
            lemma_concat_associative(w0, p0, hdr);
            lemma_concat_associative(w0, p0 + hdr, zeros);
            lemma_concat_associative(w0, p0 + hdr + zeros, flags);
            lemma_concat_associative(w0, p0 + hdr + zeros + flags, p1);
            lemma_concat_associative(w0, p0 + hdr + zeros + flags + p1, seq![0u8]);
            lemma_concat_associative(w0, p0 + hdr + zeros + flags + p1 + seq![0u8], names);
        }
    }

    /// Appends the sections that precede the material library.
    fn write_head(&self, w: &mut Vec<u8>, off: usize)
        requires
            off + spec_write_smesh_head(self@, off as int).len() <= usize::MAX,
        ensures
            final(w)@ == old(w)@ + spec_write_smesh_head(self@, off as int),
    {
        let ghost m = self@;
        let ghost w0 = w@;
        let ghost texts = spec_write_smesh_texts(m, off as int);
        let ghost o_nav = off + texts.len();
        let ghost nav = spec_navpoints_section(m.navpoints, o_nav);
        let ghost bones = spec_bones_section(m.bone_indices, o_nav + nav.len());
        let start_len = w.len();
        self.write_texts(w, off);
        let ghost before_nav = w@;
        if self.navpoints.len() > 0 {
            let mut cur = off + (w.len() - start_len);
            align_pad(w, &mut cur, 16);
            write_run(w, &self.navpoints);
            proof {
                lemma_concat_associative(before_nav, spec_pad(o_nav, 16), records_bytes(m.navpoints));
            }
        } else {
            assert(before_nav + nav =~= before_nav);
        }
        let ghost before_bones = w@;
        if self.bone_indices.len() > 0 {
            let mut cur = off + (w.len() - start_len);
            align_pad(w, &mut cur, 16);
            write_i32s(w, &self.bone_indices);
            proof {
                lemma_concat_associative(
                    before_bones,
                    spec_pad(o_nav + nav.len(), 16),
                    spec_i32s_bytes(m.bone_indices),
                );
            }
        } else {
            assert(before_bones + bones =~= before_bones);
        }
        proof {
            lemma_concat_associative(w0, texts, nav);
            lemma_concat_associative(w0, texts + nav, bones);
        }
    }

    /// Appends the mesh to `w`, which stands at offset `*data_offset` of the output, and
    /// advances `*data_offset` by the number of bytes written.
    pub fn write(&self, w: &mut Vec<u8>, data_offset: &mut usize)
        requires
            spec_smesh_write_ok(self@, *old(data_offset) as int),
        ensures
            final(w)@ == old(w)@ + spec_write_smesh(self@, *old(data_offset) as int),
            *final(data_offset) == *old(data_offset) + spec_write_smesh(
                self@,
                *old(data_offset) as int,
            ).len(),
    {
        reveal(spec_write_front);
        let ghost w0 = w@;
        let ghost head = spec_write_smesh_head(self@, *data_offset as int);
        let start_len = w.len();
        let start_off = *data_offset;
        self.write_head(w, start_off);
        let mut cur = start_off + (w.len() - start_len);
        self.matlib.write(w, &mut cur);
        let ghost lib = spec_write_matlib(self@.matlib, start_off + head.len());
        push_bytes(w, self.lod_section.as_slice());
        cur = cur + self.lod_section.len();
        let ghost before_pad = w@;
        align_pad(w, &mut cur, 16);
        proof {
            lemma_concat_associative(w0, head, lib);
            lemma_concat_associative(w0, head + lib, self@.lod_section);
            lemma_concat_associative(
                w0,
                head + lib + self@.lod_section,
                spec_pad(spec_lod_end(self@, start_off as int), 16),
            );
        }
        *data_offset = cur;
    }
}

} // verus!
