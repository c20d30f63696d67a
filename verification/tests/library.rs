use v_types::{
    Check, Field, MaterialDeserialized, MaterialTextureEntry, MaterialUnknown1, MaterialUnknown3,
    MaterialsDeserialized, Quaternion, StaticMesh, StaticMeshHeader, StaticMeshNavpoint, Vector,
    VolitionError,
};

fn sample_library() -> MaterialsDeserialized {
    let m0 = MaterialDeserialized {
        shader_hash: 0x1111,
        material_hash: -0x2222,
        flags: 3,
        unknown1s: vec![MaterialUnknown1 { unk_00: 1, unk_02: -2, unk_04: 3 }],
        consts_a_first: 0,
        const_vecs_a: vec![[1.0_f32.to_bits(), 2.0_f32.to_bits(), 3.0_f32.to_bits(), 4.0_f32.to_bits()]],
        consts_b_first: 4,
        const_vecs_b: vec![[5, 6, 7, 8]],
        textures: vec![MaterialTextureEntry { index: 0, flags: 5 }],
        unk_10: -1,
        unk_12: 2,
        ptr_14: -1,
    };
    let m1 = MaterialDeserialized {
        shader_hash: 9,
        material_hash: 10,
        flags: 0,
        unknown1s: vec![],
        consts_a_first: 8,
        const_vecs_a: vec![[9, 10, 11, 12]],
        consts_b_first: 12,
        const_vecs_b: vec![],
        textures: vec![],
        unk_10: 0,
        unk_12: 0,
        ptr_14: 0,
    };
    MaterialsDeserialized {
        materials: vec![m0, m1],
        mat_unknown3s: vec![MaterialUnknown3 {
            unk_00: 1,
            unk_04: 2,
            num_mat_unk4: 2,
            unk_06: 4,
            ptr_08: -1,
        }],
        mat_unknown4s: vec![5, 0xffff],
    }
}

fn written(lib: &MaterialsDeserialized, offset: usize) -> (Vec<u8>, usize) {
    let mut out = vec![0xee; offset];
    let mut off = offset;
    lib.write(&mut out, &mut off);
    (out, off)
}

#[test]
fn library_write_then_read_gives_the_library() {
    let lib = sample_library();
    let (buf, end) = written(&lib, 0);
    assert_eq!(end, buf.len());
    let mut off = 0;
    let back = MaterialsDeserialized::from_data(&buf, &mut off).unwrap();
    assert_eq!(back, lib);
    assert_eq!(off, end);
}

#[test]
fn library_write_layout() {
    let lib = sample_library();
    let (buf, end) = written(&lib, 0);
    // header: 2 materials, 3 vectors = 12 floats, 1 unknown3
    assert_eq!(&buf[0..4], &2_u32.to_le_bytes());
    assert_eq!(&buf[0x10..0x14], &12_u32.to_le_bytes());
    assert_eq!(&buf[0x1c..0x20], &1_u32.to_le_bytes());
    // material records: num_unknown and num_textures come from the vectors
    assert_eq!(&buf[0x24 + 0xc..0x24 + 0x10], &[1, 0, 1, 0]);
    assert_eq!(&buf[0x3c + 0xc..0x3c + 0x10], &[0, 0, 0, 0]);
    // unknown1 run of material 0 at 0x54, then padding to 0x5c for material 1 (empty),
    // then the const ranges at 0x5c
    assert_eq!(&buf[0x54..0x5a], &[1, 0, 0xfe, 0xff, 3, 0]);
    assert_eq!(&buf[0x5a..0x5c], &[0, 0]);
    assert_eq!(&buf[0x5c..0x64], &[4, 0, 0, 0, 0, 0, 0, 0]);
    // const block aligned to 16 at 0x80, 48 bytes
    assert_eq!(&buf[0x7c..0x80], &[0, 0, 0, 0]);
    assert_eq!(&buf[0x80..0x84], &1.0_f32.to_le_bytes());
    assert_eq!(&buf[0x90..0x94], &5_u32.to_le_bytes());
    assert_eq!(&buf[0xa0..0xa4], &9_u32.to_le_bytes());
    // textures: 16 slots per material
    assert_eq!(&buf[0xb0..0xb4], &[0, 0, 5, 0]);
    assert_eq!(&buf[0xb4..0xf0], &[0xff; 0x3c][..]);
    assert_eq!(&buf[0xf0..0x130], &[0xff; 0x40][..]);
    // unknown3 then unknown4 values
    assert_eq!(&buf[0x130..0x134], &1_i32.to_le_bytes());
    assert_eq!(&buf[0x140..0x148], &[5, 0, 0, 0, 0xff, 0xff, 0, 0]);
    assert_eq!(end, 0x148);
}

#[test]
fn library_write_pads_from_the_current_offset() {
    let lib = sample_library();
    let (buf, end) = written(&lib, 6);
    assert_eq!(&buf[6..8], &[0, 0]);
    assert_eq!(&buf[8..12], &2_u32.to_le_bytes());
    let mut off = 6;
    let back = MaterialsDeserialized::from_data(&buf, &mut off).unwrap_err();
    assert_eq!(back, VolitionError::ValueTooHigh {
        field: Field::MaterialsNumMaterials,
        max: 200,
        got: 0x0002_0000
    });
    let mut off = 8;
    assert_eq!(MaterialsDeserialized::from_data(&buf, &mut off).unwrap(), lib);
    assert_eq!(off, end);
}

#[test]
fn library_const_block_keeps_unused_bytes() {
    let mut lib = sample_library();
    lib.materials[1].consts_a_first = 16;
    lib.materials[1].const_vecs_a.clear();
    lib.materials[1].consts_b_first = 0;
    let (buf, _) = written(&lib, 0);
    // 2 vectors now: 8 floats, block of 32 bytes at 0x80, all written by material 0
    assert_eq!(&buf[0x10..0x14], &8_u32.to_le_bytes());
    assert_eq!(&buf[0x90..0x94], &5_u32.to_le_bytes());
    let mut lib2 = sample_library();
    lib2.materials[0].consts_b_first = 8;
    let (buf, _) = written(&lib2, 0);
    // material 1 writes over material 0's second range; bytes 0x90..0xa0 are never written
    assert_eq!(&buf[0xa0..0xa4], &9_u32.to_le_bytes());
    assert_eq!(&buf[0x90..0xa0], &[0xff; 16]);
}

#[test]
fn library_read_errors() {
    let lib = sample_library();
    let (buf, _) = written(&lib, 0);

    let mut bad = buf.clone();
    bad[0x144..0x148].copy_from_slice(&0x10000_i32.to_le_bytes());
    let mut off = 0;
    assert_eq!(
        MaterialsDeserialized::from_data(&bad, &mut off),
        Err(VolitionError::ValueTooHigh { field: Field::MaterialUnknown4, max: 0xffff, got: 0x10000 })
    );
    assert_eq!(off, 0x144);

    let mut bad = buf.clone();
    bad[0x140..0x144].copy_from_slice(&(-1_i32).to_le_bytes());
    let mut off = 0;
    assert!(matches!(
        MaterialsDeserialized::from_data(&bad, &mut off),
        Err(VolitionError::ValueTooHigh { field: Field::MaterialUnknown4, max: 0xffff, .. })
    ));

    let mut bad = buf.clone();
    bad[0xb2..0xb4].copy_from_slice(&(-1_i16).to_le_bytes());
    let mut off = 0;
    assert_eq!(
        MaterialsDeserialized::from_data(&bad, &mut off),
        Err(VolitionError::UnexpectedValue {
            desc: Check::TextureEntryValid,
            got: i32::from_le_bytes([0, 0, 0xff, 0xff])
        })
    );
    assert_eq!(off, 0xb0);

    let mut bad = buf.clone();
    bad[0xb4..0xb8].copy_from_slice(&[1, 0, 1, 0]);
    let mut off = 0;
    assert_eq!(
        MaterialsDeserialized::from_data(&bad, &mut off),
        Err(VolitionError::UnexpectedValue { desc: Check::TextureEntryPlaceholder, got: 0x10001 })
    );

    let mut bad = buf.clone();
    bad[0x5c..0x60].copy_from_slice(&6_u32.to_le_bytes());
    let mut off = 0;
    assert_eq!(
        MaterialsDeserialized::from_data(&bad, &mut off),
        Err(VolitionError::UnexpectedValue { desc: Check::ConstNumFloatsMultipleOf4, got: 6 })
    );
    assert_eq!(off, 0x5c);

    let mut bad = buf.clone();
    bad[0x68..0x6c].copy_from_slice(&3_u32.to_le_bytes());
    let mut off = 0;
    assert_eq!(
        MaterialsDeserialized::from_data(&bad, &mut off),
        Err(VolitionError::UnexpectedValue { desc: Check::ConstFirstFloatMultipleOf4, got: 3 })
    );
    assert_eq!(off, 0x64);

    let mut bad = buf.clone();
    bad[0x60..0x64].copy_from_slice(&12_u32.to_le_bytes());
    let mut off = 0;
    assert_eq!(
        MaterialsDeserialized::from_data(&bad, &mut off),
        Err(VolitionError::UnexpectedValue { desc: Check::ConstsEndAInBlock, got: 0x80 + 48 + 16 })
    );
    assert_eq!(off, 0x80);

    let mut bad = buf.clone();
    bad[0x64..0x68].copy_from_slice(&12_u32.to_le_bytes());
    let mut off = 0;
    assert_eq!(
        MaterialsDeserialized::from_data(&bad, &mut off),
        Err(VolitionError::UnexpectedValue { desc: Check::ConstsEndBInBlock, got: 0x80 + 16 + 48 })
    );
}

#[test]
fn library_truncated_reads() {
    let lib = sample_library();
    let (buf, _) = written(&lib, 0);
    let mut off = 0;
    assert_eq!(
        MaterialsDeserialized::from_data(&buf[..0x146], &mut off),
        Err(VolitionError::OutOfBounds { offset: 0x144, len: 0x146 })
    );
    let mut off = 0;
    assert_eq!(
        MaterialsDeserialized::from_data(&buf[..0x30], &mut off),
        Err(VolitionError::BufferTooSmall { needed: 0x18, got: 0x0c })
    );
    assert_eq!(off, 0x24);
    let mut off = 0x200;
    assert_eq!(
        MaterialsDeserialized::from_data(&buf, &mut off),
        Err(VolitionError::OutOfBounds { offset: 0x200, len: buf.len() })
    );
}

#[test]
fn empty_library_cycle() {
    let lib = MaterialsDeserialized { materials: vec![], mat_unknown3s: vec![], mat_unknown4s: vec![] };
    let (buf, end) = written(&lib, 0);
    assert_eq!(buf.len(), 0x30);
    assert_eq!(end, 0x30);
    let mut off = 0;
    assert_eq!(MaterialsDeserialized::from_data(&buf, &mut off).unwrap(), lib);
    assert_eq!(off, 0x30);
}

#[test]
fn material_new_and_to_disk() {
    let lib = sample_library();
    let disk = lib.materials[0].to_disk();
    assert_eq!(disk.num_unknown, 1);
    assert_eq!(disk.num_textures, 1);
    assert_eq!(disk.unk_10, -1);
    let fresh = MaterialDeserialized::new(&disk);
    assert_eq!(fresh.shader_hash, 0x1111);
    assert_eq!(fresh.material_hash, -0x2222);
    assert!(fresh.unknown1s.is_empty());
    assert!(fresh.const_vecs_a.is_empty());
    assert!(fresh.textures.is_empty());
    assert_eq!(fresh.consts_a_first, 0);
    assert_eq!(fresh.ptr_14, -1);
}

fn sample_mesh() -> StaticMesh {
    let mut name = [0u8; 64];
    name[..4].copy_from_slice(b"root");
    let header_bytes = {
        let mut b = vec![];
        b.extend_from_slice(&StaticMeshHeader::SIGNATURE.to_le_bytes());
        b.extend_from_slice(&StaticMeshHeader::VERSION.to_le_bytes());
        b.extend_from_slice(&1_i16.to_le_bytes());
        b.extend_from_slice(&0_i32.to_le_bytes());
        b.extend_from_slice(&2_u16.to_le_bytes());
        b.extend_from_slice(&1_u16.to_le_bytes());
        b.extend_from_slice(&0_i32.to_le_bytes());
        b.extend_from_slice(&[0u8; 16]);
        b.extend_from_slice(&3_u32.to_le_bytes());
        b.extend_from_slice(&0_i32.to_le_bytes());
        b.extend_from_slice(&0_i32.to_le_bytes());
        b
    };
    StaticMesh {
        header: StaticMeshHeader::from_le_unsized(&header_bytes).unwrap(),
        texture_addr_maybe: vec![-1, 7],
        texture_names: vec!["wall.tga".to_string(), "floor_ä.tga".to_string()],
        navpoints: vec![StaticMeshNavpoint {
            name,
            vid: 4,
            pos: Vector { x: 1, y: 2, z: 3 },
            orient: Quaternion { x: 0, y: 0, z: 0, w: 1.0_f32.to_bits() },
        }],
        bone_indices: vec![10, 11, 12],
        matlib: sample_library(),
        lod_section: (1..=20).collect(),
    }
}

/// Where the material library of the sample mesh ends when the mesh is written from 0.
fn sample_mesh_front_end() -> usize {
    written(&sample_library(), 0xdc).1
}

#[test]
fn static_mesh_write_then_read_gives_the_mesh() {
    let mesh = sample_mesh();
    let mut out = vec![];
    let mut off = 0;
    mesh.write(&mut out, &mut off);
    assert_eq!(off, out.len());
    assert_eq!(off % 16, 0);
    let front_end = sample_mesh_front_end();
    assert_eq!(&out[front_end..front_end + 20], &mesh.lod_section[..]);
    let mut roff = 0;
    let back = StaticMesh::from_data(&out, &mut roff).unwrap();
    // the LOD section reads back with the final padding after it
    let mut expected = mesh.clone();
    expected.lod_section.resize(off - front_end, 0);
    assert_eq!(back, expected);
    assert_eq!(roff, off);
}

#[test]
fn static_mesh_write_ends_aligned() {
    let mut mesh = sample_mesh();
    mesh.texture_addr_maybe.clear();
    mesh.texture_names.clear();
    mesh.navpoints.clear();
    mesh.bone_indices.clear();
    mesh.matlib = MaterialsDeserialized {
        materials: vec![],
        mat_unknown3s: vec![],
        mat_unknown4s: vec![7],
    };
    mesh.lod_section = vec![9; 3];
    for start in [0usize, 5] {
        let mut out = vec![0xee; start];
        let mut off = start;
        mesh.write(&mut out, &mut off);
        assert_eq!(off % 16, 0);
        assert_eq!(off, out.len());
    }
}

#[test]
fn static_mesh_layout() {
    let mesh = sample_mesh();
    let mut out = vec![];
    let mut off = 0;
    mesh.write(&mut out, &mut off);
    assert_eq!(&out[0x30..0x40], &[0u8; 16]);
    assert_eq!(&out[0x40..0x48], &[0xff, 0xff, 0xff, 0xff, 7, 0, 0, 0]);
    assert_eq!(&out[0x48..0x50], &[0u8; 8]);
    assert_eq!(out[0x50], 0);
    assert_eq!(&out[0x51..0x5a], b"wall.tga\0");
    assert_eq!(out[0x5a], b'f');
    assert_eq!(&out[0x60..0x62], &[0xc3, 0xa4]);
    assert_eq!(&out[0x62..0x67], b".tga\0");
    assert_eq!(&out[0x70..0x74], b"root");
    assert_eq!(&out[0xd0..0xdc], &[10, 0, 0, 0, 11, 0, 0, 0, 12, 0, 0, 0]);
    assert_eq!(&out[0xdc..0xe0], &2_u32.to_le_bytes());
}

#[test]
fn static_mesh_read_errors() {
    let mesh = sample_mesh();
    let mut out = vec![];
    let mut off = 0;
    mesh.write(&mut out, &mut off);

    let mut bad = out.clone();
    bad[0x58] = 0xff;
    let mut roff = 0;
    assert_eq!(
        StaticMesh::from_data(&bad, &mut roff),
        Err(VolitionError::InvalidUtf8 { offset: 0x51 })
    );
    assert_eq!(roff, 0x51);

    let mut roff = 0;
    assert_eq!(
        StaticMesh::from_data(&out[..0x5d], &mut roff),
        Err(VolitionError::MissingNullTerminator { offset: 0x5a })
    );

    let mut roff = 0;
    assert_eq!(
        StaticMesh::from_data(&out[..0x44], &mut roff),
        Err(VolitionError::OutOfBounds { offset: 0x44, len: 0x44 })
    );

    // nothing after the material library: no room for the LOD section
    let front_end = sample_mesh_front_end();
    let mut roff = 0;
    assert_eq!(
        StaticMesh::from_data(&out[..front_end], &mut roff),
        Err(VolitionError::OutOfBounds { offset: front_end, len: front_end })
    );
    assert_eq!(roff, front_end);
    let mut roff = 0;
    let back = StaticMesh::from_data(&out[..front_end + 1], &mut roff).unwrap();
    assert_eq!(back.lod_section, vec![1]);
    assert_eq!(roff, front_end + 1);

    let mut bad = out.clone();
    bad[4] = 34;
    let mut roff = 5;
    assert_eq!(
        StaticMesh::from_data(&bad, &mut roff),
        Err(VolitionError::UnknownStaticMeshVersion(34))
    );
    assert_eq!(roff, 5);
}

#[test]
fn library_read_then_write_gives_the_bytes() {
    let (buf, _) = written(&sample_library(), 0);
    let mut off = 0;
    let lib = MaterialsDeserialized::from_data(&buf, &mut off).unwrap();
    let (again, end) = written(&lib, 0);
    assert_eq!(end, off);
    assert_eq!(again, buf);
}

#[test]
fn library_read_then_write_zeroes_padding() {
    let (mut buf, _) = written(&sample_library(), 0);
    // Padding before the constant block: the reader skips it, the writer writes zeros.
    assert_eq!(&buf[124..128], &[0, 0, 0, 0]);
    buf[125] = 7;
    let mut off = 0;
    let lib = MaterialsDeserialized::from_data(&buf, &mut off).unwrap();
    assert_eq!(lib, sample_library());
    let (again, _) = written(&lib, 0);
    assert_eq!(again[125], 0);
    assert_ne!(again, buf);
}

#[test]
fn static_mesh_read_then_write_gives_the_bytes() {
    let mesh = sample_mesh();
    let mut buf = vec![];
    let mut off = 0;
    mesh.write(&mut buf, &mut off);
    let mut roff = 0;
    let back = StaticMesh::from_data(&buf, &mut roff).unwrap();
    let mut again = vec![];
    let mut woff = 0;
    back.write(&mut again, &mut woff);
    assert_eq!(roff, buf.len());
    assert_eq!(woff, roff);
    assert_eq!(again, buf);
}

#[test]
fn library_shared_const_range_reads_back() {
    // material 1 names the same four floats as material 0's second range
    let mut lib = sample_library();
    lib.materials[1].consts_a_first = 4;
    lib.materials[1].const_vecs_a = vec![[5, 6, 7, 8]];
    let (buf, end) = written(&lib, 0);
    assert_eq!(&buf[0x90..0xa0], &[5, 0, 0, 0, 6, 0, 0, 0, 7, 0, 0, 0, 8, 0, 0, 0]);
    assert_eq!(&buf[0xa0..0xb0], &[0xff; 16]);
    let mut off = 0;
    assert_eq!(MaterialsDeserialized::from_data(&buf, &mut off).unwrap(), lib);
    assert_eq!(off, end);

    // with other floats there, the later write wins and the earlier range reads it
    let mut clash = lib.clone();
    clash.materials[1].const_vecs_a = vec![[1, 2, 3, 4]];
    let (buf, _) = written(&clash, 0);
    let mut off = 0;
    let back = MaterialsDeserialized::from_data(&buf, &mut off).unwrap();
    assert_eq!(back.materials[0].const_vecs_b, vec![[1, 2, 3, 4]]);
    assert_ne!(back, clash);
}

#[test]
fn library_write_end() {
    let lib = sample_library();
    assert_eq!(lib.write_end(0), Some(0x148));
    assert_eq!(lib.write_end(6), Some(written(&lib, 6).1));
    assert_eq!(lib.write_end(usize::MAX - 8), None);

    // a constant range past the block that writing builds: writing cannot place it
    let mut far = sample_library();
    far.materials[1].consts_a_first = 400;
    assert_eq!(far.write_end(0), None);

    // a library read from bytes can be tested before it is written back
    let (buf, end) = written(&lib, 0);
    let mut off = 0;
    let back = MaterialsDeserialized::from_data(&buf, &mut off).unwrap();
    assert_eq!(back.write_end(0), Some(end));
}

#[test]
fn static_mesh_write_end() {
    let mesh = sample_mesh();
    let mut out = vec![];
    let mut off = 0;
    mesh.write(&mut out, &mut off);
    assert_eq!(mesh.write_end(0), Some(off));
    assert_eq!(mesh.write_end(3), Some(off + 16));
    assert_eq!(mesh.write_end(usize::MAX - 20), None);

    let mut far = sample_mesh();
    far.matlib.materials[0].consts_b_first = 40;
    assert_eq!(far.write_end(0), None);

    let mut roff = 0;
    let back = StaticMesh::from_data(&out, &mut roff).unwrap();
    let end = back.write_end(0).unwrap();
    let mut again = vec![];
    let mut woff = 0;
    back.write(&mut again, &mut woff);
    assert_eq!(woff, end);
    assert_eq!(again, out);
}
