use v_types::{
    Check, Field, Quaternion, StaticMeshHeader, StaticMeshNavpoint, Vector, VolitionError,
};

#[test]
fn test_header_cycle_bytes() {
    let mut buf = vec![];

    buf.extend_from_slice(&StaticMeshHeader::SIGNATURE.to_le_bytes());
    buf.extend_from_slice(&StaticMeshHeader::VERSION.to_le_bytes());
    buf.extend_from_slice(&4_i16.to_le_bytes()); // mesh_flags
    buf.extend_from_slice(&5_i32.to_le_bytes()); // unk_08
    buf.extend_from_slice(&6_i16.to_le_bytes()); // num_textures
    buf.extend_from_slice(&7_i16.to_le_bytes()); // num_navpoints
    buf.extend_from_slice(&7_i32.to_le_bytes()); // unk_10
    buf.extend_from_slice(&3.0_f32.to_le_bytes()); // pos
    buf.extend_from_slice(&4.0_f32.to_le_bytes());
    buf.extend_from_slice(&5.0_f32.to_le_bytes());
    buf.extend_from_slice(&6.0_f32.to_le_bytes()); // radius
    buf.extend_from_slice(&7_u32.to_le_bytes()); // num_bones
    buf.extend_from_slice(&8_i32.to_le_bytes()); // unk_28
    buf.extend_from_slice(&2_i32.to_le_bytes()); // unk_2c

    let hed = StaticMeshHeader::from_le_unsized(&buf).unwrap();
    assert_eq!(buf, hed.to_le_bytes());
}

#[test]
fn test_navpoint_cycle_bytes() {
    let mut buf = vec![];

    buf.extend_from_slice(&[67_u8; 64]);
    buf.extend_from_slice(&0_i32.to_le_bytes());
    buf.extend_from_slice(&3.0_f32.to_le_bytes());
    buf.extend_from_slice(&4.0_f32.to_le_bytes());
    buf.extend_from_slice(&5.0_f32.to_le_bytes());
    buf.extend_from_slice(&(-5.0_f32).to_le_bytes());
    buf.extend_from_slice(&(-5.0_f32).to_le_bytes());
    buf.extend_from_slice(&(-5.0_f32).to_le_bytes());
    buf.extend_from_slice(&(-5.0_f32).to_le_bytes());

    let hed = StaticMeshNavpoint::from_le_unsized(&buf).unwrap();
    assert_eq!(buf, hed.to_le_bytes());
}

fn header_bytes(
    magic: i32,
    version: i16,
    num_textures: u16,
    num_navpoints: u16,
    num_bones: u32,
    unk_2c: i32,
) -> Vec<u8> {
    let mut buf = vec![];
    buf.extend_from_slice(&magic.to_le_bytes());
    buf.extend_from_slice(&version.to_le_bytes());
    buf.extend_from_slice(&(-2_i16).to_le_bytes());
    buf.extend_from_slice(&5_i32.to_le_bytes());
    buf.extend_from_slice(&num_textures.to_le_bytes());
    buf.extend_from_slice(&num_navpoints.to_le_bytes());
    buf.extend_from_slice(&9_i32.to_le_bytes());
    buf.extend_from_slice(&1.5_f32.to_le_bytes());
    buf.extend_from_slice(&(-2.0_f32).to_le_bytes());
    buf.extend_from_slice(&0.25_f32.to_le_bytes());
    buf.extend_from_slice(&10.0_f32.to_le_bytes());
    buf.extend_from_slice(&num_bones.to_le_bytes());
    buf.extend_from_slice(&(-8_i32).to_le_bytes());
    buf.extend_from_slice(&unk_2c.to_le_bytes());
    buf
}

#[test]
fn header_fields_and_float_bits() {
    let buf = header_bytes(StaticMeshHeader::SIGNATURE, 33, 100, 100, 500, 0);
    let h = StaticMeshHeader::from_le_unsized(&buf).unwrap();
    assert_eq!(h.magic, 0x424BD00D);
    assert_eq!(h.version, 33);
    assert_eq!(h.mesh_flags, -2);
    assert_eq!(h.unk_08, 5);
    assert_eq!(h.num_textures, 100);
    assert_eq!(h.num_navpoints, 100);
    assert_eq!(h.unk_10, 9);
    assert_eq!(
        h.bounding_center,
        Vector { x: 1.5_f32.to_bits(), y: (-2.0_f32).to_bits(), z: 0.25_f32.to_bits() }
    );
    assert_eq!(f32::from_bits(h.bounding_radius), 10.0);
    assert_eq!(h.num_bones, 500);
    assert_eq!(h.unk_28, -8);
    assert_eq!(h.unk_2c, 0);
}

#[test]
fn header_errors() {
    assert_eq!(
        StaticMeshHeader::from_le_unsized(&header_bytes(0x12345678, 33, 0, 0, 0, 0)),
        Err(VolitionError::ExpectedExactValue {
            field: Field::StaticMeshMagic,
            expected: 0x424BD00D,
            got: 0x12345678
        })
    );
    assert_eq!(
        StaticMeshHeader::from_le_unsized(&header_bytes(StaticMeshHeader::SIGNATURE, 32, 0, 0, 0, 0)),
        Err(VolitionError::UnknownStaticMeshVersion(32))
    );
    assert_eq!(
        StaticMeshHeader::from_le_unsized(&header_bytes(StaticMeshHeader::SIGNATURE, 33, 101, 0, 0, 0)),
        Err(VolitionError::ValueTooHigh { field: Field::StaticMeshNumTextures, max: 100, got: 101 })
    );
    assert_eq!(
        StaticMeshHeader::from_le_unsized(&header_bytes(StaticMeshHeader::SIGNATURE, 33, 0, 101, 0, 0)),
        Err(VolitionError::ValueTooHigh { field: Field::StaticMeshNumNavpoints, max: 100, got: 101 })
    );
    assert_eq!(
        StaticMeshHeader::from_le_unsized(&header_bytes(StaticMeshHeader::SIGNATURE, 33, 0, 0, 501, 0)),
        Err(VolitionError::ValueTooHigh { field: Field::StaticMeshNumBones, max: 500, got: 501 })
    );
    assert_eq!(
        StaticMeshHeader::from_le_unsized(&header_bytes(StaticMeshHeader::SIGNATURE, 33, 0, 0, 0, 1)),
        Err(VolitionError::UnexpectedValue { desc: Check::StaticMeshUnk2c, got: 1 })
    );
    assert_eq!(
        StaticMeshHeader::from_le_unsized(&[0u8; 0x2f]),
        Err(VolitionError::BufferTooSmall { needed: 0x30, got: 0x2f })
    );
}

#[test]
fn header_write_uses_signature_and_version() {
    let buf = header_bytes(StaticMeshHeader::SIGNATURE, 33, 1, 2, 3, 2);
    let mut h = StaticMeshHeader::from_le_unsized(&buf).unwrap();
    h.magic = 0;
    h.version = 0;
    assert_eq!(h.to_le_bytes().to_vec(), buf);
}

fn navpoint_with_name(name: &[u8]) -> StaticMeshNavpoint {
    let mut n = [0u8; 64];
    n[..name.len()].copy_from_slice(name);
    StaticMeshNavpoint {
        name: n,
        vid: -3,
        pos: Vector { x: 1, y: 2, z: 3 },
        orient: Quaternion { x: 4, y: 5, z: 6, w: 7 },
    }
}

#[test]
fn navpoint_name() {
    let n = navpoint_with_name(b"bone_head");
    assert_eq!(n.name(), Ok("bone_head"));
    let n = navpoint_with_name(b"");
    assert_eq!(n.name(), Ok(""));
}

#[test]
fn navpoint_name_errors() {
    let n = navpoint_with_name(&[b'a'; 64]);
    assert_eq!(n.name(), Err(VolitionError::MissingNullTerminator { offset: 0 }));
    let n = navpoint_with_name(&[0xff, 0xfe]);
    assert_eq!(n.name(), Err(VolitionError::InvalidUtf8 { offset: 0 }));
}

#[test]
fn navpoint_write_read() {
    let n = navpoint_with_name(b"ik_hand");
    let bytes = n.to_le_bytes();
    assert_eq!(&bytes[0x40..0x44], &(-3_i32).to_le_bytes());
    assert_eq!(&bytes[0x44..0x48], &1_u32.to_le_bytes());
    assert_eq!(&bytes[0x5c..0x60], &7_u32.to_le_bytes());
    assert_eq!(StaticMeshNavpoint::from_le_bytes(&bytes), Ok(n));
}

#[test]
fn vector_and_quaternion_cycle() {
    let bytes: Vec<u8> = (0u8..16).collect();
    let q = Quaternion::from_le_unsized(&bytes).unwrap();
    assert_eq!(q.x, 0x03020100);
    assert_eq!(q.w, 0x0f0e0d0c);
    assert_eq!(q.to_le_bytes().to_vec(), bytes);
    let v = Vector::from_le_unsized(&bytes).unwrap();
    assert_eq!(v.z, 0x0b0a0908);
    assert_eq!(v.to_le_bytes().to_vec(), bytes[..12].to_vec());
}
