use std::mem::size_of;

use v_types::{
    Check, Field, Material, MaterialConstHeader, MaterialTextureEntry, MaterialUnknown1,
    MaterialUnknown3, MaterialsHeader, VolitionError,
};

#[test]
fn test_material_block_size() {
    assert_eq!(size_of::<MaterialsHeader>(), 0x24);
}

#[test]
fn test_materials_header_cycle() {
    let mut buf: Vec<u8> = vec![];

    buf.extend_from_slice(&9_i32.to_le_bytes()); // num_materials
    buf.extend_from_slice(&0_i32.to_le_bytes());
    buf.extend_from_slice(&0_i32.to_le_bytes());
    buf.extend_from_slice(&0_i32.to_le_bytes());
    buf.extend_from_slice(&10_i32.to_le_bytes()); // num_const_floats
    buf.extend_from_slice(&0_i32.to_le_bytes());
    buf.extend_from_slice(&0_i32.to_le_bytes());
    buf.extend_from_slice(&11_i32.to_le_bytes()); // num_mat_unknown3
    buf.extend_from_slice(&0_i32.to_le_bytes());

    let hed = MaterialsHeader::from_le_unsized(&buf).unwrap();
    assert_eq!(buf, hed.to_le_bytes());
}

#[test]
fn test_material_size() {
    assert_eq!(size_of::<Material>(), 0x18);
}

#[test]
fn test_material_cycle() {
    let mut buf: Vec<u8> = vec![];

    buf.extend_from_slice(&0xba115101_u32.to_le_bytes());
    buf.extend_from_slice(&0xb00bfee7_u32.to_le_bytes());
    buf.extend_from_slice(&1_i32.to_le_bytes());
    buf.extend_from_slice(&3_i16.to_le_bytes());
    buf.extend_from_slice(&4_i16.to_le_bytes());
    buf.extend_from_slice(&5_i16.to_le_bytes());
    buf.extend_from_slice(&6_i16.to_le_bytes());
    buf.extend_from_slice(&(-1_i32).to_le_bytes());

    let hed = Material::from_le_unsized(&buf).unwrap();
    assert_eq!(buf, hed.to_le_bytes());
}

#[test]
fn test_material_unk3() {
    assert_eq!(size_of::<MaterialUnknown3>(), 0x10);
}

#[test]
fn test_material_unk3_cycle() {
    let mut buf: Vec<u8> = vec![];

    buf.extend_from_slice(&1_i32.to_le_bytes());
    buf.extend_from_slice(&2_i32.to_le_bytes());
    buf.extend_from_slice(&3_i16.to_le_bytes());
    buf.extend_from_slice(&4_i16.to_le_bytes());
    buf.extend_from_slice(&(-1_i32).to_le_bytes());

    let hed = MaterialUnknown3::from_le_unsized(&buf).unwrap();
    assert_eq!(buf, hed.to_le_bytes());
}

fn header_bytes(fields: [i32; 9]) -> Vec<u8> {
    let mut buf = vec![];
    for f in fields {
        buf.extend_from_slice(&f.to_le_bytes());
    }
    buf
}

#[test]
fn materials_header_fields_read_little_endian() {
    let buf = header_bytes([0x81, 0, 0, 0, 0x2710, 0, 0, 0x07d0, 0]);
    assert_eq!(&buf[0x10..0x14], &[0x10, 0x27, 0, 0]);
    let hed = MaterialsHeader::from_le_unsized(&buf).unwrap();
    assert_eq!(hed.num_materials, 129);
    assert_eq!(hed.num_const_floats, 10000);
    assert_eq!(hed.num_mat_unknown3, 2000);
}

#[test]
fn materials_header_limits_are_inclusive() {
    let buf = header_bytes([200, 0, 0, 0, 10000, 0, 0, 2000, 0]);
    let hed = MaterialsHeader::from_le_unsized(&buf).unwrap();
    assert_eq!(hed, MaterialsHeader::new(200, 10000, 2000));
}

#[test]
fn materials_header_too_many_materials() {
    let buf = header_bytes([201, 0, 0, 0, 0, 0, 0, 0, 0]);
    assert_eq!(
        MaterialsHeader::from_le_unsized(&buf),
        Err(VolitionError::ValueTooHigh { field: Field::MaterialsNumMaterials, max: 200, got: 201 })
    );
}

#[test]
fn materials_header_reserved_field_nonzero() {
    let buf = header_bytes([1, 0, -3, 0, 0, 0, 0, 0, 0]);
    assert_eq!(
        MaterialsHeader::from_le_unsized(&buf),
        Err(VolitionError::ExpectedExactValue {
            field: Field::MaterialsUnknown08,
            expected: 0,
            got: -3
        })
    );
    let buf = header_bytes([1, 0, 0, 0, 0, 0, 0, 0, 7]);
    assert_eq!(
        MaterialsHeader::from_le_unsized(&buf),
        Err(VolitionError::ExpectedExactValue {
            field: Field::MaterialsUnknown20,
            expected: 0,
            got: 7
        })
    );
}

#[test]
fn materials_header_too_many_constants_and_unknown3s() {
    let buf = header_bytes([0, 0, 0, 0, 10001, 0, 0, 0, 0]);
    assert_eq!(
        MaterialsHeader::from_le_unsized(&buf),
        Err(VolitionError::ValueTooHigh {
            field: Field::MaterialsNumConstFloats,
            max: 10000,
            got: 10001
        })
    );
    let buf = header_bytes([0, 0, 0, 0, 0, 0, 0, 2001, 0]);
    assert_eq!(
        MaterialsHeader::from_le_unsized(&buf),
        Err(VolitionError::ValueTooHigh { field: Field::MaterialsNumUnknown3, max: 2000, got: 2001 })
    );
}

#[test]
fn materials_header_first_failing_check_wins() {
    let buf = header_bytes([300, 5, 0, 0, 0, 0, 0, 0, 0]);
    assert!(matches!(
        MaterialsHeader::from_le_unsized(&buf),
        Err(VolitionError::ValueTooHigh { field: Field::MaterialsNumMaterials, .. })
    ));
}

#[test]
fn short_buffers_are_too_small() {
    assert_eq!(
        MaterialsHeader::from_le_unsized(&[0u8; 0x23]),
        Err(VolitionError::BufferTooSmall { needed: 0x24, got: 0x23 })
    );
    assert_eq!(
        Material::from_le_unsized(&[]),
        Err(VolitionError::BufferTooSmall { needed: 0x18, got: 0 })
    );
    assert_eq!(
        MaterialTextureEntry::from_le_unsized(&[1, 2, 3]),
        Err(VolitionError::BufferTooSmall { needed: 4, got: 3 })
    );
}

#[test]
fn longer_buffers_read_their_prefix() {
    let mut buf = header_bytes([3, 0, 0, 0, 4, 0, 0, 5, 0]);
    buf.extend_from_slice(&[0xaa; 7]);
    let hed = MaterialsHeader::from_le_unsized(&buf).unwrap();
    assert_eq!(hed, MaterialsHeader::new(3, 4, 5));
    assert_eq!(hed.to_le_bytes().to_vec(), buf[..0x24].to_vec());
}

#[test]
fn materials_header_write_zeroes_reserved_fields() {
    let mut h = MaterialsHeader::new(1, 2, 3);
    h.unknown_14 = 99;
    let bytes = h.to_le_bytes();
    assert_eq!(&bytes[0x14..0x18], &[0, 0, 0, 0]);
    assert_eq!(&bytes[0x10..0x14], &[2, 0, 0, 0]);
}

fn material_bytes(num_unknown: u16, ptr_14: i32) -> Vec<u8> {
    let mut buf = vec![];
    buf.extend_from_slice(&7_i32.to_le_bytes());
    buf.extend_from_slice(&8_i32.to_le_bytes());
    buf.extend_from_slice(&9_i32.to_le_bytes());
    buf.extend_from_slice(&num_unknown.to_le_bytes());
    buf.extend_from_slice(&2_u16.to_le_bytes());
    buf.extend_from_slice(&(-5_i16).to_le_bytes());
    buf.extend_from_slice(&6_i16.to_le_bytes());
    buf.extend_from_slice(&ptr_14.to_le_bytes());
    buf
}

#[test]
fn material_fields_and_signed_values() {
    let m = Material::from_le_unsized(&material_bytes(0, 0)).unwrap();
    assert_eq!(
        m,
        Material {
            shader_hash: 7,
            material_hash: 8,
            flags: 9,
            num_unknown: 0,
            num_textures: 2,
            unk_10: -5,
            unk_12: 6,
            ptr_14: 0
        }
    );
}

#[test]
fn material_ptr_14_checks() {
    assert_eq!(
        Material::from_le_unsized(&material_bytes(0, 1)),
        Err(VolitionError::UnexpectedValue { desc: Check::MaterialPtr14ZeroOrMinusOne, got: 1 })
    );
    assert_eq!(
        Material::from_le_unsized(&material_bytes(2, 0)),
        Err(VolitionError::UnexpectedValue { desc: Check::MaterialPtr14MinusOne, got: 0 })
    );
    assert!(Material::from_le_unsized(&material_bytes(2, -1)).is_ok());
}

#[test]
fn material_from_le_bytes_matches_unsized() {
    let v = material_bytes(0, -1);
    let mut arr = [0u8; 0x18];
    arr.copy_from_slice(&v);
    assert_eq!(Material::from_le_bytes(&arr), Material::from_le_unsized(&v));
}

#[test]
fn unknown1_and_const_header_cycle() {
    let buf = [0xff, 0xff, 0x01, 0x00, 0x00, 0x80];
    let u = MaterialUnknown1::from_le_unsized(&buf).unwrap();
    assert_eq!(u, MaterialUnknown1 { unk_00: -1, unk_02: 1, unk_04: -32768 });
    assert_eq!(u.to_le_bytes(), buf);

    let buf = [8, 0, 0, 0, 4, 0, 0, 0];
    let c = MaterialConstHeader::from_le_unsized(&buf).unwrap();
    assert_eq!(c, MaterialConstHeader { num_floats: 8, first_float: 4 });
    assert_eq!(c.to_le_bytes(), buf);
}

#[test]
fn texture_entry_predicates() {
    let p = MaterialTextureEntry::placeholder();
    assert_eq!(p, MaterialTextureEntry { index: -1, flags: -1 });
    assert!(p.is_placeholder());
    assert!(!p.is_valid());
    let t = MaterialTextureEntry { index: 0, flags: 3 };
    assert!(t.is_valid());
    assert!(!t.is_placeholder());
    assert!(!MaterialTextureEntry { index: 2, flags: -1 }.is_valid());
    assert!(!MaterialTextureEntry { index: -1, flags: 0 }.is_placeholder());
    assert_eq!(p.to_le_bytes(), [0xff; 4]);
}

#[test]
fn unknown3_checks() {
    let mut buf = vec![];
    buf.extend_from_slice(&1_i32.to_le_bytes());
    buf.extend_from_slice(&2_i32.to_le_bytes());
    buf.extend_from_slice(&51_u16.to_le_bytes());
    buf.extend_from_slice(&4_i16.to_le_bytes());
    buf.extend_from_slice(&(-1_i32).to_le_bytes());
    assert_eq!(
        MaterialUnknown3::from_le_unsized(&buf),
        Err(VolitionError::ValueTooHigh { field: Field::Unknown3NumUnknown4, max: 50, got: 51 })
    );
    buf[8] = 50;
    buf[12] = 0;
    assert_eq!(
        MaterialUnknown3::from_le_unsized(&buf),
        Err(VolitionError::ExpectedExactValue {
            field: Field::Unknown3Ptr08,
            expected: -1,
            got: -256
        })
    );
}

#[test]
fn unknown3_writes_minus_one_pointer() {
    let u = MaterialUnknown3 { unk_00: 1, unk_04: 2, num_mat_unk4: 3, unk_06: 4, ptr_08: 0 };
    let bytes = u.to_le_bytes();
    assert_eq!(&bytes[0xc..], &[0xff; 4]);
    let back = MaterialUnknown3::from_le_bytes(&bytes).unwrap();
    assert_eq!(back.ptr_08, -1);
    assert_eq!(back.num_mat_unk4, 3);
}
