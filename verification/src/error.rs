//! Errors reported while reading the on-disk formats.

use vstd::prelude::*;

verus! {

/// A header field whose value was checked against a limit or an exact value.
#[derive(Debug, Clone, Copy, PartialEq, Eq, Structural)]
pub enum Field {
    MaterialsNumMaterials,
    MaterialsUnknown04,
    MaterialsUnknown08,
    MaterialsUnknown0c,
    MaterialsNumConstFloats,
    MaterialsUnknown14,
    MaterialsUnknown18,
    MaterialsNumUnknown3,
    MaterialsUnknown20,
    Unknown3NumUnknown4,
    Unknown3Ptr08,
    MaterialUnknown4,
    StaticMeshMagic,
    StaticMeshNumTextures,
    StaticMeshNumNavpoints,
    StaticMeshNumBones,
}

/// A consistency check on a value that has no single expected value.
#[derive(Debug, Clone, Copy, PartialEq, Eq, Structural)]
pub enum Check {
    /// `Material::ptr_14` must be 0 or -1.
    MaterialPtr14ZeroOrMinusOne,
    /// `Material::ptr_14` must be -1 when the material has unknown1 records.
    MaterialPtr14MinusOne,
    /// `MaterialConstHeader::num_floats` must be a multiple of 4.
    ConstNumFloatsMultipleOf4,
    /// `MaterialConstHeader::first_float` must be a multiple of 4.
    ConstFirstFloatMultipleOf4,
    /// The first constant range of a material must end inside the constant block.
    ConstsEndAInBlock,
    /// The second constant range of a material must end inside the constant block.
    ConstsEndBInBlock,
    /// Texture entries in the used range must be valid.
    TextureEntryValid,
    /// Texture entries past the used range must be placeholders.
    TextureEntryPlaceholder,
    /// `StaticMeshHeader::unk_2c` must be 0 or 2.
    StaticMeshUnk2c,
}

/// Why a buffer could not be read.
#[allow(inconsistent_fields)]
#[derive(Debug, Clone, Copy, PartialEq, Eq, Structural)]
pub enum VolitionError {
    /// A record of `needed` bytes was read from a slice of `got` bytes.
    BufferTooSmall { needed: usize, got: usize },
    /// A read at `offset` does not fit in a buffer of `len` bytes.
    OutOfBounds { offset: usize, len: usize },
    /// A value failed a consistency check.
    UnexpectedValue { desc: Check, got: i32 },
    /// A count exceeds the largest value the format allows.
    ValueTooHigh { field: Field, max: usize, got: usize },
    /// A field that has a single allowed value holds another one.
    ExpectedExactValue { field: Field, expected: i32, got: i32 },
    /// The static-mesh header names a version other than the supported one.
    UnknownStaticMeshVersion(i16),
    /// No NUL byte ends the string that starts at `offset`.
    MissingNullTerminator { offset: usize },
    /// The string that starts at `offset` is not UTF-8.
    InvalidUtf8 { offset: usize },
}

} // verus!
