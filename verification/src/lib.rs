//! Readers and writers for the static-mesh (`smesh`/`cmesh`) container format and its
//! material library, with every byte layout stated and proved.

pub mod error;
pub mod material;
pub mod materials;
pub mod materials_read_back;
pub mod materials_rewrite;
pub mod materials_write;
pub mod quaternion;
pub mod record;
pub mod smesh;
pub mod smesh_read_back;
pub mod smesh_rewrite;
pub mod static_mesh;
pub mod text;
pub mod util;
pub mod vector;
pub mod write_checks;

pub use error::{Check, Field, VolitionError};
pub use material::{
    Material, MaterialConstHeader, MaterialTextureEntry, MaterialUnknown1, MaterialUnknown3,
    MaterialsHeader,
};
pub use materials::{MaterialConst, MaterialDeserialized, MaterialsDeserialized};
pub use quaternion::Quaternion;
pub use smesh::StaticMesh;
pub use static_mesh::{StaticMeshHeader, StaticMeshNavpoint};
pub use vector::Vector;
