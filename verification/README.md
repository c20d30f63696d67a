# v_types

Readers and writers for the static-mesh container format (`smesh`/`cmesh`) and the
material library it embeds, written in Verus: every byte layout is stated as a
specification, and the readers and writers are proved against it.

## Layout

- `src/util.rs`: little-endian reading and writing, alignment and padding.
- `src/record.rs`: fixed-size on-disk records (`Record`), runs of them, and facts about
  where a buffer holds which bytes.
- `src/material.rs`, `src/static_mesh.rs`, `src/vector.rs`, `src/quaternion.rs`: the
  fixed-size records, each with its reading and writing and the laws that relate them.
- `src/materials.rs`: reading the material library; `src/materials_write.rs`: writing it.
- `src/smesh.rs`: reading and writing a static mesh: its sections up to and including the
  material library are read into values; what follows (the LOD mesh header, the optional
  20-byte block and the LOD meshes) is kept as the bytes it is stored as, and writing ends
  with padding to 16.
- `src/write_checks.rs`: deciding before writing whether a library or a mesh can be written
  from a given offset, and where writing ends.
- `src/text.rs`: NUL-terminated UTF-8 names.
- `src/error.rs`: the errors that reading reports.
- `src/materials_read_back.rs`, `src/smesh_read_back.rs`: reading back what was written
  gives what was written.
- `src/materials_rewrite.rs`, `src/smesh_rewrite.rs`: writing back what was read from a
  buffer laid out as writing lays it out gives the bytes that were read.
- `app/`: the model viewer's widgets for the material library and loading a mesh from a
  file. Single-precision values are kept as bit patterns in the library; the widgets
  convert them.
- `tests/`: tests of the library on concrete buffers.
