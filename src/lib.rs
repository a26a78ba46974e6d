//! Sparse voxel world: palette-compressed chunks, face-culled chunk meshing,
//! observer-driven chunk streaming and packing of chunk meshes into bounded
//! vertex buffers.
pub mod assoc;
pub mod block;
pub mod chunk;
pub mod input;
pub mod menu;
pub mod mesh;
pub mod pack;
pub mod registry;
pub mod scene;
pub mod streaming;
pub mod world;
