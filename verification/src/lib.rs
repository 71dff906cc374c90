//! Chunked voxel storage with face-culling surface-mesh extraction.
//!
//! A [`world::World`] maps chunk coordinates to fixed-size cubic
//! [`chunk::Chunk`]s of typed [`voxel::Voxel`]s. Terrain population fills a
//! chunk column by column from an externally sampled height field, and mesh
//! extraction walks the grid and emits, for each of the six cardinal face
//! directions, a batch of quads for exactly the visible faces.

pub mod chunk;
pub mod mesh;
pub mod terrain;
pub mod voxel;
pub mod world;
