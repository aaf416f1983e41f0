//! A voxel world: block kinds and positions, chunks stored as trees of
//! nodes, meta chunks and a world of them, terrain generation, structures
//! and block meshes.

pub mod algorithms;
pub mod blocks;
pub mod constants;
pub mod positions;
pub mod render;
pub mod structures;
pub mod utils;
pub mod world;
pub mod world_gen;
