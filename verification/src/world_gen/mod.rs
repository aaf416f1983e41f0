pub mod basic;
pub mod chunk;
pub mod meta_chunk;
pub mod vertex_generation;
pub mod generator;
