pub mod block;
pub mod blockside;
pub mod block_mesh;
