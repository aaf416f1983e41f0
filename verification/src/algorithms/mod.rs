pub mod bfs_world;
