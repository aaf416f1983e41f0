# vox

A voxel world whose core is verified with Verus.

`src/` is the library; every function in it carries a contract that Verus proves:

- `blocks`: block kinds and their ids, which faces of a block are drawn, and
  the corners and triangles of a block's faces (`block_mesh`).
- `positions`, `utils`: block, chunk and meta chunk positions and the integer
  arithmetic that splits one into the other.
- `world_gen::chunk`: a chunk stored as a tree of nodes, with reads, writes
  and the merging of nodes that hold a single block; `write_keeps_others`
  tells beforehand whether a write keeps every other block, and such a write
  keeps the tree canonical.
- `world_gen::meta_chunk`: a column of chunks; `world::small_world`: the loaded
  meta chunks of a world, kept sorted by position.
- `world_gen::basic`, `world_gen::generator`: terrain from column heights.
- `world_gen::vertex_generation`: the mesh of a chunk.
- `algorithms::bfs_world`: the neighbours a breadth-first search visits.
- `structures`: squares of sand and trees.

`app/` holds a command-line program around the library: benchmarks of chunk
storage, terrain from noise (noise values are floating point, so heights are
computed there), and meshing.
