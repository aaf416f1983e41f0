use vstd::prelude::*;
use crate::constants::{CHUNKSIZE, METACHUNKSIZE};
use crate::utils::{floor_div, wrap};

verus! {

/// Position of a block in the world.
#[derive(Debug, Copy, Clone, PartialEq, Eq, Structural, Hash)]
pub struct GlobalBlockPos {
    pub x: i32,
    pub y: i32,
    pub z: i32,
}

/// Position of a block within a chunk.
#[derive(Debug, Copy, Clone, PartialEq, Eq, Structural, Hash)]
pub struct LocalBlockPos {
    pub x: i32,
    pub y: i32,
    pub z: i32,
}

/// Position of a chunk in the world.
#[derive(Debug, Copy, Clone, PartialEq, Eq, Structural, Hash, PartialOrd, Ord)]
pub struct ChunkPos {
    pub x: i32,
    pub y: i32,
    pub z: i32,
}

/// Position of a meta chunk (a column of chunks) in the world.
#[derive(Debug, Copy, Clone, PartialEq, Eq, Structural, Hash, PartialOrd, Ord)]
pub struct MetaChunkPos {
    pub x: i32,
    pub z: i32,
}

/// Position of a chunk within a meta chunk.
#[derive(Debug, PartialEq, Eq, Structural)]
pub struct LocalChunkPos {
    pub x: i32,
    pub y: i32,
    pub z: i32,
}

/// Blocks along the horizontal edge of a meta chunk.
pub open spec fn meta_chunk_blocks() -> int {
    CHUNKSIZE as int * METACHUNKSIZE as int
}

/// The block at the given offsets from `pos`.
pub open spec fn offset(pos: GlobalBlockPos, dx: int, dy: int, dz: int) -> GlobalBlockPos {
    GlobalBlockPos { x: (pos.x + dx) as i32, y: (pos.y + dy) as i32, z: (pos.z + dz) as i32 }
}

/// The value lies in the range of `i32`.
pub open spec fn fits_i32(v: int) -> bool {
    i32::MIN <= v <= i32::MAX
}

impl LocalChunkPos {
    /// The world position of this chunk when it lies in the meta chunk at `pos`.
    pub fn get_chunk_pos(&self, pos: &MetaChunkPos) -> (r: ChunkPos)
        requires
            fits_i32(pos.x * METACHUNKSIZE),
            fits_i32(pos.z * METACHUNKSIZE),
            fits_i32(pos.x * METACHUNKSIZE + self.x),
            fits_i32(pos.z * METACHUNKSIZE + self.z),
        ensures
            r.x == pos.x * METACHUNKSIZE + self.x,
            r.y == self.y,
            r.z == pos.z * METACHUNKSIZE + self.z,
    {
        ChunkPos {
            x: pos.x * METACHUNKSIZE as i32 + self.x,
            y: self.y,
            z: pos.z * METACHUNKSIZE as i32 + self.z,
        }
    }
}

impl GlobalBlockPos {
    /// The chunk, within its meta chunk, that holds this block.
    pub fn get_local_chunk(&self) -> (r: LocalChunkPos)
        ensures
            r.x == (self.x as int / CHUNKSIZE as int) % METACHUNKSIZE as int,
            r.y == (self.y as int / CHUNKSIZE as int) % METACHUNKSIZE as int,
            r.z == (self.z as int / CHUNKSIZE as int) % METACHUNKSIZE as int,
    {
        LocalChunkPos {
            x: wrap(floor_div(self.x, CHUNKSIZE as i32), METACHUNKSIZE as i32),
            y: wrap(floor_div(self.y, CHUNKSIZE as i32), METACHUNKSIZE as i32),
            z: wrap(floor_div(self.z, CHUNKSIZE as i32), METACHUNKSIZE as i32),
        }
    }

    /// This position moved by the given offsets.
    pub fn get_diff(&self, x_diff: i32, y_diff: i32, z_diff: i32) -> (r: GlobalBlockPos)
        requires
            fits_i32(self.x + x_diff),
            fits_i32(self.y + y_diff),
            fits_i32(self.z + z_diff),
        ensures
            r.x == self.x + x_diff,
            r.y == self.y + y_diff,
            r.z == self.z + z_diff,
    {
        GlobalBlockPos { x: self.x + x_diff, y: self.y + y_diff, z: self.z + z_diff }
    }

    /// The position of this block within its chunk.
    pub fn get_local_pos(&self) -> (r: LocalBlockPos)
        ensures
            r.x == self.x as int % CHUNKSIZE as int,
            r.y == self.y as int % CHUNKSIZE as int,
            r.z == self.z as int % CHUNKSIZE as int,
    {
        LocalBlockPos {
            x: wrap(self.x, CHUNKSIZE as i32),
            y: wrap(self.y, CHUNKSIZE as i32),
            z: wrap(self.z, CHUNKSIZE as i32),
        }
    }

    /// The chunk that holds this block.
    pub fn get_chunk_pos(&self) -> (r: ChunkPos)
        ensures
            r.x == self.x as int / CHUNKSIZE as int,
            r.y == self.y as int / CHUNKSIZE as int,
            r.z == self.z as int / CHUNKSIZE as int,
    {
        ChunkPos {
            x: floor_div(self.x, CHUNKSIZE as i32),
            y: floor_div(self.y, CHUNKSIZE as i32),
            z: floor_div(self.z, CHUNKSIZE as i32),
        }
    }

    /// The meta chunk that holds this block.
    pub fn get_meta_chunk_pos(&self) -> (r: MetaChunkPos)
        ensures
            r.x == self.x as int / meta_chunk_blocks(),
            r.z == self.z as int / meta_chunk_blocks(),
    {
        MetaChunkPos {
            x: floor_div(self.x, (CHUNKSIZE * METACHUNKSIZE) as i32),
            z: floor_div(self.z, (CHUNKSIZE * METACHUNKSIZE) as i32),
        }
    }

    /// This position with `val` subtracted from every coordinate.
    pub fn sub(self, val: i32) -> (r: GlobalBlockPos)
        requires
            fits_i32(self.x - val),
            fits_i32(self.y - val),
            fits_i32(self.z - val),
        ensures
            r.x == self.x - val,
            r.y == self.y - val,
            r.z == self.z - val,
    {
        GlobalBlockPos { x: self.x - val, y: self.y - val, z: self.z - val }
    }
}

impl ChunkPos {
    /// This position moved by the given offsets.
    pub fn get_diff(&self, x_diff: i32, y_diff: i32, z_diff: i32) -> (r: ChunkPos)
        requires
            fits_i32(self.x + x_diff),
            fits_i32(self.y + y_diff),
            fits_i32(self.z + z_diff),
        ensures
            r.x == self.x + x_diff,
            r.y == self.y + y_diff,
            r.z == self.z + z_diff,
    {
        ChunkPos { x: self.x + x_diff, y: self.y + y_diff, z: self.z + z_diff }
    }

    /// Whether the chunk lies in the field of view; every chunk does.
    pub fn in_fov(&self) -> (r: bool)
        ensures
            r,
    {
        true
    }

    /// The position of this chunk within its meta chunk.
    pub fn get_local_chunk_pos(&self) -> (r: LocalChunkPos)
        ensures
            r.x == self.x as int % METACHUNKSIZE as int,
            r.y == self.y as int % METACHUNKSIZE as int,
            r.z == self.z as int % METACHUNKSIZE as int,
    {
        LocalChunkPos {
            x: wrap(self.x, METACHUNKSIZE as i32),
            y: wrap(self.y, METACHUNKSIZE as i32),
            z: wrap(self.z, METACHUNKSIZE as i32),
        }
    }

    /// The meta chunk that holds this chunk.
    pub fn get_meta_chunk_pos(&self) -> (r: MetaChunkPos)
        ensures
            r.x == self.x as int / METACHUNKSIZE as int,
            r.z == self.z as int / METACHUNKSIZE as int,
    {
        MetaChunkPos {
            x: floor_div(self.x, METACHUNKSIZE as i32),
            z: floor_div(self.z, METACHUNKSIZE as i32),
        }
    }
}

impl MetaChunkPos {
    /// This position moved by the given offsets.
    pub fn get_diff(&self, x_diff: i32, z_diff: i32) -> (r: MetaChunkPos)
        requires
            fits_i32(self.x + x_diff),
            fits_i32(self.z + z_diff),
        ensures
            r.x == self.x + x_diff,
            r.z == self.z + z_diff,
    {
        MetaChunkPos { x: self.x + x_diff, z: self.z + z_diff }
    }
}

impl LocalBlockPos {
    /// This position moved by the given offsets.
    pub fn get_diff(&self, x_diff: i32, y_diff: i32, z_diff: i32) -> (r: LocalBlockPos)
        requires
            fits_i32(self.x + x_diff),
            fits_i32(self.y + y_diff),
            fits_i32(self.z + z_diff),
        ensures
            r.x == self.x + x_diff,
            r.y == self.y + y_diff,
            r.z == self.z + z_diff,
    {
        LocalBlockPos { x: self.x + x_diff, y: self.y + y_diff, z: self.z + z_diff }
    }
}

/// A block's position is its chunk's position times the chunk size plus its
/// position within the chunk, and the latter lies inside the chunk
/// (`GlobalBlockPos::get_chunk_pos` and `GlobalBlockPos::get_local_pos`).
pub proof fn lemma_block_pos_split(p: GlobalBlockPos)
    ensures
        (p.x as int / CHUNKSIZE as int) * CHUNKSIZE as int + p.x as int % CHUNKSIZE as int == p.x,
        (p.y as int / CHUNKSIZE as int) * CHUNKSIZE as int + p.y as int % CHUNKSIZE as int == p.y,
        (p.z as int / CHUNKSIZE as int) * CHUNKSIZE as int + p.z as int % CHUNKSIZE as int == p.z,
        0 <= (p.x as int) % (CHUNKSIZE as int) < (CHUNKSIZE as int),
        0 <= (p.y as int) % (CHUNKSIZE as int) < (CHUNKSIZE as int),
        0 <= (p.z as int) % (CHUNKSIZE as int) < (CHUNKSIZE as int),
{
    vstd::arithmetic::div_mod::lemma_fundamental_div_mod(p.x as int, 16);
    vstd::arithmetic::div_mod::lemma_fundamental_div_mod(p.y as int, 16);
    vstd::arithmetic::div_mod::lemma_fundamental_div_mod(p.z as int, 16);
}

/// A chunk's position is its meta chunk's position times the meta chunk size
/// plus its position within the meta chunk, which lies inside the meta chunk;
/// `LocalChunkPos::get_chunk_pos` thus gives back the x and z of the chunk
/// that `ChunkPos::get_local_chunk_pos` and `ChunkPos::get_meta_chunk_pos`
/// came from.
pub proof fn lemma_chunk_pos_split(c: ChunkPos)
    ensures
        (c.x as int / METACHUNKSIZE as int) * METACHUNKSIZE as int + c.x as int % METACHUNKSIZE as int == c.x,
        (c.z as int / METACHUNKSIZE as int) * METACHUNKSIZE as int + c.z as int % METACHUNKSIZE as int == c.z,
        0 <= (c.x as int) % (METACHUNKSIZE as int) < (METACHUNKSIZE as int),
        0 <= (c.y as int) % (METACHUNKSIZE as int) < (METACHUNKSIZE as int),
        0 <= (c.z as int) % (METACHUNKSIZE as int) < (METACHUNKSIZE as int),
{
    vstd::arithmetic::div_mod::lemma_fundamental_div_mod(c.x as int, 16);
    vstd::arithmetic::div_mod::lemma_fundamental_div_mod(c.z as int, 16);
    vstd::arithmetic::div_mod::lemma_mod_bound(c.y as int, 16);
}

/// The meta chunk of a block is the meta chunk of its chunk
/// (`GlobalBlockPos::get_meta_chunk_pos` against `ChunkPos::get_meta_chunk_pos`
/// of `GlobalBlockPos::get_chunk_pos`).
pub proof fn lemma_block_meta_chunk(p: GlobalBlockPos)
    ensures
        p.x as int / meta_chunk_blocks() == (p.x as int / CHUNKSIZE as int) / METACHUNKSIZE as int,
        p.z as int / meta_chunk_blocks() == (p.z as int / CHUNKSIZE as int) / METACHUNKSIZE as int,
{
    lemma_div_twice(p.x as int);
    lemma_div_twice(p.z as int);
}

/// Rounding down by 16 twice rounds down by 256, for negative values too.
proof fn lemma_div_twice(x: int)
    ensures
        (x / 16) / 16 == x / 256,
{
    let q1 = x / 16;
    let r1 = x % 16;
    let q2 = q1 / 16;
    let r2 = q1 % 16;
    vstd::arithmetic::div_mod::lemma_fundamental_div_mod(x, 16);
    vstd::arithmetic::div_mod::lemma_fundamental_div_mod(q1, 16);
    vstd::arithmetic::div_mod::lemma_mod_bound(x, 16);
    vstd::arithmetic::div_mod::lemma_mod_bound(q1, 16);
    assert(x == q2 * 256 + (16 * r2 + r1) && 0 <= 16 * r2 + r1 < 256) by (nonlinear_arith)
        requires
            x == 16 * q1 + r1,
            q1 == 16 * q2 + r2,
            0 <= r1 < 16,
            0 <= r2 < 16,
    {
    }
    vstd::arithmetic::div_mod::lemma_fundamental_div_mod_converse(x, 256, q2, 16 * r2 + r1);
}

} // verus!
