use vstd::prelude::*;
use vstd::arithmetic::power::pow;
use crate::blocks::block::{get_blockid, get_blocktype, spec_blockid, spec_blocktype, BlockId, BlockType};
use crate::constants::{CHUNKSIZE, METACHUNKSIZE, METACHUNK_GEN_RANGE};
use crate::positions::{fits_i32, meta_chunk_blocks, ChunkPos, GlobalBlockPos, LocalBlockPos, LocalChunkPos, MetaChunkPos};
use crate::utils::{to_sign_of, wrap, wrapped, abs};
use crate::world_gen::chunk::{BlockIdOrPointer, Chunk};

verus! {

/// The chunk type that meta chunks are made of: 2^4 = 16 blocks along each edge.
pub type MetaChunkChunk = Chunk<4, 2, 8>;

/// A column of chunks, `METACHUNKSIZE` chunks along each edge.
pub struct MetaChunk {
    chunks: Vec<Chunk<4, 2, 8>>,
    pub pos: MetaChunkPos,
    pub seed: u32,
}

/// Number of chunks in a meta chunk.
pub open spec fn chunk_count() -> int {
    METACHUNKSIZE as int * METACHUNKSIZE as int * METACHUNKSIZE as int
}

/// Index, in the list of chunks, of the chunk at a local chunk position.
pub open spec fn chunk_index(x: int, y: int, z: int) -> int {
    x + y * METACHUNKSIZE as int + z * METACHUNKSIZE as int * METACHUNKSIZE as int
}

/// The chunk of the meta chunk that holds the block at `pos`, by index.
pub open spec fn block_chunk_index(pos: GlobalBlockPos) -> int {
    chunk_index(
        (pos.x as int / CHUNKSIZE as int) % METACHUNKSIZE as int,
        (pos.y as int / CHUNKSIZE as int) % METACHUNKSIZE as int,
        (pos.z as int / CHUNKSIZE as int) % METACHUNKSIZE as int,
    )
}

/// The position of the block `pos` within its chunk.
pub open spec fn block_local_pos(pos: GlobalBlockPos) -> LocalBlockPos {
    LocalBlockPos {
        x: (pos.x as int % CHUNKSIZE as int) as i32,
        y: (pos.y as int % CHUNKSIZE as int) as i32,
        z: (pos.z as int % CHUNKSIZE as int) as i32,
    }
}

/// Whether a block ends the downward search for the ground: a block of no
/// kind (255), or grass, water, dirt or stone.
pub open spec fn is_ground(b: BlockId) -> bool {
    b == 255 || spec_blocktype(b) == BlockType::Grass || spec_blocktype(b) == BlockType::Water
        || spec_blocktype(b) == BlockType::Dirt || spec_blocktype(b) == BlockType::Stone
}

/// The blocks that end the downward search for the ground are exactly the
/// blocks of no kind (id 255) and the grass, water, dirt and stone blocks;
/// air, sand, leaves, wood and every other kind are passed over.
pub proof fn law_ground_kinds(b: BlockId)
    ensures
        is_ground(b) <==> (b == 255 || spec_blocktype(b) == BlockType::Grass || spec_blocktype(b) == BlockType::Water
            || spec_blocktype(b) == BlockType::Dirt || spec_blocktype(b) == BlockType::Stone),
        spec_blocktype(b) == BlockType::Grass ==> is_ground(b),
        spec_blocktype(b) == BlockType::Air && b != 255 ==> !is_ground(b),
{
}

/// A meta chunk is kept exactly when it lies fewer than
/// `METACHUNK_GEN_RANGE + 2` meta chunks from the player's meta chunk along
/// x and along z; so it depends only on the distance between the two.
pub proof fn law_retain_by_distance(current: MetaChunkPos, pos: MetaChunkPos)
    ensures
        spec_retain(current, pos) <==> (abs(pos.x - current.x) < METACHUNK_GEN_RANGE + 2 && abs(pos.z - current.z)
            < METACHUNK_GEN_RANGE + 2),
        spec_retain(current, pos) == spec_retain(pos, current),
{
}

/// The meta chunk that the player stands in is always kept.
pub proof fn law_retain_own(current: MetaChunkPos)
    ensures
        spec_retain(current, current),
{
}

/// Moving the player and the meta chunk by the same step does not change
/// whether it is kept.
pub proof fn law_retain_translates(current: MetaChunkPos, pos: MetaChunkPos, dx: i32, dz: i32)
    requires
        fits_i32(current.x + dx),
        fits_i32(current.z + dz),
        fits_i32(pos.x + dx),
        fits_i32(pos.z + dz),
    ensures
        spec_retain(current, pos) == spec_retain(
            MetaChunkPos { x: (current.x + dx) as i32, z: (current.z + dz) as i32 },
            MetaChunkPos { x: (pos.x + dx) as i32, z: (pos.z + dz) as i32 },
        ),
{
}

/// Whether the meta chunk at `pos` is kept when the player stands in the
/// meta chunk `current`.
pub open spec fn spec_retain(current: MetaChunkPos, pos: MetaChunkPos) -> bool {
    let r = METACHUNK_GEN_RANGE as int;
    &&& pos.x > current.x - r - 2
    &&& pos.x < current.x + r + 2
    &&& pos.z > current.z - r - 2
    &&& pos.z < current.z + r + 2
}

/// The column `(x, z)` lies in the meta chunk at `mp`, and the meta chunk's
/// bounds are `i32` values.
pub open spec fn column_in(mp: MetaChunkPos, x: i32, z: i32) -> bool {
    let ox = mp.x * meta_chunk_blocks();
    let oz = mp.z * meta_chunk_blocks();
    &&& fits_i32(ox)
    &&& fits_i32(oz)
    &&& fits_i32(ox + meta_chunk_blocks())
    &&& fits_i32(oz + meta_chunk_blocks())
    &&& ox <= x < ox + meta_chunk_blocks()
    &&& oz <= z < oz + meta_chunk_blocks()
}

/// The block that the chunk storages `l` hold at `pos`.
pub open spec fn layers_block(l: Seq<Seq<Seq<Seq<BlockIdOrPointer>>>>, pos: GlobalBlockPos) -> BlockId {
    MetaChunkChunk::t_lookup(l[block_chunk_index(pos)], 0, 0, block_local_pos(pos))
}

/// The storage of the chunk that holds `pos` has its shape.
pub open spec fn layers_readable(l: Seq<Seq<Seq<Seq<BlockIdOrPointer>>>>, pos: GlobalBlockPos) -> bool {
    MetaChunkChunk::t_shape_ok(l[block_chunk_index(pos)])
}

/// The storage of the chunk that holds `pos` has its shape and room for one
/// more node in each layer.
pub open spec fn layers_writable(l: Seq<Seq<Seq<Seq<BlockIdOrPointer>>>>, pos: GlobalBlockPos) -> bool {
    MetaChunkChunk::t_shape_ok(l[block_chunk_index(pos)]) && MetaChunkChunk::t_room(l[block_chunk_index(pos)])
}

/// The chunk storages after `block` is written at `pos`.
pub open spec fn layers_write(l: Seq<Seq<Seq<Seq<BlockIdOrPointer>>>>, pos: GlobalBlockPos, block: BlockId) -> Seq<
    Seq<Seq<Seq<BlockIdOrPointer>>>,
> {
    l.update(
        block_chunk_index(pos),
        MetaChunkChunk::t_set(l[block_chunk_index(pos)], block, block_local_pos(pos)),
    )
}

/// The chunks of a meta chunk have supported shape parameters and 2^4 = 16 blocks along each edge.
pub proof fn lemma_chunk_params()
    ensures
        MetaChunkChunk::params_ok(),
        pow(2, 4) == 16,
{
    assert(pow(2, 4) == 16) by {
        reveal_with_fuel(pow, 5);
    }
}

impl MetaChunk {
    /// Where the meta chunk lies.
    pub closed spec fn spec_pos(&self) -> MetaChunkPos {
        self.pos
    }

    /// The seed the meta chunk was made with.
    pub closed spec fn spec_seed(&self) -> u32 {
        self.seed
    }

    /// The chunks of the meta chunk.
    pub closed spec fn chunks(&self) -> Seq<Chunk<4, 2, 8>> {
        self.chunks@
    }

    /// The storage of each chunk, in order.
    pub open spec fn layers(&self) -> Seq<Seq<Seq<Seq<BlockIdOrPointer>>>> {
        self.chunks().map_values(|c: MetaChunkChunk| c.ds())
    }

    /// Reading, and whether a block can be read or written, go by the storages.
    pub proof fn lemma_layers(&self, pos: GlobalBlockPos)
        requires
            self.inv(),
        ensures
            self.readable_at(pos) == layers_readable(self.layers(), pos),
            self.writable_at(pos) == layers_writable(self.layers(), pos),
            self.block_at(pos) == layers_block(self.layers(), pos),
    {
        lemma_block_chunk_index_bound(pos);
    }

    /// The meta chunk holds all its chunks.
    pub open spec fn inv(&self) -> bool {
        self.chunks().len() == chunk_count()
    }

    /// The chunk that holds the block at `pos` can be read.
    pub closed spec fn readable_at(&self, pos: GlobalBlockPos) -> bool {
        self.chunks@[block_chunk_index(pos)].shape_ok()
    }

    /// The chunk that holds the block at `pos` can be written.
    pub closed spec fn writable_at(&self, pos: GlobalBlockPos) -> bool {
        self.chunks@[block_chunk_index(pos)].shape_ok() && self.chunks@[block_chunk_index(pos)].has_room()
    }

    /// The block at `pos`, reading the chunk and position that `pos` falls in.
    pub closed spec fn block_at(&self, pos: GlobalBlockPos) -> BlockId {
        self.chunks@[block_chunk_index(pos)].view_at(block_local_pos(pos))
    }

    /// The column `(x, z)` lies in this meta chunk, and its bounds are `i32` values.
    pub open spec fn holds_column(&self, x: i32, z: i32) -> bool {
        column_in(self.spec_pos(), x, z)
    }

    /// A meta chunk at `pos` whose chunks hold nothing but air.
    pub fn new(pos: MetaChunkPos, seed: u32) -> (m: MetaChunk)
        requires
            fits_i32(pos.x * METACHUNKSIZE + METACHUNKSIZE),
            fits_i32(pos.z * METACHUNKSIZE + METACHUNKSIZE),
            fits_i32(pos.x * METACHUNKSIZE),
            fits_i32(pos.z * METACHUNKSIZE),
        ensures
            m.inv(),
            forall|p: GlobalBlockPos| #[trigger] m.writable_at(p),
            m.spec_pos() == pos,
            m.spec_seed() == seed,
            forall|i: int| 0 <= i < chunk_count() ==> (#[trigger] m.chunks()[i]).wf() && m.chunks()[i].canonical()
                && m.chunks()[i].has_room(),
            forall|p: GlobalBlockPos| #[trigger] m.block_at(p) == spec_blockid(BlockType::Air),
    {
        proof {
            lemma_chunk_params();
        }
        let mut chunks: Vec<Chunk<4, 2, 8>> = Vec::new();
        let m = METACHUNKSIZE;
        let mut z: usize = 0;
        while z < m
            invariant
                m == METACHUNKSIZE,
                z <= m,
                chunks@.len() == z * m * m,
                fits_i32(pos.x * METACHUNKSIZE + METACHUNKSIZE),
                fits_i32(pos.z * METACHUNKSIZE + METACHUNKSIZE),
                fits_i32(pos.x * METACHUNKSIZE),
                fits_i32(pos.z * METACHUNKSIZE),
                forall|i: int| 0 <= i < chunks@.len() ==> (#[trigger] chunks@[i]).wf() && chunks@[i].canonical() && chunks@[i].has_room()
                    && forall|p: LocalBlockPos| #[trigger] chunks@[i].view_at(p) == spec_blockid(BlockType::Air),
            decreases m - z,
        {
            let mut y: usize = 0;
            while y < m
                invariant
                    m == METACHUNKSIZE,
                    z < m,
                    y <= m,
                    chunks@.len() == z * m * m + y * m,
                    fits_i32(pos.x * METACHUNKSIZE + METACHUNKSIZE),
                    fits_i32(pos.z * METACHUNKSIZE + METACHUNKSIZE),
                    fits_i32(pos.x * METACHUNKSIZE),
                    fits_i32(pos.z * METACHUNKSIZE),
                    forall|i: int| 0 <= i < chunks@.len() ==> (#[trigger] chunks@[i]).wf() && chunks@[i].canonical() && chunks@[i].has_room()
                        && forall|p: LocalBlockPos| #[trigger] chunks@[i].view_at(p) == spec_blockid(BlockType::Air),
                decreases m - y,
            {
                let mut x: usize = 0;
                while x < m
                    invariant
                        m == METACHUNKSIZE,
                        z < m,
                        y < m,
                        x <= m,
                        chunks@.len() == z * m * m + y * m + x,
                        fits_i32(pos.x * METACHUNKSIZE + METACHUNKSIZE),
                        fits_i32(pos.z * METACHUNKSIZE + METACHUNKSIZE),
                        fits_i32(pos.x * METACHUNKSIZE),
                        fits_i32(pos.z * METACHUNKSIZE),
                        forall|i: int| 0 <= i < chunks@.len() ==> (#[trigger] chunks@[i]).wf() && chunks@[i].canonical() && chunks@[i].has_room()
                            && forall|p: LocalBlockPos| #[trigger] chunks@[i].view_at(p) == spec_blockid(BlockType::Air),
                    decreases m - x,
                {
                    let local_pos = ChunkPos {
                        x: x as i32 + pos.x * METACHUNKSIZE as i32,
                        y: y as i32,
                        z: z as i32 + pos.z * METACHUNKSIZE as i32,
                    };
                    proof {
                        lemma_chunk_params();
                    }
                    chunks.push(Chunk::generate(&local_pos));
                    x = x + 1;
                }
                y = y + 1;
            }
            z = z + 1;
        }
        let r = MetaChunk { pos, chunks, seed };
        proof {
            assert(r.chunks@.len() == chunk_count());
            assert forall|p: GlobalBlockPos| #[trigger] r.writable_at(p) by {
                lemma_block_chunk_index_bound(p);
                r.chunks@[block_chunk_index(p)].lemma_wf_shape();
            }
            assert forall|p: GlobalBlockPos| #[trigger] r.block_at(p) == spec_blockid(BlockType::Air) by {
                let i = block_chunk_index(p);
                lemma_block_chunk_index_bound(p);
                assert(r.chunks@[i].view_at(block_local_pos(p)) == spec_blockid(BlockType::Air));
            }
        }
        r
    }
}

impl MetaChunk {
    /// The chunk at the local chunk position `pos`.
    pub fn get_chunk(&self, pos: &LocalChunkPos) -> (r: Option<&Chunk<4, 2, 8>>)
        requires
            self.inv(),
            0 <= pos.x,
            0 <= pos.y,
            0 <= pos.z,
            chunk_index(pos.x as int, pos.y as int, pos.z as int) < chunk_count(),
        ensures
            r matches Some(c) && *c == self.chunks()[chunk_index(pos.x as int, pos.y as int, pos.z as int)],
    {
        let m: usize = METACHUNKSIZE;
        proof {
            assert(pos.y * 16 <= chunk_index(pos.x as int, pos.y as int, pos.z as int));
            assert(pos.z * 16 * 16 <= chunk_index(pos.x as int, pos.y as int, pos.z as int)) by (nonlinear_arith)
                requires
                    0 <= pos.x,
                    0 <= pos.y,
                    chunk_index(pos.x as int, pos.y as int, pos.z as int) == pos.x + pos.y * 16 + pos.z * 16 * 16,
            {
            }
        }
        return Some(&self.chunks[pos.x as usize + pos.y as usize * m + pos.z as usize * m * m]);
    }

    /// The chunk at the local chunk position `pos`, to be changed in place.
    pub fn get_chunk_mut(&mut self, pos: &LocalChunkPos) -> (r: Option<&mut Chunk<4, 2, 8>>)
        requires
            old(self).inv(),
            0 <= pos.x,
            0 <= pos.y,
            0 <= pos.z,
            chunk_index(pos.x as int, pos.y as int, pos.z as int) < chunk_count(),
        ensures
            r matches Some(c) && *c == old(self).chunks()[chunk_index(pos.x as int, pos.y as int, pos.z as int)]
                && final(self).chunks() == old(self).chunks().update(
                chunk_index(pos.x as int, pos.y as int, pos.z as int),
                *final(c),
            ),
            final(self).inv(),
            final(self).spec_pos() == old(self).spec_pos(),
            final(self).spec_seed() == old(self).spec_seed(),
    {
        let m: usize = METACHUNKSIZE;
        proof {
            assert(pos.y * 16 <= chunk_index(pos.x as int, pos.y as int, pos.z as int));
            assert(pos.z * 16 * 16 <= chunk_index(pos.x as int, pos.y as int, pos.z as int)) by (nonlinear_arith)
                requires
                    0 <= pos.x,
                    0 <= pos.y,
                    chunk_index(pos.x as int, pos.y as int, pos.z as int) == pos.x + pos.y * 16 + pos.z * 16 * 16,
            {
            }
        }
        return Some(&mut self.chunks[pos.x as usize + pos.y as usize * m + pos.z as usize * m * m]);
    }

    /// The block at `pos`, which must lie in this meta chunk's columns.
    pub fn get_block(&self, pos: &GlobalBlockPos) -> (b: BlockId)
        requires
            self.inv(),
            self.holds_column(pos.x, pos.z),
            self.readable_at(*pos),
        ensures
            b == self.block_at(*pos),
    {
        let chunk_pos = pos.get_local_chunk();
        proof {
            lemma_block_chunk_index_bound(*pos);
        }
        let chunk = self.get_chunk(&chunk_pos);
        match chunk {
            Some(c) => c.get_block(&pos.get_local_pos()),
            None => get_blockid(BlockType::Unknown),
        }
    }

    /// Whether writing `block` at `pos` keeps every other block of the chunk
    /// that `pos` falls in (see `Chunk::write_keeps_others`).
    pub fn write_keeps_others(&self, pos: &GlobalBlockPos, block: BlockId) -> (r: bool)
        requires
            self.inv(),
            self.readable_at(*pos),
        ensures
            r == self.chunks()[block_chunk_index(*pos)].set_is_safe(block, block_local_pos(*pos)),
    {
        let chunk_pos = pos.get_local_chunk();
        proof {
            lemma_block_chunk_index_bound(*pos);
        }
        match self.get_chunk(&chunk_pos) {
            Some(c) => c.write_keeps_others(block, &pos.get_local_pos()),
            None => false,
        }
    }

    /// Writes `block` at `pos` in the chunk that `pos` falls in; the other
    /// chunks are left as they are.
    pub fn set_block(&mut self, pos: &GlobalBlockPos, block: BlockId)
        requires
            old(self).inv(),
            old(self).writable_at(*pos),
        ensures
            final(self).inv(),
            final(self).spec_pos() == old(self).spec_pos(),
            final(self).spec_seed() == old(self).spec_seed(),
            final(self).chunks() == old(self).chunks().update(
                block_chunk_index(*pos),
                final(self).chunks()[block_chunk_index(*pos)],
            ),
            final(self).chunks()[block_chunk_index(*pos)].ds() == MetaChunkChunk::t_set(
                old(self).chunks()[block_chunk_index(*pos)].ds(),
                block,
                block_local_pos(*pos),
            ),
            final(self).layers() == layers_write(old(self).layers(), *pos, block),
            ({
                let c = old(self).chunks()[block_chunk_index(*pos)];
                c.canonical() && c.set_is_safe(block, block_local_pos(*pos))
                    ==> final(self).chunks()[block_chunk_index(*pos)].canonical()
            }),
            ({
                let c = old(self).chunks()[block_chunk_index(*pos)];
                c.wf() && c.set_is_safe(block, block_local_pos(*pos)) ==> {
                    &&& final(self).chunks()[block_chunk_index(*pos)].wf()
                    &&& forall|q: LocalBlockPos|
                        MetaChunkChunk::in_range(q) ==> #[trigger] final(self).chunks()[block_chunk_index(
                            *pos,
                        )].view_at(q) == if q == block_local_pos(*pos) {
                            block
                        } else {
                            c.view_at(q)
                        }
                }
            }),
    {
        let chunk_pos = pos.get_local_chunk();
        let local = pos.get_local_pos();
        let m: usize = METACHUNKSIZE;
        proof {
            lemma_block_chunk_index_bound(*pos);
            lemma_chunk_params();
            assert(local == block_local_pos(*pos));
            assert(MetaChunkChunk::in_range(local));
        }
        let index = chunk_pos.x as usize + chunk_pos.y as usize * m + chunk_pos.z as usize * m * m;
        self.chunks[index].set_block(block, &local);
        proof {
            assert(self.layers() == layers_write(old(self).layers(), *pos, block));
        }
    }
}

impl MetaChunk {
    /// One above the highest block of the column `(x, z)`, from the top of the
    /// meta chunk down, that is ground: grass, water, dirt, stone, or a block
    /// of no kind.
    pub fn first_above_land_y(&self, x: i32, z: i32) -> (r: i32)
        requires
            self.inv(),
            self.holds_column(x, z),
            forall|y: i32| 0 <= y < meta_chunk_blocks() ==> #[trigger] self.readable_at(GlobalBlockPos { x, y, z }),
            exists|y: i32| 0 <= y < meta_chunk_blocks() && is_ground(#[trigger] self.block_at(GlobalBlockPos { x, y, z })),
        ensures
            1 <= r <= meta_chunk_blocks(),
            is_ground(self.block_at(GlobalBlockPos { x, y: (r - 1) as i32, z })),
            forall|y: i32| r <= y < meta_chunk_blocks() ==> !is_ground(#[trigger] self.block_at(GlobalBlockPos { x, y, z })),
            ({
                let b = self.block_at(GlobalBlockPos { x, y: (r - 1) as i32, z });
                ||| b == 255
                ||| spec_blocktype(b) == BlockType::Grass
                ||| spec_blocktype(b) == BlockType::Water
                ||| spec_blocktype(b) == BlockType::Dirt
                ||| spec_blocktype(b) == BlockType::Stone
            }),
            forall|y: i32|
                r <= y < meta_chunk_blocks() ==> {
                    let b = #[trigger] self.block_at(GlobalBlockPos { x, y, z });
                    &&& b != 255
                    &&& spec_blocktype(b) != BlockType::Grass
                    &&& spec_blocktype(b) != BlockType::Water
                    &&& spec_blocktype(b) != BlockType::Dirt
                    &&& spec_blocktype(b) != BlockType::Stone
                },
    {
        let mut y: i32 = METACHUNKSIZE as i32 * CHUNKSIZE as i32 - 1;
        loop
            invariant
                self.inv(),
                self.holds_column(x, z),
                forall|y: i32| 0 <= y < meta_chunk_blocks() ==> #[trigger] self.readable_at(GlobalBlockPos { x, y, z }),
                exists|yy: i32| 0 <= yy <= y && is_ground(#[trigger] self.block_at(GlobalBlockPos { x, y: yy, z })),
                0 <= y < meta_chunk_blocks(),
                forall|yy: i32| y < yy < meta_chunk_blocks() ==> !is_ground(#[trigger] self.block_at(GlobalBlockPos { x, y: yy, z })),
            decreases y,
        {
            let b = self.get_block(&GlobalBlockPos { x, y, z });
            if b == 255 {
                return y + 1;
            }
            let b_type = get_blocktype(b);
            if b_type == BlockType::Grass || b_type == BlockType::Water || b_type == BlockType::Dirt
                || b_type == BlockType::Stone {
                return y + 1;
            }
            proof {
                let yy = choose|yy: i32| 0 <= yy <= y && is_ground(#[trigger] self.block_at(GlobalBlockPos { x, y: yy, z }));
                assert(yy != y);
            }
            y -= 1;
        }
    }

    /// The world position of the chunk at the local chunk position `pos`,
    /// where the local x and z are first given the sign of this meta chunk's
    /// x and z and then wrapped into the meta chunk.
    pub fn get_chunk_pos(&self, pos: &LocalChunkPos) -> (r: ChunkPos)
        requires
            pos.x != i32::MIN,
            pos.z != i32::MIN,
            fits_i32(self.spec_pos().x * METACHUNKSIZE),
            fits_i32(self.spec_pos().z * METACHUNKSIZE),
            fits_i32(self.spec_pos().x * METACHUNKSIZE + METACHUNKSIZE),
            fits_i32(self.spec_pos().z * METACHUNKSIZE + METACHUNKSIZE),
        ensures
            r.x == self.spec_pos().x * METACHUNKSIZE + wrapped(
                if self.spec_pos().x < 0 { -abs(pos.x as int) } else { abs(pos.x as int) },
                METACHUNKSIZE as int,
            ),
            r.y == pos.y,
            r.z == self.spec_pos().z * METACHUNKSIZE + wrapped(
                if self.spec_pos().z < 0 { -abs(pos.z as int) } else { abs(pos.z as int) },
                METACHUNKSIZE as int,
            ),
    {
        let x = self.pos.x * METACHUNKSIZE as i32 + wrap(to_sign_of(self.pos.x, pos.x), METACHUNKSIZE as i32);
        let y = pos.y;
        let z = self.pos.z * METACHUNKSIZE as i32 + wrap(to_sign_of(self.pos.z, pos.z), METACHUNKSIZE as i32);
        ChunkPos { x, y, z }
    }

    /// Whether the meta chunk at `pos` is kept while the player stands in the
    /// meta chunk `current`: it lies fewer than `METACHUNK_GEN_RANGE + 2` meta
    /// chunks away along x and along z.
    pub fn retain_meta_chunk(current: MetaChunkPos, pos: MetaChunkPos) -> (r: bool)
        ensures
            r == spec_retain(current, pos),
    {
        let range = METACHUNK_GEN_RANGE as i64 + 2;
        pos.x as i64 > current.x as i64 - range && (pos.x as i64) < current.x as i64 + range
            && pos.z as i64 > current.z as i64 - range && (pos.z as i64) < current.z as i64 + range
    }
}

impl MetaChunk {
    /// Calls `f` on every chunk with its world position, along z first, then
    /// y, then x.
    pub fn for_each(&self, f: impl Fn(&Chunk<4, 2, 8>, ChunkPos))
        requires
            self.inv(),
            fits_i32(self.spec_pos().x * METACHUNKSIZE),
            fits_i32(self.spec_pos().z * METACHUNKSIZE),
            fits_i32(self.spec_pos().x * METACHUNKSIZE + METACHUNKSIZE),
            fits_i32(self.spec_pos().z * METACHUNKSIZE + METACHUNKSIZE),
            forall|c: &Chunk<4, 2, 8>, p: ChunkPos| #[trigger] f.requires((c, p)),
        ensures
            forall|a: int, b: int, c: int|
                #![trigger is_local_chunk(a, b, c)]
                is_local_chunk(a, b, c) ==> f.ensures(
                    (&self.chunks()[chunk_index(a, b, c)], local_chunk_world_pos(self.spec_pos(), a, b, c)),
                    (),
                ),
    {
        let m = METACHUNKSIZE as i32;
        let mut x: i32 = 0;
        while x < m
            invariant
                m == 16,
                0 <= x <= 16,
                self.inv(),
                fits_i32(self.spec_pos().x * METACHUNKSIZE),
                fits_i32(self.spec_pos().z * METACHUNKSIZE),
                fits_i32(self.spec_pos().x * METACHUNKSIZE + METACHUNKSIZE),
                fits_i32(self.spec_pos().z * METACHUNKSIZE + METACHUNKSIZE),
                forall|c: &Chunk<4, 2, 8>, p: ChunkPos| #[trigger] f.requires((c, p)),
                forall|a: int, b: int, c: int|
                    #![trigger is_local_chunk(a, b, c)]
                    is_local_chunk(a, b, c) && (a < x) ==> f.ensures(
                        (&self.chunks()[chunk_index(a, b, c)], local_chunk_world_pos(self.spec_pos(), a, b, c)),
                        (),
                    ),
            decreases 16 - x,
        {
            let mut y: i32 = 0;
            while y < m
                invariant
                    m == 16,
                    0 <= x < 16,
                    0 <= y <= 16,
                    self.inv(),
                    fits_i32(self.spec_pos().x * METACHUNKSIZE),
                    fits_i32(self.spec_pos().z * METACHUNKSIZE),
                    fits_i32(self.spec_pos().x * METACHUNKSIZE + METACHUNKSIZE),
                    fits_i32(self.spec_pos().z * METACHUNKSIZE + METACHUNKSIZE),
                    forall|c: &Chunk<4, 2, 8>, p: ChunkPos| #[trigger] f.requires((c, p)),
                    forall|a: int, b: int, c: int|
                        #![trigger is_local_chunk(a, b, c)]
                        is_local_chunk(a, b, c) && (a < x || (a == x && b < y)) ==> f.ensures(
                            (&self.chunks()[chunk_index(a, b, c)], local_chunk_world_pos(self.spec_pos(), a, b, c)),
                            (),
                        ),
                decreases 16 - y,
            {
                let mut z: i32 = 0;
                while z < m
                    invariant
                        m == 16,
                        0 <= x < 16,
                        0 <= y < 16,
                        0 <= z <= 16,
                        self.inv(),
                        fits_i32(self.spec_pos().x * METACHUNKSIZE),
                        fits_i32(self.spec_pos().z * METACHUNKSIZE),
                        fits_i32(self.spec_pos().x * METACHUNKSIZE + METACHUNKSIZE),
                        fits_i32(self.spec_pos().z * METACHUNKSIZE + METACHUNKSIZE),
                        forall|c: &Chunk<4, 2, 8>, p: ChunkPos| #[trigger] f.requires((c, p)),
                        forall|a: int, b: int, c: int|
                            #![trigger is_local_chunk(a, b, c)]
                            is_local_chunk(a, b, c) && (a < x || (a == x && (b < y || (b == y && c < z)))) ==> f.ensures(
                                (&self.chunks()[chunk_index(a, b, c)], local_chunk_world_pos(self.spec_pos(), a, b, c)),
                                (),
                            ),
                    decreases 16 - z,
                {
                    let pos = ChunkPos { x: self.pos.x * m + x, y, z: self.pos.z * m + z };
                    proof {
                        assert(chunk_index(x as int, y as int, z as int) < chunk_count()) by (nonlinear_arith)
                            requires
                                0 <= x < 16,
                                0 <= y < 16,
                                0 <= z < 16,
                        {
                        }
                    }
                    match self.get_chunk(&LocalChunkPos { x, y, z }) {
                        Some(c) => f(c, pos),
                        None => {},
                    }
                    proof {
                        assert(pos == local_chunk_world_pos(self.spec_pos(), x as int, y as int, z as int));
                        assert(is_local_chunk(x as int, y as int, z as int));
                    }
                    z = z + 1;
                }
                proof {
                    assert forall|a: int, b: int, c: int|
                        #![trigger is_local_chunk(a, b, c)]
                        is_local_chunk(a, b, c) && (a < x || (a == x && b < y + 1)) implies f.ensures(
                            (&self.chunks()[chunk_index(a, b, c)], local_chunk_world_pos(self.spec_pos(), a, b, c)),
                            (),
                        ) by {
                        assert(is_local_chunk(a, b, c));
                    }
                }
                y = y + 1;
            }
            proof {
                assert forall|a: int, b: int, c: int|
                    #![trigger is_local_chunk(a, b, c)]
                    is_local_chunk(a, b, c) && a < x + 1 implies f.ensures(
                        (&self.chunks()[chunk_index(a, b, c)], local_chunk_world_pos(self.spec_pos(), a, b, c)),
                        (),
                    ) by {
                    assert(is_local_chunk(a, b, c));
                }
            }
            x = x + 1;
        }
    }
}

/// The world position of the chunk at `(a, b, c)` in the meta chunk at `mp`.
pub open spec fn local_chunk_world_pos(mp: MetaChunkPos, a: int, b: int, c: int) -> ChunkPos {
    ChunkPos {
        x: (mp.x * METACHUNKSIZE + a) as i32,
        y: b as i32,
        z: (mp.z * METACHUNKSIZE + c) as i32,
    }
}

/// `(a, b, c)` is the position of a chunk within a meta chunk.
pub open spec fn is_local_chunk(a: int, b: int, c: int) -> bool {
    0 <= a < 16 && 0 <= b < 16 && 0 <= c < 16
}

/// Distinct chunks of a meta chunk have distinct indices.
proof fn lemma_chunk_index_unique(a: int, b: int, c: int, x: int, y: int, z: int)
    requires
        0 <= a < 16,
        0 <= b < 16,
        0 <= c < 16,
        0 <= x < 16,
        0 <= y < 16,
        0 <= z < 16,
        chunk_index(a, b, c) == chunk_index(x, y, z),
    ensures
        a == x && b == y && c == z,
{
    let v = chunk_index(a, b, c);
    assert(v == (b + c * 16) * 16 + a && v == (y + z * 16) * 16 + x) by (nonlinear_arith)
        requires
            v == a + b * 16 + c * 16 * 16,
            v == x + y * 16 + z * 16 * 16,
    {
    }
    vstd::arithmetic::div_mod::lemma_fundamental_div_mod_converse(v, 16, b + c * 16, a);
    vstd::arithmetic::div_mod::lemma_fundamental_div_mod_converse(v, 16, y + z * 16, x);
    let u = b + c * 16;
    vstd::arithmetic::div_mod::lemma_fundamental_div_mod_converse(u, 16, c, b);
    vstd::arithmetic::div_mod::lemma_fundamental_div_mod_converse(u, 16, z, y);
}

proof fn lemma_chunk_index_range(a: int, b: int, c: int)
    requires
        0 <= a < 16,
        0 <= b < 16,
        0 <= c < 16,
    ensures
        0 <= chunk_index(a, b, c) < chunk_count(),
{
    assert(0 <= a + b * 16 + c * 16 * 16 < 4096) by (nonlinear_arith)
        requires
            0 <= a < 16,
            0 <= b < 16,
            0 <= c < 16,
    {
    }
}

impl MetaChunk {
    /// Calls `f` on the chunk at `(x, y, z)`, which it may change, with its
    /// world position.
    fn apply_at<F: Fn(&mut Chunk<4, 2, 8>, ChunkPos)>(&mut self, f: &F, x: i32, y: i32, z: i32)
        requires
            old(self).inv(),
            0 <= x < 16,
            0 <= y < 16,
            0 <= z < 16,
            fits_i32(old(self).spec_pos().x * METACHUNKSIZE),
            fits_i32(old(self).spec_pos().z * METACHUNKSIZE),
            fits_i32(old(self).spec_pos().x * METACHUNKSIZE + METACHUNKSIZE),
            fits_i32(old(self).spec_pos().z * METACHUNKSIZE + METACHUNKSIZE),
            forall|c: &mut Chunk<4, 2, 8>, p: ChunkPos| #[trigger] f.requires((c, p)),
        ensures
            final(self).inv(),
            final(self).spec_pos() == old(self).spec_pos(),
            final(self).spec_seed() == old(self).spec_seed(),
            final(self).chunks() == old(self).chunks().update(
                chunk_index(x as int, y as int, z as int),
                final(self).chunks()[chunk_index(x as int, y as int, z as int)],
            ),
            exists|cm: &mut Chunk<4, 2, 8>|
                *cm == old(self).chunks()[chunk_index(x as int, y as int, z as int)]
                && *final(cm) == final(self).chunks()[chunk_index(x as int, y as int, z as int)]
                && #[trigger] f.ensures(
                    (cm, local_chunk_world_pos(old(self).spec_pos(), x as int, y as int, z as int)),
                    (),
                ),
    {
        let m = METACHUNKSIZE as i32;
        let pos = ChunkPos { x: self.pos.x * m + x, y, z: self.pos.z * m + z };
        proof {
            lemma_chunk_index_range(x as int, y as int, z as int);
        }
        match self.get_chunk_mut(&LocalChunkPos { x, y, z }) {
            Some(c) => {
                f(c, pos);
                proof {
                    assert(pos == local_chunk_world_pos(old(self).spec_pos(), x as int, y as int, z as int));
                }
            },
            None => {},
        }
    }

    /// Calls `f` on the chunks from `(x, y, z)` to `(x, y, 15)`, in that order.
    fn apply_row<F: Fn(&mut Chunk<4, 2, 8>, ChunkPos)>(&mut self, f: &F, x: i32, y: i32, z: i32)
        requires
            0 <= x < 16,
            0 <= y < 16,
            0 <= z <= 16,
            old(self).inv(),
            fits_i32(old(self).spec_pos().x * METACHUNKSIZE),
            fits_i32(old(self).spec_pos().z * METACHUNKSIZE),
            fits_i32(old(self).spec_pos().x * METACHUNKSIZE + METACHUNKSIZE),
            fits_i32(old(self).spec_pos().z * METACHUNKSIZE + METACHUNKSIZE),
            forall|c: &mut Chunk<4, 2, 8>, p: ChunkPos| #[trigger] f.requires((c, p)),
        ensures
            final(self).inv(),
            final(self).spec_pos() == old(self).spec_pos(),
            final(self).spec_seed() == old(self).spec_seed(),
            forall|a: int, b: int, c: int|
                #![trigger is_local_chunk(a, b, c)]
                is_local_chunk(a, b, c) ==> if a == x && b == y && z <= c {
                    exists|cm: &mut Chunk<4, 2, 8>|
                        *cm == old(self).chunks()[chunk_index(a, b, c)]
                        && *final(cm) == final(self).chunks()[chunk_index(a, b, c)]
                        && #[trigger] f.ensures((cm, local_chunk_world_pos(old(self).spec_pos(), a, b, c)), ())
                } else {
                    final(self).chunks()[chunk_index(a, b, c)] == old(self).chunks()[chunk_index(a, b, c)]
                },
        decreases 16 - z,
    {
        if z < 16 {
            let ghost s0 = self.chunks();
            self.apply_at(f, x, y, z);
            let ghost s1 = self.chunks();
            self.apply_row(f, x, y, z + 1);
            proof {
                let k = chunk_index(x as int, y as int, z as int);
                lemma_chunk_index_range(x as int, y as int, z as int);
                assert forall|a: int, b: int, c: int|
                    #![trigger is_local_chunk(a, b, c)]
                    is_local_chunk(a, b, c) implies if a == x && b == y && z <= c {
                        exists|cm: &mut Chunk<4, 2, 8>|
                            *cm == old(self).chunks()[chunk_index(a, b, c)]
                            && *final(cm) == final(self).chunks()[chunk_index(a, b, c)]
                            && #[trigger] f.ensures((cm, local_chunk_world_pos(old(self).spec_pos(), a, b, c)), ())
                    } else {
                        final(self).chunks()[chunk_index(a, b, c)] == old(self).chunks()[chunk_index(a, b, c)]
                } by {
                    lemma_chunk_index_range(a, b, c);
                    if a == x && b == y && c == z {
                        assert(self.chunks()[k] == s1[k]);
                    } else {
                        if chunk_index(a, b, c) == k {
                            lemma_chunk_index_unique(a, b, c, x as int, y as int, z as int);
                        }
                        assert(s1[chunk_index(a, b, c)] == s0[chunk_index(a, b, c)]);
                    }
                }
            }
        }
    }

    /// Calls `f` on the rows `y` to 15 of the slice `x`, in that order.
    fn apply_slice<F: Fn(&mut Chunk<4, 2, 8>, ChunkPos)>(&mut self, f: &F, x: i32, y: i32)
        requires
            0 <= x < 16,
            0 <= y <= 16,
            old(self).inv(),
            fits_i32(old(self).spec_pos().x * METACHUNKSIZE),
            fits_i32(old(self).spec_pos().z * METACHUNKSIZE),
            fits_i32(old(self).spec_pos().x * METACHUNKSIZE + METACHUNKSIZE),
            fits_i32(old(self).spec_pos().z * METACHUNKSIZE + METACHUNKSIZE),
            forall|c: &mut Chunk<4, 2, 8>, p: ChunkPos| #[trigger] f.requires((c, p)),
        ensures
            final(self).inv(),
            final(self).spec_pos() == old(self).spec_pos(),
            final(self).spec_seed() == old(self).spec_seed(),
            forall|a: int, b: int, c: int|
                #![trigger is_local_chunk(a, b, c)]
                is_local_chunk(a, b, c) ==> if a == x && y <= b {
                    exists|cm: &mut Chunk<4, 2, 8>|
                        *cm == old(self).chunks()[chunk_index(a, b, c)]
                        && *final(cm) == final(self).chunks()[chunk_index(a, b, c)]
                        && #[trigger] f.ensures((cm, local_chunk_world_pos(old(self).spec_pos(), a, b, c)), ())
                } else {
                    final(self).chunks()[chunk_index(a, b, c)] == old(self).chunks()[chunk_index(a, b, c)]
                },
        decreases 16 - y,
    {
        if y < 16 {
            let ghost s0 = self.chunks();
            self.apply_row(f, x, y, 0);
            let ghost s1 = self.chunks();
            self.apply_slice(f, x, y + 1);
            proof {
                assert forall|a: int, b: int, c: int|
                    #![trigger is_local_chunk(a, b, c)]
                    is_local_chunk(a, b, c) implies if a == x && y <= b {
                        exists|cm: &mut Chunk<4, 2, 8>|
                            *cm == old(self).chunks()[chunk_index(a, b, c)]
                            && *final(cm) == final(self).chunks()[chunk_index(a, b, c)]
                            && #[trigger] f.ensures((cm, local_chunk_world_pos(old(self).spec_pos(), a, b, c)), ())
                    } else {
                        final(self).chunks()[chunk_index(a, b, c)] == old(self).chunks()[chunk_index(a, b, c)]
                } by {
                    lemma_chunk_index_range(a, b, c);
                    if a == x && b == y {
                        assert(self.chunks()[chunk_index(a, b, c)] == s1[chunk_index(a, b, c)]);
                    } else {
                        assert(s1[chunk_index(a, b, c)] == s0[chunk_index(a, b, c)]);
                    }
                }
            }
        }
    }

    /// Calls `f` on the slices `x` to 15, in that order.
    fn apply_from<F: Fn(&mut Chunk<4, 2, 8>, ChunkPos)>(&mut self, f: &F, x: i32)
        requires
            0 <= x <= 16,
            old(self).inv(),
            fits_i32(old(self).spec_pos().x * METACHUNKSIZE),
            fits_i32(old(self).spec_pos().z * METACHUNKSIZE),
            fits_i32(old(self).spec_pos().x * METACHUNKSIZE + METACHUNKSIZE),
            fits_i32(old(self).spec_pos().z * METACHUNKSIZE + METACHUNKSIZE),
            forall|c: &mut Chunk<4, 2, 8>, p: ChunkPos| #[trigger] f.requires((c, p)),
        ensures
            final(self).inv(),
            final(self).spec_pos() == old(self).spec_pos(),
            final(self).spec_seed() == old(self).spec_seed(),
            forall|a: int, b: int, c: int|
                #![trigger is_local_chunk(a, b, c)]
                is_local_chunk(a, b, c) ==> if x <= a {
                    exists|cm: &mut Chunk<4, 2, 8>|
                        *cm == old(self).chunks()[chunk_index(a, b, c)]
                        && *final(cm) == final(self).chunks()[chunk_index(a, b, c)]
                        && #[trigger] f.ensures((cm, local_chunk_world_pos(old(self).spec_pos(), a, b, c)), ())
                } else {
                    final(self).chunks()[chunk_index(a, b, c)] == old(self).chunks()[chunk_index(a, b, c)]
                },
        decreases 16 - x,
    {
        if x < 16 {
            let ghost s0 = self.chunks();
            self.apply_slice(f, x, 0);
            let ghost s1 = self.chunks();
            self.apply_from(f, x + 1);
            proof {
                assert forall|a: int, b: int, c: int|
                    #![trigger is_local_chunk(a, b, c)]
                    is_local_chunk(a, b, c) implies if x <= a {
                        exists|cm: &mut Chunk<4, 2, 8>|
                            *cm == old(self).chunks()[chunk_index(a, b, c)]
                            && *final(cm) == final(self).chunks()[chunk_index(a, b, c)]
                            && #[trigger] f.ensures((cm, local_chunk_world_pos(old(self).spec_pos(), a, b, c)), ())
                    } else {
                        final(self).chunks()[chunk_index(a, b, c)] == old(self).chunks()[chunk_index(a, b, c)]
                } by {
                    lemma_chunk_index_range(a, b, c);
                    if a == x {
                        assert(self.chunks()[chunk_index(a, b, c)] == s1[chunk_index(a, b, c)]);
                    } else {
                        assert(s1[chunk_index(a, b, c)] == s0[chunk_index(a, b, c)]);
                    }
                }
            }
        }
    }

    /// Calls `f` on every chunk, which it may change, with its world position,
    /// along z first, then y, then x. Each chunk ends as `f` leaves it.
    pub fn for_each_mut(&mut self, f: impl Fn(&mut Chunk<4, 2, 8>, ChunkPos))
        requires
            old(self).inv(),
            fits_i32(old(self).spec_pos().x * METACHUNKSIZE),
            fits_i32(old(self).spec_pos().z * METACHUNKSIZE),
            fits_i32(old(self).spec_pos().x * METACHUNKSIZE + METACHUNKSIZE),
            fits_i32(old(self).spec_pos().z * METACHUNKSIZE + METACHUNKSIZE),
            forall|c: &mut Chunk<4, 2, 8>, p: ChunkPos| #[trigger] f.requires((c, p)),
        ensures
            final(self).inv(),
            final(self).spec_pos() == old(self).spec_pos(),
            final(self).spec_seed() == old(self).spec_seed(),
            forall|a: int, b: int, c: int|
                #![trigger is_local_chunk(a, b, c)]
                is_local_chunk(a, b, c) ==> exists|cm: &mut Chunk<4, 2, 8>|
                    *cm == old(self).chunks()[chunk_index(a, b, c)]
                    && *final(cm) == final(self).chunks()[chunk_index(a, b, c)]
                    && #[trigger] f.ensures((cm, local_chunk_world_pos(old(self).spec_pos(), a, b, c)), ()),
    {
        let ghost s0 = self.chunks();
        self.apply_from(&f, 0);
        proof {
            assert forall|a: int, b: int, c: int|
                #![trigger is_local_chunk(a, b, c)]
                is_local_chunk(a, b, c) implies exists|cm: &mut Chunk<4, 2, 8>|
                    *cm == old(self).chunks()[chunk_index(a, b, c)]
                    && *final(cm) == final(self).chunks()[chunk_index(a, b, c)]
                    && #[trigger] f.ensures((cm, local_chunk_world_pos(old(self).spec_pos(), a, b, c)), ()) by {
                lemma_chunk_index_range(a, b, c);
            }
        }
    }
}

/// Walks the chunks of a meta chunk row by row: along x (one step past the
/// last chunk of the row), then y, then z.
pub struct MetaChunkIterator<'a> {
    meta_chunk: &'a MetaChunk,
    x: u32,
    y: u32,
    z: u32,
}

impl<'a> MetaChunkIterator<'a> {
    /// The iterator's meta chunk and position.
    pub closed spec fn state(&self) -> (MetaChunk, u32, u32, u32) {
        (*self.meta_chunk, self.x, self.y, self.z)
    }

    /// The iterator's position lies in its range and the positions it reports are `i32` values.
    pub closed spec fn valid(&self) -> bool {
        &&& self.meta_chunk.inv()
        &&& fits_i32(self.meta_chunk.pos.x * METACHUNKSIZE)
        &&& fits_i32(self.meta_chunk.pos.z * METACHUNKSIZE)
        &&& fits_i32(self.meta_chunk.pos.x * METACHUNKSIZE + METACHUNKSIZE)
        &&& fits_i32(self.meta_chunk.pos.z * METACHUNKSIZE + METACHUNKSIZE)
        &&& self.x <= METACHUNKSIZE
        &&& self.y < METACHUNKSIZE
        &&& self.z < METACHUNKSIZE
        &&& (self.y == METACHUNKSIZE - 1 && self.z == METACHUNKSIZE - 1 ==> self.x < METACHUNKSIZE)
    }

    /// The next chunk and its world position, or `None` once the position
    /// `(15, 15, 15)` is reached. A position one past the end of a row reads
    /// the first chunk of the next row.
    pub fn next(&mut self) -> (r: Option<(&'a Chunk<4, 2, 8>, ChunkPos)>)
        requires
            old(self).valid(),
        ensures
            final(self).valid(),
            ({
                let (m, x, y, z) = old(self).state();
                let last = METACHUNKSIZE - 1;
                if x == last && y == last && z == last {
                    r is None && final(self).state() == old(self).state()
                } else {
                    let (nx, ny) = if x == METACHUNKSIZE { (0u32, (y + 1) as u32) } else { ((x + 1) as u32, y) };
                    let (ny2, nz) = if ny == METACHUNKSIZE { (0u32, (z + 1) as u32) } else { (ny, z) };
                    &&& r matches Some((c, p)) && *c == m.chunks()[chunk_index(x as int, y as int, z as int)]
                        && p == (ChunkPos {
                        x: (m.spec_pos().x * METACHUNKSIZE + x) as i32,
                        y: y as i32,
                        z: (m.spec_pos().z * METACHUNKSIZE + z) as i32,
                    })
                    &&& final(self).state() == (m, nx, ny2, nz)
                }
            }),
    {
        if self.x == (METACHUNKSIZE - 1) as u32 && self.y == (METACHUNKSIZE - 1) as u32 && self.z == (
        METACHUNKSIZE - 1) as u32 {
            return None;
        }
        let pos = ChunkPos {
            x: self.meta_chunk.pos.x * METACHUNKSIZE as i32 + self.x as i32,
            y: self.y as i32,
            z: self.meta_chunk.pos.z * METACHUNKSIZE as i32 + self.z as i32,
        };
        proof {
            assert(chunk_index(self.x as int, self.y as int, self.z as int) < chunk_count()) by (nonlinear_arith)
                requires
                    self.x <= 16,
                    self.y < 16,
                    self.z < 16,
                    self.y == 15 && self.z == 15 ==> self.x < 16,
                    !(self.x == 15 && self.y == 15 && self.z == 15),
            {
            }
        }
        let c = self.meta_chunk.get_chunk(&LocalChunkPos { x: self.x as i32, y: self.y as i32, z: self.z as i32 }).unwrap();
        if self.x == METACHUNKSIZE as u32 {
            self.x = 0;
            self.y += 1;
        } else {
            self.x += 1;
        }
        if self.y == METACHUNKSIZE as u32 {
            self.y = 0;
            self.z += 1;
        }
        return Some((c, pos));
    }
}

impl MetaChunk {
    /// An iterator over the chunks, from the first one.
    pub fn get_iter(&self) -> (it: MetaChunkIterator)
        requires
            self.inv(),
            fits_i32(self.spec_pos().x * METACHUNKSIZE),
            fits_i32(self.spec_pos().z * METACHUNKSIZE),
            fits_i32(self.spec_pos().x * METACHUNKSIZE + METACHUNKSIZE),
            fits_i32(self.spec_pos().z * METACHUNKSIZE + METACHUNKSIZE),
        ensures
            it.valid(),
            it.state() == (*self, 0u32, 0u32, 0u32),
    {
        MetaChunkIterator { meta_chunk: &self, x: 0, y: 0, z: 0 }
    }
}

/// The chunk that a block falls in lies in the list of chunks.
pub proof fn lemma_block_chunk_index_bound(pos: GlobalBlockPos)
    ensures
        0 <= block_chunk_index(pos) < chunk_count(),
{
    let cx = (pos.x as int / CHUNKSIZE as int) % METACHUNKSIZE as int;
    let cy = (pos.y as int / CHUNKSIZE as int) % METACHUNKSIZE as int;
    let cz = (pos.z as int / CHUNKSIZE as int) % METACHUNKSIZE as int;
    assert(0 <= cx < 16 && 0 <= cy < 16 && 0 <= cz < 16);
    assert(0 <= cx + cy * 16 + cz * 16 * 16 < 4096) by (nonlinear_arith)
        requires
            0 <= cx < 16,
            0 <= cy < 16,
            0 <= cz < 16,
    {
    }
}

} // verus!
