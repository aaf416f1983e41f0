use vstd::prelude::*;
use crate::blocks::block::{get_blockid, spec_blockid, BlockId, BlockType};
use crate::constants::{CHUNKSIZE, METACHUNKSIZE};
use crate::positions::{fits_i32, ChunkPos};
use crate::utils::coord_to_array_indice;

verus! {

/// Blocks in a chunk's flat block list.
pub open spec fn chunk_volume() -> int {
    CHUNKSIZE as int * CHUNKSIZE as int * CHUNKSIZE as int
}

/// Index of the block `(x, y, z)` in a chunk's flat block list.
pub open spec fn cell(x: int, y: int, z: int) -> int {
    x + y * CHUNKSIZE as int + z * CHUNKSIZE as int * CHUNKSIZE as int
}

/// Index of the column `(x, z)` in a chunk's height map.
pub open spec fn column(x: int, z: int) -> int {
    x + z * CHUNKSIZE as int
}

/// A coordinate inside a chunk.
pub open spec fn in_chunk(c: int) -> bool {
    0 <= c < CHUNKSIZE as int
}

/// The height, in world blocks, above which no grass is planted: four fifths
/// of a meta chunk's height, rounded down.
pub const GRASS_LINE: i32 = 204;

/// The world height below which air becomes water: a third of a meta
/// chunk's height, rounded down.
pub const WATER_LEVEL: i32 = 85;

proof fn lemma_cell_bound(x: int, y: int, z: int)
    requires
        in_chunk(x),
        in_chunk(y),
        in_chunk(z),
    ensures
        0 <= cell(x, y, z) < chunk_volume(),
        x + y * 16 + z * 16 * 16 <= usize::MAX,
{
    assert(0 <= x + y * 16 + z * 16 * 16 < 4096) by (nonlinear_arith)
        requires
            0 <= x < 16,
            0 <= y < 16,
            0 <= z < 16,
    {
    }
}

/// Distinct blocks of a chunk have distinct indices.
proof fn lemma_cell_unique(x1: int, y1: int, z1: int, x2: int, y2: int, z2: int)
    requires
        in_chunk(x1),
        in_chunk(y1),
        in_chunk(z1),
        in_chunk(x2),
        in_chunk(y2),
        in_chunk(z2),
        cell(x1, y1, z1) == cell(x2, y2, z2),
    ensures
        x1 == x2 && y1 == y2 && z1 == z2,
{
    let v = cell(x1, y1, z1);
    assert(v == (y1 + z1 * 16) * 16 + x1 && v == (y2 + z2 * 16) * 16 + x2) by (nonlinear_arith)
        requires
            v == x1 + y1 * 16 + z1 * 16 * 16,
            v == x2 + y2 * 16 + z2 * 16 * 16,
    {
    }
    vstd::arithmetic::div_mod::lemma_fundamental_div_mod_converse(v, 16, y1 + z1 * 16, x1);
    vstd::arithmetic::div_mod::lemma_fundamental_div_mod_converse(v, 16, y2 + z2 * 16, x2);
    let u = y1 + z1 * 16;
    assert(u == z1 * 16 + y1 && y2 + z2 * 16 == z2 * 16 + y2) by (nonlinear_arith)
        requires
            u == y1 + z1 * 16,
    {
    }
    vstd::arithmetic::div_mod::lemma_fundamental_div_mod_converse(u, 16, z1, y1);
    vstd::arithmetic::div_mod::lemma_fundamental_div_mod_converse(u, 16, z2, y2);
}

/// The flat block list of a chunk that holds nothing but air.
pub fn generate_empty_chunk_data() -> (arr: Vec<BlockId>)
    ensures
        arr@.len() == chunk_volume(),
        forall|i: int| 0 <= i < chunk_volume() ==> #[trigger] arr@[i] == spec_blockid(BlockType::Air),
{
    let mut arr: Vec<BlockId> = Vec::with_capacity(CHUNKSIZE * CHUNKSIZE * CHUNKSIZE);
    let n = CHUNKSIZE as i32;
    for a in 0..n
        invariant
            n == 16,
            arr@.len() == a * 256,
            forall|i: int| 0 <= i < arr@.len() ==> #[trigger] arr@[i] == spec_blockid(BlockType::Air),
    {
        for b in 0..n
            invariant
                n == 16,
                arr@.len() == a * 256 + b * 16,
                forall|i: int| 0 <= i < arr@.len() ==> #[trigger] arr@[i] == spec_blockid(BlockType::Air),
        {
            for c in 0..n
                invariant
                    n == 16,
                    arr@.len() == a * 256 + b * 16 + c,
                    forall|i: int| 0 <= i < arr@.len() ==> #[trigger] arr@[i] == spec_blockid(BlockType::Air),
            {
                arr.push(get_blockid(BlockType::Air));
            }
        }
    }
    return arr;
}

/// The number of stone blocks that the column `(x, z)` of the chunk at `pos`
/// starts with, counted from the chunk's bottom, for the world height in `heights`.
pub open spec fn land_top(heights: Seq<i32>, pos: ChunkPos, x: int, z: int) -> int {
    heights[column(x, z)] - pos.y * CHUNKSIZE as int
}

/// The height map gives each column of the chunk at `pos` a height whose
/// distance to the chunk's bottom is an `i32` value.
pub open spec fn heights_fit(heights: Seq<i32>, pos: ChunkPos) -> bool {
    &&& heights.len() == CHUNKSIZE * CHUNKSIZE
    &&& fits_i32(pos.y * CHUNKSIZE as int)
    &&& fits_i32((pos.y + 1) * CHUNKSIZE as int)
    &&& forall|c: int| 0 <= c < heights.len() ==> #[trigger] fits_i32(heights[c] - pos.y * CHUNKSIZE as int)
}

/// Fills each column `(x, z)` of the chunk at `pos` with stone from the
/// bottom up to, not including, the world height `heights[x + z * CHUNKSIZE]`.
pub fn generate_landmass(heights: &Vec<i32>, pos: &ChunkPos, chunk: &mut Vec<BlockId>)
    requires
        heights_fit(heights@, *pos),
        old(chunk)@.len() == chunk_volume(),
    ensures
        final(chunk)@.len() == chunk_volume(),
        forall|x: int, y: int, z: int|
            in_chunk(x) && in_chunk(y) && in_chunk(z) ==> #[trigger] final(chunk)@[cell(x, y, z)] == if y
                < land_top(heights@, *pos, x, z) {
                spec_blockid(BlockType::Stone)
            } else {
                old(chunk)@[cell(x, y, z)]
            },
{
    let ghost c0 = chunk@;
    let n = CHUNKSIZE as i32;
    for x in 0..n
        invariant
            n == 16,
            heights_fit(heights@, *pos),
            chunk@.len() == chunk_volume(),
            c0.len() == chunk_volume(),
            forall|x2: int, y2: int, z2: int|
                in_chunk(x2) && in_chunk(y2) && in_chunk(z2) ==> #[trigger] chunk@[cell(x2, y2, z2)] == if x2 < x
                    && y2 < land_top(heights@, *pos, x2, z2) {
                    spec_blockid(BlockType::Stone)
                } else {
                    c0[cell(x2, y2, z2)]
                },
    {
        for z in 0..n
            invariant
                n == 16,
                0 <= x < 16,
                heights_fit(heights@, *pos),
                chunk@.len() == chunk_volume(),
                c0.len() == chunk_volume(),
                forall|x2: int, y2: int, z2: int|
                    in_chunk(x2) && in_chunk(y2) && in_chunk(z2) ==> #[trigger] chunk@[cell(x2, y2, z2)] == if (x2
                        < x || (x2 == x && z2 < z)) && y2 < land_top(heights@, *pos, x2, z2) {
                        spec_blockid(BlockType::Stone)
                    } else {
                        c0[cell(x2, y2, z2)]
                    },
        {
            let ci = x as usize + z as usize * CHUNKSIZE;
            proof {
                assert(0 <= ci < 256) by (nonlinear_arith)
                    requires
                        0 <= x < 16,
                        0 <= z < 16,
                        ci == x + z * 16,
                {
                }
                assert(fits_i32(heights@[ci as int] - pos.y * CHUNKSIZE as int));
            }
            let height = heights[ci];
            let height = height - pos.y * CHUNKSIZE as i32;
            let mut y: i32 = 0;
            while y < height
                invariant
                    n == 16,
                    0 <= x < 16,
                    0 <= z < 16,
                    0 <= y,
                    height >= 0 ==> y <= height,
                    height < 0 ==> y == 0,
                    height == land_top(heights@, *pos, x as int, z as int),
                    heights_fit(heights@, *pos),
                    chunk@.len() == chunk_volume(),
                    c0.len() == chunk_volume(),
                    forall|x2: int, y2: int, z2: int|
                        in_chunk(x2) && in_chunk(y2) && in_chunk(z2) ==> #[trigger] chunk@[cell(x2, y2, z2)] == if ((x2
                            < x || (x2 == x && z2 < z)) && y2 < land_top(heights@, *pos, x2, z2)) || (x2 == x
                            && z2 == z && y2 < y) {
                            spec_blockid(BlockType::Stone)
                        } else {
                            c0[cell(x2, y2, z2)]
                        },
                decreases height - y,
            {
                if y >= CHUNKSIZE as i32 {
                    y = y + 1;
                    continue;
                }
                proof {
                    lemma_cell_bound(x as int, y as int, z as int);
                }
                let i = coord_to_array_indice(x as u32, y as u32, z as u32, CHUNKSIZE as u32);
                chunk[i] = get_blockid(BlockType::Stone);
                proof {
                    assert forall|x2: int, y2: int, z2: int|
                        in_chunk(x2) && in_chunk(y2) && in_chunk(z2) && cell(x2, y2, z2) == i implies x2 == x
                        && y2 == y && z2 == z by {
                        lemma_cell_unique(x2, y2, z2, x as int, y as int, z as int);
                    }
                }
                y = y + 1;
            }
            proof {
                assert forall|x2: int, y2: int, z2: int|
                    in_chunk(x2) && in_chunk(y2) && in_chunk(z2) implies #[trigger] chunk@[cell(x2, y2, z2)] == if (x2
                        < x || (x2 == x && z2 < z + 1)) && y2 < land_top(heights@, *pos, x2, z2) {
                        spec_blockid(BlockType::Stone)
                    } else {
                        c0[cell(x2, y2, z2)]
                    } by {
                    if x2 == x && z2 == z {
                        assert((y2 < y) == (y2 < height));
                    }
                }
            }
        }
    }
}

/// The world height of the bottom and of the top of the chunk at `pos` are
/// `i32` values.
pub open spec fn chunk_span_fits(pos: ChunkPos) -> bool {
    &&& fits_i32(pos.y * CHUNKSIZE as int)
    &&& fits_i32((pos.y + 1) * CHUNKSIZE as int)
}

/// Whether the block at height `y` of the chunk at `pos` lies below the water level.
pub open spec fn below_water(pos: ChunkPos, y: int) -> bool {
    y + pos.y * (CHUNKSIZE as int) < (WATER_LEVEL as int)
}

/// Turns every air block of the chunk at `pos` whose world height is below
/// the water level into water; every other block stays as it was.
pub fn floodfill_water(pos: &ChunkPos, chunk: &mut Vec<BlockId>)
    requires
        chunk_span_fits(*pos),
        old(chunk)@.len() == chunk_volume(),
    ensures
        final(chunk)@.len() == chunk_volume(),
        forall|x: int, y: int, z: int|
            in_chunk(x) && in_chunk(y) && in_chunk(z) ==> #[trigger] final(chunk)@[cell(x, y, z)] == if below_water(
                *pos,
                y,
            ) && old(chunk)@[cell(x, y, z)] == spec_blockid(BlockType::Air) {
                spec_blockid(BlockType::Water)
            } else {
                old(chunk)@[cell(x, y, z)]
            },
{
    let ghost c0 = chunk@;
    let n = CHUNKSIZE as i32;
    let air = get_blockid(BlockType::Air);
    let water = get_blockid(BlockType::Water);
    let base = pos.y * CHUNKSIZE as i32;
    for x in 0..n
        invariant
            n == 16,
            base == pos.y * CHUNKSIZE as int,
            chunk_span_fits(*pos),
            air == spec_blockid(BlockType::Air),
            water == spec_blockid(BlockType::Water),
            chunk@.len() == chunk_volume(),
            c0.len() == chunk_volume(),
            forall|x2: int, y2: int, z2: int|
                in_chunk(x2) && in_chunk(y2) && in_chunk(z2) ==> #[trigger] chunk@[cell(x2, y2, z2)] == if x2 < x
                    && below_water(*pos, y2) && c0[cell(x2, y2, z2)] == spec_blockid(BlockType::Air) {
                    spec_blockid(BlockType::Water)
                } else {
                    c0[cell(x2, y2, z2)]
                },
    {
        for z in 0..n
            invariant
                n == 16,
                0 <= x < 16,
                base == pos.y * CHUNKSIZE as int,
                chunk_span_fits(*pos),
                air == spec_blockid(BlockType::Air),
                water == spec_blockid(BlockType::Water),
                chunk@.len() == chunk_volume(),
                c0.len() == chunk_volume(),
                forall|x2: int, y2: int, z2: int|
                    in_chunk(x2) && in_chunk(y2) && in_chunk(z2) ==> #[trigger] chunk@[cell(x2, y2, z2)] == if (x2
                        < x || (x2 == x && z2 < z)) && below_water(*pos, y2) && c0[cell(x2, y2, z2)]
                        == spec_blockid(BlockType::Air) {
                        spec_blockid(BlockType::Water)
                    } else {
                        c0[cell(x2, y2, z2)]
                    },
        {
            for y in 0..n
                invariant
                    n == 16,
                    0 <= x < 16,
                    0 <= z < 16,
                    base == pos.y * CHUNKSIZE as int,
                    chunk_span_fits(*pos),
                    air == spec_blockid(BlockType::Air),
                    water == spec_blockid(BlockType::Water),
                    chunk@.len() == chunk_volume(),
                    c0.len() == chunk_volume(),
                    forall|x2: int, y2: int, z2: int|
                        in_chunk(x2) && in_chunk(y2) && in_chunk(z2) ==> #[trigger] chunk@[cell(x2, y2, z2)] == if ((x2
                            < x || (x2 == x && z2 < z)) || (x2 == x && z2 == z && y2 < y)) && below_water(
                            *pos,
                            y2,
                        ) && c0[cell(x2, y2, z2)] == spec_blockid(BlockType::Air) {
                            spec_blockid(BlockType::Water)
                        } else {
                            c0[cell(x2, y2, z2)]
                        },
            {
                proof {
                    lemma_cell_bound(x as int, y as int, z as int);
                }
                let global_y = y + base;
                let i = coord_to_array_indice(x as u32, y as u32, z as u32, CHUNKSIZE as u32);
                proof {
                    assert forall|x2: int, y2: int, z2: int|
                        in_chunk(x2) && in_chunk(y2) && in_chunk(z2) && cell(x2, y2, z2) == i implies x2 == x
                        && y2 == y && z2 == z by {
                        lemma_cell_unique(x2, y2, z2, x as int, y as int, z as int);
                    }
                    assert(chunk@[i as int] == c0[i as int]);
                }
                if global_y < WATER_LEVEL && chunk[i] == air {
                    chunk[i] = water;
                }
            }
        }
    }
}

/// Whether the column `(x, z)` of the chunk at `pos` gets a grass block: its
/// world height falls inside the chunk and is at most the grass line.
pub open spec fn grass_at(heights: Seq<i32>, pos: ChunkPos, x: int, z: int) -> bool {
    let h = heights[column(x, z)] as int;
    &&& pos.y * (CHUNKSIZE as int) <= h < (pos.y + 1) * (CHUNKSIZE as int)
    &&& h <= GRASS_LINE as int
}

/// Puts a grass block on the world height of each column `(x, z)` of the
/// chunk at `pos` where that height falls inside the chunk and is at most
/// the grass line; every other block stays as it was.
pub fn plant_grass(heights: &Vec<i32>, pos: &ChunkPos, chunk: &mut Vec<BlockId>)
    requires
        heights@.len() == CHUNKSIZE * CHUNKSIZE,
        chunk_span_fits(*pos),
        old(chunk)@.len() == chunk_volume(),
    ensures
        final(chunk)@.len() == chunk_volume(),
        forall|x: int, y: int, z: int|
            in_chunk(x) && in_chunk(y) && in_chunk(z) ==> #[trigger] final(chunk)@[cell(x, y, z)] == if grass_at(
                heights@,
                *pos,
                x,
                z,
            ) && y == land_top(heights@, *pos, x, z) {
                spec_blockid(BlockType::Grass)
            } else {
                old(chunk)@[cell(x, y, z)]
            },
{
    let ghost c0 = chunk@;
    let n = CHUNKSIZE as i32;
    let grass = get_blockid(BlockType::Grass);
    let bottom = pos.y * CHUNKSIZE as i32;
    let top = (pos.y + 1) * CHUNKSIZE as i32;
    for x in 0..n
        invariant
            n == 16,
            bottom == pos.y * CHUNKSIZE as int,
            top == (pos.y + 1) * CHUNKSIZE as int,
            heights@.len() == CHUNKSIZE * CHUNKSIZE,
            grass == spec_blockid(BlockType::Grass),
            chunk@.len() == chunk_volume(),
            c0.len() == chunk_volume(),
            forall|x2: int, y2: int, z2: int|
                in_chunk(x2) && in_chunk(y2) && in_chunk(z2) ==> #[trigger] chunk@[cell(x2, y2, z2)] == if x2 < x
                    && grass_at(heights@, *pos, x2, z2) && y2 == land_top(heights@, *pos, x2, z2) {
                    spec_blockid(BlockType::Grass)
                } else {
                    c0[cell(x2, y2, z2)]
                },
    {
        for z in 0..n
            invariant
                n == 16,
                0 <= x < 16,
                bottom == pos.y * CHUNKSIZE as int,
                top == (pos.y + 1) * CHUNKSIZE as int,
                heights@.len() == CHUNKSIZE * CHUNKSIZE,
                grass == spec_blockid(BlockType::Grass),
                chunk@.len() == chunk_volume(),
                c0.len() == chunk_volume(),
                forall|x2: int, y2: int, z2: int|
                    in_chunk(x2) && in_chunk(y2) && in_chunk(z2) ==> #[trigger] chunk@[cell(x2, y2, z2)] == if (x2
                        < x || (x2 == x && z2 < z)) && grass_at(heights@, *pos, x2, z2) && y2 == land_top(
                        heights@,
                        *pos,
                        x2,
                        z2,
                    ) {
                        spec_blockid(BlockType::Grass)
                    } else {
                        c0[cell(x2, y2, z2)]
                    },
        {
            let ci = x as usize + z as usize * CHUNKSIZE;
            proof {
                assert(0 <= ci < 256) by (nonlinear_arith)
                    requires
                        0 <= x < 16,
                        0 <= z < 16,
                        ci == x + z * 16,
                {
                }
            }
            let height = heights[ci];
            if height < top && height >= bottom {
                let y = height - bottom;
                if height <= GRASS_LINE {
                    proof {
                        lemma_cell_bound(x as int, y as int, z as int);
                    }
                    let i = coord_to_array_indice(x as u32, y as u32, z as u32, CHUNKSIZE as u32);
                    chunk[i] = grass;
                    proof {
                        assert forall|x2: int, y2: int, z2: int|
                            in_chunk(x2) && in_chunk(y2) && in_chunk(z2) && cell(x2, y2, z2) == i implies x2 == x
                            && y2 == y && z2 == z by {
                            lemma_cell_unique(x2, y2, z2, x as int, y as int, z as int);
                        }
                    }
                }
            }
        }
    }
}

/// The block that a full generation pass puts at `(x, y, z)` of the chunk at
/// `pos`: grass on the surface, stone below it, water in the air below the
/// water level, air everywhere else.
pub open spec fn generated_block(heights: Seq<i32>, pos: ChunkPos, x: int, y: int, z: int) -> BlockId {
    if grass_at(heights, pos, x, z) && y == land_top(heights, pos, x, z) {
        spec_blockid(BlockType::Grass)
    } else if y < land_top(heights, pos, x, z) {
        spec_blockid(BlockType::Stone)
    } else if below_water(pos, y) {
        spec_blockid(BlockType::Water)
    } else {
        spec_blockid(BlockType::Air)
    }
}

/// Generates the blocks of the chunk at `pos` from the world height of each
/// of its columns: landmass first, then water, then grass.
pub fn generate_chunk_data(heights: &Vec<i32>, pos: &ChunkPos) -> (chunk: Vec<BlockId>)
    requires
        heights_fit(heights@, *pos),
    ensures
        chunk@.len() == chunk_volume(),
        forall|x: int, y: int, z: int|
            in_chunk(x) && in_chunk(y) && in_chunk(z) ==> #[trigger] chunk@[cell(x, y, z)] == generated_block(
                heights@,
                *pos,
                x,
                y,
                z,
            ),
{
    let mut chunk = generate_empty_chunk_data();
    let ghost c0 = chunk@;
    generate_landmass(heights, pos, &mut chunk);
    let ghost c1 = chunk@;
    floodfill_water(pos, &mut chunk);
    let ghost c2 = chunk@;
    plant_grass(heights, pos, &mut chunk);
    proof {
        assert forall|x: int, y: int, z: int|
            in_chunk(x) && in_chunk(y) && in_chunk(z) implies #[trigger] chunk@[cell(x, y, z)] == generated_block(
                heights@,
                *pos,
                x,
                y,
                z,
            ) by {
            lemma_cell_bound(x, y, z);
            assert(c0[cell(x, y, z)] == spec_blockid(BlockType::Air));
            assert(c1[cell(x, y, z)] == c1[cell(x, y, z)]);
            assert(c2[cell(x, y, z)] == c2[cell(x, y, z)]);
        }
    }
    chunk
}

} // verus!
