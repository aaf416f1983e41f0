use vstd::prelude::*;
use crate::blocks::block::{get_blockid, spec_blockid, BlockType};
use crate::positions::{fits_i32, offset, GlobalBlockPos};
use crate::world_gen::chunk::BlockIdOrPointer;
use crate::world_gen::meta_chunk::{layers_writable, layers_write, MetaChunk};

verus! {

/// The chunk storages after sand is written at `(x, y, z)` of the cube at
/// `pos` for `z` in `0..n`, in that order.
pub open spec fn square_column(
    l: Seq<Seq<Seq<Seq<BlockIdOrPointer>>>>,
    pos: GlobalBlockPos,
    x: int,
    y: int,
    n: int,
) -> Seq<Seq<Seq<Seq<BlockIdOrPointer>>>>
    decreases n,
{
    if n <= 0 {
        l
    } else {
        layers_write(square_column(l, pos, x, y, n - 1), offset(pos, x, y, n - 1), spec_blockid(BlockType::Sand))
    }
}

/// Each write of [`square_column`] finds its chunk writable.
pub open spec fn square_column_ok(l: Seq<Seq<Seq<Seq<BlockIdOrPointer>>>>, pos: GlobalBlockPos, x: int, y: int, n: int) -> bool
    decreases n,
{
    n <= 0 || (square_column_ok(l, pos, x, y, n - 1) && layers_writable(
        square_column(l, pos, x, y, n - 1),
        offset(pos, x, y, n - 1),
    ))
}

/// The chunk storages after the columns `y` in `0..n` of the slice `x` of the
/// cube of edge `size` at `pos` are written.
pub open spec fn square_plane(
    l: Seq<Seq<Seq<Seq<BlockIdOrPointer>>>>,
    pos: GlobalBlockPos,
    size: int,
    x: int,
    n: int,
) -> Seq<Seq<Seq<Seq<BlockIdOrPointer>>>>
    decreases n,
{
    if n <= 0 {
        l
    } else {
        square_column(square_plane(l, pos, size, x, n - 1), pos, x, n - 1, size)
    }
}

/// Each write of [`square_plane`] finds its chunk writable.
pub open spec fn square_plane_ok(
    l: Seq<Seq<Seq<Seq<BlockIdOrPointer>>>>,
    pos: GlobalBlockPos,
    size: int,
    x: int,
    n: int,
) -> bool
    decreases n,
{
    n <= 0 || (square_plane_ok(l, pos, size, x, n - 1) && square_column_ok(
        square_plane(l, pos, size, x, n - 1),
        pos,
        x,
        n - 1,
        size,
    ))
}

/// The chunk storages after the slices `x` in `0..n` of the cube of edge
/// `size` at `pos` are written.
pub open spec fn square_cube(
    l: Seq<Seq<Seq<Seq<BlockIdOrPointer>>>>,
    pos: GlobalBlockPos,
    size: int,
    n: int,
) -> Seq<Seq<Seq<Seq<BlockIdOrPointer>>>>
    decreases n,
{
    if n <= 0 {
        l
    } else {
        square_plane(square_cube(l, pos, size, n - 1), pos, size, n - 1, size)
    }
}

/// Each write of [`square_cube`] finds its chunk writable.
pub open spec fn square_cube_ok(l: Seq<Seq<Seq<Seq<BlockIdOrPointer>>>>, pos: GlobalBlockPos, size: int, n: int) -> bool
    decreases n,
{
    n <= 0 || (square_cube_ok(l, pos, size, n - 1) && square_plane_ok(
        square_cube(l, pos, size, n - 1),
        pos,
        size,
        n - 1,
        size,
    ))
}

proof fn lemma_column_ok_prefix(l: Seq<Seq<Seq<Seq<BlockIdOrPointer>>>>, pos: GlobalBlockPos, x: int, y: int, k: int, n: int)
    requires
        0 <= k <= n,
        square_column_ok(l, pos, x, y, n),
    ensures
        square_column_ok(l, pos, x, y, k),
    decreases n - k,
{
    if k < n {
        lemma_column_ok_prefix(l, pos, x, y, k, n - 1);
    }
}

proof fn lemma_plane_ok_prefix(
    l: Seq<Seq<Seq<Seq<BlockIdOrPointer>>>>,
    pos: GlobalBlockPos,
    size: int,
    x: int,
    k: int,
    n: int,
)
    requires
        0 <= k <= n,
        square_plane_ok(l, pos, size, x, n),
    ensures
        square_plane_ok(l, pos, size, x, k),
    decreases n - k,
{
    if k < n {
        lemma_plane_ok_prefix(l, pos, size, x, k, n - 1);
    }
}

proof fn lemma_cube_ok_prefix(l: Seq<Seq<Seq<Seq<BlockIdOrPointer>>>>, pos: GlobalBlockPos, size: int, k: int, n: int)
    requires
        0 <= k <= n,
        square_cube_ok(l, pos, size, n),
    ensures
        square_cube_ok(l, pos, size, k),
    decreases n - k,
{
    if k < n {
        lemma_cube_ok_prefix(l, pos, size, k, n - 1);
    }
}

/// Writes sand into the cube of edge `size` whose lowest corner is `pos`,
/// slice by slice along x, row by row along y, block by block along z.
pub fn place_square(pos: &GlobalBlockPos, size: u32, world: &mut MetaChunk)
    requires
        old(world).inv(),
        size <= 0x8000_0000,
        size > 0 ==> fits_i32(pos.x + size - 1) && fits_i32(pos.y + size - 1) && fits_i32(pos.z + size - 1),
        square_cube_ok(old(world).layers(), *pos, size as int, size as int),
    ensures
        final(world).inv(),
        final(world).spec_pos() == old(world).spec_pos(),
        final(world).spec_seed() == old(world).spec_seed(),
        final(world).layers() == square_cube(old(world).layers(), *pos, size as int, size as int),
{
    let ghost l0 = world.layers();
    let sand = get_blockid(BlockType::Sand);
    let mut x: u32 = 0;
    while x < size
        invariant
            world.inv(),
            world.spec_pos() == old(world).spec_pos(),
            world.spec_seed() == old(world).spec_seed(),
            l0 == old(world).layers(),
            sand == spec_blockid(BlockType::Sand),
            x <= size <= 0x8000_0000,
            size > 0 ==> fits_i32(pos.x + size - 1) && fits_i32(pos.y + size - 1) && fits_i32(pos.z + size - 1),
            square_cube_ok(l0, *pos, size as int, size as int),
            world.layers() == square_cube(l0, *pos, size as int, x as int),
        decreases size - x,
    {
        let ghost lx = world.layers();
        proof {
            lemma_cube_ok_prefix(l0, *pos, size as int, x + 1, size as int);
        }
        let mut y: u32 = 0;
        while y < size
            invariant
                world.inv(),
                world.spec_pos() == old(world).spec_pos(),
                world.spec_seed() == old(world).spec_seed(),
                sand == spec_blockid(BlockType::Sand),
                x < size <= 0x8000_0000,
                y <= size,
                fits_i32(pos.x + size - 1) && fits_i32(pos.y + size - 1) && fits_i32(pos.z + size - 1),
                square_plane_ok(lx, *pos, size as int, x as int, size as int),
                world.layers() == square_plane(lx, *pos, size as int, x as int, y as int),
            decreases size - y,
        {
            let ghost ly = world.layers();
            proof {
                lemma_plane_ok_prefix(lx, *pos, size as int, x as int, y + 1, size as int);
            }
            let mut z: u32 = 0;
            while z < size
                invariant
                    world.inv(),
                    world.spec_pos() == old(world).spec_pos(),
                    world.spec_seed() == old(world).spec_seed(),
                    sand == spec_blockid(BlockType::Sand),
                    x < size <= 0x8000_0000,
                    y < size,
                    z <= size,
                    fits_i32(pos.x + size - 1) && fits_i32(pos.y + size - 1) && fits_i32(pos.z + size - 1),
                    square_column_ok(ly, *pos, x as int, y as int, size as int),
                    world.layers() == square_column(ly, *pos, x as int, y as int, z as int),
                decreases size - z,
            {
                let p = pos.get_diff(x as i32, y as i32, z as i32);
                proof {
                    lemma_column_ok_prefix(ly, *pos, x as int, y as int, z + 1, size as int);
                    assert(p == offset(*pos, x as int, y as int, z as int));
                    world.lemma_layers(p);
                }
                world.set_block(&p, sand);
                z = z + 1;
            }
            y = y + 1;
        }
        x = x + 1;
    }
}

} // verus!
