use vstd::prelude::*;
use crate::blocks::block::{get_blockid, get_blocktype, spec_blockid, BlockType};
use crate::positions::{fits_i32, offset, GlobalBlockPos, MetaChunkPos};
use crate::world_gen::chunk::BlockIdOrPointer;
use crate::world_gen::meta_chunk::{column_in, layers_block, layers_readable, layers_writable, layers_write, MetaChunk};
use rand::distributions::{Distribution, Uniform};
use rand::rngs::ThreadRng;

verus! {

/// `rand::rngs::ThreadRng`, the random number generator of a thread; opaque.
#[verifier::external_type_specification]
#[verifier::external_body]
pub struct ExThreadRng(ThreadRng);

/// `rand::thread_rng`: the random number generator of the current thread.
/// Trusted: nothing is claimed of it.
#[verifier::external_body]
fn new_thread_rng() -> ThreadRng {
    rand::thread_rng()
}

/// A number drawn with `rng` from rand's uniform distribution over
/// `low..high` (`Uniform::from(low..high)`, sampled with
/// `Distribution::sample`). Trusted: it lies in `low..high`; which one is
/// left to chance. `Uniform::from` panics on an empty range, so `low < high`
/// is required.
#[verifier::external_body]
fn sample_uniform(rng: &mut ThreadRng, low: i32, high: i32) -> (r: i32)
    requires
        low < high,
    ensures
        low <= r < high,
{
    Uniform::from(low..high).sample(rng)
}

/// The storages after the leaf step at `p`: a leaf where the block is air,
/// else nothing changes.
pub open spec fn leaf_step(l: Seq<Seq<Seq<Seq<BlockIdOrPointer>>>>, p: GlobalBlockPos) -> Seq<
    Seq<Seq<Seq<BlockIdOrPointer>>>,
> {
    if layers_block(l, p) == spec_blockid(BlockType::Air) {
        layers_write(l, p, spec_blockid(BlockType::Leaf))
    } else {
        l
    }
}

/// The leaf step at `p` reads a column of the meta chunk at `m` from a readable chunk, and
/// writes only to a writable one.
pub open spec fn leaf_step_ok(m: MetaChunkPos, l: Seq<Seq<Seq<Seq<BlockIdOrPointer>>>>, p: GlobalBlockPos) -> bool {
    &&& column_in(m, p.x, p.z)
    &&& layers_readable(l, p)
    &&& layers_block(l, p) == spec_blockid(BlockType::Air) ==> layers_writable(l, p)
}

/// The leaf steps at `(x, y, z)` from the tree's base `pos`, for `z` from
/// `-r` on, `n` of them.
pub open spec fn leaf_column(
    l: Seq<Seq<Seq<Seq<BlockIdOrPointer>>>>,
    pos: GlobalBlockPos,
    y: int,
    x: int,
    r: int,
    n: int,
) -> Seq<Seq<Seq<Seq<BlockIdOrPointer>>>>
    decreases n,
{
    if n <= 0 {
        l
    } else {
        leaf_step(leaf_column(l, pos, y, x, r, n - 1), offset(pos, x, y, n - 1 - r))
    }
}

/// Each step of [`leaf_column`] is in order.
pub open spec fn leaf_column_ok(
    m: MetaChunkPos,
    l: Seq<Seq<Seq<Seq<BlockIdOrPointer>>>>,
    pos: GlobalBlockPos,
    y: int,
    x: int,
    r: int,
    n: int,
) -> bool
    decreases n,
{
    n <= 0 || (leaf_column_ok(m, l, pos, y, x, r, n - 1) && leaf_step_ok(
        m,
        leaf_column(l, pos, y, x, r, n - 1),
        offset(pos, x, y, n - 1 - r),
    ))
}

/// The leaf columns of the layer `y` of the crown, for `x` from `-r` on, `n`
/// of them, each `2 * r + 1` long.
pub open spec fn leaf_plane(
    l: Seq<Seq<Seq<Seq<BlockIdOrPointer>>>>,
    pos: GlobalBlockPos,
    y: int,
    r: int,
    n: int,
) -> Seq<Seq<Seq<Seq<BlockIdOrPointer>>>>
    decreases n,
{
    if n <= 0 {
        l
    } else {
        leaf_column(leaf_plane(l, pos, y, r, n - 1), pos, y, n - 1 - r, r, 2 * r + 1)
    }
}

/// Each step of [`leaf_plane`] is in order.
pub open spec fn leaf_plane_ok(
    m: MetaChunkPos,
    l: Seq<Seq<Seq<Seq<BlockIdOrPointer>>>>,
    pos: GlobalBlockPos,
    y: int,
    r: int,
    n: int,
) -> bool
    decreases n,
{
    n <= 0 || (leaf_plane_ok(m, l, pos, y, r, n - 1) && leaf_column_ok(
        m,
        leaf_plane(l, pos, y, r, n - 1),
        pos,
        y,
        n - 1 - r,
        r,
        2 * r + 1,
    ))
}

/// The trunk: sand at height `y` above the base, below the top two layers.
pub open spec fn trunk(l: Seq<Seq<Seq<Seq<BlockIdOrPointer>>>>, pos: GlobalBlockPos, height: int, y: int) -> Seq<
    Seq<Seq<Seq<BlockIdOrPointer>>>,
> {
    if y < height - 2 {
        layers_write(l, offset(pos, 0, y, 0), spec_blockid(BlockType::Sand))
    } else {
        l
    }
}

/// The layer `y` of a tree of `height`: its trunk, then from height 4 on a
/// square of leaves of radius `height - y - 1` around the trunk.
pub open spec fn tree_row(l: Seq<Seq<Seq<Seq<BlockIdOrPointer>>>>, pos: GlobalBlockPos, height: int, y: int) -> Seq<
    Seq<Seq<Seq<BlockIdOrPointer>>>,
> {
    if y >= 4 {
        leaf_plane(trunk(l, pos, height, y), pos, y, height - y - 1, 2 * (height - y - 1) + 1)
    } else {
        trunk(l, pos, height, y)
    }
}

/// Each step of [`tree_row`] is in order.
pub open spec fn tree_row_ok(
    m: MetaChunkPos,
    l: Seq<Seq<Seq<Seq<BlockIdOrPointer>>>>,
    pos: GlobalBlockPos,
    height: int,
    y: int,
) -> bool {
    &&& y < height - 2 ==> layers_writable(l, offset(pos, 0, y, 0))
    &&& y >= 4 ==> leaf_plane_ok(
        m,
        trunk(l, pos, height, y),
        pos,
        y,
        height - y - 1,
        2 * (height - y - 1) + 1,
    )
}

/// The layers `0..n` of a tree of `height` at `pos`.
pub open spec fn tree_rows(l: Seq<Seq<Seq<Seq<BlockIdOrPointer>>>>, pos: GlobalBlockPos, height: int, n: int) -> Seq<
    Seq<Seq<Seq<BlockIdOrPointer>>>,
>
    decreases n,
{
    if n <= 0 {
        l
    } else {
        tree_row(tree_rows(l, pos, height, n - 1), pos, height, n - 1)
    }
}

/// Each step of [`tree_rows`] is in order.
pub open spec fn tree_rows_ok(
    m: MetaChunkPos,
    l: Seq<Seq<Seq<Seq<BlockIdOrPointer>>>>,
    pos: GlobalBlockPos,
    height: int,
    n: int,
) -> bool
    decreases n,
{
    n <= 0 || (tree_rows_ok(m, l, pos, height, n - 1) && tree_row_ok(
        m,
        tree_rows(l, pos, height, n - 1),
        pos,
        height,
        n - 1,
    ))
}

/// The positions a tree of `height` at `pos` touches are `i32` values.
pub open spec fn tree_fits(pos: GlobalBlockPos, height: int) -> bool {
    &&& fits_i32(pos.x - (height - 5)) && fits_i32(pos.x + (height - 5))
    &&& fits_i32(pos.z - (height - 5)) && fits_i32(pos.z + (height - 5))
    &&& fits_i32(pos.y + height - 1)
}

proof fn lemma_leaf_column_ok_prefix(
    m: MetaChunkPos,
    l: Seq<Seq<Seq<Seq<BlockIdOrPointer>>>>,
    pos: GlobalBlockPos,
    y: int,
    x: int,
    r: int,
    k: int,
    n: int,
)
    requires
        0 <= k <= n,
        leaf_column_ok(m, l, pos, y, x, r, n),
    ensures
        leaf_column_ok(m, l, pos, y, x, r, k),
    decreases n - k,
{
    if k < n {
        lemma_leaf_column_ok_prefix(m, l, pos, y, x, r, k, n - 1);
    }
}

proof fn lemma_leaf_plane_ok_prefix(
    m: MetaChunkPos,
    l: Seq<Seq<Seq<Seq<BlockIdOrPointer>>>>,
    pos: GlobalBlockPos,
    y: int,
    r: int,
    k: int,
    n: int,
)
    requires
        0 <= k <= n,
        leaf_plane_ok(m, l, pos, y, r, n),
    ensures
        leaf_plane_ok(m, l, pos, y, r, k),
    decreases n - k,
{
    if k < n {
        lemma_leaf_plane_ok_prefix(m, l, pos, y, r, k, n - 1);
    }
}

proof fn lemma_tree_rows_ok_prefix(
    m: MetaChunkPos,
    l: Seq<Seq<Seq<Seq<BlockIdOrPointer>>>>,
    pos: GlobalBlockPos,
    height: int,
    k: int,
    n: int,
)
    requires
        0 <= k <= n,
        tree_rows_ok(m, l, pos, height, n),
    ensures
        tree_rows_ok(m, l, pos, height, k),
    decreases n - k,
{
    if k < n {
        lemma_tree_rows_ok_prefix(m, l, pos, height, k, n - 1);
    }
}

/// Puts a leaf on every air block of the column `x` of layer `y` of the
/// crown of radius `r` around the trunk at `pos`.
fn place_leaf_column(pos: &GlobalBlockPos, y: i32, x: i32, r: i32, height: i32, world: &mut MetaChunk)
    requires
        old(world).inv(),
        tree_fits(*pos, height as int),
        0 <= y < height,
        r == height - y - 1,
        -r <= x <= r,
        r <= height - 5,
        leaf_column_ok(old(world).spec_pos(), old(world).layers(), *pos, y as int, x as int, r as int, 2 * r + 1),
    ensures
        final(world).inv(),
        final(world).spec_pos() == old(world).spec_pos(),
        final(world).spec_seed() == old(world).spec_seed(),
        final(world).layers() == leaf_column(old(world).layers(), *pos, y as int, x as int, r as int, 2 * r + 1),
{
    let ghost l0 = world.layers();
    let ghost mp = world.spec_pos();
    let air = get_blockid(BlockType::Air);
    let leaf = get_blockid(BlockType::Leaf);
    let mut z: i32 = -r;
    while z < height - y
        invariant
            world.inv(),
            world.spec_pos() == mp,
            mp == old(world).spec_pos(),
            world.spec_seed() == old(world).spec_seed(),
            l0 == old(world).layers(),
            leaf == spec_blockid(BlockType::Leaf),
            tree_fits(*pos, height as int),
            0 <= y < height,
            r == height - y - 1,
            -r <= x <= r,
            r <= height - 5,
            -r <= z <= r + 1,
            leaf_column_ok(mp, l0, *pos, y as int, x as int, r as int, 2 * r + 1),
            world.layers() == leaf_column(l0, *pos, y as int, x as int, r as int, z + r),
        decreases height - y - z,
    {
        let p = pos.get_diff(x, y, z);
        proof {
            lemma_leaf_column_ok_prefix(mp, l0, *pos, y as int, x as int, r as int, z + r + 1, 2 * r + 1);
            assert(p == offset(*pos, x as int, y as int, z as int));
            world.lemma_layers(p);
        }
        let current_block = world.get_block(&p);
        if get_blocktype(current_block) == BlockType::Air {
            world.set_block(&p, leaf);
        }
        z = z + 1;
    }
}

/// Puts the leaves of layer `y` of the crown of radius `r` around the trunk
/// at `pos`, column by column along x.
fn place_leaf_plane(pos: &GlobalBlockPos, y: i32, r: i32, height: i32, world: &mut MetaChunk)
    requires
        old(world).inv(),
        tree_fits(*pos, height as int),
        0 <= y < height,
        r == height - y - 1,
        0 <= r <= height - 5,
        leaf_plane_ok(old(world).spec_pos(), old(world).layers(), *pos, y as int, r as int, 2 * r + 1),
    ensures
        final(world).inv(),
        final(world).spec_pos() == old(world).spec_pos(),
        final(world).spec_seed() == old(world).spec_seed(),
        final(world).layers() == leaf_plane(old(world).layers(), *pos, y as int, r as int, 2 * r + 1),
{
    let ghost l0 = world.layers();
    let ghost mp = world.spec_pos();
    let mut x: i32 = -r;
    while x < height - y
        invariant
            world.inv(),
            world.spec_pos() == mp,
            mp == old(world).spec_pos(),
            world.spec_seed() == old(world).spec_seed(),
            l0 == old(world).layers(),
            tree_fits(*pos, height as int),
            0 <= y < height,
            r == height - y - 1,
            0 <= r <= height - 5,
            -r <= x <= r + 1,
            leaf_plane_ok(mp, l0, *pos, y as int, r as int, 2 * r + 1),
            world.layers() == leaf_plane(l0, *pos, y as int, r as int, x + r),
        decreases height - y - x,
    {
        proof {
            lemma_leaf_plane_ok_prefix(mp, l0, *pos, y as int, r as int, x + r + 1, 2 * r + 1);
        }
        place_leaf_column(pos, y, x, r, height, world);
        x = x + 1;
    }
}

/// Grows a tree of `height` blocks at `pos`: a trunk of sand up to two
/// blocks below the top, and from height 4 up a square of leaves around it
/// whose radius shrinks by one each layer; leaves only replace air.
pub fn place_tree_of_height(pos: &GlobalBlockPos, height: i32, world: &mut MetaChunk)
    requires
        old(world).inv(),
        8 <= height < 12,
        tree_fits(*pos, height as int),
        tree_rows_ok(old(world).spec_pos(), old(world).layers(), *pos, height as int, height as int),
    ensures
        final(world).inv(),
        final(world).spec_pos() == old(world).spec_pos(),
        final(world).spec_seed() == old(world).spec_seed(),
        final(world).layers() == tree_rows(old(world).layers(), *pos, height as int, height as int),
{
    let ghost l0 = world.layers();
    let ghost mp = world.spec_pos();
    let sand = get_blockid(BlockType::Sand);
    let mut y: i32 = 0;
    while y < height
        invariant
            world.inv(),
            world.spec_pos() == mp,
            mp == old(world).spec_pos(),
            world.spec_seed() == old(world).spec_seed(),
            l0 == old(world).layers(),
            sand == spec_blockid(BlockType::Sand),
            8 <= height < 12,
            0 <= y <= height,
            tree_fits(*pos, height as int),
            tree_rows_ok(mp, l0, *pos, height as int, height as int),
            world.layers() == tree_rows(l0, *pos, height as int, y as int),
        decreases height - y,
    {
        let ghost lr = world.layers();
        proof {
            lemma_tree_rows_ok_prefix(mp, l0, *pos, height as int, y + 1, height as int);
        }
        if y < height - 2 {
            let p = pos.get_diff(0, y, 0);
            proof {
                assert(p == offset(*pos, 0, y as int, 0));
                world.lemma_layers(p);
            }
            world.set_block(&p, sand);
        }
        assert(world.layers() == trunk(lr, *pos, height as int, y as int));
        if y >= 4 {
            place_leaf_plane(pos, y, height - y - 1, height, world);
        }
        y = y + 1;
    }
}

/// A tree height drawn uniformly from 8 to 11 with the thread's random
/// number generator.
pub fn random_tree_height() -> (height: i32)
    ensures
        8 <= height < 12,
{
    let mut rng = new_thread_rng();
    sample_uniform(&mut rng, 8, 12)
}

/// Grows a tree at `pos` whose height is drawn uniformly from 8 to 11.
pub fn place_tree(pos: &GlobalBlockPos, world: &mut MetaChunk)
    requires
        old(world).inv(),
        forall|h: int|
            8 <= h < 12 ==> tree_fits(*pos, h) && #[trigger] tree_rows_ok(
                old(world).spec_pos(),
                old(world).layers(),
                *pos,
                h,
                h,
            ),
    ensures
        final(world).inv(),
        final(world).spec_pos() == old(world).spec_pos(),
        final(world).spec_seed() == old(world).spec_seed(),
        exists|h: int|
            8 <= h < 12 && final(world).layers() == #[trigger] tree_rows(old(world).layers(), *pos, h, h),
{
    let height = random_tree_height();
    assert(tree_rows_ok(world.spec_pos(), world.layers(), *pos, height as int, height as int));
    place_tree_of_height(pos, height, world);
}

} // verus!
