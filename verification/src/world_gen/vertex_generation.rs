use vstd::prelude::*;
use crate::blocks::block::{get_blocktype, should_render_against, spec_blocktype, spec_should_render_against, BlockId, BlockType};
use crate::blocks::block_mesh::{
    drawn_faces, face_direction, lemma_drawn_faces_contains, FaceNormal, get_mesh, index_list_to_vec, index_slots, lemma_mesh_bounds, spec_mesh, vertex_list_to_vec, vertex_slots,
    BlockVertex,
};
use crate::blocks::blockside::BlockSides;
use crate::constants::{CHUNKSIZE, METACHUNKSIZE};
use crate::positions::{fits_i32, offset, ChunkPos, GlobalBlockPos, LocalBlockPos, MetaChunkPos};
use crate::world_gen::meta_chunk::MetaChunk;
use crate::world::small_world::{block_at, chunk_at, chunk_of, SmallWorld};
use crate::world_gen::meta_chunk::block_local_pos;
use arrayvec::ArrayVec;

verus! {

/// Whether a face of a block of kind `reference` is drawn where it touches
/// the block at `pos`: always above the top and below the bottom of the
/// world and where nothing is loaded; else as the two kinds decide.
pub open spec fn spec_render_against(
    s: Seq<(MetaChunkPos, MetaChunk)>,
    pos: GlobalBlockPos,
    reference: BlockId,
) -> bool {
    if pos.y == (METACHUNKSIZE * CHUNKSIZE) as int || pos.y < 0 {
        true
    } else {
        match block_at(s, pos) {
            None => true,
            Some(b) => spec_should_render_against(reference, b),
        }
    }
}

/// Whether the face of a block of kind `reference_block` that touches the
/// block at `pos` is drawn.
pub fn should_render_against_block(world: &SmallWorld, pos: &GlobalBlockPos, reference_block: BlockId) -> (r: bool)
    requires
        world.inv(),
        0 <= pos.y && pos.y != METACHUNKSIZE * CHUNKSIZE ==> world.readable_at(*pos),
    ensures
        r == spec_render_against(world.entries(), *pos, reference_block),
{
    if pos.y == (METACHUNKSIZE * CHUNKSIZE) as i32 || pos.y < 0 {
        return true;
    }
    return match world.get_block(pos) {
        None => true,
        Some(b) => should_render_against(reference_block, b),
    };
}

/// The block at `pos` and its six face neighbours can be read and the
/// neighbours' coordinates are `i32` values.
pub open spec fn neighbours_readable(world: &SmallWorld, pos: GlobalBlockPos) -> bool {
    &&& fits_i32(pos.x - 1) && fits_i32(pos.x + 1)
    &&& fits_i32(pos.y - 1) && fits_i32(pos.y + 1)
    &&& fits_i32(pos.z - 1) && fits_i32(pos.z + 1)
    &&& world.readable_at(pos)
    &&& world.readable_at(offset(pos, 1, 0, 0))
    &&& world.readable_at(offset(pos, -1, 0, 0))
    &&& world.readable_at(offset(pos, 0, 1, 0))
    &&& world.readable_at(offset(pos, 0, -1, 0))
    &&& world.readable_at(offset(pos, 0, 0, 1))
    &&& world.readable_at(offset(pos, 0, 0, -1))
}

/// The faces of a block of kind `reference` at `pos` that are drawn.
pub open spec fn spec_sides(s: Seq<(MetaChunkPos, MetaChunk)>, pos: GlobalBlockPos, reference: BlockId) -> BlockSides {
    BlockSides {
        right: spec_render_against(s, offset(pos, 1, 0, 0), reference),
        left: spec_render_against(s, offset(pos, -1, 0, 0), reference),
        top: spec_render_against(s, offset(pos, 0, 1, 0), reference),
        bot: spec_render_against(s, offset(pos, 0, -1, 0), reference),
        back: spec_render_against(s, offset(pos, 0, 0, 1), reference),
        front: spec_render_against(s, offset(pos, 0, 0, -1), reference),
    }
}

/// A face of a block is drawn exactly when the neighbour it touches lets it
/// be drawn: the neighbour one step in the direction the face looks, on the
/// side of the block where the face's corners lie.
pub proof fn law_face_drawn_against_its_neighbour(
    s: Seq<(MetaChunkPos, MetaChunk)>,
    pos: GlobalBlockPos,
    reference: BlockId,
    normal: FaceNormal,
)
    ensures
        drawn_faces(spec_sides(s, pos, reference)).contains(normal) == spec_render_against(
            s,
            offset(pos, face_direction(normal).0, face_direction(normal).1, face_direction(normal).2),
            reference,
        ),
{
    lemma_drawn_faces_contains(spec_sides(s, pos, reference), normal);
}

/// The faces of the block at `global_pos`, whose chunk is loaded, that are
/// drawn against their neighbours.
pub fn sides_to_render(world: &SmallWorld, global_pos: &GlobalBlockPos) -> (sides: BlockSides)
    requires
        world.inv(),
        neighbours_readable(world, *global_pos),
        block_at(world.entries(), *global_pos) is Some,
    ensures
        sides == spec_sides(world.entries(), *global_pos, block_at(world.entries(), *global_pos)->0),
{
    let mut sides = BlockSides::new();
    let reference_block = match world.get_block(global_pos) {
        Some(b) => b,
        None => 0,
    };
    if should_render_against_block(world, &global_pos.get_diff(1, 0, 0), reference_block) {
        sides.right = true;
    }
    if should_render_against_block(world, &global_pos.get_diff(-1, 0, 0), reference_block) {
        sides.left = true;
    }
    if should_render_against_block(world, &global_pos.get_diff(0, 1, 0), reference_block) {
        sides.top = true;
    }
    if should_render_against_block(world, &global_pos.get_diff(0, -1, 0), reference_block) {
        sides.bot = true;
    }
    if should_render_against_block(world, &global_pos.get_diff(0, 0, 1), reference_block) {
        sides.back = true;
    }
    if should_render_against_block(world, &global_pos.get_diff(0, 0, -1), reference_block) {
        sides.front = true;
    }
    return sides;
}

/// The indices with `d` added to each.
pub open spec fn shifted(s: Seq<u32>, d: int) -> Seq<u32> {
    s.map_values(|i: u32| (i + d) as u32)
}

/// Block `k` of the chunk at `cp`, counting along z first, then y, then x.
pub open spec fn chunk_block_pos(cp: ChunkPos, k: int) -> GlobalBlockPos {
    GlobalBlockPos {
        x: (cp.x * 16 + k / 256) as i32,
        y: (cp.y * 16 + (k / 16) % 16) as i32,
        z: (cp.z * 16 + k % 16) as i32,
    }
}

/// The corners and triangles of block `k` of the chunk at `cp`.
#[verifier::opaque]
pub open spec fn block_mesh_at(s: Seq<(MetaChunkPos, MetaChunk)>, cp: ChunkPos, k: int) -> (
    Seq<BlockVertex>,
    Seq<u32>,
) {
    let p = chunk_block_pos(cp, k);
    let b = block_at(s, p)->0;
    spec_mesh(b, p, spec_sides(s, p, b))
}

/// Block `k` of the chunk at `cp` is water.
#[verifier::opaque]
pub open spec fn water_at(s: Seq<(MetaChunkPos, MetaChunk)>, cp: ChunkPos, k: int) -> bool {
    spec_blocktype(block_at(s, chunk_block_pos(cp, k))->0) == BlockType::Water
}

/// The corners of the first `n` blocks of the chunk at `cp` that are water
/// (or that are not, as `water` says), block after block.
#[verifier::opaque]
pub open spec fn layer_vertices(s: Seq<(MetaChunkPos, MetaChunk)>, cp: ChunkPos, n: int, water: bool) -> Seq<
    BlockVertex,
>
    decreases n,
{
    if n <= 0 {
        Seq::empty()
    } else {
        layer_vertices(s, cp, n - 1, water) + if water_at(s, cp, n - 1) == water {
            block_mesh_at(s, cp, n - 1).0
        } else {
            Seq::empty()
        }
    }
}

/// The triangles of the same blocks, each block's indices counted from the
/// number of corners before it.
#[verifier::opaque]
pub open spec fn layer_indices(s: Seq<(MetaChunkPos, MetaChunk)>, cp: ChunkPos, n: int, water: bool) -> Seq<u32>
    decreases n,
{
    if n <= 0 {
        Seq::empty()
    } else {
        layer_indices(s, cp, n - 1, water) + if water_at(s, cp, n - 1) == water {
            shifted(block_mesh_at(s, cp, n - 1).1, layer_vertices(s, cp, n - 1, water).len() as int)
        } else {
            Seq::empty()
        }
    }
}

/// The mesh of the chunk at `cp`: the corners of its blocks that are not
/// water, then those of its water; the triangles likewise, the water's
/// indices counted after all other corners. A chunk that is not loaded has none.
pub open spec fn chunk_mesh(s: Seq<(MetaChunkPos, MetaChunk)>, cp: ChunkPos) -> (Seq<BlockVertex>, Seq<u32>) {
    if chunk_at(s, cp) is None {
        (Seq::empty(), Seq::empty())
    } else {
        let n = 4096;
        (
            layer_vertices(s, cp, n, false) + layer_vertices(s, cp, n, true),
            layer_indices(s, cp, n, false) + shifted(
                layer_indices(s, cp, n, true),
                layer_vertices(s, cp, n, false).len() as int,
            ),
        )
    }
}

/// The blocks of the chunk at `cp` and one block around it have `i32`
/// coordinates and can be read.
pub open spec fn chunk_box_ok(world: &SmallWorld, cp: ChunkPos) -> bool {
    &&& fits_i32(cp.x * 16 - 1) && fits_i32(cp.x * 16 + 16)
    &&& fits_i32(cp.y * 16 - 1) && fits_i32(cp.y * 16 + 16)
    &&& fits_i32(cp.z * 16 - 1) && fits_i32(cp.z * 16 + 16)
    &&& forall|p: GlobalBlockPos|
        cp.x * 16 - 1 <= p.x <= cp.x * 16 + 16 && cp.y * 16 - 1 <= p.y <= cp.y * 16 + 16 && cp.z * 16 - 1 <= p.z
            <= cp.z * 16 + 16 ==> #[trigger] world.readable_at(p)
}

/// A coordinate `c * 16 + x` with `x` below 16 lies in the chunk `c`, at `x`.
proof fn lemma_in_chunk(c: int, x: int)
    requires
        0 <= x < 16,
    ensures
        (c * 16 + x) / 16 == c,
        (c * 16 + x) % 16 == x,
{
    vstd::arithmetic::div_mod::lemma_fundamental_div_mod_converse(c * 16 + x, 16, c, x);
}

/// Appends a block's corners, and its triangles with their indices counted
/// from the number of corners already held.
fn append_mesh(
    vertices: &mut Vec<BlockVertex>,
    indices: &mut Vec<u32>,
    mesh_vertices: &ArrayVec<BlockVertex, 24>,
    mesh_indices: &ArrayVec<u32, 36>,
)
    requires
        old(vertices)@.len() + vertex_slots(*mesh_vertices).len() <= u32::MAX,
        forall|j: int|
            0 <= j < index_slots(*mesh_indices).len() ==> #[trigger] index_slots(*mesh_indices)[j] < vertex_slots(
                *mesh_vertices,
            ).len(),
    ensures
        final(vertices)@ == old(vertices)@ + vertex_slots(*mesh_vertices),
        final(indices)@ == old(indices)@ + shifted(index_slots(*mesh_indices), old(vertices)@.len() as int),
{
    let base = vertices.len() as u32;
    let ghost v0 = vertices@;
    let ghost i0 = indices@;
    let tv = vertex_list_to_vec(mesh_vertices);
    let ti = index_list_to_vec(mesh_indices);
    let mut k: usize = 0;
    while k < ti.len()
        invariant
            k <= ti@.len(),
            ti@ == index_slots(*mesh_indices),
            base == v0.len(),
            v0.len() + vertex_slots(*mesh_vertices).len() <= u32::MAX,
            forall|j: int| 0 <= j < ti@.len() ==> #[trigger] ti@[j] < vertex_slots(*mesh_vertices).len(),
            indices@ == i0 + shifted(ti@, base as int).take(k as int),
        decreases ti@.len() - k,
    {
        let i = ti[k] + base;
        proof {
            assert(shifted(ti@, base as int).take(k + 1) == shifted(ti@, base as int).take(k as int).push(i));
        }
        indices.push(i);
        k = k + 1;
    }
    let mut k: usize = 0;
    while k < tv.len()
        invariant
            k <= tv@.len(),
            tv@ == vertex_slots(*mesh_vertices),
            vertices@ == v0 + tv@.take(k as int),
        decreases tv@.len() - k,
    {
        proof {
            assert(tv@.take(k + 1) == tv@.take(k as int).push(tv@[k as int]));
        }
        vertices.push(tv[k]);
        k = k + 1;
    }
    proof {
        assert(tv@.take(tv@.len() as int) == tv@);
        assert(shifted(ti@, base as int).take(ti@.len() as int) == shifted(ti@, base as int));
    }
}

/// What a layer of the mesh holds after the first `k` blocks: at most 24
/// corners a block, and every index names one of its corners.
pub open spec fn layer_ok(vertices: Seq<BlockVertex>, indices: Seq<u32>, k: int) -> bool {
    &&& vertices.len() <= 24 * k
    &&& forall|j: int| 0 <= j < indices.len() ==> #[trigger] indices[j] < vertices.len()
}

/// One step of a layer: block `k` adds its mesh to the layer it belongs to.
proof fn lemma_layer_step(s: Seq<(MetaChunkPos, MetaChunk)>, cp: ChunkPos, k: int, water: bool)
    requires
        0 <= k,
    ensures
        layer_vertices(s, cp, k + 1, water) == layer_vertices(s, cp, k, water) + if water_at(s, cp, k) == water {
            block_mesh_at(s, cp, k).0
        } else {
            Seq::empty()
        },
        layer_indices(s, cp, k + 1, water) == layer_indices(s, cp, k, water) + if water_at(s, cp, k) == water {
            shifted(block_mesh_at(s, cp, k).1, layer_vertices(s, cp, k, water).len() as int)
        } else {
            Seq::empty()
        },
{
    reveal(layer_vertices);
    reveal(layer_indices);
}

/// The state of the mesh of the chunk at `cp` after its first `k` blocks.
pub open spec fn mesh_progress(
    s: Seq<(MetaChunkPos, MetaChunk)>,
    cp: ChunkPos,
    k: int,
    opaque_vertices: Seq<BlockVertex>,
    opaque_indices: Seq<u32>,
    transparant_vertices: Seq<BlockVertex>,
    transparant_indices: Seq<u32>,
) -> bool {
    &&& opaque_vertices == layer_vertices(s, cp, k, false)
    &&& opaque_indices == layer_indices(s, cp, k, false)
    &&& transparant_vertices == layer_vertices(s, cp, k, true)
    &&& transparant_indices == layer_indices(s, cp, k, true)
    &&& layer_ok(opaque_vertices, opaque_indices, k)
    &&& layer_ok(transparant_vertices, transparant_indices, k)
}

/// A block without corners leaves both layers as they are.
proof fn lemma_progress_skip(
    s: Seq<(MetaChunkPos, MetaChunk)>,
    cp: ChunkPos,
    k: int,
    ov: Seq<BlockVertex>,
    oi: Seq<u32>,
    tv: Seq<BlockVertex>,
    ti: Seq<u32>,
)
    requires
        0 <= k,
        mesh_progress(s, cp, k, ov, oi, tv, ti),
        block_mesh_at(s, cp, k).0 == Seq::<BlockVertex>::empty(),
        block_mesh_at(s, cp, k).1 == Seq::<u32>::empty(),
    ensures
        mesh_progress(s, cp, k + 1, ov, oi, tv, ti),
{
    lemma_layer_step(s, cp, k, false);
    lemma_layer_step(s, cp, k, true);
    assert(shifted(Seq::<u32>::empty(), ov.len() as int) == Seq::<u32>::empty());
    assert(shifted(Seq::<u32>::empty(), tv.len() as int) == Seq::<u32>::empty());
    assert(ov + Seq::<BlockVertex>::empty() == ov);
    assert(tv + Seq::<BlockVertex>::empty() == tv);
    assert(oi + Seq::<u32>::empty() == oi);
    assert(ti + Seq::<u32>::empty() == ti);
}

/// Appending the mesh of block `k` to its layer, with its indices counted
/// from the corners already there, keeps the layers as [`layer_vertices`] and [`layer_indices`] build them.
proof fn lemma_progress_append(
    s: Seq<(MetaChunkPos, MetaChunk)>,
    cp: ChunkPos,
    k: int,
    ov: Seq<BlockVertex>,
    oi: Seq<u32>,
    tv: Seq<BlockVertex>,
    ti: Seq<u32>,
    water: bool,
    v2: Seq<BlockVertex>,
    i2: Seq<u32>,
)
    requires
        0 <= k < 4096,
        mesh_progress(s, cp, k, ov, oi, tv, ti),
        water_at(s, cp, k) == water,
        block_mesh_at(s, cp, k).0.len() <= 24,
        forall|j: int|
            0 <= j < block_mesh_at(s, cp, k).1.len() ==> #[trigger] block_mesh_at(s, cp, k).1[j]
                < block_mesh_at(s, cp, k).0.len(),
        water ==> v2 == tv + block_mesh_at(s, cp, k).0,
        water ==> i2 == ti + shifted(block_mesh_at(s, cp, k).1, tv.len() as int),
        !water ==> v2 == ov + block_mesh_at(s, cp, k).0,
        !water ==> i2 == oi + shifted(block_mesh_at(s, cp, k).1, ov.len() as int),
    ensures
        water ==> mesh_progress(s, cp, k + 1, ov, oi, v2, i2),
        !water ==> mesh_progress(s, cp, k + 1, v2, i2, tv, ti),
{
    lemma_layer_step(s, cp, k, false);
    lemma_layer_step(s, cp, k, true);
    let m = block_mesh_at(s, cp, k);
    assert(ov + Seq::<BlockVertex>::empty() == ov);
    assert(tv + Seq::<BlockVertex>::empty() == tv);
    assert(oi + Seq::<u32>::empty() == oi);
    assert(ti + Seq::<u32>::empty() == ti);
    let (lv, li) = if water { (tv, ti) } else { (ov, oi) };
    assert forall|j: int| 0 <= j < i2.len() implies #[trigger] i2[j] < v2.len() by {
        if j >= li.len() {
            let jj = j - li.len();
            assert(i2[j] == shifted(m.1, lv.len() as int)[jj]);
            assert(m.1[jj] < m.0.len());
            assert(lv.len() <= 24 * k);
        } else {
            assert(i2[j] == li[j]);
        }
    }
}

/// Each layer of the first `n` blocks holds at most 24 corners a block, and
/// its triangles index only its own corners.
proof fn lemma_layer_ok(s: Seq<(MetaChunkPos, MetaChunk)>, cp: ChunkPos, n: int, water: bool)
    requires
        0 <= n <= 4096,
    ensures
        layer_ok(layer_vertices(s, cp, n, water), layer_indices(s, cp, n, water), n),
    decreases n,
{
    if n == 0 {
        reveal(layer_vertices);
        reveal(layer_indices);
    } else {
        let k = n - 1;
        lemma_layer_ok(s, cp, k, water);
        lemma_layer_step(s, cp, k, water);
        let p = chunk_block_pos(cp, k);
        let b = block_at(s, p)->0;
        assert(block_mesh_at(s, cp, k) == spec_mesh(b, p, spec_sides(s, p, b))) by {
            reveal(block_mesh_at);
        }
        lemma_mesh_bounds(b, p, spec_sides(s, p, b));
        let lv = layer_vertices(s, cp, k, water);
        let li = layer_indices(s, cp, k, water);
        let v2 = layer_vertices(s, cp, n, water);
        let i2 = layer_indices(s, cp, n, water);
        let m = block_mesh_at(s, cp, k);
        if water_at(s, cp, k) == water {
            assert forall|j: int| 0 <= j < i2.len() implies #[trigger] i2[j] < v2.len() by {
                if j >= li.len() {
                    let jj = j - li.len();
                    assert(i2[j] == shifted(m.1, lv.len() as int)[jj]);
                    assert(m.1[jj] < m.0.len());
                } else {
                    assert(i2[j] == li[j]);
                }
            }
        } else {
            assert(v2 == lv);
            assert(i2 == li);
        }
    }
}

/// The triangles of a chunk's mesh index only its own corners.
pub proof fn lemma_chunk_mesh_indices(s: Seq<(MetaChunkPos, MetaChunk)>, cp: ChunkPos)
    ensures
        forall|j: int|
            0 <= j < chunk_mesh(s, cp).1.len() ==> #[trigger] chunk_mesh(s, cp).1[j] < chunk_mesh(s, cp).0.len(),
{
    if chunk_at(s, cp) is Some {
        lemma_layer_ok(s, cp, 4096, false);
        lemma_layer_ok(s, cp, 4096, true);
        let ov = layer_vertices(s, cp, 4096, false);
        let oi = layer_indices(s, cp, 4096, false);
        let tv = layer_vertices(s, cp, 4096, true);
        let ti = layer_indices(s, cp, 4096, true);
        let mi = chunk_mesh(s, cp).1;
        assert forall|j: int| 0 <= j < mi.len() implies #[trigger] mi[j] < chunk_mesh(s, cp).0.len() by {
            if j >= oi.len() {
                let jj = j - oi.len();
                assert(mi[j] == shifted(ti, ov.len() as int)[jj]);
                assert(ti[jj] < tv.len());
            } else {
                assert(mi[j] == oi[j]);
            }
        }
    }
}

/// Adds the mesh of block `k` of the chunk at `chunk_pos` to the layer it
/// belongs to: water to the transparent one, the rest to the opaque one.
fn add_block_mesh(
    world: &SmallWorld,
    chunk: &crate::world_gen::meta_chunk::MetaChunkChunk,
    chunk_pos: &ChunkPos,
    k: u32,
    opaque_vertices: &mut Vec<BlockVertex>,
    opaque_indices: &mut Vec<u32>,
    transparant_vertices: &mut Vec<BlockVertex>,
    transparant_indices: &mut Vec<u32>,
)
    requires
        world.inv(),
        chunk_at(world.entries(), *chunk_pos) == Some(*chunk),
        chunk_box_ok(world, *chunk_pos),
        k < 4096,
        mesh_progress(
            world.entries(),
            *chunk_pos,
            k as int,
            old(opaque_vertices)@,
            old(opaque_indices)@,
            old(transparant_vertices)@,
            old(transparant_indices)@,
        ),
    ensures
        mesh_progress(
            world.entries(),
            *chunk_pos,
            k + 1,
            final(opaque_vertices)@,
            final(opaque_indices)@,
            final(transparant_vertices)@,
            final(transparant_indices)@,
        ),
{
    let ghost s = world.entries();
    let ghost cp = *chunk_pos;
    let size = CHUNKSIZE as i32;
    let x = (k / 256) as i32;
    let y = ((k / 16) % 16) as i32;
    let z = (k % 16) as i32;
    let global_pos = GlobalBlockPos {
        x: x + (chunk_pos.x * size),
        y: y + (chunk_pos.y * size),
        z: z + (chunk_pos.z * size),
    };
    let ghost g = global_pos;
    proof {
        lemma_in_chunk(cp.x as int, x as int);
        lemma_in_chunk(cp.y as int, y as int);
        lemma_in_chunk(cp.z as int, z as int);
        assert(g == chunk_block_pos(cp, k as int));
        assert(chunk_of(g) == cp);
        assert(block_local_pos(g) == LocalBlockPos { x, y, z });
        assert(world.readable_at(g));
        assert(world.readable_at(offset(g, 1, 0, 0)));
        assert(world.readable_at(offset(g, -1, 0, 0)));
        assert(world.readable_at(offset(g, 0, 1, 0)));
        assert(world.readable_at(offset(g, 0, -1, 0)));
        assert(world.readable_at(offset(g, 0, 0, 1)));
        assert(world.readable_at(offset(g, 0, 0, -1)));
    }
    let block = chunk.get_block(&LocalBlockPos { x, y, z });
    let ghost mesh = block_mesh_at(s, cp, k as int);
    proof {
        assert(block_at(s, g) == Some(block));
        assert(mesh == spec_mesh(block, g, spec_sides(s, g, block))) by {
            reveal(block_mesh_at);
        }
        assert(water_at(s, cp, k as int) == (spec_blocktype(block) == BlockType::Water)) by {
            reveal(water_at);
        }
        lemma_mesh_bounds(block, g, spec_sides(s, g, block));
    }
    if get_blocktype(block) == BlockType::Air {
        proof {
            lemma_progress_skip(
                s,
                cp,
                k as int,
                opaque_vertices@,
                opaque_indices@,
                transparant_vertices@,
                transparant_indices@,
            );
        }
        return;
    }
    let mut sides = sides_to_render(world, &global_pos);
    if sides.is_all(false) {
        proof {
            assert(crate::blocks::block_mesh::drawn_faces(sides) == Seq::<
                crate::blocks::block_mesh::FaceNormal,
            >::empty());
            lemma_progress_skip(
                s,
                cp,
                k as int,
                opaque_vertices@,
                opaque_indices@,
                transparant_vertices@,
                transparant_indices@,
            );
        }
        return;
    }
    let (temp_vertices, temp_indices) = get_mesh(block, &global_pos, &sides);
    let ghost ov = opaque_vertices@;
    let ghost oi = opaque_indices@;
    let ghost tv = transparant_vertices@;
    let ghost ti = transparant_indices@;
    if get_blocktype(block) == BlockType::Water {
        append_mesh(transparant_vertices, transparant_indices, &temp_vertices, &temp_indices);
        proof {
            lemma_progress_append(
                s,
                cp,
                k as int,
                ov,
                oi,
                tv,
                ti,
                true,
                transparant_vertices@,
                transparant_indices@,
            );
        }
    } else {
        append_mesh(opaque_vertices, opaque_indices, &temp_vertices, &temp_indices);
        proof {
            lemma_progress_append(
                s,
                cp,
                k as int,
                ov,
                oi,
                tv,
                ti,
                false,
                opaque_vertices@,
                opaque_indices@,
            );
        }
    }
}

/// The corners and triangles that draw the chunk at `chunk_pos`: first those
/// of its blocks that are not water, then those of its water, each block
/// with the faces that are drawn against its neighbours. A chunk that is not
/// loaded has none.
pub fn get_chunk_vertices(world: &SmallWorld, chunk_pos: &ChunkPos) -> (r: (Vec<BlockVertex>, Vec<u32>))
    requires
        world.inv(),
        chunk_at(world.entries(), *chunk_pos) is Some ==> chunk_box_ok(world, *chunk_pos),
    ensures
        r.0@ == chunk_mesh(world.entries(), *chunk_pos).0,
        r.1@ == chunk_mesh(world.entries(), *chunk_pos).1,
{
    let ghost s = world.entries();
    let ghost cp = *chunk_pos;
    return match world.get_chunk(chunk_pos) {
        None => (Vec::new(), Vec::new()),
        Some(chunk) => {
            let mut transparant_vertices: Vec<BlockVertex> = Vec::new();
            let mut transparant_indices: Vec<u32> = Vec::new();
            let mut opaque_vertices: Vec<BlockVertex> = Vec::new();
            let mut opaque_indices: Vec<u32> = Vec::new();
            let mut k: u32 = 0;
            proof {
                reveal(layer_vertices);
                reveal(layer_indices);
            }
            while k < 4096
                invariant
                    world.inv(),
                    s == world.entries(),
                    cp == *chunk_pos,
                    chunk_at(s, cp) == Some(*chunk),
                    chunk_box_ok(world, cp),
                    k <= 4096,
                    mesh_progress(
                        s,
                        cp,
                        k as int,
                        opaque_vertices@,
                        opaque_indices@,
                        transparant_vertices@,
                        transparant_indices@,
                    ),
                decreases 4096 - k,
            {
                add_block_mesh(
                    world,
                    chunk,
                    chunk_pos,
                    k,
                    &mut opaque_vertices,
                    &mut opaque_indices,
                    &mut transparant_vertices,
                    &mut transparant_indices,
                );
                k = k + 1;
            }
            let base = opaque_vertices.len() as u32;
            let mut shifted_indices: Vec<u32> = Vec::new();
            let mut j: usize = 0;
            while j < transparant_indices.len()
                invariant
                    j <= transparant_indices@.len(),
                    base == opaque_vertices@.len(),
                    opaque_vertices@.len() <= 24 * 4096,
                    layer_ok(transparant_vertices@, transparant_indices@, 4096),
                    shifted_indices@ == shifted(transparant_indices@, base as int).take(j as int),
                decreases transparant_indices@.len() - j,
            {
                let i = transparant_indices[j] + base;
                proof {
                    assert(shifted(transparant_indices@, base as int).take(j + 1) == shifted(
                        transparant_indices@,
                        base as int,
                    ).take(j as int).push(i));
                }
                shifted_indices.push(i);
                j = j + 1;
            }
            proof {
                assert(shifted(transparant_indices@, base as int).take(transparant_indices@.len() as int) == shifted(
                    transparant_indices@,
                    base as int,
                ));
            }
            opaque_vertices.append(&mut transparant_vertices);
            opaque_indices.append(&mut shifted_indices);
            (opaque_vertices, opaque_indices)
        },
    };
}

} // verus!
