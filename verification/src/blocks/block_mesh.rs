use vstd::prelude::*;
use crate::blocks::block::{get_blocktype, spec_blocktype, BlockId, BlockType};
use crate::blocks::blockside::BlockSides;
use crate::positions::GlobalBlockPos;
use arrayvec::ArrayVec;

verus! {

/// `arrayvec::ArrayVec`, a list of at most `CAP` items held inline; its
/// contents are known only through the names and wrappers below.
#[verifier::external_type_specification]
#[verifier::external_body]
#[verifier::reject_recursive_types(T)]
pub struct ExArrayVec<T, const CAP: usize>(ArrayVec<T, CAP>);

/// The direction a face of a block looks in.
#[derive(Debug, Copy, Clone, PartialEq, Eq, Structural)]
pub enum FaceNormal {
    Front,
    Back,
    Left,
    Right,
    Up,
    Down,
}

/// A corner of a block face: its position in the world, the block kind it
/// shows and the direction of its face.
#[derive(Debug, Copy, Clone, PartialEq, Eq, Structural)]
pub struct BlockVertex {
    pub x: i64,
    pub y: i64,
    pub z: i64,
    pub material: u32,
    pub normal: FaceNormal,
}

/// What an `ArrayVec` of the corners of a block's faces holds, in order.
pub uninterp spec fn vertex_slots(v: ArrayVec<BlockVertex, 24>) -> Seq<BlockVertex>;

/// What an `ArrayVec` of the indices of a block's faces holds, in order.
pub uninterp spec fn index_slots(v: ArrayVec<u32, 36>) -> Seq<u32>;

/// `ArrayVec::new`: an empty list of corners. Trusted: it holds nothing.
#[verifier::external_body]
fn new_vertex_list() -> (v: ArrayVec<BlockVertex, 24>)
    ensures
        vertex_slots(v) == Seq::<BlockVertex>::empty(),
{
    ArrayVec::new()
}

/// `ArrayVec::new`: an empty list of indices. Trusted: it holds nothing.
#[verifier::external_body]
fn new_index_list() -> (v: ArrayVec<u32, 36>)
    ensures
        index_slots(v) == Seq::<u32>::empty(),
{
    ArrayVec::new()
}

/// `ArrayVec::push` on a list of corners that is not full. Trusted: the
/// corner is appended, the others stay.
#[verifier::external_body]
fn push_vertex(v: &mut ArrayVec<BlockVertex, 24>, vertex: BlockVertex)
    requires
        vertex_slots(*old(v)).len() < 24,
    ensures
        vertex_slots(*final(v)) == vertex_slots(*old(v)).push(vertex),
{
    v.push(vertex)
}

/// `ArrayVec::push` on a list of indices that is not full. Trusted: the
/// index is appended, the others stay.
#[verifier::external_body]
fn push_index(v: &mut ArrayVec<u32, 36>, index: u32)
    requires
        index_slots(*old(v)).len() < 36,
    ensures
        index_slots(*final(v)) == index_slots(*old(v)).push(index),
{
    v.push(index)
}

/// `ArrayVec::len` of a list of corners. Trusted: the number of corners held.
#[verifier::external_body]
fn vertex_count(v: &ArrayVec<BlockVertex, 24>) -> (n: usize)
    ensures
        n == vertex_slots(*v).len(),
{
    v.len()
}

/// `ArrayVec::as_slice` of a list of corners, copied into a `Vec`. Trusted:
/// the same corners in the same order.
#[verifier::external_body]
pub(crate) fn vertex_list_to_vec(v: &ArrayVec<BlockVertex, 24>) -> (r: Vec<BlockVertex>)
    ensures
        r@ == vertex_slots(*v),
{
    v.as_slice().to_vec()
}

/// `ArrayVec::as_slice` of a list of indices, copied into a `Vec`. Trusted:
/// the same indices in the same order.
#[verifier::external_body]
pub(crate) fn index_list_to_vec(v: &ArrayVec<u32, 36>) -> (r: Vec<u32>)
    ensures
        r@ == index_slots(*v),
{
    v.as_slice().to_vec()
}

/// The offset, along x, y and z, of corner `k` of the face looking in `normal`,
/// from the block's lowest corner.
pub open spec fn corner(normal: FaceNormal, k: int) -> (int, int, int) {
    match normal {
        FaceNormal::Front => if k == 0 { (0, 0, 0) } else if k == 1 { (1, 0, 0) } else if k == 2 { (0, 1, 0) } else { (1, 1, 0) },
        FaceNormal::Back => if k == 0 { (0, 0, 1) } else if k == 1 { (0, 1, 1) } else if k == 2 { (1, 0, 1) } else { (1, 1, 1) },
        FaceNormal::Left => if k == 0 { (0, 0, 0) } else if k == 1 { (0, 1, 0) } else if k == 2 { (0, 0, 1) } else { (0, 1, 1) },
        FaceNormal::Right => if k == 0 { (1, 0, 0) } else if k == 1 { (1, 0, 1) } else if k == 2 { (1, 1, 0) } else { (1, 1, 1) },
        FaceNormal::Up => if k == 0 { (0, 1, 0) } else if k == 1 { (1, 1, 0) } else if k == 2 { (0, 1, 1) } else { (1, 1, 1) },
        FaceNormal::Down => if k == 0 { (0, 0, 0) } else if k == 1 { (0, 0, 1) } else if k == 2 { (1, 0, 0) } else { (1, 0, 1) },
    }
}

/// Corner `k` of the face looking in `normal` of the block `block_id` at `pos`.
pub open spec fn face_vertex(block_id: BlockId, pos: GlobalBlockPos, normal: FaceNormal, k: int) -> BlockVertex {
    let (dx, dy, dz) = corner(normal, k);
    BlockVertex {
        x: (pos.x + dx) as i64,
        y: (pos.y + dy) as i64,
        z: (pos.z + dz) as i64,
        material: block_id as u32,
        normal,
    }
}

/// The four corners of a face, in the order they are drawn.
pub open spec fn face_vertices(block_id: BlockId, pos: GlobalBlockPos, normal: FaceNormal) -> Seq<BlockVertex> {
    seq![
        face_vertex(block_id, pos, normal, 0),
        face_vertex(block_id, pos, normal, 1),
        face_vertex(block_id, pos, normal, 2),
        face_vertex(block_id, pos, normal, 3),
    ]
}

/// The two triangles of a face whose corners start at index `base`.
pub open spec fn quad_indices(base: int) -> Seq<u32> {
    seq![base as u32, (base + 1) as u32, (base + 2) as u32, (base + 1) as u32, (base + 3) as u32, (base + 2) as u32]
}

/// The step from a block to the neighbour that its face looking in `normal`
/// touches.
pub open spec fn face_direction(normal: FaceNormal) -> (int, int, int) {
    match normal {
        FaceNormal::Front => (0, 0, -1),
        FaceNormal::Back => (0, 0, 1),
        FaceNormal::Left => (-1, 0, 0),
        FaceNormal::Right => (1, 0, 0),
        FaceNormal::Up => (0, 1, 0),
        FaceNormal::Down => (0, -1, 0),
    }
}

/// Every corner of a face lies on the block's unit cube, on the side of the
/// cube that the face looks toward: x is the block's x for a face looking
/// left and one more for a face looking right, y the block's y for a face
/// looking down and one more looking up, z the block's z for a face looking
/// to the front and one more looking to the back.
pub proof fn law_face_corner_on_its_side(block_id: BlockId, pos: GlobalBlockPos, normal: FaceNormal, k: int)
    requires
        0 <= k < 4,
    ensures
        ({
            let v = face_vertex(block_id, pos, normal, k);
            &&& pos.x <= v.x <= pos.x + 1
            &&& pos.y <= v.y <= pos.y + 1
            &&& pos.z <= v.z <= pos.z + 1
            &&& normal == FaceNormal::Left ==> v.x == pos.x
            &&& normal == FaceNormal::Right ==> v.x == pos.x + 1
            &&& normal == FaceNormal::Down ==> v.y == pos.y
            &&& normal == FaceNormal::Up ==> v.y == pos.y + 1
            &&& normal == FaceNormal::Front ==> v.z == pos.z
            &&& normal == FaceNormal::Back ==> v.z == pos.z + 1
            &&& v.normal == normal
            &&& v.material == block_id as u32
        }),
        ({
            let (cx, cy, cz) = corner(normal, k);
            let (dx, dy, dz) = face_direction(normal);
            &&& dx == 1 ==> cx == 1
            &&& dx == -1 ==> cx == 0
            &&& dy == 1 ==> cy == 1
            &&& dy == -1 ==> cy == 0
            &&& dz == 1 ==> cz == 1
            &&& dz == -1 ==> cz == 0
        }),
{
}

/// The four corners of a face are four different points.
pub proof fn law_face_corners_distinct(normal: FaceNormal, k1: int, k2: int)
    requires
        0 <= k1 < 4,
        0 <= k2 < 4,
        k1 != k2,
    ensures
        corner(normal, k1) != corner(normal, k2),
{
}

/// The normal of the triangle `a`, `b`, `c`: the cross product of `b - a` and `c - a`.
pub open spec fn triangle_normal(a: (int, int, int), b: (int, int, int), c: (int, int, int)) -> (int, int, int) {
    let (ux, uy, uz) = (b.0 - a.0, b.1 - a.1, b.2 - a.2);
    let (vx, vy, vz) = (c.0 - a.0, c.1 - a.1, c.2 - a.2);
    (uy * vz - uz * vy, uz * vx - ux * vz, ux * vy - uy * vx)
}

/// The two triangles of a face, corners 0, 1, 2 and corners 1, 3, 2, cover
/// the face's square and turn the same way: the normal of each is the unit
/// step opposite to the direction the face looks in, into the block.
pub proof fn law_face_triangles_turn_inward(normal: FaceNormal)
    ensures
        ({
            let (dx, dy, dz) = face_direction(normal);
            &&& triangle_normal(corner(normal, 0), corner(normal, 1), corner(normal, 2)) == (-dx, -dy, -dz)
            &&& triangle_normal(corner(normal, 1), corner(normal, 3), corner(normal, 2)) == (-dx, -dy, -dz)
        }),
{
    let (c0, c1, c2, c3) = (corner(normal, 0), corner(normal, 1), corner(normal, 2), corner(normal, 3));
    let (dx, dy, dz) = face_direction(normal);
    assert(triangle_normal(c0, c1, c2) == (-dx, -dy, -dz) && triangle_normal(c1, c3, c2) == (-dx, -dy, -dz))
        by (nonlinear_arith)
        requires
            normal == FaceNormal::Front ==> c0 == (0int, 0int, 0int) && c1 == (1int, 0int, 0int) && c2 == (0int, 1int, 0int) && c3 == (1int, 1int, 0int) && (dx, dy, dz) == (0int, 0int, -1int),
            normal == FaceNormal::Back ==> c0 == (0int, 0int, 1int) && c1 == (0int, 1int, 1int) && c2 == (1int, 0int, 1int) && c3 == (1int, 1int, 1int) && (dx, dy, dz) == (0int, 0int, 1int),
            normal == FaceNormal::Left ==> c0 == (0int, 0int, 0int) && c1 == (0int, 1int, 0int) && c2 == (0int, 0int, 1int) && c3 == (0int, 1int, 1int) && (dx, dy, dz) == (-1int, 0int, 0int),
            normal == FaceNormal::Right ==> c0 == (1int, 0int, 0int) && c1 == (1int, 0int, 1int) && c2 == (1int, 1int, 0int) && c3 == (1int, 1int, 1int) && (dx, dy, dz) == (1int, 0int, 0int),
            normal == FaceNormal::Up ==> c0 == (0int, 1int, 0int) && c1 == (1int, 1int, 0int) && c2 == (0int, 1int, 1int) && c3 == (1int, 1int, 1int) && (dx, dy, dz) == (0int, 1int, 0int),
            normal == FaceNormal::Down ==> c0 == (0int, 0int, 0int) && c1 == (0int, 0int, 1int) && c2 == (1int, 0int, 0int) && c3 == (1int, 0int, 1int) && (dx, dy, dz) == (0int, -1int, 0int),
    {
    }
}

/// The exec form of [`corner`].
fn corner_offset(normal: FaceNormal, k: u8) -> (r: (i64, i64, i64))
    requires
        k < 4,
    ensures
        r.0 == corner(normal, k as int).0,
        r.1 == corner(normal, k as int).1,
        r.2 == corner(normal, k as int).2,
{
    match normal {
        FaceNormal::Front => if k == 0 { (0, 0, 0) } else if k == 1 { (1, 0, 0) } else if k == 2 { (0, 1, 0) } else { (1, 1, 0) },
        FaceNormal::Back => if k == 0 { (0, 0, 1) } else if k == 1 { (0, 1, 1) } else if k == 2 { (1, 0, 1) } else { (1, 1, 1) },
        FaceNormal::Left => if k == 0 { (0, 0, 0) } else if k == 1 { (0, 1, 0) } else if k == 2 { (0, 0, 1) } else { (0, 1, 1) },
        FaceNormal::Right => if k == 0 { (1, 0, 0) } else if k == 1 { (1, 0, 1) } else if k == 2 { (1, 1, 0) } else { (1, 1, 1) },
        FaceNormal::Up => if k == 0 { (0, 1, 0) } else if k == 1 { (1, 1, 0) } else if k == 2 { (0, 1, 1) } else { (1, 1, 1) },
        FaceNormal::Down => if k == 0 { (0, 0, 0) } else if k == 1 { (0, 0, 1) } else if k == 2 { (1, 0, 0) } else { (1, 0, 1) },
    }
}

/// Appends the two triangles and the four corners of one face: the indices
/// count from the number of corners already held.
fn push_face(
    block_id: BlockId,
    pos: &GlobalBlockPos,
    normal: FaceNormal,
    vec: &mut ArrayVec<BlockVertex, 24>,
    indices: &mut ArrayVec<u32, 36>,
)
    requires
        vertex_slots(*old(vec)).len() <= 20,
        index_slots(*old(indices)).len() <= 30,
    ensures
        vertex_slots(*final(vec)) == vertex_slots(*old(vec)) + face_vertices(block_id, *pos, normal),
        index_slots(*final(indices)) == index_slots(*old(indices)) + quad_indices(
            vertex_slots(*old(vec)).len() as int,
        ),
{
    let ghost v0 = vertex_slots(*vec);
    let ghost i0 = index_slots(*indices);
    let base = vertex_count(vec) as u32;
    push_index(indices, base);
    push_index(indices, base + 1);
    push_index(indices, base + 2);
    push_index(indices, base + 1);
    push_index(indices, base + 3);
    push_index(indices, base + 2);
    let mut k: u8 = 0;
    while k < 4
        invariant
            k <= 4,
            vertex_slots(*vec).len() == v0.len() + k,
            v0.len() <= 20,
            vertex_slots(*vec) == v0 + face_vertices(block_id, *pos, normal).take(k as int),
        decreases 4 - k,
    {
        let (dx, dy, dz) = corner_offset(normal, k);
        let vertex = BlockVertex {
            x: pos.x as i64 + dx,
            y: pos.y as i64 + dy,
            z: pos.z as i64 + dz,
            material: block_id as u32,
            normal,
        };
        proof {
            assert(vertex == face_vertex(block_id, *pos, normal, k as int));
            assert(face_vertices(block_id, *pos, normal).take(k + 1) == face_vertices(block_id, *pos, normal).take(
                k as int,
            ).push(vertex));
        }
        push_vertex(vec, vertex);
        k = k + 1;
    }
    proof {
        assert(face_vertices(block_id, *pos, normal).take(4) == face_vertices(block_id, *pos, normal));
        assert(index_slots(*indices) == i0 + quad_indices(v0.len() as int));
    }
}

/// Appends the face of the block looking to the front: two triangles and four corners.
fn mesh_front(
    block_id: BlockId,
    pos: &GlobalBlockPos,
    vec: &mut ArrayVec<BlockVertex, 24>,
    indices: &mut ArrayVec<u32, 36>,
)
    requires
        vertex_slots(*old(vec)).len() <= 20,
        index_slots(*old(indices)).len() <= 30,
    ensures
        vertex_slots(*final(vec)) == vertex_slots(*old(vec)) + face_vertices(block_id, *pos, FaceNormal::Front),
        index_slots(*final(indices)) == index_slots(*old(indices)) + quad_indices(
            vertex_slots(*old(vec)).len() as int,
        ),
{
    push_face(block_id, pos, FaceNormal::Front, vec, indices);
}

/// Appends the face of the block looking to the back: two triangles and four corners.
fn mesh_back(
    block_id: BlockId,
    pos: &GlobalBlockPos,
    vec: &mut ArrayVec<BlockVertex, 24>,
    indices: &mut ArrayVec<u32, 36>,
)
    requires
        vertex_slots(*old(vec)).len() <= 20,
        index_slots(*old(indices)).len() <= 30,
    ensures
        vertex_slots(*final(vec)) == vertex_slots(*old(vec)) + face_vertices(block_id, *pos, FaceNormal::Back),
        index_slots(*final(indices)) == index_slots(*old(indices)) + quad_indices(
            vertex_slots(*old(vec)).len() as int,
        ),
{
    push_face(block_id, pos, FaceNormal::Back, vec, indices);
}

/// Appends the face of the block looking to the left: two triangles and four corners.
fn mesh_left(
    block_id: BlockId,
    pos: &GlobalBlockPos,
    vec: &mut ArrayVec<BlockVertex, 24>,
    indices: &mut ArrayVec<u32, 36>,
)
    requires
        vertex_slots(*old(vec)).len() <= 20,
        index_slots(*old(indices)).len() <= 30,
    ensures
        vertex_slots(*final(vec)) == vertex_slots(*old(vec)) + face_vertices(block_id, *pos, FaceNormal::Left),
        index_slots(*final(indices)) == index_slots(*old(indices)) + quad_indices(
            vertex_slots(*old(vec)).len() as int,
        ),
{
    push_face(block_id, pos, FaceNormal::Left, vec, indices);
}

/// Appends the face of the block looking to the right: two triangles and four corners.
fn mesh_right(
    block_id: BlockId,
    pos: &GlobalBlockPos,
    vec: &mut ArrayVec<BlockVertex, 24>,
    indices: &mut ArrayVec<u32, 36>,
)
    requires
        vertex_slots(*old(vec)).len() <= 20,
        index_slots(*old(indices)).len() <= 30,
    ensures
        vertex_slots(*final(vec)) == vertex_slots(*old(vec)) + face_vertices(block_id, *pos, FaceNormal::Right),
        index_slots(*final(indices)) == index_slots(*old(indices)) + quad_indices(
            vertex_slots(*old(vec)).len() as int,
        ),
{
    push_face(block_id, pos, FaceNormal::Right, vec, indices);
}

/// Appends the face of the block looking up: two triangles and four corners.
fn mesh_top(
    block_id: BlockId,
    pos: &GlobalBlockPos,
    vec: &mut ArrayVec<BlockVertex, 24>,
    indices: &mut ArrayVec<u32, 36>,
)
    requires
        vertex_slots(*old(vec)).len() <= 20,
        index_slots(*old(indices)).len() <= 30,
    ensures
        vertex_slots(*final(vec)) == vertex_slots(*old(vec)) + face_vertices(block_id, *pos, FaceNormal::Up),
        index_slots(*final(indices)) == index_slots(*old(indices)) + quad_indices(
            vertex_slots(*old(vec)).len() as int,
        ),
{
    push_face(block_id, pos, FaceNormal::Up, vec, indices);
}

/// Appends the face of the block looking down: two triangles and four corners.
fn mesh_bottom(
    block_id: BlockId,
    pos: &GlobalBlockPos,
    vec: &mut ArrayVec<BlockVertex, 24>,
    indices: &mut ArrayVec<u32, 36>,
)
    requires
        vertex_slots(*old(vec)).len() <= 20,
        index_slots(*old(indices)).len() <= 30,
    ensures
        vertex_slots(*final(vec)) == vertex_slots(*old(vec)) + face_vertices(block_id, *pos, FaceNormal::Down),
        index_slots(*final(indices)) == index_slots(*old(indices)) + quad_indices(
            vertex_slots(*old(vec)).len() as int,
        ),
{
    push_face(block_id, pos, FaceNormal::Down, vec, indices);
}

/// The faces drawn for `sides`, in the order right, left, top, bottom, back, front.
pub open spec fn drawn_faces(sides: BlockSides) -> Seq<FaceNormal> {
    (if sides.right { seq![FaceNormal::Right] } else { Seq::empty() })
        + (if sides.left { seq![FaceNormal::Left] } else { Seq::empty() })
        + (if sides.top { seq![FaceNormal::Up] } else { Seq::empty() })
        + (if sides.bot { seq![FaceNormal::Down] } else { Seq::empty() })
        + (if sides.back { seq![FaceNormal::Back] } else { Seq::empty() })
        + (if sides.front { seq![FaceNormal::Front] } else { Seq::empty() })
}

/// The face looking in `normal` is among the faces drawn for `sides` exactly
/// when `sides` marks it: right, left, top, bottom, back or front.
pub proof fn lemma_drawn_faces_contains(sides: BlockSides, normal: FaceNormal)
    ensures
        drawn_faces(sides).contains(normal) == match normal {
            FaceNormal::Right => sides.right,
            FaceNormal::Left => sides.left,
            FaceNormal::Up => sides.top,
            FaceNormal::Down => sides.bot,
            FaceNormal::Back => sides.back,
            FaceNormal::Front => sides.front,
        },
{
    broadcast use vstd::seq_lib::lemma_seq_concat_contains_all_elements;
    broadcast use vstd::seq_lib::lemma_seq_contains;
    broadcast use vstd::seq_lib::lemma_seq_empty_contains_nothing;

    assert forall|a: FaceNormal| #[trigger] seq![a].contains(normal) == (a == normal) by {
        assert(seq![a][0] == a);
    }
}

/// The corners of the faces, face after face.
pub open spec fn faces_vertices(block_id: BlockId, pos: GlobalBlockPos, faces: Seq<FaceNormal>) -> Seq<BlockVertex>
    decreases faces.len(),
{
    if faces.len() == 0 {
        Seq::empty()
    } else {
        faces_vertices(block_id, pos, faces.drop_last()) + face_vertices(block_id, pos, faces.last())
    }
}

/// The triangles of the faces, face after face; face `j` has the corners
/// from index `4 * j` on.
pub open spec fn faces_indices(faces: Seq<FaceNormal>) -> Seq<u32>
    decreases faces.len(),
{
    if faces.len() == 0 {
        Seq::empty()
    } else {
        faces_indices(faces.drop_last()) + quad_indices(4 * (faces.len() - 1))
    }
}

/// The corners and triangles of the block `block_id` at `pos` for the faces
/// in `sides`; air has none.
pub open spec fn spec_mesh(block_id: BlockId, pos: GlobalBlockPos, sides: BlockSides) -> (Seq<BlockVertex>, Seq<u32>) {
    if spec_blocktype(block_id) == BlockType::Air {
        (Seq::empty(), Seq::empty())
    } else {
        (faces_vertices(block_id, pos, drawn_faces(sides)), faces_indices(drawn_faces(sides)))
    }
}

proof fn lemma_faces_lens(block_id: BlockId, pos: GlobalBlockPos, faces: Seq<FaceNormal>)
    ensures
        faces_vertices(block_id, pos, faces).len() == 4 * faces.len(),
        faces_indices(faces).len() == 6 * faces.len(),
    decreases faces.len(),
{
    if faces.len() > 0 {
        lemma_faces_lens(block_id, pos, faces.drop_last());
    }
}

/// The corners and triangles that draw the faces in `sides` of the block
/// `block_id` at `pos`; air is not drawn.
#[verifier::rlimit(30)]
pub fn get_mesh(block_id: BlockId, pos: &GlobalBlockPos, sides: &BlockSides) -> (r: (
    ArrayVec<BlockVertex, 24>,
    ArrayVec<u32, 36>,
))
    ensures
        vertex_slots(r.0) == spec_mesh(block_id, *pos, *sides).0,
        index_slots(r.1) == spec_mesh(block_id, *pos, *sides).1,
{
    let mut vertices = new_vertex_list();
    let mut indices = new_index_list();
    if get_blocktype(block_id) == BlockType::Air {
        return (new_vertex_list(), new_index_list());
    }
    let ghost mut faces: Seq<FaceNormal> = Seq::empty();
    if sides.right {
        proof { lemma_faces_lens(block_id, *pos, faces); }
        mesh_right(block_id, pos, &mut vertices, &mut indices);
        proof {
            assert(faces.push(FaceNormal::Right).drop_last() == faces);
            faces = faces.push(FaceNormal::Right);
        }
    }
    assert(faces == (if sides.right { seq![FaceNormal::Right] } else { Seq::<FaceNormal>::empty() }));
    let ghost before = faces;
    if sides.left {
        proof { lemma_faces_lens(block_id, *pos, faces); }
        mesh_left(block_id, pos, &mut vertices, &mut indices);
        proof {
            assert(faces.push(FaceNormal::Left).drop_last() == faces);
            faces = faces.push(FaceNormal::Left);
        }
    }
    assert(faces == before + (if sides.left { seq![FaceNormal::Left] } else { Seq::<FaceNormal>::empty() }));
    let ghost before = faces;
    if sides.top {
        proof { lemma_faces_lens(block_id, *pos, faces); }
        mesh_top(block_id, pos, &mut vertices, &mut indices);
        proof {
            assert(faces.push(FaceNormal::Up).drop_last() == faces);
            faces = faces.push(FaceNormal::Up);
        }
    }
    assert(faces == before + (if sides.top { seq![FaceNormal::Up] } else { Seq::<FaceNormal>::empty() }));
    let ghost before = faces;
    if sides.bot {
        proof { lemma_faces_lens(block_id, *pos, faces); }
        mesh_bottom(block_id, pos, &mut vertices, &mut indices);
        proof {
            assert(faces.push(FaceNormal::Down).drop_last() == faces);
            faces = faces.push(FaceNormal::Down);
        }
    }
    assert(faces == before + (if sides.bot { seq![FaceNormal::Down] } else { Seq::<FaceNormal>::empty() }));
    let ghost before = faces;
    if sides.back {
        proof { lemma_faces_lens(block_id, *pos, faces); }
        mesh_back(block_id, pos, &mut vertices, &mut indices);
        proof {
            assert(faces.push(FaceNormal::Back).drop_last() == faces);
            faces = faces.push(FaceNormal::Back);
        }
    }
    assert(faces == before + (if sides.back { seq![FaceNormal::Back] } else { Seq::<FaceNormal>::empty() }));
    let ghost before = faces;
    if sides.front {
        proof { lemma_faces_lens(block_id, *pos, faces); }
        mesh_front(block_id, pos, &mut vertices, &mut indices);
        proof {
            assert(faces.push(FaceNormal::Front).drop_last() == faces);
            faces = faces.push(FaceNormal::Front);
        }
    }
    assert(faces == before + (if sides.front { seq![FaceNormal::Front] } else { Seq::<FaceNormal>::empty() }));
    assert(faces == drawn_faces(*sides));
    (vertices, indices)
}

/// Every triangle index of a list of faces names one of their corners.
pub proof fn lemma_faces_indices_bound(block_id: BlockId, pos: GlobalBlockPos, faces: Seq<FaceNormal>)
    ensures
        faces_vertices(block_id, pos, faces).len() == 4 * faces.len(),
        faces_indices(faces).len() == 6 * faces.len(),
        forall|j: int| 0 <= j < faces_indices(faces).len() ==> #[trigger] faces_indices(faces)[j] < 4 * faces.len(),
    decreases faces.len(),
{
    lemma_faces_lens(block_id, pos, faces);
    if faces.len() > 0 {
        let t = faces.drop_last();
        lemma_faces_indices_bound(block_id, pos, t);
        let b = 4 * (faces.len() - 1);
        assert forall|j: int| 0 <= j < faces_indices(faces).len() implies #[trigger] faces_indices(faces)[j] < 4
            * faces.len() by {
            if j >= faces_indices(t).len() {
                let q = quad_indices(b);
                assert(faces_indices(faces)[j] == q[j - faces_indices(t).len()]);
            } else {
                assert(faces_indices(faces)[j] == faces_indices(t)[j]);
            }
        }
    }
}

/// The mesh of a block has at most 24 corners, and each triangle index
/// names one of them.
pub proof fn lemma_mesh_bounds(block_id: BlockId, pos: GlobalBlockPos, sides: BlockSides)
    ensures
        spec_mesh(block_id, pos, sides).0.len() <= 24,
        spec_mesh(block_id, pos, sides).1.len() <= 36,
        forall|j: int|
            0 <= j < spec_mesh(block_id, pos, sides).1.len() ==> #[trigger] spec_mesh(block_id, pos, sides).1[j]
                < spec_mesh(block_id, pos, sides).0.len(),
{
    lemma_faces_indices_bound(block_id, pos, drawn_faces(sides));
    assert(drawn_faces(sides).len() <= 6);
}

} // verus!
