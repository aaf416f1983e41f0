use vstd::prelude::*;
use crate::positions::{fits_i32, offset, GlobalBlockPos};
use std::collections::{HashSet, VecDeque};

verus! {

broadcast use vstd::std_specs::hash::group_hash_axioms;

/// Which of the fourteen neighbours of a block a search may step to: the six
/// face neighbours and the eight that share an edge with the top or bottom face.
#[derive(Debug, Copy, Clone, PartialEq, Eq, Structural)]
pub struct Blocksides {
    pub top: bool,
    pub top_left: bool,
    pub top_right: bool,
    pub top_front: bool,
    pub top_back: bool,
    pub bottom: bool,
    pub bottom_left: bool,
    pub bottom_right: bool,
    pub bottom_front: bool,
    pub bottom_back: bool,
    pub left: bool,
    pub right: bool,
    pub front: bool,
    pub back: bool,
}

impl Blocksides {
    /// No neighbour is open.
    pub open spec fn spec_is_none(&self) -> bool {
        &&& !self.top
        &&& !self.top_left
        &&& !self.top_right
        &&& !self.top_front
        &&& !self.top_back
        &&& !self.bottom
        &&& !self.bottom_left
        &&& !self.bottom_right
        &&& !self.bottom_front
        &&& !self.bottom_back
        &&& !self.left
        &&& !self.right
        &&& !self.front
        &&& !self.back
    }

    /// Sides with no neighbour open.
    pub fn new() -> (s: Blocksides)
        ensures
            s.spec_is_none(),
    {
        Blocksides {
            top: false,
            top_left: false,
            top_right: false,
            top_front: false,
            top_back: false,
            bottom: false,
            bottom_left: false,
            bottom_right: false,
            bottom_front: false,
            bottom_back: false,
            left: false,
            right: false,
            front: false,
            back: false,
        }
    }
}

impl Default for Blocksides {
    fn default() -> (s: Self)
        ensures
            s.spec_is_none(),
    {
        Self::new()
    }
}

/// The number that stands for a block position in a set of visited
/// positions: its three coordinates, each shifted to be non-negative, as the
/// digits of a number in base 2^32.
pub open spec fn pos_key(p: GlobalBlockPos) -> int {
    ((p.x + 0x8000_0000) * 0x1_0000_0000 + (p.y + 0x8000_0000)) * 0x1_0000_0000 + (p.z + 0x8000_0000)
}

/// [`pos_key`] as the `u128` value that a set holds; the key is below 2^96,
/// so nothing is cut off.
pub open spec fn spec_block_key(p: GlobalBlockPos) -> u128 {
    pos_key(p) as u128
}

proof fn lemma_pos_key_bounds(p: GlobalBlockPos)
    ensures
        0 <= pos_key(p) < 0x1_0000_0000_0000_0000_0000_0000,
{
    let a = p.x + 0x8000_0000;
    let b = p.y + 0x8000_0000;
    let c = p.z + 0x8000_0000;
    assert(0 <= (a * 0x1_0000_0000 + b) * 0x1_0000_0000 + c < 0x1_0000_0000_0000_0000_0000_0000)
        by (nonlinear_arith)
        requires
            0 <= a < 0x1_0000_0000,
            0 <= b < 0x1_0000_0000,
            0 <= c < 0x1_0000_0000,
    {
    }
}

/// Distinct positions have distinct keys.
pub proof fn lemma_block_key_injective(p: GlobalBlockPos, q: GlobalBlockPos)
    ensures
        spec_block_key(p) == spec_block_key(q) <==> p == q,
{
    lemma_pos_key_bounds(p);
    lemma_pos_key_bounds(q);
    if spec_block_key(p) == spec_block_key(q) {
        let k = pos_key(p);
        assert(k == pos_key(q));
        let hp = (p.x + 0x8000_0000) * 0x1_0000_0000 + (p.y + 0x8000_0000);
        let hq = (q.x + 0x8000_0000) * 0x1_0000_0000 + (q.y + 0x8000_0000);
        vstd::arithmetic::div_mod::lemma_fundamental_div_mod_converse(k, 0x1_0000_0000, hp, p.z + 0x8000_0000);
        vstd::arithmetic::div_mod::lemma_fundamental_div_mod_converse(k, 0x1_0000_0000, hq, q.z + 0x8000_0000);
        vstd::arithmetic::div_mod::lemma_fundamental_div_mod_converse(
            hp,
            0x1_0000_0000,
            p.x + 0x8000_0000,
            p.y + 0x8000_0000,
        );
        vstd::arithmetic::div_mod::lemma_fundamental_div_mod_converse(
            hq,
            0x1_0000_0000,
            q.x + 0x8000_0000,
            q.y + 0x8000_0000,
        );
    }
}

/// The key of `p` in a set of visited positions.
pub fn block_key(p: &GlobalBlockPos) -> (k: u128)
    ensures
        k == spec_block_key(*p),
        k as int == pos_key(*p),
{
    proof {
        lemma_pos_key_bounds(*p);
    }
    let a = (p.x as i64 + 0x8000_0000) as u128;
    let b = (p.y as i64 + 0x8000_0000) as u128;
    let c = (p.z as i64 + 0x8000_0000) as u128;
    assert((a * 0x1_0000_0000 + b) * 0x1_0000_0000 + c < 0x1_0000_0000_0000_0000_0000_0000)
        by (nonlinear_arith)
        requires
            a < 0x1_0000_0000,
            b < 0x1_0000_0000,
            c < 0x1_0000_0000,
    {
    }
    (a * 0x1_0000_0000 + b) * 0x1_0000_0000 + c
}

/// The neighbour at the given offsets lies in the `i32` range whenever its
/// side is open.
pub open spec fn step_fits(open: bool, pos: GlobalBlockPos, dx: int, dy: int, dz: int) -> bool {
    open ==> fits_i32(pos.x + dx) && fits_i32(pos.y + dy) && fits_i32(pos.z + dz)
}

/// Every open side of `sides` leads to a position in the `i32` range.
/// The bottom back side steps as the bottom front side does.
pub open spec fn steps_fit(sides: Blocksides, pos: GlobalBlockPos) -> bool {
    &&& step_fits(sides.right, pos, 1, 0, 0)
    &&& step_fits(sides.left, pos, -1, 0, 0)
    &&& step_fits(sides.top, pos, 0, 1, 0)
    &&& step_fits(sides.top_left, pos, -1, 1, 0)
    &&& step_fits(sides.top_right, pos, 1, 1, 0)
    &&& step_fits(sides.top_front, pos, 0, 1, 1)
    &&& step_fits(sides.top_back, pos, 0, 1, -1)
    &&& step_fits(sides.bottom, pos, 0, -1, 0)
    &&& step_fits(sides.bottom_left, pos, -1, -1, 0)
    &&& step_fits(sides.bottom_right, pos, 1, -1, 0)
    &&& step_fits(sides.bottom_front, pos, 0, -1, 1)
    &&& step_fits(sides.bottom_back, pos, 0, -1, 1)
    &&& step_fits(sides.front, pos, 0, 0, 1)
    &&& step_fits(sides.back, pos, 0, 0, -1)
}

/// What one side adds to the queue: the neighbour with `depth`, when the
/// side is open and the neighbour has not been visited; else nothing.
#[verifier::opaque]
pub open spec fn side_entry(open: bool, p: GlobalBlockPos, visited: Set<u128>, depth: u32) -> Seq<
    (GlobalBlockPos, u32),
> {
    if open && !visited.contains(spec_block_key(p)) {
        seq![(p, depth)]
    } else {
        Seq::empty()
    }
}

/// What [`push_sides`] appends to the queue, in order: right, left, top, top
/// left, top right, top front, top back (the sides at or above the block),
/// then the sides of [`pushed_lower_sides`].
pub open spec fn pushed_sides(sides: Blocksides, visited: Set<u128>, pos: GlobalBlockPos, depth: u32) -> Seq<
    (GlobalBlockPos, u32),
> {
    pushed_upper_sides(sides, visited, pos, depth) + pushed_lower_sides(sides, visited, pos, depth)
}

/// The entries of the right, left, top, top left, top right, top front and
/// top back sides, in this order.
pub open spec fn pushed_upper_sides(sides: Blocksides, visited: Set<u128>, pos: GlobalBlockPos, depth: u32) -> Seq<
    (GlobalBlockPos, u32),
> {
    side_entry(sides.right, offset(pos, 1, 0, 0), visited, depth)
        + side_entry(sides.left, offset(pos, -1, 0, 0), visited, depth)
        + side_entry(sides.top, offset(pos, 0, 1, 0), visited, depth)
        + side_entry(sides.top_left, offset(pos, -1, 1, 0), visited, depth)
        + side_entry(sides.top_right, offset(pos, 1, 1, 0), visited, depth)
        + side_entry(sides.top_front, offset(pos, 0, 1, 1), visited, depth)
        + side_entry(sides.top_back, offset(pos, 0, 1, -1), visited, depth)
}

/// The entries of the bottom, bottom left, bottom right, bottom front, bottom
/// back, front and back sides, in this order. The bottom back side steps to
/// the same neighbour as the bottom front side.
pub open spec fn pushed_lower_sides(sides: Blocksides, visited: Set<u128>, pos: GlobalBlockPos, depth: u32) -> Seq<
    (GlobalBlockPos, u32),
> {
    side_entry(sides.bottom, offset(pos, 0, -1, 0), visited, depth)
        + side_entry(sides.bottom_left, offset(pos, -1, -1, 0), visited, depth)
        + side_entry(sides.bottom_right, offset(pos, 1, -1, 0), visited, depth)
        + side_entry(sides.bottom_front, offset(pos, 0, -1, 1), visited, depth)
        + side_entry(sides.bottom_back, offset(pos, 0, -1, 1), visited, depth)
        + side_entry(sides.front, offset(pos, 0, 0, 1), visited, depth)
        + side_entry(sides.back, offset(pos, 0, 0, -1), visited, depth)
}

/// What `push_sides` appends are the open, unvisited neighbours of `pos`,
/// each with `depth`: every appended entry is a neighbour that an open side
/// names, one step along each axis as the name says (right +x, left -x, top
/// +y, bottom -y, front +z, back -z, and their pairs; the bottom back side
/// steps to +z like the bottom front side), and every neighbour that an open
/// side names and that is not yet visited is appended.
pub proof fn law_pushed_sides_are_open_neighbours(
    sides: Blocksides,
    visited: Set<u128>,
    pos: GlobalBlockPos,
    depth: u32,
)
    ensures
        forall|e: (GlobalBlockPos, u32)|
            #[trigger] pushed_sides(sides, visited, pos, depth).contains(e) ==> {
                &&& e.1 == depth
                &&& !visited.contains(spec_block_key(e.0))
                &&& {
                    ||| sides.right && e.0 == offset(pos, 1, 0, 0)
                    ||| sides.left && e.0 == offset(pos, -1, 0, 0)
                    ||| sides.top && e.0 == offset(pos, 0, 1, 0)
                    ||| sides.top_left && e.0 == offset(pos, -1, 1, 0)
                    ||| sides.top_right && e.0 == offset(pos, 1, 1, 0)
                    ||| sides.top_front && e.0 == offset(pos, 0, 1, 1)
                    ||| sides.top_back && e.0 == offset(pos, 0, 1, -1)
                    ||| sides.bottom && e.0 == offset(pos, 0, -1, 0)
                    ||| sides.bottom_left && e.0 == offset(pos, -1, -1, 0)
                    ||| sides.bottom_right && e.0 == offset(pos, 1, -1, 0)
                    ||| sides.bottom_front && e.0 == offset(pos, 0, -1, 1)
                    ||| sides.bottom_back && e.0 == offset(pos, 0, -1, 1)
                    ||| sides.front && e.0 == offset(pos, 0, 0, 1)
                    ||| sides.back && e.0 == offset(pos, 0, 0, -1)
                }
            },
        sides.right && !visited.contains(spec_block_key(offset(pos, 1, 0, 0))) ==> pushed_sides(sides, visited, pos, depth).contains((offset(pos, 1, 0, 0), depth)),
        sides.left && !visited.contains(spec_block_key(offset(pos, -1, 0, 0))) ==> pushed_sides(sides, visited, pos, depth).contains((offset(pos, -1, 0, 0), depth)),
        sides.top && !visited.contains(spec_block_key(offset(pos, 0, 1, 0))) ==> pushed_sides(sides, visited, pos, depth).contains((offset(pos, 0, 1, 0), depth)),
        sides.top_left && !visited.contains(spec_block_key(offset(pos, -1, 1, 0))) ==> pushed_sides(sides, visited, pos, depth).contains((offset(pos, -1, 1, 0), depth)),
        sides.top_right && !visited.contains(spec_block_key(offset(pos, 1, 1, 0))) ==> pushed_sides(sides, visited, pos, depth).contains((offset(pos, 1, 1, 0), depth)),
        sides.top_front && !visited.contains(spec_block_key(offset(pos, 0, 1, 1))) ==> pushed_sides(sides, visited, pos, depth).contains((offset(pos, 0, 1, 1), depth)),
        sides.top_back && !visited.contains(spec_block_key(offset(pos, 0, 1, -1))) ==> pushed_sides(sides, visited, pos, depth).contains((offset(pos, 0, 1, -1), depth)),
        sides.bottom && !visited.contains(spec_block_key(offset(pos, 0, -1, 0))) ==> pushed_sides(sides, visited, pos, depth).contains((offset(pos, 0, -1, 0), depth)),
        sides.bottom_left && !visited.contains(spec_block_key(offset(pos, -1, -1, 0))) ==> pushed_sides(sides, visited, pos, depth).contains((offset(pos, -1, -1, 0), depth)),
        sides.bottom_right && !visited.contains(spec_block_key(offset(pos, 1, -1, 0))) ==> pushed_sides(sides, visited, pos, depth).contains((offset(pos, 1, -1, 0), depth)),
        sides.bottom_front && !visited.contains(spec_block_key(offset(pos, 0, -1, 1))) ==> pushed_sides(sides, visited, pos, depth).contains((offset(pos, 0, -1, 1), depth)),
        sides.bottom_back && !visited.contains(spec_block_key(offset(pos, 0, -1, 1))) ==> pushed_sides(sides, visited, pos, depth).contains((offset(pos, 0, -1, 1), depth)),
        sides.front && !visited.contains(spec_block_key(offset(pos, 0, 0, 1))) ==> pushed_sides(sides, visited, pos, depth).contains((offset(pos, 0, 0, 1), depth)),
        sides.back && !visited.contains(spec_block_key(offset(pos, 0, 0, -1))) ==> pushed_sides(sides, visited, pos, depth).contains((offset(pos, 0, 0, -1), depth)),
{
    broadcast use vstd::seq_lib::lemma_seq_concat_contains_all_elements;
    broadcast use vstd::seq_lib::lemma_seq_contains;
    broadcast use vstd::seq_lib::lemma_seq_empty_contains_nothing;

    reveal(side_entry);
    assert forall|a: (GlobalBlockPos, u32), e: (GlobalBlockPos, u32)| #[trigger] seq![a].contains(e) == (a == e) by {
        assert(seq![a][0] == a);
    }
}

fn push_side(
    queue: &mut VecDeque<(GlobalBlockPos, u32)>,
    visited: &HashSet<u128>,
    open: bool,
    pos: &GlobalBlockPos,
    dx: i32,
    dy: i32,
    dz: i32,
    depth: u32,
)
    requires
        step_fits(open, *pos, dx as int, dy as int, dz as int),
    ensures
        final(queue)@ == old(queue)@ + side_entry(
            open,
            offset(*pos, dx as int, dy as int, dz as int),
            visited@,
            depth,
        ),
{
    if open {
        let p = pos.get_diff(dx, dy, dz);
        let k = block_key(&p);
        if !visited.contains(&k) {
            queue.push_back((p, depth));
        }
    }
    proof {
        reveal(side_entry);
        assert(final(queue)@ =~= old(queue)@ + side_entry(
            open,
            offset(*pos, dx as int, dy as int, dz as int),
            visited@,
            depth,
        )) by {
            if !open {
                assert(side_entry(open, offset(*pos, dx as int, dy as int, dz as int), visited@, depth)
                    =~= Seq::empty());
            }
        }
    }
}

fn push_upper_sides(
    queue: &mut VecDeque<(GlobalBlockPos, u32)>,
    visited: &HashSet<u128>,
    sides: &Blocksides,
    pos: &GlobalBlockPos,
    depth: u32,
)
    requires
        steps_fit(*sides, *pos),
    ensures
        final(queue)@ == old(queue)@ + pushed_upper_sides(*sides, visited@, *pos, depth),
{
    let ghost q0 = queue@;
    push_side(queue, visited, sides.right, pos, 1, 0, 0, depth);
    let ghost mut added = side_entry(sides.right, offset(*pos, 1, 0, 0), visited@, depth);
    push_side(queue, visited, sides.left, pos, -1, 0, 0, depth);
    proof {
        let e = side_entry(sides.left, offset(*pos, -1, 0, 0), visited@, depth);
        vstd::seq_lib::lemma_concat_associative(q0, added, e);
        added = added + e;
    }
    push_side(queue, visited, sides.top, pos, 0, 1, 0, depth);
    proof {
        let e = side_entry(sides.top, offset(*pos, 0, 1, 0), visited@, depth);
        vstd::seq_lib::lemma_concat_associative(q0, added, e);
        added = added + e;
    }
    push_side(queue, visited, sides.top_left, pos, -1, 1, 0, depth);
    proof {
        let e = side_entry(sides.top_left, offset(*pos, -1, 1, 0), visited@, depth);
        vstd::seq_lib::lemma_concat_associative(q0, added, e);
        added = added + e;
    }
    push_side(queue, visited, sides.top_right, pos, 1, 1, 0, depth);
    proof {
        let e = side_entry(sides.top_right, offset(*pos, 1, 1, 0), visited@, depth);
        vstd::seq_lib::lemma_concat_associative(q0, added, e);
        added = added + e;
    }
    push_side(queue, visited, sides.top_front, pos, 0, 1, 1, depth);
    proof {
        let e = side_entry(sides.top_front, offset(*pos, 0, 1, 1), visited@, depth);
        vstd::seq_lib::lemma_concat_associative(q0, added, e);
        added = added + e;
    }
    push_side(queue, visited, sides.top_back, pos, 0, 1, -1, depth);
    proof {
        let e = side_entry(sides.top_back, offset(*pos, 0, 1, -1), visited@, depth);
        vstd::seq_lib::lemma_concat_associative(q0, added, e);
        added = added + e;
    }
    assert(added == pushed_upper_sides(*sides, visited@, *pos, depth));
}

fn push_lower_sides(
    queue: &mut VecDeque<(GlobalBlockPos, u32)>,
    visited: &HashSet<u128>,
    sides: &Blocksides,
    pos: &GlobalBlockPos,
    depth: u32,
)
    requires
        steps_fit(*sides, *pos),
    ensures
        final(queue)@ == old(queue)@ + pushed_lower_sides(*sides, visited@, *pos, depth),
{
    let ghost q0 = queue@;
    push_side(queue, visited, sides.bottom, pos, 0, -1, 0, depth);
    let ghost mut added = side_entry(sides.bottom, offset(*pos, 0, -1, 0), visited@, depth);
    push_side(queue, visited, sides.bottom_left, pos, -1, -1, 0, depth);
    proof {
        let e = side_entry(sides.bottom_left, offset(*pos, -1, -1, 0), visited@, depth);
        vstd::seq_lib::lemma_concat_associative(q0, added, e);
        added = added + e;
    }
    push_side(queue, visited, sides.bottom_right, pos, 1, -1, 0, depth);
    proof {
        let e = side_entry(sides.bottom_right, offset(*pos, 1, -1, 0), visited@, depth);
        vstd::seq_lib::lemma_concat_associative(q0, added, e);
        added = added + e;
    }
    push_side(queue, visited, sides.bottom_front, pos, 0, -1, 1, depth);
    proof {
        let e = side_entry(sides.bottom_front, offset(*pos, 0, -1, 1), visited@, depth);
        vstd::seq_lib::lemma_concat_associative(q0, added, e);
        added = added + e;
    }
    push_side(queue, visited, sides.bottom_back, pos, 0, -1, 1, depth);
    proof {
        let e = side_entry(sides.bottom_back, offset(*pos, 0, -1, 1), visited@, depth);
        vstd::seq_lib::lemma_concat_associative(q0, added, e);
        added = added + e;
    }
    push_side(queue, visited, sides.front, pos, 0, 0, 1, depth);
    proof {
        let e = side_entry(sides.front, offset(*pos, 0, 0, 1), visited@, depth);
        vstd::seq_lib::lemma_concat_associative(q0, added, e);
        added = added + e;
    }
    push_side(queue, visited, sides.back, pos, 0, 0, -1, depth);
    proof {
        let e = side_entry(sides.back, offset(*pos, 0, 0, -1), visited@, depth);
        vstd::seq_lib::lemma_concat_associative(q0, added, e);
        added = added + e;
    }
    assert(added == pushed_lower_sides(*sides, visited@, *pos, depth));
}

/// Appends to `queue`, each with `depth`, the neighbours of `pos` whose side
/// is open in `sides` and whose key is not in `visited`, in the order of
/// [`pushed_sides`].
pub fn push_sides(
    queue: &mut VecDeque<(GlobalBlockPos, u32)>,
    visited: &HashSet<u128>,
    sides: &Blocksides,
    pos: &GlobalBlockPos,
    depth: u32,
)
    requires
        steps_fit(*sides, *pos),
    ensures
        final(queue)@ == old(queue)@ + pushed_sides(*sides, visited@, *pos, depth),
{
    let ghost q0 = queue@;
    push_upper_sides(queue, visited, sides, pos, depth);
    push_lower_sides(queue, visited, sides, pos, depth);
    proof {
        vstd::seq_lib::lemma_concat_associative(
            q0,
            pushed_upper_sides(*sides, visited@, *pos, depth),
            pushed_lower_sides(*sides, visited@, *pos, depth),
        );
    }
}

} // verus!
