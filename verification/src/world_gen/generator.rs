use vstd::prelude::*;
use crate::blocks::block::BlockId;
use crate::utils::trunc_rem;

verus! {

/// Fills an area of blocks: a cube of `size` blocks along each edge,
/// stored x first, then y, then z.
pub trait WorldGenerator {
    fn new() -> Self where Self: Sized;

    fn generate_area(&self, x_start: i32, y_start: i32, z_start: i32, size: usize) -> Box<[BlockId]>;
}

/// The coordinates of cell `index` of a cube of `size` cells along each
/// edge, stored x first, then y, then z.
pub open spec fn spec_area_coords(index: int, size: int) -> (int, int, int) {
    (index % size, (index / size) % size, (index / (size * size)) % size)
}

/// The coordinates of cell `index` of a cube of `size` cells along each edge.
pub fn area_coords(index: usize, size: usize) -> (r: (usize, usize, usize))
    requires
        size > 0,
        size * size <= usize::MAX,
    ensures
        r.0 == spec_area_coords(index as int, size as int).0,
        r.1 == spec_area_coords(index as int, size as int).1,
        r.2 == spec_area_coords(index as int, size as int).2,
{
    assert(size * size > 0) by (nonlinear_arith)
        requires
            size > 0,
    {
    }
    (index % size, (index / size) % size, index / (size * size) % size)
}

/// The block that a generated area holds at a cell with x coordinate `x`:
/// where the cell is filled, one of eight kinds by `x` (taken as an `i32`),
/// else 0.
pub open spec fn spec_area_block(x: usize, filled: bool) -> BlockId {
    if filled {
        (trunc_rem((x as i32) as int, 8) + 1) as BlockId
    } else {
        0
    }
}

/// The block that a generated area holds at a cell with x coordinate `x`.
pub fn area_block(x: usize, filled: bool) -> (b: BlockId)
    ensures
        b == spec_area_block(x, filled),
{
    if filled {
        let xi = x as i32;
        ((xi % 8) + 1) as BlockId
    } else {
        0
    }
}

} // verus!
