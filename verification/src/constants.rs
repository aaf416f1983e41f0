use vstd::prelude::*;

verus! {

/// Number of blocks along one edge of a chunk.
pub const CHUNKSIZE: usize = 16;

/// Number of chunks along one horizontal edge (and the height) of a meta chunk.
pub const METACHUNKSIZE: usize = 16;

/// Number of meta chunks around the player that are kept loaded in each direction.
pub const METACHUNK_GEN_RANGE: usize = 4;

} // verus!
