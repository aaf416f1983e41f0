use vstd::prelude::*;

verus! {

/// Compact identifier of a block kind, as stored in chunks.
pub type BlockId = u8;

/// The kinds of blocks of the world.
#[derive(Debug, Clone, Copy, PartialEq, Eq, Structural, Hash)]
pub enum BlockType {
    Grass,
    Water,
    Dirt,
    Stone,
    Sand,
    Air,
    Leaf,
    Unknown,
}

/// The block kind that an identifier stands for.
pub open spec fn spec_blocktype(block_id: BlockId) -> BlockType {
    match block_id {
        0 => BlockType::Grass,
        1 => BlockType::Water,
        2 => BlockType::Dirt,
        3 => BlockType::Stone,
        4 => BlockType::Sand,
        5 => BlockType::Air,
        6 => BlockType::Leaf,
        _ => BlockType::Unknown,
    }
}

/// The identifier of a block kind.
pub open spec fn spec_blockid(block: BlockType) -> BlockId {
    match block {
        BlockType::Grass => 0,
        BlockType::Water => 1,
        BlockType::Dirt => 2,
        BlockType::Stone => 3,
        BlockType::Sand => 4,
        BlockType::Air => 5,
        BlockType::Leaf => 6,
        BlockType::Unknown => 255,
    }
}

/// Whether the colour of the block with this identifier is fully opaque.
pub open spec fn spec_is_opaque(block_id: BlockId) -> bool {
    block_id == 0 || block_id == 2 || block_id == 3 || block_id == 4 || block_id == 6
}

/// Whether a face of the source block is drawn where it touches the neighbour.
pub open spec fn spec_should_render_against(source: BlockId, neighbor: BlockId) -> bool {
    if source == neighbor {
        false
    } else if source == spec_blockid(BlockType::Leaf) {
        true
    } else {
        !spec_is_opaque(neighbor)
    }
}

/// The block kind of an identifier; identifiers without a kind are `Unknown`.
pub fn get_blocktype(block_id: BlockId) -> (t: BlockType)
    ensures
        t == spec_blocktype(block_id),
{
    match block_id {
        0 => BlockType::Grass,
        1 => BlockType::Water,
        2 => BlockType::Dirt,
        3 => BlockType::Stone,
        4 => BlockType::Sand,
        5 => BlockType::Air,
        6 => BlockType::Leaf,
        _ => BlockType::Unknown,
    }
}

/// The identifier of a block kind.
pub fn get_blockid(block: BlockType) -> (id: BlockId)
    ensures
        id == spec_blockid(block),
{
    match block {
        BlockType::Grass => 0,
        BlockType::Water => 1,
        BlockType::Dirt => 2,
        BlockType::Stone => 3,
        BlockType::Sand => 4,
        BlockType::Air => 5,
        BlockType::Leaf => 6,
        BlockType::Unknown => 255,
    }
}

/// Whether the colour of a block is fully opaque (its alpha is 255).
pub fn is_opaque(block_id: BlockId) -> (r: bool)
    ensures
        r == spec_is_opaque(block_id),
{
    block_id == 0 || block_id == 2 || block_id == 3 || block_id == 4 || block_id == 6
}

/// Whether a face of `source_block_id` is drawn where it touches `neighbor_block_id`:
/// never against the same block, always for leaves, otherwise only against
/// blocks that are not opaque.
pub fn should_render_against(source_block_id: BlockId, neighbor_block_id: BlockId) -> (r: bool)
    ensures
        r == spec_should_render_against(source_block_id, neighbor_block_id),
{
    if source_block_id == neighbor_block_id {
        return false;
    }
    if source_block_id == get_blockid(BlockType::Leaf) {
        return true;
    }
    if is_opaque(neighbor_block_id) {
        return false;
    }
    return true;
}

/// Every block kind but `Unknown` is given back by its identifier.
pub proof fn lemma_blockid_roundtrip(block: BlockType)
    ensures
        spec_blocktype(spec_blockid(block)) == block,
{
}

/// Every identifier of a known kind is given back by its kind.
pub proof fn lemma_blocktype_roundtrip(block_id: BlockId)
    requires
        spec_blocktype(block_id) != BlockType::Unknown,
    ensures
        spec_blockid(spec_blocktype(block_id)) == block_id,
{
}

} // verus!
