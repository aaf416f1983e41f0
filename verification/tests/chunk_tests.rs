use vox::blocks::block::{get_blockid, BlockType};
use vox::positions::{ChunkPos, GlobalBlockPos, LocalBlockPos, LocalChunkPos, MetaChunkPos};
use vox::world_gen::chunk::{BlockIdOrPointer, Chunk, OldChunk};
use vox::world_gen::meta_chunk::MetaChunk;

fn origin() -> ChunkPos {
    ChunkPos { x: 0, y: 0, z: 0 }
}

#[test]
fn generated_chunk_is_air() {
    let c = Chunk::<4, 2, 8>::generate(&origin());
    let air = get_blockid(BlockType::Air);
    for (x, y, z) in [(0, 0, 0), (15, 15, 15), (3, 9, 12)] {
        assert_eq!(c.get_block(&LocalBlockPos { x, y, z }), air);
    }
    assert_eq!(c.layer_count(), 4);
    assert_eq!(c.node_count(0), 1);
    assert_eq!(c.node_count(1), 0);
    assert_eq!(c.entry_count(0, 0), 8);
    assert_eq!(c.entry(0, 0, 5), BlockIdOrPointer::Id(air));
}

#[test]
fn chunk_reads_back_a_write() {
    let mut c = Chunk::<4, 2, 8>::generate(&origin());
    let stone = get_blockid(BlockType::Stone);
    let air = get_blockid(BlockType::Air);
    let p = LocalBlockPos { x: 5, y: 10, z: 3 };
    c.set_block(stone, &p);
    assert_eq!(c.get_block(&p), stone);
    assert_eq!(c.get_block(&LocalBlockPos { x: 4, y: 10, z: 3 }), air);
    assert_eq!(c.get_block(&LocalBlockPos { x: 5, y: 11, z: 3 }), air);
    // one node was added on each layer below the root
    assert_eq!(c.node_count(1), 1);
    assert_eq!(c.node_count(2), 1);
    assert_eq!(c.node_count(3), 1);
}

#[test]
fn chunk_merges_a_uniform_node() {
    let mut c = Chunk::<4, 2, 8>::generate(&origin());
    let stone = get_blockid(BlockType::Stone);
    let p = LocalBlockPos { x: 0, y: 0, z: 0 };
    c.set_block(stone, &p);
    c.set_block(get_blockid(BlockType::Air), &p);
    assert_eq!(c.get_block(&p), get_blockid(BlockType::Air));
    assert_eq!(c.node_count(1), 0);
    assert_eq!(c.node_count(3), 0);
}

#[test]
fn chunk_writing_the_same_block_changes_nothing() {
    let mut c = Chunk::<4, 2, 8>::generate(&origin());
    let air = get_blockid(BlockType::Air);
    c.set_block(air, &LocalBlockPos { x: 7, y: 7, z: 7 });
    assert_eq!(c.node_count(1), 0);
    assert_eq!(c.get_block(&LocalBlockPos { x: 7, y: 7, z: 7 }), air);
}

#[test]
fn chunk_with_wider_nodes() {
    let mut c = Chunk::<2, 4, 64>::generate(&origin());
    let sand = get_blockid(BlockType::Sand);
    let p = LocalBlockPos { x: 15, y: 0, z: 8 };
    c.set_block(sand, &p);
    assert_eq!(c.get_block(&p), sand);
    assert_eq!(c.get_block(&LocalBlockPos { x: 14, y: 0, z: 8 }), get_blockid(BlockType::Air));
    assert_eq!(c.entry_count(1, 0), 64);
}

#[test]
fn old_chunk_holds_its_data() {
    let c = OldChunk { data: vec![1, 2, 3] };
    assert_eq!(c.data.len(), 3);
}

#[test]
fn new_meta_chunk_is_air() {
    let m = MetaChunk::new(MetaChunkPos { x: -1, z: 2 }, 7);
    assert_eq!(m.pos, MetaChunkPos { x: -1, z: 2 });
    assert_eq!(m.seed, 7);
    let p = GlobalBlockPos { x: -10, y: 100, z: 600 };
    assert_eq!(m.get_block(&p), get_blockid(BlockType::Air));
    assert!(m.get_chunk(&LocalChunkPos { x: 3, y: 4, z: 5 }).is_some());
}

#[test]
fn meta_chunk_reads_back_a_write() {
    let mut m = MetaChunk::new(MetaChunkPos { x: 0, z: 0 }, 1);
    let p = GlobalBlockPos { x: 20, y: 33, z: 40 };
    m.set_block(&p, get_blockid(BlockType::Dirt));
    assert_eq!(m.get_block(&p), get_blockid(BlockType::Dirt));
    assert_eq!(m.get_block(&GlobalBlockPos { x: 20, y: 34, z: 40 }), get_blockid(BlockType::Air));
}

#[test]
fn first_above_land_finds_the_highest_ground() {
    let mut m = MetaChunk::new(MetaChunkPos { x: 0, z: 0 }, 1);
    let stone = get_blockid(BlockType::Stone);
    m.set_block(&GlobalBlockPos { x: 3, y: 0, z: 4 }, stone);
    m.set_block(&GlobalBlockPos { x: 3, y: 70, z: 4 }, get_blockid(BlockType::Water));
    m.set_block(&GlobalBlockPos { x: 3, y: 90, z: 4 }, get_blockid(BlockType::Leaf));
    assert_eq!(m.first_above_land_y(3, 4), 71);
}

#[test]
fn meta_chunk_chunk_positions() {
    let m = MetaChunk::new(MetaChunkPos { x: -1, z: 1 }, 1);
    assert_eq!(m.get_chunk_pos(&LocalChunkPos { x: 3, y: 2, z: 4 }), ChunkPos { x: -16 + 13, y: 2, z: 20 });
    assert_eq!(m.get_chunk_pos(&LocalChunkPos { x: -3, y: 2, z: -4 }), ChunkPos { x: -16 + 13, y: 2, z: 20 });
}

#[test]
fn retain_keeps_nearby_meta_chunks() {
    let current = MetaChunkPos { x: 0, z: 0 };
    assert!(MetaChunk::retain_meta_chunk(current, MetaChunkPos { x: 5, z: -5 }));
    assert!(!MetaChunk::retain_meta_chunk(current, MetaChunkPos { x: 6, z: 0 }));
    assert!(!MetaChunk::retain_meta_chunk(current, MetaChunkPos { x: 0, z: -6 }));
    assert!(MetaChunk::retain_meta_chunk(MetaChunkPos { x: i32::MIN, z: i32::MAX }, MetaChunkPos { x: i32::MIN, z: i32::MAX }));
}

#[test]
fn meta_chunk_iterator_walks_rows() {
    let m = MetaChunk::new(MetaChunkPos { x: 1, z: 0 }, 1);
    let mut it = m.get_iter();
    let (_, p0) = it.next().unwrap();
    assert_eq!(p0, ChunkPos { x: 16, y: 0, z: 0 });
    let (_, p1) = it.next().unwrap();
    assert_eq!(p1, ChunkPos { x: 17, y: 0, z: 0 });
    let mut count = 2;
    let mut last = p1;
    while let Some((_, p)) = it.next() {
        count += 1;
        last = p;
    }
    // each row also yields the position one past its end
    assert_eq!(count, 17 * 16 * 16 - 2);
    assert_eq!(last, ChunkPos { x: 16 + 14, y: 15, z: 15 });
}

#[test]
fn merging_renumbers_only_the_parent_node() {
    let mut c = Chunk::<4, 2, 8>::generate(&origin());
    let stone = get_blockid(BlockType::Stone);
    c.set_block(stone, &LocalBlockPos { x: 0, y: 0, z: 0 });
    c.set_block(stone, &LocalBlockPos { x: 8, y: 0, z: 0 });
    assert!(c.check_shape());
    c.set_block(get_blockid(BlockType::Air), &LocalBlockPos { x: 0, y: 0, z: 0 });
    // the nodes below the block at (8, 0, 0) kept their old numbers, which
    // now point past the end of their layers
    assert!(!c.check_shape());
    assert_eq!(c.entry(1, 0, 0), BlockIdOrPointer::Ptr(1));
    assert_eq!(c.node_count(2), 1);
}

#[test]
fn check_shape_of_fresh_chunks() {
    assert!(Chunk::<4, 2, 8>::generate(&origin()).check_shape());
    assert!(Chunk::<2, 4, 64>::generate(&origin()).check_shape());
    assert!(Chunk::<4, 2, 8>::params_supported());
    assert!(!Chunk::<2, 8, 8>::params_supported());
    assert!(!Chunk::<33, 2, 8>::params_supported());
}

#[test]
fn for_each_visits_every_chunk_with_its_position() {
    let m = MetaChunk::new(MetaChunkPos { x: 1, z: -1 }, 0);
    let count = std::cell::Cell::new(0usize);
    let last = std::cell::Cell::new(ChunkPos { x: 0, y: 0, z: 0 });
    m.for_each(|_, p| {
        count.set(count.get() + 1);
        last.set(p);
    });
    assert_eq!(count.get(), 4096);
    assert_eq!(last.get(), ChunkPos { x: 31, y: 15, z: -1 });
}

#[test]
fn for_each_mut_changes_every_chunk() {
    let mut m = MetaChunk::new(MetaChunkPos { x: 0, z: 0 }, 0);
    let dirt = get_blockid(BlockType::Dirt);
    m.for_each_mut(|c, _| c.set_block(dirt, &LocalBlockPos { x: 0, y: 0, z: 0 }));
    assert_eq!(m.get_block(&GlobalBlockPos { x: 0, y: 0, z: 0 }), dirt);
    assert_eq!(m.get_block(&GlobalBlockPos { x: 16, y: 32, z: 48 }), dirt);
    assert_eq!(m.get_block(&GlobalBlockPos { x: 17, y: 32, z: 48 }), get_blockid(BlockType::Air));
    let c = m.get_chunk_mut(&LocalChunkPos { x: 2, y: 3, z: 4 }).unwrap();
    c.set_block(get_blockid(BlockType::Sand), &LocalBlockPos { x: 1, y: 1, z: 1 });
    assert_eq!(m.get_block(&GlobalBlockPos { x: 33, y: 49, z: 65 }), get_blockid(BlockType::Sand));
}

#[test]
fn write_keeps_others_flags_a_stale_merge() {
    let mut c = Chunk::<4, 2, 8>::generate(&origin());
    let stone = get_blockid(BlockType::Stone);
    let air = get_blockid(BlockType::Air);
    let p = LocalBlockPos { x: 0, y: 0, z: 0 };
    // any write into a fresh chunk keeps the other blocks
    assert!(c.write_keeps_others(stone, &p));
    c.set_block(stone, &p);
    assert!(c.write_keeps_others(air, &p));
    c.set_block(stone, &LocalBlockPos { x: 8, y: 0, z: 0 });
    // writing air back at (0, 0, 0) would merge away nodes that the nodes
    // under (8, 0, 0) point past
    assert!(!c.write_keeps_others(air, &p));
    // a write that merges nothing is safe
    assert!(c.write_keeps_others(stone, &LocalBlockPos { x: 1, y: 0, z: 0 }));
    assert!(c.write_keeps_others(air, &LocalBlockPos { x: 3, y: 3, z: 3 }));
    // writing the block already there is safe
    assert!(c.write_keeps_others(stone, &p));
}

#[test]
fn write_keeps_others_then_read_back() {
    let mut c = Chunk::<4, 2, 8>::generate(&origin());
    let sand = get_blockid(BlockType::Sand);
    let p = LocalBlockPos { x: 6, y: 2, z: 13 };
    assert!(c.write_keeps_others(sand, &p));
    c.set_block(sand, &p);
    assert_eq!(c.get_block(&p), sand);
    assert_eq!(c.get_block(&LocalBlockPos { x: 7, y: 2, z: 13 }), get_blockid(BlockType::Air));
}

#[test]
fn meta_chunk_write_keeps_others() {
    let mut m = MetaChunk::new(MetaChunkPos { x: 0, z: 0 }, 1);
    let p = GlobalBlockPos { x: 5, y: 40, z: 7 };
    let air = get_blockid(BlockType::Air);
    assert!(m.write_keeps_others(&p, get_blockid(BlockType::Dirt)));
    m.set_block(&p, get_blockid(BlockType::Dirt));
    m.set_block(&GlobalBlockPos { x: 13, y: 40, z: 7 }, get_blockid(BlockType::Dirt));
    assert!(!m.write_keeps_others(&p, air));
}
