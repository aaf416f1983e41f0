use vox::blocks::block::{get_blockid, BlockType};
use vox::positions::{ChunkPos, GlobalBlockPos, MetaChunkPos};
use vox::world::small_world::{meta_chunk_key, meta_chunk_pos_before, order_meta_chunk_pos, SmallWorld};
use vox::world_gen::meta_chunk::MetaChunk;
use std::cmp::Ordering;

fn world_with(positions: &[(i32, i32)]) -> SmallWorld {
    let mut w = SmallWorld::new(3);
    for &(x, z) in positions {
        let p = MetaChunkPos { x, z };
        w.add_chunk(p, MetaChunk::new(p, 3));
    }
    w
}

#[test]
fn new_world_is_empty() {
    let w = SmallWorld::new(9);
    assert_eq!(w.count_chunks(), 0);
    assert_eq!(w.world_seed, 9);
    assert!(w.get_meta_chunk(&MetaChunkPos { x: 0, z: 0 }).is_none());
    assert!(!w.chunk_exists_or_generating(&MetaChunkPos { x: 0, z: 0 }));
}

#[test]
fn added_meta_chunks_are_found() {
    let w = world_with(&[(2, 0), (-1, 5), (0, 0), (0, -3), (7, 7)]);
    assert_eq!(w.count_chunks(), 5);
    for (x, z) in [(2, 0), (-1, 5), (0, 0), (0, -3), (7, 7)] {
        let m = w.get_meta_chunk(&MetaChunkPos { x, z }).unwrap();
        assert_eq!(m.pos, MetaChunkPos { x, z });
    }
    assert!(w.get_meta_chunk(&MetaChunkPos { x: 1, z: 0 }).is_none());
    assert!(w.chunk_exists_or_generating(&MetaChunkPos { x: 7, z: 7 }));
}

#[test]
fn meta_chunks_being_generated_exist() {
    let mut w = SmallWorld::new(1);
    let p = MetaChunkPos { x: -4, z: 9 };
    w.loading_chunks.insert(meta_chunk_key(&p));
    assert!(w.chunk_exists_or_generating(&p));
    assert!(!w.chunk_exists_or_generating(&MetaChunkPos { x: 9, z: -4 }));
}

#[test]
fn meta_chunk_keys_are_distinct() {
    let a = meta_chunk_key(&MetaChunkPos { x: 1, z: 0 });
    let b = meta_chunk_key(&MetaChunkPos { x: 0, z: 1 });
    let c = meta_chunk_key(&MetaChunkPos { x: -1, z: -1 });
    assert_ne!(a, b);
    assert_ne!(a, c);
    assert_ne!(b, c);
    assert_eq!(meta_chunk_key(&MetaChunkPos { x: i32::MIN, z: i32::MIN }), 0);
    assert_eq!(meta_chunk_key(&MetaChunkPos { x: 0, z: 0 }), 0x8000_0000_8000_0000);
}

#[test]
fn meta_chunk_positions_order_by_x_then_z() {
    let a = MetaChunkPos { x: 0, z: 5 };
    let b = MetaChunkPos { x: 1, z: -5 };
    assert_eq!(order_meta_chunk_pos(&a, &b), Ordering::Less);
    assert_eq!(order_meta_chunk_pos(&b, &a), Ordering::Greater);
    assert_eq!(order_meta_chunk_pos(&a, &a), Ordering::Equal);
    assert_eq!(order_meta_chunk_pos(&a, &b), a.cmp(&b));
    assert!(meta_chunk_pos_before(&a, &b));
    assert!(meta_chunk_pos_before(&MetaChunkPos { x: 0, z: 4 }, &a));
    assert!(!meta_chunk_pos_before(&a, &a));
}

#[test]
fn filter_keeps_meta_chunks_near_the_player() {
    let mut w = world_with(&[(0, 0), (5, 5), (6, 0), (-6, 1), (3, -5), (0, 100)]);
    w.filter_chunks(MetaChunkPos { x: 0, z: 0 });
    assert_eq!(w.count_chunks(), 3);
    assert!(w.get_meta_chunk(&MetaChunkPos { x: 0, z: 0 }).is_some());
    assert!(w.get_meta_chunk(&MetaChunkPos { x: 5, z: 5 }).is_some());
    assert!(w.get_meta_chunk(&MetaChunkPos { x: 3, z: -5 }).is_some());
    assert!(w.get_meta_chunk(&MetaChunkPos { x: 6, z: 0 }).is_none());
}

#[test]
fn world_reads_back_a_write() {
    let mut w = world_with(&[(0, 0), (-1, 0)]);
    let p = GlobalBlockPos { x: -3, y: 64, z: 10 };
    assert_eq!(w.get_block(&p), Some(get_blockid(BlockType::Air)));
    w.set_block(get_blockid(BlockType::Sand), p);
    assert_eq!(w.get_block(&p), Some(get_blockid(BlockType::Sand)));
    assert_eq!(w.get_block(&GlobalBlockPos { x: -2, y: 64, z: 10 }), Some(get_blockid(BlockType::Air)));
    assert_eq!(w.get_block(&GlobalBlockPos { x: 3, y: 64, z: 10 }), Some(get_blockid(BlockType::Air)));
}

#[test]
fn world_without_the_chunk_reads_nothing() {
    let mut w = world_with(&[(0, 0)]);
    let far = GlobalBlockPos { x: 1000, y: 5, z: 5 };
    assert_eq!(w.get_block(&far), None);
    w.set_block(get_blockid(BlockType::Stone), far);
    assert_eq!(w.get_block(&far), None);
    assert!(w.get_chunk(&ChunkPos { x: 0, y: 16, z: 0 }).is_none());
    assert!(w.get_chunk(&ChunkPos { x: 0, y: 15, z: 0 }).is_some());
    assert!(w.get_block(&GlobalBlockPos { x: 1, y: 256, z: 1 }).is_none());
}

#[test]
fn chunk_below_the_world_shares_a_column_chunk() {
    let mut w = world_with(&[(0, 0)]);
    let low = GlobalBlockPos { x: 1, y: -1, z: 1 };
    w.set_block(get_blockid(BlockType::Stone), low);
    // the chunk at height -1 is stored where the chunk at height 15 is
    assert_eq!(w.get_block(&GlobalBlockPos { x: 1, y: 255, z: 1 }), Some(get_blockid(BlockType::Stone)));
}

#[test]
fn chunk_mut_changes_the_world() {
    let mut w = world_with(&[(0, 0)]);
    let c = w.get_chunk_mut(&ChunkPos { x: 1, y: 0, z: 0 }).unwrap();
    c.set_block(get_blockid(BlockType::Dirt), &vox::positions::LocalBlockPos { x: 0, y: 0, z: 0 });
    assert_eq!(w.get_block(&GlobalBlockPos { x: 16, y: 0, z: 0 }), Some(get_blockid(BlockType::Dirt)));
    let m = w.get_meta_chunk_mut(&MetaChunkPos { x: 0, z: 0 }).unwrap();
    m.set_block(&GlobalBlockPos { x: 17, y: 0, z: 0 }, get_blockid(BlockType::Dirt));
    assert_eq!(w.get_block(&GlobalBlockPos { x: 17, y: 0, z: 0 }), Some(get_blockid(BlockType::Dirt)));
    assert!(w.get_meta_chunk_mut(&MetaChunkPos { x: 1, z: 0 }).is_none());
}

#[test]
fn all_chunks_are_sorted_by_position() {
    let w = world_with(&[(2, 0), (-1, 5), (0, 0), (0, -3)]);
    let all = w.get_all_chunks();
    let positions: Vec<MetaChunkPos> = all.iter().map(|(p, _)| *p).collect();
    assert_eq!(
        positions,
        vec![
            MetaChunkPos { x: -1, z: 5 },
            MetaChunkPos { x: 0, z: -3 },
            MetaChunkPos { x: 0, z: 0 },
            MetaChunkPos { x: 2, z: 0 },
        ]
    );
}

#[test]
fn world_write_keeps_others() {
    let mut w = world_with(&[(0, 0)]);
    let dirt = get_blockid(BlockType::Dirt);
    let air = get_blockid(BlockType::Air);
    let p = GlobalBlockPos { x: 2, y: 20, z: 3 };
    assert!(w.write_keeps_others(dirt, &p));
    w.set_block(dirt, p);
    w.set_block(dirt, GlobalBlockPos { x: 10, y: 20, z: 3 });
    assert!(!w.write_keeps_others(air, &p));
    // a block whose chunk is not loaded
    assert!(w.write_keeps_others(air, &GlobalBlockPos { x: 1000, y: 20, z: 3 }));
}
