use vox::algorithms::bfs_world::{block_key, push_sides, Blocksides};
use vox::blocks::block::{get_blockid, BlockType};
use vox::blocks::block_mesh::{get_mesh, BlockVertex, FaceNormal};
use vox::blocks::blockside::BlockSides;
use vox::positions::{ChunkPos, GlobalBlockPos, MetaChunkPos};
use vox::world::small_world::SmallWorld;
use vox::world_gen::meta_chunk::MetaChunk;
use vox::world_gen::vertex_generation::{get_chunk_vertices, should_render_against_block, sides_to_render};
use std::collections::{HashSet, VecDeque};

fn all_sides() -> BlockSides {
    let mut s = BlockSides::new();
    s.set_all(true);
    s
}

#[test]
fn air_has_no_mesh() {
    let (v, i) = get_mesh(get_blockid(BlockType::Air), &GlobalBlockPos { x: 0, y: 0, z: 0 }, &all_sides());
    assert_eq!(v.len(), 0);
    assert_eq!(i.len(), 0);
}

#[test]
fn a_full_block_has_six_faces() {
    let stone = get_blockid(BlockType::Stone);
    let (v, i) = get_mesh(stone, &GlobalBlockPos { x: 1, y: 2, z: 3 }, &all_sides());
    assert_eq!(v.len(), 24);
    assert_eq!(i.len(), 36);
    assert_eq!(&i[0..6], &[0, 1, 2, 1, 3, 2]);
    assert_eq!(&i[30..36], &[20, 21, 22, 21, 23, 22]);
    // the right face comes first
    assert_eq!(v[0], BlockVertex { x: 2, y: 2, z: 3, material: 3, normal: FaceNormal::Right });
    assert_eq!(v[3], BlockVertex { x: 2, y: 3, z: 4, material: 3, normal: FaceNormal::Right });
    // the front face comes last
    assert_eq!(v[20], BlockVertex { x: 1, y: 2, z: 3, material: 3, normal: FaceNormal::Front });
    assert_eq!(v[23], BlockVertex { x: 2, y: 3, z: 3, material: 3, normal: FaceNormal::Front });
}

#[test]
fn only_open_sides_are_meshed() {
    let mut s = BlockSides::new();
    s.top = true;
    s.back = true;
    let (v, i) = get_mesh(get_blockid(BlockType::Sand), &GlobalBlockPos { x: -1, y: 0, z: 0 }, &s);
    assert_eq!(v.len(), 8);
    assert_eq!(&i[..], &[0, 1, 2, 1, 3, 2, 4, 5, 6, 5, 7, 6]);
    assert_eq!(v[0].normal, FaceNormal::Up);
    assert_eq!(v[0], BlockVertex { x: -1, y: 1, z: 0, material: 4, normal: FaceNormal::Up });
    assert_eq!(v[4], BlockVertex { x: -1, y: 0, z: 1, material: 4, normal: FaceNormal::Back });
}

fn one_meta_chunk_world() -> SmallWorld {
    let mut w = SmallWorld::new(0);
    let p = MetaChunkPos { x: 0, z: 0 };
    w.add_chunk(p, MetaChunk::new(p, 0));
    w
}

#[test]
fn sides_of_a_single_block() {
    let mut w = one_meta_chunk_world();
    let p = GlobalBlockPos { x: 5, y: 5, z: 5 };
    w.set_block(get_blockid(BlockType::Stone), p);
    w.set_block(get_blockid(BlockType::Dirt), GlobalBlockPos { x: 6, y: 5, z: 5 });
    let s = sides_to_render(&w, &p);
    assert!(!s.right);
    assert!(s.left && s.top && s.bot && s.back && s.front);
    // above the world and below it faces are always drawn
    assert!(should_render_against_block(&w, &GlobalBlockPos { x: 0, y: 256, z: 0 }, 3));
    assert!(should_render_against_block(&w, &GlobalBlockPos { x: 0, y: -1, z: 0 }, 3));
    // where nothing is loaded too
    assert!(should_render_against_block(&w, &GlobalBlockPos { x: -1, y: 0, z: 0 }, 3));
}

#[test]
fn chunk_vertices_of_two_blocks() {
    let mut w = one_meta_chunk_world();
    w.set_block(get_blockid(BlockType::Water), GlobalBlockPos { x: 1, y: 1, z: 1 });
    w.set_block(get_blockid(BlockType::Stone), GlobalBlockPos { x: 8, y: 8, z: 8 });
    let (v, i) = get_chunk_vertices(&w, &ChunkPos { x: 0, y: 0, z: 0 });
    assert_eq!(v.len(), 48);
    assert_eq!(i.len(), 72);
    // the stone comes first, the water after it
    assert_eq!(v[0].material, 3);
    assert_eq!(v[24].material, 1);
    assert_eq!(&i[36..42], &[24, 25, 26, 25, 27, 26]);
    assert!(i.iter().all(|&k| (k as usize) < v.len()));
}

#[test]
fn chunk_vertices_of_an_empty_or_missing_chunk() {
    let w = one_meta_chunk_world();
    let (v, i) = get_chunk_vertices(&w, &ChunkPos { x: 0, y: 3, z: 0 });
    assert!(v.is_empty() && i.is_empty());
    let (v, i) = get_chunk_vertices(&w, &ChunkPos { x: 100, y: 0, z: 0 });
    assert!(v.is_empty() && i.is_empty());
}

#[test]
fn push_sides_queues_open_unvisited_neighbours() {
    let mut q: VecDeque<(GlobalBlockPos, u32)> = VecDeque::new();
    let mut visited: HashSet<u128> = HashSet::new();
    let p = GlobalBlockPos { x: 0, y: 5, z: 0 };
    visited.insert(block_key(&GlobalBlockPos { x: -1, y: 5, z: 0 }));
    let mut s = Blocksides::new();
    s.right = true;
    s.left = true;
    s.top_front = true;
    s.back = true;
    push_sides(&mut q, &visited, &s, &p, 2);
    let got: Vec<_> = q.into_iter().collect();
    assert_eq!(
        got,
        vec![
            (GlobalBlockPos { x: 1, y: 5, z: 0 }, 2),
            (GlobalBlockPos { x: 0, y: 6, z: 1 }, 2),
            (GlobalBlockPos { x: 0, y: 5, z: -1 }, 2),
        ]
    );
}

#[test]
fn bottom_back_steps_like_bottom_front() {
    let mut q: VecDeque<(GlobalBlockPos, u32)> = VecDeque::new();
    let visited: HashSet<u128> = HashSet::new();
    let mut s = Blocksides::default();
    s.bottom_back = true;
    s.bottom_front = true;
    push_sides(&mut q, &visited, &s, &GlobalBlockPos { x: 0, y: 0, z: 0 }, 0);
    assert_eq!(q.len(), 2);
    assert_eq!(q[0], q[1]);
    assert_eq!(q[0].0, GlobalBlockPos { x: 0, y: -1, z: 1 });
}

#[test]
fn block_keys_are_distinct() {
    let a = block_key(&GlobalBlockPos { x: 1, y: 0, z: 0 });
    let b = block_key(&GlobalBlockPos { x: 0, y: 1, z: 0 });
    let c = block_key(&GlobalBlockPos { x: 0, y: 0, z: 1 });
    assert_ne!(a, b);
    assert_ne!(b, c);
    assert_ne!(a, c);
    assert_eq!(block_key(&GlobalBlockPos { x: i32::MIN, y: i32::MIN, z: i32::MIN }), 0);
}
