use vox::blocks::block::{get_blockid, BlockType};
use vox::positions::{GlobalBlockPos, MetaChunkPos};
use vox::structures::square::place_square;
use vox::structures::tree::{place_tree_of_height, random_tree_height};
use vox::world_gen::meta_chunk::MetaChunkChunk;
use vox::world_gen::meta_chunk::MetaChunk;

fn meta() -> MetaChunk {
    MetaChunk::new(MetaChunkPos { x: 0, z: 0 }, 0)
}

/// The storage of the chunk that holds `p`.
fn chunk_at<'a>(m: &'a MetaChunk, p: &GlobalBlockPos) -> &'a MetaChunkChunk {
    m.get_chunk(&p.get_local_chunk()).unwrap()
}

#[test]
fn square_fills_a_cube_with_sand() {
    // the same writes one by one: each finds its chunk's storage whole
    let mut probe = meta();
    let base = GlobalBlockPos { x: 8, y: 20, z: 28 };
    let sand = get_blockid(BlockType::Sand);
    for x in 0..4 {
        for y in 0..4 {
            for z in 0..4 {
                let p = base.get_diff(x, y, z);
                assert!(chunk_at(&probe, &p).check_shape());
                probe.set_block(&p, sand);
            }
        }
    }
    let mut m = meta();
    place_square(&base, 4, &mut m);
    for x in 0..4 {
        for y in 0..4 {
            for z in 0..4 {
                assert_eq!(m.get_block(&base.get_diff(x, y, z)), sand);
            }
        }
    }
    assert_eq!(m.get_block(&base.get_diff(4, 0, 0)), get_blockid(BlockType::Air));
    assert_eq!(m.get_block(&base.get_diff(0, -1, 0)), get_blockid(BlockType::Air));
    assert!(chunk_at(&m, &base).check_shape());
}

#[test]
fn empty_square_changes_nothing() {
    let mut m = meta();
    let base = GlobalBlockPos { x: 1, y: 1, z: 1 };
    place_square(&base, 0, &mut m);
    assert_eq!(m.get_block(&base), get_blockid(BlockType::Air));
}

#[test]
fn tree_of_height_eight() {
    // the same steps one by one: each finds its chunk's storage whole
    let mut probe = meta();
    let base = GlobalBlockPos { x: 50, y: 101, z: 50 };
    for y in 0..8 {
        if y < 6 {
            let p = base.get_diff(0, y, 0);
            assert!(chunk_at(&probe, &p).check_shape());
            probe.set_block(&p, get_blockid(BlockType::Sand));
        }
        if y >= 4 {
            let r = 8 - y - 1;
            for x in -r..=r {
                for z in -r..=r {
                    let p = base.get_diff(x, y, z);
                    assert!(chunk_at(&probe, &p).check_shape());
                    if probe.get_block(&p) == get_blockid(BlockType::Air) {
                        probe.set_block(&p, get_blockid(BlockType::Leaf));
                    }
                }
            }
        }
    }
    let mut m = meta();
    place_tree_of_height(&base, 8, &mut m);
    let sand = get_blockid(BlockType::Sand);
    let leaf = get_blockid(BlockType::Leaf);
    let air = get_blockid(BlockType::Air);
    for y in 0..6 {
        assert_eq!(m.get_block(&base.get_diff(0, y, 0)), sand);
    }
    // above the trunk: leaves up to the top
    assert_eq!(m.get_block(&base.get_diff(0, 6, 0)), leaf);
    assert_eq!(m.get_block(&base.get_diff(0, 7, 0)), leaf);
    assert_eq!(m.get_block(&base.get_diff(0, 8, 0)), air);
    // the crown shrinks by one block each layer
    assert_eq!(m.get_block(&base.get_diff(3, 4, -3)), leaf);
    assert_eq!(m.get_block(&base.get_diff(4, 4, 0)), air);
    assert_eq!(m.get_block(&base.get_diff(2, 5, 2)), leaf);
    assert_eq!(m.get_block(&base.get_diff(3, 5, 0)), air);
    assert_eq!(m.get_block(&base.get_diff(1, 7, 0)), air);
    // no leaves below height 4
    assert_eq!(m.get_block(&base.get_diff(1, 3, 0)), air);
}

#[test]
fn tree_heights_lie_between_eight_and_eleven() {
    let mut seen = [false; 12];
    for _ in 0..400 {
        let h = random_tree_height();
        assert!((8..12).contains(&h));
        seen[h as usize] = true;
    }
    // four hundred draws from four heights show more than one of them
    assert!(seen.iter().filter(|&&s| s).count() > 1);
}
