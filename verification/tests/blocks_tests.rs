use vox::blocks::block::{get_blockid, get_blocktype, is_opaque, should_render_against, BlockType};
use vox::blocks::blockside::BlockSides;
use vox::render::view_type::ViewType;

#[test]
fn block_ids_of_kinds() {
    assert_eq!(get_blockid(BlockType::Grass), 0);
    assert_eq!(get_blockid(BlockType::Water), 1);
    assert_eq!(get_blockid(BlockType::Stone), 3);
    assert_eq!(get_blockid(BlockType::Air), 5);
    assert_eq!(get_blockid(BlockType::Unknown), 255);
    assert_eq!(get_blocktype(6), BlockType::Leaf);
    assert_eq!(get_blocktype(7), BlockType::Unknown);
    assert_eq!(get_blocktype(255), BlockType::Unknown);
}

#[test]
fn block_ids_round_trip() {
    for t in [
        BlockType::Grass,
        BlockType::Water,
        BlockType::Dirt,
        BlockType::Stone,
        BlockType::Sand,
        BlockType::Air,
        BlockType::Leaf,
        BlockType::Unknown,
    ] {
        assert_eq!(get_blocktype(get_blockid(t)), t);
    }
    for id in 0u8..7 {
        assert_eq!(get_blockid(get_blocktype(id)), id);
    }
}

#[test]
fn opaque_blocks() {
    for id in [0u8, 2, 3, 4, 6] {
        assert!(is_opaque(id));
    }
    for id in [1u8, 5, 255] {
        assert!(!is_opaque(id));
    }
}

#[test]
fn render_against_rules() {
    let stone = get_blockid(BlockType::Stone);
    let water = get_blockid(BlockType::Water);
    let air = get_blockid(BlockType::Air);
    let leaf = get_blockid(BlockType::Leaf);
    assert!(!should_render_against(stone, stone));
    assert!(!should_render_against(leaf, leaf));
    assert!(should_render_against(leaf, stone));
    assert!(!should_render_against(water, stone));
    assert!(should_render_against(stone, water));
    assert!(should_render_against(stone, air));
    assert!(should_render_against(water, air));
}

#[test]
fn block_sides_all() {
    let mut s = BlockSides::new();
    assert!(s.is_all(false));
    assert!(!s.is_all(true));
    s.top = true;
    assert!(!s.is_all(false));
    s.set_all(true);
    assert!(s.is_all(true));
    assert!(s.top && s.bot && s.left && s.right && s.front && s.back);
}

#[test]
fn view_type_codes() {
    assert_eq!(ViewType::Standard.code(), 1);
    assert_eq!(ViewType::Complexity.code(), 2);
    assert_eq!(ViewType::Unshaded.code(), 3);
}
