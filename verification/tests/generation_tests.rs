use vox::blocks::block::{get_blockid, BlockType};
use vox::positions::ChunkPos;
use vox::utils::coord_to_array_indice;
use vox::world_gen::basic::{
    floodfill_water, generate_chunk_data, generate_empty_chunk_data, generate_landmass, plant_grass, GRASS_LINE,
    WATER_LEVEL,
};
use vox::world_gen::generator::{area_block, area_coords};

fn at(chunk: &Vec<u8>, x: u32, y: u32, z: u32) -> u8 {
    chunk[coord_to_array_indice(x, y, z, 16)]
}

fn flat_heights(h: i32) -> Vec<i32> {
    vec![h; 256]
}

#[test]
fn empty_chunk_data_is_air() {
    let c = generate_empty_chunk_data();
    assert_eq!(c.len(), 4096);
    assert!(c.iter().all(|&b| b == get_blockid(BlockType::Air)));
}

#[test]
fn landmass_fills_below_the_height() {
    let mut heights = flat_heights(20);
    heights[3 + 4 * 16] = 40;
    heights[5] = -3;
    let pos = ChunkPos { x: 0, y: 1, z: 0 };
    let mut c = generate_empty_chunk_data();
    generate_landmass(&heights, &pos, &mut c);
    let stone = get_blockid(BlockType::Stone);
    let air = get_blockid(BlockType::Air);
    // world heights 16..20 are stone in the chunk at height 1
    assert_eq!(at(&c, 0, 3, 0), stone);
    assert_eq!(at(&c, 0, 4, 0), air);
    // a column higher than the chunk is stone all the way up
    assert_eq!(at(&c, 3, 15, 4), stone);
    // a column below the chunk has no stone
    assert_eq!(at(&c, 5, 0, 0), air);
}

#[test]
fn water_fills_air_below_the_water_level() {
    assert_eq!(WATER_LEVEL, 85);
    let pos = ChunkPos { x: 0, y: 5, z: 0 };
    let mut c = generate_empty_chunk_data();
    let stone = get_blockid(BlockType::Stone);
    c[coord_to_array_indice(1, 2, 3, 16)] = stone;
    floodfill_water(&pos, &mut c);
    let water = get_blockid(BlockType::Water);
    // world height 80 + 4 = 84 is below the level, 85 is not
    assert_eq!(at(&c, 0, 4, 0), water);
    assert_eq!(at(&c, 0, 5, 0), get_blockid(BlockType::Air));
    assert_eq!(at(&c, 1, 2, 3), stone);
}

#[test]
fn grass_grows_on_the_surface_below_the_grass_line() {
    assert_eq!(GRASS_LINE, 204);
    let mut heights = flat_heights(100);
    heights[1] = 204;
    heights[2] = 205;
    heights[3] = 95;
    let pos = ChunkPos { x: 0, y: 12, z: 0 };
    let mut c = generate_empty_chunk_data();
    plant_grass(&heights, &pos, &mut c);
    let grass = get_blockid(BlockType::Grass);
    // height 204 lies at 12 in the chunk at height 12 (192..208)
    assert_eq!(at(&c, 1, 12, 0), grass);
    // 205 lies above the grass line
    assert_eq!(at(&c, 2, 13, 0), get_blockid(BlockType::Air));
    // 100 and 95 lie below the chunk
    assert!(c.iter().filter(|&&b| b == grass).count() == 1);
}

#[test]
fn full_generation_pass() {
    let mut heights = flat_heights(70);
    heights[0] = 90;
    let pos = ChunkPos { x: 2, y: 4, z: -1 };
    let c = generate_chunk_data(&heights, &pos);
    let stone = get_blockid(BlockType::Stone);
    let water = get_blockid(BlockType::Water);
    let grass = get_blockid(BlockType::Grass);
    let air = get_blockid(BlockType::Air);
    // chunk covers world heights 64..80: stone below 70, grass at 70, water up to 84
    assert_eq!(at(&c, 5, 5, 5), stone);
    assert_eq!(at(&c, 5, 6, 5), grass);
    assert_eq!(at(&c, 5, 7, 5), water);
    assert_eq!(at(&c, 5, 15, 5), water);
    // column (0, 0) reaches 90, above this chunk
    assert_eq!(at(&c, 0, 15, 0), stone);
    let high = generate_chunk_data(&heights, &ChunkPos { x: 0, y: 6, z: 0 });
    // world heights 96..112: above the land and the water
    assert!(high.iter().all(|&b| b == air));
}

#[test]
fn area_cells_and_blocks() {
    assert_eq!(area_coords(0, 4), (0, 0, 0));
    assert_eq!(area_coords(5, 4), (1, 1, 0));
    assert_eq!(area_coords(63, 4), (3, 3, 3));
    assert_eq!(area_coords(64, 4), (0, 0, 0));
    assert_eq!(area_block(0, true), 1);
    assert_eq!(area_block(9, true), 2);
    assert_eq!(area_block(15, true), 8);
    assert_eq!(area_block(15, false), 0);
}
