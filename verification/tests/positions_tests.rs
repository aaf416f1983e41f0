use vox::positions::{ChunkPos, GlobalBlockPos, LocalBlockPos, LocalChunkPos, MetaChunkPos};
use vox::utils::{coord_to_array_indice, floor_div, pow_u32, to_sign_of, wrap};

#[test]
fn wrap_positive_values_take_the_remainder() {
    assert_eq!(wrap(0, 16), 0);
    assert_eq!(wrap(17, 16), 1);
    assert_eq!(wrap(15, 16), 15);
}

#[test]
fn wrap_negative_values_into_the_range() {
    assert_eq!(wrap(-1, 16), 15);
    assert_eq!(wrap(-16, 16), 0);
    assert_eq!(wrap(-17, 16), 15);
    assert_eq!(wrap(i32::MIN, 16), 0);
}

#[test]
fn wrap_with_a_negative_max() {
    assert_eq!(wrap(5, -3), 2);
    assert_eq!(wrap(-5, -3), -2);
    assert_eq!(wrap(-6, -3), 0);
}

#[test]
fn floor_div_rounds_down() {
    assert_eq!(floor_div(15, 16), 0);
    assert_eq!(floor_div(16, 16), 1);
    assert_eq!(floor_div(-1, 16), -1);
    assert_eq!(floor_div(-16, 16), -1);
    assert_eq!(floor_div(-17, 16), -2);
    assert_eq!(floor_div(i32::MIN, 256), -8388608);
}

#[test]
fn floor_div_and_wrap_split_a_value() {
    for v in [-300, -257, -256, -1, 0, 1, 255, 256, 1000, i32::MIN, i32::MAX] {
        for d in [1, 16, 256] {
            assert_eq!(floor_div(v, d) as i64 * d as i64 + wrap(v, d) as i64, v as i64);
            assert!(0 <= wrap(v, d) && wrap(v, d) < d);
        }
    }
}

#[test]
fn to_sign_of_moves_the_sign() {
    assert_eq!(to_sign_of(-3, 5), -5);
    assert_eq!(to_sign_of(-3, -5), -5);
    assert_eq!(to_sign_of(3, -5), 5);
    assert_eq!(to_sign_of(0, -2), 2);
}

#[test]
fn coord_to_array_indice_is_x_first() {
    assert_eq!(coord_to_array_indice(1, 2, 3, 16), 801);
    assert_eq!(coord_to_array_indice(0, 0, 0, 16), 0);
    assert_eq!(coord_to_array_indice(15, 15, 15, 16), 4095);
}

#[test]
fn pow_u32_of_small_values() {
    assert_eq!(pow_u32(2, 4), 16);
    assert_eq!(pow_u32(4, 0), 1);
    assert_eq!(pow_u32(16, 3), 4096);
}

#[test]
fn global_block_pos_splits_into_chunk_and_local() {
    let p = GlobalBlockPos { x: -1, y: 17, z: 300 };
    assert_eq!(p.get_chunk_pos(), ChunkPos { x: -1, y: 1, z: 18 });
    assert_eq!(p.get_local_pos(), LocalBlockPos { x: 15, y: 1, z: 12 });
    assert_eq!(p.get_meta_chunk_pos(), MetaChunkPos { x: -1, z: 1 });
    assert_eq!(p.get_local_chunk(), LocalChunkPos { x: 15, y: 1, z: 2 });
}

#[test]
fn block_pos_is_chunk_times_size_plus_local() {
    for p in [
        GlobalBlockPos { x: -1, y: 0, z: 0 },
        GlobalBlockPos { x: -17, y: 255, z: 4096 },
        GlobalBlockPos { x: i32::MIN, y: i32::MAX, z: 7 },
    ] {
        let c = p.get_chunk_pos();
        let l = p.get_local_pos();
        assert_eq!(c.x as i64 * 16 + l.x as i64, p.x as i64);
        assert_eq!(c.y as i64 * 16 + l.y as i64, p.y as i64);
        assert_eq!(c.z as i64 * 16 + l.z as i64, p.z as i64);
        assert_eq!(c.get_meta_chunk_pos(), p.get_meta_chunk_pos());
        let lc = c.get_local_chunk_pos();
        assert_eq!(lc, p.get_local_chunk());
    }
}

#[test]
fn chunk_pos_is_recovered_from_meta_and_local() {
    let c = ChunkPos { x: -33, y: 5, z: 40 };
    let m = c.get_meta_chunk_pos();
    let l = c.get_local_chunk_pos();
    assert_eq!(m, MetaChunkPos { x: -3, z: 2 });
    assert_eq!(l, LocalChunkPos { x: 15, y: 5, z: 8 });
    assert_eq!(l.get_chunk_pos(&m), c);
}

#[test]
fn get_diff_moves_positions() {
    let p = GlobalBlockPos { x: 1, y: 2, z: 3 };
    assert_eq!(p.get_diff(-1, 1, 0), GlobalBlockPos { x: 0, y: 3, z: 3 });
    assert_eq!(p.sub(2), GlobalBlockPos { x: -1, y: 0, z: 1 });
    let c = ChunkPos { x: 1, y: 2, z: 3 };
    assert_eq!(c.get_diff(1, 1, 1), ChunkPos { x: 2, y: 3, z: 4 });
    assert!(c.in_fov());
    let m = MetaChunkPos { x: 1, z: 2 };
    assert_eq!(m.get_diff(-2, 0), MetaChunkPos { x: -1, z: 2 });
    let l = LocalBlockPos { x: 1, y: 2, z: 3 };
    assert_eq!(l.get_diff(0, 0, -3), LocalBlockPos { x: 1, y: 2, z: 0 });
}
