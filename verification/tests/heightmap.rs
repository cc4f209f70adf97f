use pumpkin_world::chunk::heightmap::{ChunkHeightmapType, ChunkHeightmaps};
use pumpkin_world::math::{BlockPos, Vector3};

fn block(x: i32, y: i32, z: i32) -> BlockPos {
    BlockPos(Vector3 { x, y, z })
}

#[test]
fn heightmap_type_from_index() {
    assert_eq!(ChunkHeightmapType::try_from(0usize), Ok(ChunkHeightmapType::WorldSurface));
    assert_eq!(ChunkHeightmapType::try_from(1usize), Ok(ChunkHeightmapType::MotionBlocking));
    assert_eq!(ChunkHeightmapType::try_from(2usize), Ok(ChunkHeightmapType::MotionBlockingNoLeaves));
    assert_eq!(
        ChunkHeightmapType::try_from(3usize),
        Err("Invalid usize value for ChunkHeightmapType. The value should be 0~2.")
    );
}

#[test]
fn default_heightmaps_are_zero() {
    let h = ChunkHeightmaps::default();
    assert_eq!(h.world_surface, vec![0i64; 37]);
    assert_eq!(h.motion_blocking, vec![0i64; 37]);
    assert_eq!(h.motion_blocking_no_leaves, vec![0i64; 37]);
    assert_eq!(h.get(ChunkHeightmapType::WorldSurface, 7, 9, -64), -64);
    assert_eq!(h.get(ChunkHeightmapType::MotionBlocking, 0, 0, 0), 0);
}

#[test]
fn set_packs_nine_bits_per_column() {
    let mut h = ChunkHeightmaps::default();
    // Column 5 * 16 + 3 = 83: long 11, seventh slot, shifted up by one bit.
    h.set(ChunkHeightmapType::WorldSurface, block(3, 70, 5), -64);
    assert_eq!(h.world_surface[11], 134 << 1);
    // Column 0: the top nine bits of the first long.
    h.set(ChunkHeightmapType::MotionBlocking, block(0, 1, 0), 0);
    assert_eq!(h.motion_blocking[0], 1i64 << 55);
}

#[test]
fn get_after_set() {
    let mut h = ChunkHeightmaps::default();
    h.set(ChunkHeightmapType::WorldSurface, block(3, 70, 5), -64);
    assert_eq!(h.get(ChunkHeightmapType::WorldSurface, 3, 5, -64), 70);
    // Coordinates are taken within the chunk.
    assert_eq!(h.get(ChunkHeightmapType::WorldSurface, 19, -11, -64), 70);
    // Other columns and other heightmaps keep their heights.
    assert_eq!(h.get(ChunkHeightmapType::WorldSurface, 4, 5, -64), -64);
    assert_eq!(h.get(ChunkHeightmapType::MotionBlocking, 3, 5, -64), -64);
    assert_eq!(h.get(ChunkHeightmapType::MotionBlockingNoLeaves, 3, 5, -64), -64);
}

#[test]
fn neighbouring_columns_do_not_interfere() {
    let mut h = ChunkHeightmaps::default();
    for x in 0..16 {
        h.set(ChunkHeightmapType::MotionBlockingNoLeaves, block(x, 300 + x, 0), -64);
    }
    for x in 0..16 {
        assert_eq!(h.get(ChunkHeightmapType::MotionBlockingNoLeaves, x, 0, -64), 300 + x);
    }
    h.set(ChunkHeightmapType::MotionBlockingNoLeaves, block(5, -10, 0), -64);
    assert_eq!(h.get(ChunkHeightmapType::MotionBlockingNoLeaves, 5, 0, -64), -10);
    assert_eq!(h.get(ChunkHeightmapType::MotionBlockingNoLeaves, 4, 0, -64), 304);
    assert_eq!(h.get(ChunkHeightmapType::MotionBlockingNoLeaves, 6, 0, -64), 306);
}

#[test]
fn heightmap_text_of_empty_chunk() {
    let h = ChunkHeightmaps::default();
    let mut expected = String::from("\nHeightMap:\nZ/X");
    for x in 0..16 {
        expected.push_str(&format!("{:4}", x));
    }
    expected.push('\n');
    for z in 0..16 {
        if z > 0 {
            expected.push('\n');
        }
        expected.push_str(&format!("{:3}", z));
        for _ in 0..16 {
            expected.push_str("   0");
        }
    }
    assert_eq!(h.log_heightmap(ChunkHeightmapType::WorldSurface, 0), expected);
}

#[test]
fn heightmap_text_shows_heights() {
    let mut h = ChunkHeightmaps::default();
    h.set(ChunkHeightmapType::WorldSurface, block(1, 64, 0), -64);
    let text = h.log_heightmap(ChunkHeightmapType::WorldSurface, -64);
    let lines: Vec<&str> = text.split('\n').collect();
    assert_eq!(lines[0], "");
    assert_eq!(lines[1], "HeightMap:");
    assert_eq!(lines[2], "Z/X   0   1   2   3   4   5   6   7   8   9  10  11  12  13  14  15");
    assert_eq!(lines[3], "  0 -64  64 -64 -64 -64 -64 -64 -64 -64 -64 -64 -64 -64 -64 -64 -64");
    assert_eq!(lines.len(), 19);
}

#[test]
fn cloned_heightmaps_are_equal() {
    let mut h = ChunkHeightmaps::default();
    h.set(ChunkHeightmapType::WorldSurface, block(8, 12, 8), 0);
    let c = h.clone();
    assert_eq!(c.world_surface, h.world_surface);
    assert_eq!(c.get(ChunkHeightmapType::WorldSurface, 8, 8, 0), 12);
}
