use pumpkin_world::chunk::palette::{BiomeSectionData, BlockSectionData};
use pumpkin_world::chunk::section::ChunkSection;
use pumpkin_world::math::Vector3;

fn is_air(b: u16) -> bool {
    b == 0
}

fn pos(x: u8, y: u8, z: u8) -> Vector3<u8> {
    Vector3 { x, y, z }
}

fn empty_section() -> ChunkSection {
    ChunkSection { block_data: BlockSectionData::default(), biome_data: BiomeSectionData::default(), block_count: 0 }
}

#[test]
fn block_count_follows_air() {
    let mut s = empty_section();
    s.set_block(pos(1, 2, 3), 5, is_air);
    assert_eq!(s.block_count, 1);
    assert_eq!(s.get_block(pos(1, 2, 3)), 5);
    // Replacing a block by another keeps the count.
    s.set_block(pos(1, 2, 3), 7, is_air);
    assert_eq!(s.block_count, 1);
    // Air over air keeps it too.
    s.set_block(pos(0, 0, 0), 0, is_air);
    assert_eq!(s.block_count, 1);
    s.set_block(pos(4, 4, 4), 9, is_air);
    assert_eq!(s.block_count, 2);
    s.set_block(pos(1, 2, 3), 0, is_air);
    assert_eq!(s.block_count, 1);
    assert_eq!(s.get_block(pos(1, 2, 3)), 0);
}

#[test]
fn block_count_matches_count_non_air() {
    let mut s = empty_section();
    for k in 0..40u8 {
        s.set_block(pos(k % 16, k / 16, 0), (k % 4) as u16, is_air);
    }
    assert_eq!(s.block_count, s.block_data.count_non_air(&is_air));
    assert_eq!(s.block_count, 30);
}
