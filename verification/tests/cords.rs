use pumpkin_world::cords::biome;
use pumpkin_world::cords::section;

#[test]
fn block_to_section_floors() {
    assert_eq!(section::block_to_section(0), 0);
    assert_eq!(section::block_to_section(15), 0);
    assert_eq!(section::block_to_section(16), 1);
    assert_eq!(section::block_to_section(-1), -1);
    assert_eq!(section::block_to_section(-16), -1);
    assert_eq!(section::block_to_section(-17), -2);
}

#[test]
fn section_to_block_multiplies() {
    assert_eq!(section::section_to_block(2), 32);
    assert_eq!(section::section_to_block(-4), -64);
}

#[test]
fn offset_position() {
    assert_eq!(section::get_offset_pos(2, 5), 37);
    assert_eq!(section::get_offset_pos(-1, 3), -13);
}

#[test]
fn section_roundtrip() {
    for c in [-1000, -4, -1, 0, 1, 7, 123456] {
        assert_eq!(section::block_to_section(section::section_to_block(c)), c);
    }
    for b in [-33, -17, -16, -1, 0, 15, 16, 100] {
        let start = section::section_to_block(section::block_to_section(b));
        assert!(start <= b && b < start + 16);
    }
}

#[test]
fn biome_coordinates() {
    assert_eq!(biome::from_block(-1), -1);
    assert_eq!(biome::from_block(7), 1);
    assert_eq!(biome::to_block(3), 12);
    assert_eq!(biome::from_chunk(2), 8);
    assert_eq!(biome::to_chunk(9), 2);
    assert_eq!(biome::to_chunk(-5), -2);
}

#[test]
fn biome_roundtrip() {
    for c in [-100, -1, 0, 1, 55] {
        assert_eq!(biome::from_block(biome::to_block(c)), c);
        assert_eq!(biome::to_chunk(biome::from_chunk(c)), c);
    }
    for b in [-9, -4, -1, 0, 3, 4, 10] {
        let start = biome::to_block(biome::from_block(b));
        assert!(start <= b && b < start + 4);
    }
}
