use pumpkin_world::chunk::format::errors::ChunkParsingError;
use pumpkin_world::chunk::heightmap::ChunkHeightmapType;
use pumpkin_world::chunk::palette::PalettedContainer;
use pumpkin_world::chunk::{Chunk, ChunkStatus};
use pumpkin_world::level::folder::LevelFolder;
use pumpkin_world::math::{BlockPos, ChunkPos, Vector2, Vector3};
use std::path::PathBuf;

fn at(x: u16, y: u16, z: u16) -> Vector3<u16> {
    Vector3 { x, y, z }
}

fn is_air(b: u16) -> bool {
    b == 0
}

const BIOMES: [&str; 2] = ["plains", "river"];

fn biome_name(id: u8) -> String {
    BIOMES[id as usize].to_string()
}

fn biome_id(name: &String) -> u8 {
    BIOMES.iter().position(|n| n == name).unwrap_or(0) as u8
}

#[test]
fn new_empty_chunk() {
    let c = Chunk::new_empty(-64, ChunkPos(Vector2 { x: 3, y: -2 }), 24);
    assert_eq!(c.sections.len(), 24);
    assert!(c.sections.iter().all(|s| s.block_count == 0));
    assert!(matches!(c.sections[5].block_data, PalettedContainer::Uniform(0)));
    assert_eq!(c.min_y, -64);
    assert_eq!(c.position(), (3, -2));
    assert!(!c.is_dirty());
    assert_eq!(c.status, ChunkStatus::Empty);
    assert_eq!(c.get_block(at(7, 200, 9)), 0);
}

#[test]
fn chunk_set_then_get() {
    let mut c = Chunk::new_empty(-64, ChunkPos(Vector2 { x: 0, y: 0 }), 24);
    assert_eq!(c.set_block(at(1, 100, 2), 9, is_air), 0);
    assert_eq!(c.get_block(at(1, 100, 2)), 9);
    assert_eq!(c.set_block(at(1, 100, 2), 4, is_air), 9);
    assert_eq!(c.get_block(at(1, 100, 2)), 4);
    assert_eq!(c.get_block(at(1, 101, 2)), 0);
    assert_eq!(c.get_block(at(1, 84, 2)), 0);
    // Only section 100 / 16 = 6 changed.
    assert!(matches!(c.sections[5].block_data, PalettedContainer::Uniform(0)));
    assert!(!matches!(c.sections[6].block_data, PalettedContainer::Uniform(_)));
    // x and z of 16 wrap to 0 within the section.
    c.set_block(at(16, 0, 0), 3, is_air);
    assert_eq!(c.get_block(at(0, 0, 0)), 3);
}

#[test]
fn dirty_flag() {
    let mut c = Chunk::new_empty(0, ChunkPos(Vector2 { x: 0, y: 0 }), 1);
    c.mark_dirty(true);
    assert!(c.is_dirty());
    c.mark_dirty(false);
    assert!(!c.is_dirty());
}

#[test]
fn chunk_file_path() {
    let folder = LevelFolder::new(PathBuf::from("world"));
    assert_eq!(Chunk::file_path(&folder, "r.0.0.mca"), PathBuf::from("world").join("region").join("r.0.0.mca"));
}

#[test]
fn chunk_store_and_load() {
    let mut c = Chunk::new_empty(-64, ChunkPos(Vector2 { x: 3, y: -2 }), 24);
    c.set_block(at(1, 100, 2), 9, is_air);
    c.set_block(at(15, 0, 15), 1, is_air);
    c.heightmaps.set(ChunkHeightmapType::WorldSurface, BlockPos(Vector3 { x: 1, y: 36, z: 2 }), -64);
    c.sections[2].biome_data.set_value(Vector3 { x: 1, y: 1, z: 1 }, 1);
    c.status = ChunkStatus::Full;
    let nbt = c.to_nbt(3953, biome_name);
    assert_eq!(nbt.data_version, 3953);
    assert_eq!(nbt.status, ChunkStatus::Full);
    assert_eq!(nbt.x_pos, 3);
    assert_eq!(nbt.z_pos, -2);
    assert_eq!(nbt.min_y_section, -4);
    assert_eq!(nbt.sections.len(), 24);
    assert_eq!(nbt.sections[0].y, -4);
    assert_eq!(nbt.sections[23].y, 19);
    assert!(!nbt.light_correct);
    let biomes = nbt.sections[2].biomes.as_ref().unwrap();
    let names: Vec<&str> = biomes.palette.iter().map(|e| e.name.as_str()).collect();
    assert_eq!(names, vec!["plains", "river"]);

    let loaded = match Chunk::from_nbt(nbt, Vector2 { x: 3, y: -2 }, is_air, biome_id) {
        Ok(l) => l,
        Err(_) => panic!("stored for this position"),
    };
    assert_eq!(loaded.get_block(at(1, 100, 2)), 9);
    assert_eq!(loaded.get_block(at(15, 0, 15)), 1);
    assert_eq!(loaded.get_block(at(2, 100, 2)), 0);
    assert_eq!(loaded.sections[6].block_count, 1);
    assert_eq!(loaded.sections[0].block_count, 1);
    assert_eq!(loaded.sections[2].biome_data.get_value(Vector3 { x: 1, y: 1, z: 1 }), 1);
    assert_eq!(loaded.min_y, -64);
    assert_eq!(loaded.position(), (3, -2));
    assert_eq!(loaded.heightmaps.get(ChunkHeightmapType::WorldSurface, 1, 2, -64), 36);
    assert!(!loaded.is_dirty());
    assert_eq!(loaded.status, ChunkStatus::Full);
}

#[test]
fn chunk_for_another_position_is_refused() {
    let c = Chunk::new_empty(-64, ChunkPos(Vector2 { x: 3, y: -2 }), 2);
    let nbt = c.to_nbt(1, biome_name);
    match Chunk::from_nbt(nbt, Vector2 { x: 0, y: 7 }, is_air, biome_id) {
        Err(ChunkParsingError::ErrorDeserializingChunk(m)) => {
            assert_eq!(m, "Expected data for chunk 0,7 but got it for 3,-2!")
        },
        Ok(_) => panic!("position differs"),
    }
}

#[test]
fn chunk_set_block_keeps_block_count() {
    let mut c = Chunk::new_empty(-64, ChunkPos(Vector2 { x: 0, y: 0 }), 4);
    c.set_block(at(1, 20, 2), 9, is_air);
    assert_eq!(c.sections[1].block_count, 1);
    c.set_block(at(2, 20, 2), 5, is_air);
    assert_eq!(c.sections[1].block_count, 2);
    // A block replacing a block keeps the count.
    c.set_block(at(2, 20, 2), 6, is_air);
    assert_eq!(c.sections[1].block_count, 2);
    c.set_block(at(1, 20, 2), 0, is_air);
    assert_eq!(c.sections[1].block_count, 1);
    assert_eq!(c.sections[0].block_count, 0);
    assert_eq!(c.sections[1].block_count, c.sections[1].block_data.count_non_air(&is_air));
}
