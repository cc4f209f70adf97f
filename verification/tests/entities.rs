use pumpkin_world::chunk::format::entities::EntityNbt;
use pumpkin_world::chunk::format::errors::ChunkParsingError;
use pumpkin_world::chunk::ChunkEntityData;
use pumpkin_world::level::folder::LevelFolder;
use pumpkin_world::math::Vector2;
use std::path::PathBuf;

/// A stand-in for an entity compound: a name and its `UUID` int array, if any.
#[derive(Clone, Debug, PartialEq)]
struct Entity {
    name: &'static str,
    uuid: Option<Vec<i32>>,
}

fn uuid_of(e: &Entity) -> Option<Vec<i32>> {
    e.uuid.clone()
}

fn entity(name: &'static str, uuid: Option<Vec<i32>>) -> Entity {
    Entity { name, uuid }
}

#[test]
fn entities_keyed_by_uuid() {
    let nbt = EntityNbt {
        data_version: 3953,
        position: [4, -7],
        entities: vec![
            entity("pig", Some(vec![1, 2, 3, 4])),
            entity("orphan", None),
            entity("cow", Some(vec![0, 0, 0, 9])),
        ],
    };
    let d = match ChunkEntityData::from_nbt(nbt, Vector2 { x: 4, y: -7 }, uuid_of) {
        Ok(d) => d,
        Err(_) => panic!("stored for this position"),
    };
    assert_eq!(d.x, 4);
    assert_eq!(d.z, -7);
    assert!(!d.is_dirty());
    assert_eq!(d.position(), (4, -7));
    assert_eq!(d.data.len(), 2);
    let pig_key: u128 = (1u128 << 96) | (2u128 << 64) | (3u128 << 32) | 4;
    assert_eq!(d.data.get(&pig_key).map(|e| e.name), Some("pig"));
    assert_eq!(d.data.get(&9u128).map(|e| e.name), Some("cow"));
}

#[test]
fn uuid_ints_widen_with_their_sign() {
    let nbt = EntityNbt { data_version: 1, position: [0, 0], entities: vec![entity("bat", Some(vec![0, 0, 0, -1]))] };
    let d = match ChunkEntityData::from_nbt(nbt, Vector2 { x: 0, y: 0 }, uuid_of) {
        Ok(d) => d,
        Err(_) => panic!("stored for this position"),
    };
    assert_eq!(d.data.get(&u128::MAX).map(|e| e.name), Some("bat"));
}

#[test]
fn later_entity_with_same_uuid_wins() {
    let nbt = EntityNbt {
        data_version: 1,
        position: [0, 0],
        entities: vec![entity("first", Some(vec![0, 0, 1, 1])), entity("second", Some(vec![0, 0, 1, 1]))],
    };
    let d = match ChunkEntityData::from_nbt(nbt, Vector2 { x: 0, y: 0 }, uuid_of) {
        Ok(d) => d,
        Err(_) => panic!("stored for this position"),
    };
    assert_eq!(d.data.len(), 1);
    assert_eq!(d.data.get(&((1u128 << 32) | 1)).map(|e| e.name), Some("second"));
}

#[test]
fn entity_data_for_another_chunk_is_refused() {
    let nbt = EntityNbt { data_version: 1, position: [2, 3], entities: vec![entity("pig", Some(vec![1, 2, 3, 4]))] };
    match ChunkEntityData::from_nbt(nbt, Vector2 { x: 2, y: -3 }, uuid_of) {
        Err(ChunkParsingError::ErrorDeserializingChunk(m)) => {
            assert_eq!(m, "Expected data for entity chunk 2,-3 but got it for 2,3!")
        },
        Ok(_) => panic!("position differs"),
    }
}

#[test]
fn entity_data_written_back() {
    let nbt = EntityNbt {
        data_version: 1,
        position: [5, 6],
        entities: vec![entity("a", Some(vec![0, 0, 0, 1])), entity("b", Some(vec![0, 0, 0, 2])), entity("c", None)],
    };
    let mut d = match ChunkEntityData::from_nbt(nbt, Vector2 { x: 5, y: 6 }, uuid_of) {
        Ok(d) => d,
        Err(_) => panic!("stored for this position"),
    };
    d.mark_dirty(true);
    assert!(d.is_dirty());
    let out = d.to_nbt(3953);
    assert_eq!(out.data_version, 3953);
    assert_eq!(out.position, [5, 6]);
    let mut names: Vec<&str> = out.entities.iter().map(|e| e.name).collect();
    names.sort();
    assert_eq!(names, vec!["a", "b"]);
}

#[test]
fn entity_file_path() {
    let folder = LevelFolder::new(PathBuf::from("world"));
    assert_eq!(
        ChunkEntityData::<Entity>::file_path(&folder, "r.0.0.mca"),
        PathBuf::from("world").join("entities").join("r.0.0.mca")
    );
}

#[test]
fn entity_data_store_then_load() {
    let nbt = EntityNbt {
        data_version: 1,
        position: [-3, 8],
        entities: vec![entity("a", Some(vec![7, 0, 0, 1])), entity("b", Some(vec![0, 0, 0, 2]))],
    };
    let d = match ChunkEntityData::from_nbt(nbt, Vector2 { x: -3, y: 8 }, uuid_of) {
        Ok(d) => d,
        Err(_) => panic!("stored for this position"),
    };
    let written = d.to_nbt(2);
    let again = match ChunkEntityData::from_nbt(written, Vector2 { x: d.x, y: d.z }, uuid_of) {
        Ok(a) => a,
        Err(_) => panic!("stored for its own position"),
    };
    assert_eq!(again.data, d.data);
}
