use pumpkin_world::level::folder::LevelFolder;
use std::path::PathBuf;

#[test]
fn level_folders_below_root() {
    let f = LevelFolder::new(PathBuf::from("saves/world"));
    assert_eq!(f.root_folder, PathBuf::from("saves/world"));
    assert_eq!(f.region_folder, PathBuf::from("saves/world/region"));
    assert_eq!(f.entities_folder, PathBuf::from("saves/world/entities"));
    let copy = f.clone();
    assert_eq!(copy.region_folder, f.region_folder);
}
