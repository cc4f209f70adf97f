//! The folders of a level on disk.
use std::path::PathBuf;

use vstd::prelude::*;

verus! {

#[verifier::external_type_specification]
#[verifier::external_body]
pub struct ExPathBuf(PathBuf);

/// The path `PathBuf::join` gives for a base path and a relative segment.
pub uninterp spec fn joined_path(base: PathBuf, segment: Seq<char>) -> PathBuf;

/// `PathBuf::join`: the base path extended by a segment. The result depends on the two
/// arguments alone; what path it is (a separator added, or the segment replacing an absolute
/// base) is left to the name `joined_path`.
#[verifier::external_body]
pub(crate) fn join_path(base: &PathBuf, segment: &str) -> (r: PathBuf)
    ensures
        r == joined_path(*base, segment@),
{
    base.join(segment)
}

/// `PathBuf::clone`: a copy of the same path.
pub assume_specification[ <PathBuf as Clone>::clone ](path: &PathBuf) -> (r: PathBuf)
    ensures
        r == *path,
;

/// The root folder of a level, with the folders for region files and for entity files below it.
#[derive(Clone)]
pub struct LevelFolder {
    pub root_folder: PathBuf,
    pub region_folder: PathBuf,
    pub entities_folder: PathBuf,
}

impl LevelFolder {
    /// The folders of a level rooted at `root_folder`: `region` and `entities` below it.
    pub fn new(root_folder: PathBuf) -> (r: Self)
        ensures
            r.root_folder == root_folder,
            r.region_folder == joined_path(root_folder, "region"@),
            r.entities_folder == joined_path(root_folder, "entities"@),
    {
        let region_folder = join_path(&root_folder, "region");
        let entities_folder = join_path(&root_folder, "entities");

        Self { root_folder, region_folder, entities_folder }
    }
}

} // verus!
