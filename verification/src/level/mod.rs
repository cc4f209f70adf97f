//! Where a world's files live.
pub mod folder;
