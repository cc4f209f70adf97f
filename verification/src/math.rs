//! Plain coordinate types.
use vstd::prelude::*;

verus! {

/// A point or offset in three dimensions.
#[derive(Debug, Clone, Copy, PartialEq, Eq)]
pub struct Vector3<T> {
    pub x: T,
    pub y: T,
    pub z: T,
}

/// A point or offset in two dimensions.
#[derive(Debug, Clone, Copy, PartialEq, Eq)]
pub struct Vector2<T> {
    pub x: T,
    pub y: T,
}

/// The position of a block in the world.
#[derive(Debug, Clone, Copy, PartialEq, Eq)]
pub struct BlockPos(pub Vector3<i32>);

/// The position of a chunk column: `x` and `z` (stored in `y`).
#[derive(Debug, Clone, Copy, PartialEq, Eq)]
pub struct ChunkPos(pub Vector2<i32>);

} // verus!
