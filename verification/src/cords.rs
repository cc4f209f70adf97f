//! Conversions between block, section, biome and chunk coordinates.
pub mod biome;
pub mod section;

use vstd::prelude::*;

verus! {

/// The eight compass directions.
#[derive(Debug, Clone, Copy, PartialEq, Eq, Structural)]
pub enum Direction {
    North,
    NorthEast,
    East,
    SouthEast,
    South,
    SouthWest,
    West,
    NorthWest,
}

} // verus!
