//! Coordinates of 4 * 4 * 4 biome cells.
use vstd::prelude::*;

verus! {

/// The biome cell that holds a block coordinate: the coordinate divided by 4, rounded down.
#[verifier::when_used_as_spec(spec_from_block)]
pub fn from_block(coord: i32) -> (r: i32)
    ensures
        r == coord as int / 4,
{
    assert(coord >> 2u32 == coord as int / 4) by (bit_vector);
    coord >> 2u32
}

/// `from_block` in specifications.
pub open spec fn spec_from_block(coord: i32) -> i32 {
    (coord as int / 4) as i32
}

/// The first block coordinate of a biome cell: the coordinate times 4, wrapping around `i32`.
#[verifier::when_used_as_spec(spec_to_block)]
pub fn to_block(coord: i32) -> (r: i32)
    ensures
        r == (coord * 4) as i32,
{
    assert(coord << 2u32 == (coord * 4) as i32) by (bit_vector);
    coord << 2u32
}

/// `to_block` in specifications.
pub open spec fn spec_to_block(coord: i32) -> i32 {
    (coord * 4) as i32
}

/// The first biome cell of a chunk coordinate (a section's 16 blocks hold 4 cells): times 4,
/// wrapping around `i32`.
#[verifier::when_used_as_spec(spec_from_chunk)]
pub fn from_chunk(coord: i32) -> (r: i32)
    ensures
        r == (coord * 4) as i32,
{
    assert(coord << 2u32 == (coord * 4) as i32) by (bit_vector);
    coord << 2u32
}

/// `from_chunk` in specifications.
pub open spec fn spec_from_chunk(coord: i32) -> i32 {
    (coord * 4) as i32
}

/// The chunk coordinate of a biome cell: divided by 4, rounded down.
#[verifier::when_used_as_spec(spec_to_chunk)]
pub fn to_chunk(coord: i32) -> (r: i32)
    ensures
        r == coord as int / 4,
{
    assert(coord >> 2u32 == coord as int / 4) by (bit_vector);
    coord >> 2u32
}

/// `to_chunk` in specifications.
pub open spec fn spec_to_chunk(coord: i32) -> i32 {
    (coord as int / 4) as i32
}

/// Going from cells to blocks and back, or from chunks to cells and back, changes nothing,
/// wherever the larger coordinate fits in an `i32`.
pub proof fn lemma_biome_roundtrip(coord: i32)
    requires
        -0x2000_0000 <= coord < 0x2000_0000,
    ensures
        spec_from_block(spec_to_block(coord)) == coord,
        spec_to_chunk(spec_from_chunk(coord)) == coord,
{
    assert((coord * 4) as i32 == coord * 4) by (bit_vector)
        requires -0x2000_0000 <= coord < 0x2000_0000;
}

/// Every block lies in the 4 blocks that start at its cell's first block.
pub proof fn lemma_block_in_cell(coord: i32)
    ensures
        spec_to_block(spec_from_block(coord)) <= coord < spec_to_block(spec_from_block(coord)) + 4,
{
    let s = coord as int / 4;
    assert(-0x2000_0000 <= s < 0x2000_0000);
    lemma_biome_roundtrip(s as i32);
}

} // verus!
