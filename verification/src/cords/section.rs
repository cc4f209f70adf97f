//! Coordinates of 16 * 16 * 16 sections.
use vstd::prelude::*;

verus! {

/// The section that holds a block coordinate: the coordinate divided by 16, rounded down.
#[verifier::when_used_as_spec(spec_block_to_section)]
pub fn block_to_section(coord: i32) -> (r: i32)
    ensures
        r == coord as int / 16,
{
    assert(coord >> 4u32 == coord as int / 16) by (bit_vector);
    coord >> 4u32
}

/// `block_to_section` in specifications.
pub open spec fn spec_block_to_section(coord: i32) -> i32 {
    (coord as int / 16) as i32
}

/// The first block coordinate of a section: the coordinate times 16, wrapping around `i32`.
#[verifier::when_used_as_spec(spec_section_to_block)]
pub fn section_to_block(coord: i32) -> (r: i32)
    ensures
        r == (coord * 16) as i32,
{
    assert(coord << 4u32 == (coord * 16) as i32) by (bit_vector);
    coord << 4u32
}

/// `section_to_block` in specifications.
pub open spec fn spec_section_to_block(coord: i32) -> i32 {
    (coord * 16) as i32
}

/// The block coordinate `offset` blocks past the start of a section.
pub fn get_offset_pos(chunk_coord: i32, offset: i32) -> (r: i32)
    requires
        i32::MIN <= spec_section_to_block(chunk_coord) + offset <= i32::MAX,
    ensures
        r == spec_section_to_block(chunk_coord) + offset,
{
    section_to_block(chunk_coord) + offset
}

/// A section's first block lies in that section, for every section whose first block fits in
/// an `i32`.
pub proof fn lemma_section_roundtrip(coord: i32)
    requires
        -0x800_0000 <= coord < 0x800_0000,
    ensures
        spec_section_to_block(coord) == coord * 16,
        spec_block_to_section(spec_section_to_block(coord)) == coord,
{
    assert((coord * 16) as i32 == coord * 16) by (bit_vector)
        requires -0x800_0000 <= coord < 0x800_0000;
}

/// Every block lies in the 16 blocks that start at its section's first block.
pub proof fn lemma_block_in_section(coord: i32)
    ensures
        spec_section_to_block(spec_block_to_section(coord)) <= coord < spec_section_to_block(spec_block_to_section(coord)) + 16,
{
    let s = coord as int / 16;
    assert(-0x800_0000 <= s < 0x800_0000);
    lemma_section_roundtrip(s as i32);
}

} // verus!
