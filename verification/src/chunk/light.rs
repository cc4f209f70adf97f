//! The light levels of a chunk's sections.
use vstd::prelude::*;

verus! {

/// The light of one section: one level everywhere, or the stored nibbles.
#[derive(Debug, Clone)]
pub enum LightContainer {
    Empty(u8),
    Full(Vec<u8>),
}

/// The block light and sky light of each section of a chunk.
#[derive(Debug, Clone)]
pub struct ChunkLight {
    pub block_light: Vec<LightContainer>,
    pub sky_light: Vec<LightContainer>,
}

/// The stored nibbles of a section's light, if it has any.
pub open spec fn stored_light(lights: Seq<LightContainer>, i: int) -> Option<Seq<u8>> {
    if 0 <= i < lights.len() {
        match lights[i] {
            LightContainer::Full(data) => Some(data@),
            _ => None,
        }
    } else {
        None
    }
}

/// A copy of the stored nibbles of section `i`'s light, if it has any.
pub fn copy_stored_light(lights: &Vec<LightContainer>, i: usize) -> (r: Option<Vec<u8>>)
    ensures
        match r {
            Some(d) => stored_light(lights@, i as int) == Some(d@),
            None => stored_light(lights@, i as int) is None,
        },
{
    if i < lights.len() {
        match &lights[i] {
            LightContainer::Full(data) => {
                let mut r: Vec<u8> = Vec::new();
                let mut k: usize = 0;
                while k < data.len()
                    invariant
                        k <= data@.len(),
                        r@ =~= data@.take(k as int),
                    decreases data@.len() - k,
                {
                    r.push(data[k]);
                    k += 1;
                }
                proof {
                    assert(r@ =~= data@);
                }
                Some(r)
            },
            _ => None,
        }
    } else {
        None
    }
}

impl Default for ChunkLight {
    /// No light stored for any section.
    fn default() -> (r: Self)
        ensures
            r.block_light@.len() == 0,
            r.sky_light@.len() == 0,
    {
        ChunkLight { block_light: Vec::new(), sky_light: Vec::new() }
    }
}

} // verus!
