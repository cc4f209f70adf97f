//! Why a chunk could not be read.
use vstd::prelude::*;

verus! {

/// A chunk's stored data could not be turned into a chunk.
#[derive(Debug)]
pub enum ChunkParsingError {
    ErrorDeserializingChunk(String),
}

} // verus!
