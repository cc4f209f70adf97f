//! Identifiers of block states.
use vstd::prelude::*;

verus! {

/// The global id of a block state.
pub type BlockStateId = u16;

} // verus!
