//! Sizes that are fixed for every pool and every buffer.

use vstd::prelude::*;

verus! {

/// Number of voices a pool allocates, and so the highest polyphony it can be set to.
pub const MAX_VOICES: usize = 16;

/// Longest run of samples that is rendered in one piece.
pub const MAX_BLOCK_SIZE: usize = 64;

} // verus!
