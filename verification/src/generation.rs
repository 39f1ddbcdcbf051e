//! What every generative model owes its caller.

use vstd::prelude::*;

use crate::error::{is_unsupported, ModelError};

verus! {

/// A chunk of a prompt takes as many positions as it has rows.
pub fn chunk_matches(seq: usize, start: u32, end: u32) -> (matches: bool)
    requires
        start <= end,
    ensures
        matches == (seq == end - start),
{
    seq == (end - start) as usize
}

/// The answer of a model that keeps its hidden states to itself.
pub fn no_hidden_states() -> (error: ModelError)
    ensures
        is_unsupported(error, "this model does not expose hidden states for embeddings"@),
{
    ModelError::Unsupported("this model does not expose hidden states for embeddings".to_owned())
}

/// The answer of a model that gives logits for the last position only.
pub fn no_position_logits() -> (error: ModelError)
    ensures
        is_unsupported(error, "this model does not expose per-position logits"@),
{
    ModelError::Unsupported("this model does not expose per-position logits".to_owned())
}

} // verus!
