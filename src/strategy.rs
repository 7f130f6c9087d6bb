use vstd::prelude::*;

verus! {

/// Objects at least this many bytes long are sent in parts.
pub const CHUNK_THRESHOLD: u64 = 5 * 1024 * 1024;

/// How one object is sent to the destination.
#[derive(Debug, Clone, Copy, PartialEq, Eq, Structural)]
pub enum Strategy {
    /// One put of the whole body.
    Single,
    /// A multipart upload.
    Chunked,
}

/// The strategy for an object of `size` bytes against `threshold`.
pub open spec fn strategy_for(size: int, threshold: int) -> Strategy {
    if size < threshold {
        Strategy::Single
    } else {
        Strategy::Chunked
    }
}

/// Chooses how an object of `size` bytes is sent: below the threshold in one
/// piece, from the threshold on in parts.
pub fn select(size: u64) -> (r: Strategy)
    ensures
        r == strategy_for(size as int, CHUNK_THRESHOLD as int),
{
    if size < CHUNK_THRESHOLD {
        Strategy::Single
    } else {
        Strategy::Chunked
    }
}

/// The threshold is the least size sent in parts: one byte less goes in one
/// piece, the threshold itself and one byte more go in parts.
pub proof fn lemma_strategy_boundary()
    ensures
        strategy_for(CHUNK_THRESHOLD - 1, CHUNK_THRESHOLD as int) == Strategy::Single,
        strategy_for(CHUNK_THRESHOLD as int, CHUNK_THRESHOLD as int) == Strategy::Chunked,
        strategy_for(CHUNK_THRESHOLD + 1, CHUNK_THRESHOLD as int) == Strategy::Chunked,
        forall|a: int, b: int|
            a <= b && #[trigger] strategy_for(a, CHUNK_THRESHOLD as int) == Strategy::Chunked
                ==> #[trigger] strategy_for(b, CHUNK_THRESHOLD as int) == Strategy::Chunked,
{
}

} // verus!
