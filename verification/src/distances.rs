use vstd::prelude::*;

verus! {

/// Sum of absolute component differences.
pub struct L1Distance;

/// Euclidean distance.
pub struct L2Distance;

/// Cosine of the angle between two vectors.
pub struct CosDistance;

/// Sum of absolute component differences, computed in chunks of
/// `CHUNK_LEN` components.
pub struct L1DistanceAARCH;

/// Euclidean distance, computed in chunks of `CHUNK_LEN` components.
pub struct L2DistanceAARCH;

/// One minus the cosine similarity, computed in chunks of `CHUNK_LEN`
/// components; `1` when either vector has zero magnitude.
pub struct CosDistanceAARCH;

/// Components per chunk: one 64-byte cache line of 4-byte components.
pub const CHUNK_LEN: usize = 16;

/// Components per vector register.
pub const LANE_WIDTH: usize = 4;

/// Splits `n` components into whole chunks and a tail: returns the number
/// of whole chunks and the index at which the tail starts.
pub fn chunk_split(n: usize) -> (r: (usize, usize))
    ensures
        r.0 == n / CHUNK_LEN,
        r.1 == r.0 * CHUNK_LEN,
        r.1 <= n,
        n - r.1 < CHUNK_LEN,
{
    let n_chunks = n / CHUNK_LEN;
    let rem = n_chunks * CHUNK_LEN;
    (n_chunks, rem)
}

/// Index of the first component of register load `lane` of chunk `chunk`,
/// for vectors of `n` components; the load stays inside the vectors.
pub fn lane_offset(n: usize, chunk: usize, lane: usize) -> (offset: usize)
    requires
        chunk < n / CHUNK_LEN,
        lane < CHUNK_LEN / LANE_WIDTH,
    ensures
        offset == chunk * CHUNK_LEN + lane * LANE_WIDTH,
        offset + LANE_WIDTH <= n,
{
    let idx = chunk * CHUNK_LEN;
    idx + lane * LANE_WIDTH
}

} // verus!
