//! Storage layer of an approximate nearest-neighbour vector index:
//! documents attached to vectors, flat vector storage, per-level
//! neighbour lists of a layered proximity graph, and the chunking used by
//! the vectorised distance kernels.

pub mod documents;
pub mod neighbors;
pub mod vectors;
pub mod distances;
