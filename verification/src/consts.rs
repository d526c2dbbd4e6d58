use vstd::prelude::*;

verus! {

/// Largest number of bytes a single chunk may hold.
pub const MAX_CHUNK_SIZE: usize = 262144;

/// A trailing chunk shorter than this triggers rebalancing of the last two chunks.
pub const MIN_CHUNK_SIZE: usize = 32768;

/// Every digest produced or consumed by the tree is this many bytes.
pub const HASH_SIZE: usize = 32;

} // verus!
