use vstd::prelude::*;

verus! {

/// The failure conditions of chunking, tree construction and reduction.
#[derive(Debug, Clone, Copy, PartialEq, Eq, Structural)]
pub enum Error {
    /// A reduction step could not produce a node, for instance because an
    /// empty node sequence was reduced.
    CouldNotHash,
    /// The chunker yielded no chunks: the input buffer was empty.
    NotFound,
    /// Reserved catch-all; no operation currently produces it.
    UnknownError,
}

} // verus!
