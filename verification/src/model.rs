use vstd::prelude::*;

use crate::consts::{MAX_CHUNK_SIZE, MIN_CHUNK_SIZE};
use crate::hash::sha256_of;

verus! {

/// Number of chunks the plain split of a buffer of length `len` produces:
/// `ceil(len / MAX_CHUNK_SIZE)`; zero when the buffer is empty.
pub open spec fn base_chunk_count(len: int) -> int {
    (len + MAX_CHUNK_SIZE - 1) / (MAX_CHUNK_SIZE as int)
}

/// The `j`-th plain chunk of `data`: the bytes from `j * MAX_CHUNK_SIZE` up
/// to the next chunk boundary or the end of the buffer, whichever is first.
pub open spec fn base_chunk(data: Seq<u8>, j: int) -> Seq<u8> {
    let m = MAX_CHUNK_SIZE as int;
    if (j + 1) * m <= data.len() {
        data.subrange(j * m, (j + 1) * m)
    } else {
        data.subrange(j * m, data.len() as int)
    }
}

/// The plain split of a buffer: consecutive chunks of at most
/// `MAX_CHUNK_SIZE` bytes each, in order; the final chunk may be shorter.
pub open spec fn base_chunks(data: Seq<u8>) -> Seq<Seq<u8>> {
    Seq::new(base_chunk_count(data.len() as int) as nat, |j: int| base_chunk(data, j))
}

/// The rebalancing rule: when more than one chunk exists and the last is
/// shorter than `MIN_CHUNK_SIZE`, the last two chunks are joined and
/// re-split into a ceil-half and the remainder, so neither is tiny.
pub open spec fn rebalance(chunks: Seq<Seq<u8>>) -> Seq<Seq<u8>> {
    if chunks.len() > 1 && chunks.last().len() < MIN_CHUNK_SIZE {
        let tail = chunks[chunks.len() - 2] + chunks[chunks.len() - 1];
        let half = (tail.len() + 1) as int / 2;
        chunks.take(chunks.len() - 2) + seq![tail.take(half), tail.skip(half)]
    } else {
        chunks
    }
}

/// The chunker: the plain split followed by the trailing-chunk rebalance.
pub open spec fn chunks_of(data: Seq<u8>) -> Seq<Seq<u8>> {
    rebalance(base_chunks(data))
}

/// The digests of the chunker's output, in chunk order: the leaf layer of
/// the tree built over `data`.
pub open spec fn leaf_digests(data: Seq<u8>) -> Seq<Seq<u8>> {
    chunks_of(data).map_values(|c: Seq<u8>| sha256_of(c))
}

/// A branch digest re-hashes each child digest independently, concatenates
/// the two results (left first), and hashes the concatenation.
pub open spec fn branch_digest(left: Seq<u8>, right: Seq<u8>) -> Seq<u8> {
    sha256_of(sha256_of(left) + sha256_of(right))
}

/// One reduction step over a layer of digests: consecutive pairs combine
/// into branch digests; an unpaired last digest is carried unchanged.
pub open spec fn reduce_layer(layer: Seq<Seq<u8>>) -> Seq<Seq<u8>> {
    Seq::new(((layer.len() + 1) / 2) as nat, |j: int|
        if 2 * j + 1 < layer.len() {
            branch_digest(layer[2 * j], layer[2 * j + 1])
        } else {
            layer[2 * j]
        })
}

/// The digest of the single node left after reducing `layer` repeatedly.
pub open spec fn root_of(layer: Seq<Seq<u8>>) -> Seq<u8>
    recommends
        layer.len() >= 1,
    decreases layer.len(),
{
    if layer.len() == 0 {
        Seq::empty()
    } else if layer.len() == 1 {
        layer[0]
    } else {
        root_of(reduce_layer(layer))
    }
}

/// Determinism: the data root is a function of the buffer alone, so any two
/// roots computed for the same buffer are equal.
pub proof fn lemma_root_deterministic(data: Seq<u8>, root1: Seq<u8>, root2: Seq<u8>)
    requires
        root1 == root_of(leaf_digests(data)),
        root2 == root_of(leaf_digests(data)),
    ensures
        root1 == root2,
{
}

/// Chunk count law: the chunker yields `ceil(L / MAX_CHUNK_SIZE)` chunks
/// for a buffer of length `L`; rebalancing replaces two chunks by two and
/// leaves the count unchanged.
pub proof fn lemma_chunk_count(data: Seq<u8>)
    ensures
        chunks_of(data).len() == base_chunk_count(data.len() as int),
        data.len() == 0 ==> chunks_of(data).len() == 0,
{
}

/// Odd-layer carry law: reducing a layer of odd length carries the last
/// digest unchanged into the output layer's last slot.
pub proof fn lemma_odd_layer_carry(layer: Seq<Seq<u8>>)
    requires
        layer.len() % 2 == 1,
    ensures
        reduce_layer(layer).len() == (layer.len() + 1) / 2,
        reduce_layer(layer).last() == layer.last(),
{
    let n = layer.len() as int;
    assert(reduce_layer(layer)[(n - 1) / 2] == layer[n - 1]);
}

/// Single-chunk law: a buffer of at least one and at most `MAX_CHUNK_SIZE`
/// bytes yields exactly one chunk, and the data root is that chunk's own
/// digest, with no branch combination.
pub proof fn lemma_single_chunk_root(data: Seq<u8>)
    requires
        1 <= data.len() <= MAX_CHUNK_SIZE,
    ensures
        chunks_of(data) =~= seq![data],
        root_of(leaf_digests(data)) == sha256_of(data),
{
    assert(base_chunk_count(data.len() as int) == 1);
    assert(base_chunk(data, 0) == data.subrange(0, data.len() as int));
    assert(data.subrange(0, data.len() as int) =~= data);
    assert(leaf_digests(data)[0] == sha256_of(data));
}

} // verus!
