use vstd::prelude::*;

pub mod consts;
pub mod error;
pub mod hash;
pub mod model;
pub mod types;

verus! {

use crate::consts::{HASH_SIZE, MAX_CHUNK_SIZE, MIN_CHUNK_SIZE};
use crate::error::Error;
use crate::hash::{sha256, sha256_of};
use crate::model::{
    base_chunk, base_chunk_count, base_chunks, branch_digest, chunks_of, leaf_digests,
    reduce_layer, root_of,
};
use crate::types::{MutableTree, Node, Tree};
use vstd::slice::slice_subrange;

/// The digests held by a sequence of nodes, in order.
pub open spec fn node_digests(nodes: Seq<Node>) -> Seq<Seq<u8>> {
    nodes.map_values(|n: Node| n.hash@)
}

/// A leaf node for `chunk`: it holds the chunk's digest and no children.
pub open spec fn is_leaf_for(node: Node, chunk: Seq<u8>) -> bool {
    &&& node.hash@ == sha256_of(chunk)
    &&& node.left is None
    &&& node.right is None
}

/// A branch node owning exactly `left` and `right` as its two children.
pub open spec fn is_branch_of(node: Node, left: Node, right: Node) -> bool {
    &&& node.left matches Some(boxed_left) && *boxed_left == left
    &&& node.right matches Some(boxed_right) && *boxed_right == right
}

/// Combine two nodes into a branch. The branch digest re-hashes each
/// child's digest independently, concatenates the two results (left
/// first), and hashes the concatenation; the branch owns both children.
pub fn hash_branch(tree: &Tree, left: Node, right: Node) -> (r: Result<Node, Error>)
    ensures
        r matches Ok(node) && node.hash@ == branch_digest(left.hash@, right.hash@)
            && is_branch_of(node, left, right),
{
    let left_hash = tree.hash(left.hash.as_slice());
    let right_hash = tree.hash(right.hash.as_slice());

    let mut joined: Vec<u8> = Vec::new();
    joined.extend_from_slice(left_hash.as_slice());
    joined.extend_from_slice(right_hash.as_slice());
    proof {
        assert(joined@ =~= left_hash@ + right_hash@);
    }

    let hash = tree.hash(joined.as_slice());
    Ok(Node { hash, left: Some(Box::new(left)), right: Some(Box::new(right)) })
}

/// Reduce one layer of nodes to the next: consecutive pairs become branch
/// nodes; an unpaired last node is carried forward unchanged, children and
/// all, rather than being hashed with itself or dropped.
pub fn build_layer(tree: &Tree, nodes: Vec<Node>) -> (r: Result<Vec<Node>, Error>)
    ensures
        r matches Ok(layer) && node_digests(layer@) == reduce_layer(node_digests(nodes@))
            && layer@.len() == (nodes@.len() + 1) / 2 && (forall|j: int|
            0 <= j && 2 * j + 1 < nodes@.len() ==> is_branch_of(
                #[trigger] layer@[j],
                nodes@[2 * j],
                nodes@[2 * j + 1],
            )) && (nodes@.len() % 2 == 1 ==> layer@.last() == nodes@.last()),
{
    let ghost digests = node_digests(nodes@);
    let n = nodes.len();
    let mut layer: Vec<Node> = Vec::new();
    let mut i: usize = 0;
    while i < n
        invariant
            n == nodes@.len(),
            digests == node_digests(nodes@),
            i <= n,
            i % 2 == 0 || i == n,
            layer@.len() == (i + 1) / 2,
            forall|j: int|
                0 <= j < layer@.len() ==> (#[trigger] layer@[j]).hash@ == reduce_layer(digests)[j],
            forall|j: int|
                0 <= j && 2 * j + 1 < i ==> is_branch_of(
                    #[trigger] layer@[j],
                    nodes@[2 * j],
                    nodes@[2 * j + 1],
                ),
            i == n && n % 2 == 1 ==> layer@.len() > 0 && layer@.last() == nodes@[n - 1],
        decreases n - i,
    {
        let left = nodes[i].clone();
        if i + 1 < n {
            let right = nodes[i + 1].clone();
            let node = match hash_branch(tree, left, right) {
                Ok(node) => node,
                Err(_) => {
                    return Err(Error::CouldNotHash);
                },
            };
            layer.push(node);
            i = i + 2;
        } else {
            layer.push(left);
            i = i + 1;
        }
    }
    proof {
        assert(node_digests(layer@) =~= reduce_layer(digests));
    }
    Ok(layer)
}

/// Reduce a tree's leaf layer, layer by layer, until a single node
/// remains: that node is the root and its digest is the data root. A tree
/// with no leaves has no root; a tree with exactly one leaf has that
/// leaf's own digest as its root, with no combination step.
pub fn calculate_root(tree: Tree) -> (r: Result<Node, Error>)
    ensures
        tree.leaves@.len() == 0 <==> r == Err::<Node, Error>(Error::CouldNotHash),
        tree.leaves@.len() > 0 ==> (r matches Ok(node) && node.hash@ == root_of(
            node_digests(tree.leaves@),
        )),
{
    let mut nodes = tree.leaves.clone();
    proof {
        assert forall|i: int| 0 <= i < tree.leaves@.len() implies nodes@[i]
            == tree.leaves@[i] by {
            assert(cloned::<Node>(tree.leaves@[i], nodes@[i]));
        }
        assert(nodes@ =~= tree.leaves@);
    }
    while nodes.len() > 1
        invariant
            nodes@.len() >= 1 <==> tree.leaves@.len() >= 1,
            nodes@.len() >= 1 ==> root_of(node_digests(nodes@)) == root_of(
                node_digests(tree.leaves@),
            ),
        decreases nodes@.len(),
    {
        let next = match build_layer(&tree, nodes) {
            Ok(next) => next,
            Err(err) => {
                return Err(err);
            },
        };
        nodes = next;
    }
    match nodes.pop() {
        Some(node) => Ok(node),
        None => Err(Error::CouldNotHash),
    }
}

/// The root digest one side of an opening contributes: the side's own data
/// root, or the digest of a single zero byte when the side holds no leaves.
pub open spec fn side_root_digest(layer: Seq<Seq<u8>>) -> Seq<u8> {
    if layer.len() == 0 {
        sha256_of(seq![0u8])
    } else {
        root_of(layer)
    }
}

/// The single-level split commitment at `index`: the leaf sequence is
/// split into `leaves[0..index]` and `leaves[index..]`, each side becomes
/// an independent tree, and the pair of side roots is returned, left
/// first. An empty side contributes the digest of a single zero byte
/// rather than failing.
pub fn find_opening(tree: Tree, index: usize) -> (r: [[u8; HASH_SIZE]; 2])
    requires
        index <= tree.leaves@.len(),
    ensures
        r@[0]@ == side_root_digest(node_digests(tree.leaves@.take(index as int))),
        r@[1]@ == side_root_digest(node_digests(tree.leaves@.skip(index as int))),
{
    let mut left_leaves = tree.leaves;
    let right_leaves = left_leaves.split_off(index);

    let mut left_tree = Tree::new();
    left_tree.insert_leaves(left_leaves);
    let mut right_tree = Tree::new();
    right_tree.insert_leaves(right_leaves);

    let left_root = match calculate_root(left_tree) {
        Ok(node) => node,
        Err(_) => Node::default(),
    };
    let right_root = match calculate_root(right_tree) {
        Ok(node) => node,
        Err(_) => Node::default(),
    };

    [left_root.hash, right_root.hash]
}

/// Chunk a buffer and append one leaf per chunk, in chunk order, to the
/// given tree. Chunks hold at most `MAX_CHUNK_SIZE` bytes; when more than
/// one chunk exists and the last is shorter than `MIN_CHUNK_SIZE`, the
/// last two chunks are joined and re-split into a ceil-half and the
/// remainder. An empty buffer yields no chunks and is rejected.
#[verifier::loop_isolation(false)]
pub fn generate_leaves(data: Vec<u8>, tree: Tree) -> (r: Result<Tree, Error>)
    ensures
        data@.len() == 0 <==> r == Err::<Tree, Error>(Error::NotFound),
        data@.len() > 0 <==> r is Ok,
        r matches Ok(out) ==> (out.leaves@.len() == tree.leaves@.len() + chunks_of(data@).len() && (
        forall|i: int| 0 <= i < tree.leaves@.len() ==> out.leaves@[i] == tree.leaves@[i]) && (
        forall|j: int|
            0 <= j < chunks_of(data@).len() ==> is_leaf_for(
                #[trigger] out.leaves@[tree.leaves@.len() + j],
                chunks_of(data@)[j],
            )) && node_digests(out.leaves@) == node_digests(tree.leaves@) + leaf_digests(data@)),
{
    let n = data.len();
    if n == 0 {
        return Err(Error::NotFound);
    }
    let mut tree = tree;
    let ghost orig = tree.leaves@;
    let ghost m = MAX_CHUNK_SIZE as int;
    let ghost cs = chunks_of(data@);
    let ghost base = base_chunks(data@);

    let k = 1 + (n - 1) / MAX_CHUNK_SIZE;
    proof {
        vstd::arithmetic::div_mod::lemma_fundamental_div_mod((n - 1) as int, m);
        vstd::arithmetic::div_mod::lemma_div_plus_one((n - 1) as int, m);
        assert(base_chunk_count(n as int) == k);
        assert((k - 1) * m <= n - 1 < k * m);
        assert(base.len() == k);
        assert(base.last() == data@.subrange((k - 1) * m, n as int));
    }
    let last_len = n - (k - 1) * MAX_CHUNK_SIZE;
    let rebal = k > 1 && last_len < MIN_CHUNK_SIZE;
    let full = if rebal {
        k - 2
    } else {
        k - 1
    };
    proof {
        assert(rebal == (base.len() > 1 && base.last().len() < MIN_CHUNK_SIZE));
        if !rebal {
            assert(cs == base);
        }
        assert(forall|j: int|
            0 <= j < full ==> #[trigger] cs[j] == base_chunk(data@, j)) by {
            assert(forall|j: int| 0 <= j < full ==> #[trigger] base[j] == base_chunk(data@, j));
        }
    }

    let mut j: usize = 0;
    let mut pos: usize = 0;
    while j < full
        invariant
            j <= full,
            pos == j as int * m,
            tree.leaves@.len() == orig.len() + j,
            forall|i: int| 0 <= i < orig.len() ==> tree.leaves@[i] == orig[i],
            forall|i: int|
                0 <= i < j ==> is_leaf_for(#[trigger] tree.leaves@[orig.len() + i], cs[i]),
        decreases full - j,
    {
        proof {
            vstd::arithmetic::mul::lemma_mul_inequality(j as int + 1, k as int - 1, m);
            assert((j as int + 1) * m == j as int * m + m) by (nonlinear_arith);
        }
        let end = pos + MAX_CHUNK_SIZE;
        let chunk = slice_subrange(data.as_slice(), pos, end);
        let h = sha256(chunk);
        tree.insert_leaf(Node { hash: h, left: None, right: None });
        proof {
            assert(chunk@ == base_chunk(data@, j as int));
        }
        pos = end;
        j += 1;
    }

    if rebal {
        proof {
            assert(pos == (k - 2) as int * m);
            assert((k - 1) * m == (k - 2) as int * m + m) by (nonlinear_arith);
        }
        let tail_len = n - pos;
        let half = tail_len / 2 + (if tail_len % 2 != 0 {
            1
        } else {
            0
        });
        let ghost tail = base[k - 2] + base[k - 1];
        proof {
            assert(base[k - 2] == data@.subrange(pos as int, pos as int + m));
            assert(tail =~= data@.subrange(pos as int, n as int));
            assert(half == (tail.len() + 1) as int / 2);
            assert(half <= tail_len);
            assert(cs == base.take(k - 2 as int) + seq![
                tail.take((tail.len() + 1) as int / 2),
                tail.skip((tail.len() + 1) as int / 2),
            ]);
            assert(cs.len() == k);
        }
        let chunk1 = slice_subrange(data.as_slice(), pos, pos + half);
        let h1 = sha256(chunk1);
        tree.insert_leaf(Node { hash: h1, left: None, right: None });
        let chunk2 = slice_subrange(data.as_slice(), pos + half, n);
        let h2 = sha256(chunk2);
        tree.insert_leaf(Node { hash: h2, left: None, right: None });
        proof {
            assert(chunk1@ =~= tail.take(half as int));
            assert(chunk2@ =~= tail.skip(half as int));
            assert(cs[k - 2] == chunk1@);
            assert(cs[k - 1] == chunk2@);
        }
    } else {
        let chunk = slice_subrange(data.as_slice(), pos, n);
        let h = sha256(chunk);
        tree.insert_leaf(Node { hash: h, left: None, right: None });
        proof {
            assert(chunk@ == base_chunk(data@, k - 1 as int));
            assert(cs[k - 1] == chunk@);
        }
    }

    proof {
        assert(tree.leaves@.len() == orig.len() + cs.len());
        assert(forall|i: int|
            0 <= i < cs.len() ==> is_leaf_for(#[trigger] tree.leaves@[orig.len() + i], cs[i]));
        assert forall|i: int| 0 <= i < tree.leaves@.len() implies #[trigger] node_digests(
            tree.leaves@,
        )[i] == (node_digests(orig) + leaf_digests(data@))[i] by {
            if i >= orig.len() {
                let jj = i - orig.len();
                assert(is_leaf_for(tree.leaves@[orig.len() + jj], cs[jj]));
                assert(leaf_digests(data@)[jj] == sha256_of(cs[jj]));
            }
        }
        assert(node_digests(tree.leaves@) =~= node_digests(orig) + leaf_digests(data@));
    }
    Ok(tree)
}

} // verus!
