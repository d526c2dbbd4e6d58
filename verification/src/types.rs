use vstd::prelude::*;

use crate::consts::HASH_SIZE;
use crate::hash::{sha256, sha256_of};

verus! {

/// One vertex of the hash tree: a digest and either no children (a leaf, or
/// a node carried unpaired through a layer) or exactly two (a branch).
#[derive(Debug, PartialEq, Eq)]
pub struct Node {
    pub hash: [u8; HASH_SIZE],
    pub left: Option<Box<Node>>,
    pub right: Option<Box<Node>>,
}

impl Clone for Node {
    /// A clone equals the original, children included.
    fn clone(&self) -> (r: Self)
        ensures
            r == *self,
        decreases self,
    {
        Node {
            hash: self.hash,
            left: (match &self.left {
                Some(node) => Some(Box::new((&**node).clone())),
                None => None,
            }),
            right: (match &self.right {
                Some(node) => Some(Box::new((&**node).clone())),
                None => None,
            }),
        }
    }
}

impl Default for Node {
    /// The fallback node: the digest of a single zero byte, no children.
    /// It stands in for the root of an empty side of an opening.
    fn default() -> (r: Self)
        ensures
            r.hash@ == sha256_of(seq![0u8]),
            r.left is None,
            r.right is None,
    {
        let mut zero: Vec<u8> = Vec::new();
        zero.push(0u8);
        proof {
            assert(zero@ =~= seq![0u8]);
        }
        Node { hash: sha256(zero.as_slice()), left: None, right: None }
    }
}

/// An ordered container of leaf nodes awaiting reduction. Leaf order is the
/// chunk order and is semantically significant: reordering changes the root.
pub struct Tree {
    pub leaves: Vec<Node>,
}

/// The operations a leaf container offers the tree algorithms: creation,
/// leaf insertion in order, indexed access, and the digest function bound
/// to the tree.
pub trait MutableTree: Sized {
    /// The ordered leaf sequence the container holds.
    spec fn leaves_view(&self) -> Seq<Node>;

    fn new() -> (r: Self)
        ensures
            r.leaves_view() == Seq::<Node>::empty(),
    ;

    fn insert_leaf(&mut self, node: Node)
        ensures
            final(self).leaves_view() == old(self).leaves_view().push(node),
    ;

    fn insert_leaves(&mut self, nodes: Vec<Node>)
        ensures
            final(self).leaves_view() == old(self).leaves_view() + nodes@,
    ;

    fn get(&self, index: usize) -> (r: Option<&Node>)
        ensures
            index < self.leaves_view().len() ==> (r matches Some(node) && *node
                == self.leaves_view()[index as int]),
            index >= self.leaves_view().len() ==> r is None,
    ;

    fn hash(&self, message: &[u8]) -> (r: [u8; HASH_SIZE])
        ensures
            r@ == sha256_of(message@),
    ;
}

impl MutableTree for Tree {
    open spec fn leaves_view(&self) -> Seq<Node> {
        self.leaves@
    }

    fn new() -> (r: Self) {
        Tree { leaves: Vec::new() }
    }

    fn insert_leaf(&mut self, node: Node) {
        self.leaves.push(node)
    }

    fn insert_leaves(&mut self, nodes: Vec<Node>) {
        let mut nodes = nodes;
        self.leaves.append(&mut nodes)
    }

    fn get(&self, index: usize) -> (r: Option<&Node>) {
        if index < self.leaves.len() {
            Some(&self.leaves[index])
        } else {
            None
        }
    }

    /// The digest function bound to this tree: SHA-256.
    fn hash(&self, message: &[u8]) -> (r: [u8; HASH_SIZE]) {
        sha256(message)
    }
}

} // verus!
