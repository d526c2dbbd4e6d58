use merkle_root::consts::MAX_CHUNK_SIZE;
use merkle_root::error::Error;
use merkle_root::hash::sha256;
use merkle_root::types::{MutableTree, Node, Tree};
use merkle_root::{build_layer, calculate_root, find_opening, generate_leaves, hash_branch};

fn one_mb_zeroes() -> Vec<u8> {
    vec![0u8; 1024 * 1024]
}

#[test]
fn should_generate_leaves_correctly() {
    let data = one_mb_zeroes();
    let tree = generate_leaves(data, Tree::new()).unwrap();

    assert_eq!(tree.leaves.len(), 4);
    assert_eq!(
        tree.leaves[1],
        Node {
            hash: [
                138, 57, 210, 171, 211, 153, 154, 183, 60, 52, 219, 36, 118, 132, 156, 221, 243,
                3, 206, 56, 155, 53, 130, 104, 80, 249, 167, 0, 88, 155, 74, 144
            ],
            left: None,
            right: None
        }
    );
}

#[test]
fn should_build_layer_correctly() {
    let data = one_mb_zeroes();
    let tree = generate_leaves(data, Tree::new()).unwrap();
    let layer = build_layer(&tree, tree.leaves.clone()).unwrap();
    assert_eq!(
        layer[0].hash,
        [
            145, 252, 102, 63, 105, 86, 215, 195, 99, 148, 156, 153, 108, 133, 84, 33, 183, 193,
            195, 63, 31, 184, 3, 202, 117, 86, 21, 85, 217, 148, 216, 103
        ]
    );
}

#[test]
fn should_generate_root() {
    let data = one_mb_zeroes();
    let tree = generate_leaves(data, Tree::new()).unwrap();
    let root = calculate_root(tree).unwrap();
    assert_eq!(
        root.hash,
        [
            70, 162, 187, 117, 47, 193, 189, 49, 59, 4, 229, 155, 6, 73, 97, 9, 221, 249, 57, 16,
            47, 250, 10, 117, 227, 14, 82, 240, 110, 214, 97, 116
        ]
    );
}

#[test]
fn test_valid_root_small_last_chunk() {
    let data = vec![0; 256 * 1024 + 1];
    let tree = generate_leaves(data, Tree::new()).unwrap();
    let root = calculate_root(tree).unwrap();
    assert_eq!(
        root.hash,
        [
            145, 70, 225, 176, 161, 147, 24, 22, 11, 251, 142, 150, 71, 235, 137, 126, 212, 15,
            12, 235, 176, 115, 164, 63, 203, 170, 102, 24, 219, 217, 174, 74
        ]
    );
}

#[test]
fn should_find_opening() {
    let data = one_mb_zeroes();
    let tree = generate_leaves(data, Tree::new()).unwrap();
    let opening = find_opening(tree, 1);
    assert_eq!(
        opening,
        [
            [
                138, 57, 210, 171, 211, 153, 154, 183, 60, 52, 219, 36, 118, 132, 156, 221, 243,
                3, 206, 56, 155, 53, 130, 104, 80, 249, 167, 0, 88, 155, 74, 144
            ],
            [
                34, 175, 149, 60, 99, 192, 81, 183, 12, 141, 75, 122, 35, 190, 185, 11, 208, 48,
                144, 2, 7, 161, 120, 45, 221, 17, 106, 102, 150, 84, 13, 27
            ]
        ]
    );
}

#[test]
fn empty_input_yields_not_found() {
    let result = generate_leaves(Vec::new(), Tree::new());
    assert!(matches!(result, Err(Error::NotFound)));
}

#[test]
fn empty_tree_has_no_root() {
    let result = calculate_root(Tree::new());
    assert!(matches!(result, Err(Error::CouldNotHash)));
}

#[test]
fn chunk_counts_follow_ceil_division() {
    // length 1: one chunk
    let tree = generate_leaves(vec![7u8; 1], Tree::new()).unwrap();
    assert_eq!(tree.leaves.len(), 1);
    // exactly MAX_CHUNK_SIZE: still one chunk, never rebalanced
    let tree = generate_leaves(vec![7u8; MAX_CHUNK_SIZE], Tree::new()).unwrap();
    assert_eq!(tree.leaves.len(), 1);
    // one byte over: two chunks, rebalanced into near-halves
    let tree = generate_leaves(vec![7u8; MAX_CHUNK_SIZE + 1], Tree::new()).unwrap();
    assert_eq!(tree.leaves.len(), 2);
    // exactly two chunks
    let tree = generate_leaves(vec![7u8; 2 * MAX_CHUNK_SIZE], Tree::new()).unwrap();
    assert_eq!(tree.leaves.len(), 2);
    // a small trailing chunk keeps the ceil count through rebalancing
    let tree = generate_leaves(vec![7u8; 2 * MAX_CHUNK_SIZE + 1], Tree::new()).unwrap();
    assert_eq!(tree.leaves.len(), 3);
}

#[test]
fn permuting_leaves_changes_root() {
    let mut forward = Tree::new();
    forward.insert_leaf(Node { hash: sha256(&[1u8]), left: None, right: None });
    forward.insert_leaf(Node { hash: sha256(&[2u8]), left: None, right: None });

    let mut backward = Tree::new();
    backward.insert_leaf(Node { hash: sha256(&[2u8]), left: None, right: None });
    backward.insert_leaf(Node { hash: sha256(&[1u8]), left: None, right: None });

    let forward_root = calculate_root(forward).unwrap();
    let backward_root = calculate_root(backward).unwrap();
    assert_ne!(forward_root.hash, backward_root.hash);
}

#[test]
fn branch_digest_double_hashes_children() {
    let left = Node { hash: sha256(b"left"), left: None, right: None };
    let right = Node { hash: sha256(b"right"), left: None, right: None };
    let tree = Tree::new();

    let branch = hash_branch(&tree, left.clone(), right.clone()).unwrap();

    let mut joined = Vec::new();
    joined.extend_from_slice(&sha256(&left.hash));
    joined.extend_from_slice(&sha256(&right.hash));
    assert_eq!(branch.hash, sha256(&joined));
    assert_eq!(branch.left.as_deref(), Some(&left));
    assert_eq!(branch.right.as_deref(), Some(&right));
}

#[test]
fn odd_layer_carries_last_node_unchanged() {
    let nodes = vec![
        Node { hash: sha256(&[1u8]), left: None, right: None },
        Node { hash: sha256(&[2u8]), left: None, right: None },
        Node { hash: sha256(&[3u8]), left: None, right: None },
    ];
    let tree = Tree::new();
    let layer = build_layer(&tree, nodes.clone()).unwrap();
    assert_eq!(layer.len(), 2);
    assert_eq!(layer[1], nodes[2]);
}

#[test]
fn single_chunk_root_is_leaf_digest() {
    let data = vec![42u8; 1000];
    let expected = sha256(&data);
    let tree = generate_leaves(data, Tree::new()).unwrap();
    let root = calculate_root(tree).unwrap();
    assert_eq!(root.hash, expected);
    assert!(root.left.is_none());
    assert!(root.right.is_none());
}

#[test]
fn sha256_matches_known_vector() {
    // SHA-256 of the single byte 0x00.
    let expected = [
        0x6e, 0x34, 0x0b, 0x9c, 0xff, 0xb3, 0x7a, 0x98, 0x9c, 0xa5, 0x44, 0xe6, 0xbb, 0x78, 0x0a,
        0x2c, 0x78, 0x90, 0x1d, 0x3f, 0xb3, 0x37, 0x38, 0x76, 0x85, 0x11, 0xa3, 0x06, 0x17, 0xaf,
        0xa0, 0x1d,
    ];
    assert_eq!(sha256(&[0u8]), expected);
}

#[test]
fn opening_of_empty_side_is_zero_byte_digest() {
    let mut tree = Tree::new();
    let leaf_hash = sha256(b"only");
    tree.insert_leaf(Node { hash: leaf_hash, left: None, right: None });

    let opening = find_opening(tree, 0);
    assert_eq!(opening[0], sha256(&[0u8]));
    assert_eq!(opening[1], leaf_hash);

    let mut tree = Tree::new();
    tree.insert_leaf(Node { hash: leaf_hash, left: None, right: None });
    let opening = find_opening(tree, 1);
    assert_eq!(opening[0], leaf_hash);
    assert_eq!(opening[1], sha256(&[0u8]));
}

#[test]
fn tree_get_returns_leaves_in_order() {
    let mut tree = Tree::new();
    let first = Node { hash: sha256(&[1u8]), left: None, right: None };
    let second = Node { hash: sha256(&[2u8]), left: None, right: None };
    tree.insert_leaves(vec![first.clone(), second.clone()]);
    assert_eq!(tree.get(0), Some(&first));
    assert_eq!(tree.get(1), Some(&second));
    assert_eq!(tree.get(2), None);
}
