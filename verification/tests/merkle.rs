use sha2::{Digest, Sha256};
use utxo_chain::merkle_tree::{MerkleNode, MerkleTree};

fn sha256(data: &[u8]) -> Vec<u8> {
    Sha256::digest(data).to_vec()
}

fn pair(left: &[u8], right: &[u8]) -> Vec<u8> {
    let mut joined = left.to_vec();
    joined.extend_from_slice(right);
    sha256(&joined)
}

#[test]
fn leaf_node_holds_digest_of_data() {
    let node = MerkleNode::new(None, None, Some(b"leaf"));
    assert_eq!(node.data, sha256(b"leaf"));
}

#[test]
fn parent_node_holds_digest_of_children() {
    let left = MerkleNode::new(None, None, Some(b"l"));
    let right = MerkleNode::new(None, None, Some(b"r"));
    let parent = MerkleNode::new(Some(&left), Some(&right), None);
    assert_eq!(parent.data, pair(&sha256(b"l"), &sha256(b"r")));
}

#[test]
fn single_leaf_is_paired_with_itself() {
    let tree = MerkleTree::new(vec![b"a".to_vec()]);
    let a = sha256(b"a");
    assert_eq!(tree.root.data, pair(&a, &a));
    assert_eq!(tree.root.data.len(), 32);
}

#[test]
fn two_leaves() {
    let tree = MerkleTree::new(vec![b"a".to_vec(), b"b".to_vec()]);
    assert_eq!(tree.root.data, pair(&sha256(b"a"), &sha256(b"b")));
}

#[test]
fn three_leaves_repeat_the_last() {
    let three = MerkleTree::new(vec![b"a".to_vec(), b"b".to_vec(), b"c".to_vec()]);
    let four = MerkleTree::new(vec![b"a".to_vec(), b"b".to_vec(), b"c".to_vec(), b"c".to_vec()]);
    let ab = pair(&sha256(b"a"), &sha256(b"b"));
    let cc = pair(&sha256(b"c"), &sha256(b"c"));
    assert_eq!(three.root.data, pair(&ab, &cc));
    assert_eq!(three.root.data, four.root.data);
}

#[test]
fn five_leaves_repeat_at_each_odd_level() {
    let leaves: Vec<Vec<u8>> = vec![b"1".to_vec(), b"2".to_vec(), b"3".to_vec(), b"4".to_vec(), b"5".to_vec()];
    let tree = MerkleTree::new(leaves);
    let h: Vec<Vec<u8>> = [b"1", b"2", b"3", b"4", b"5"].iter().map(|l| sha256(*l)).collect();
    let n12 = pair(&h[0], &h[1]);
    let n34 = pair(&h[2], &h[3]);
    let n55 = pair(&h[4], &h[4]);
    let left = pair(&n12, &n34);
    let right = pair(&n55, &n55);
    assert_eq!(tree.root.data, pair(&left, &right));
}

#[test]
fn exchanging_two_leaves_changes_the_root() {
    let leaves: Vec<Vec<u8>> = (0u8..6).map(|i| vec![i; 3]).collect();
    let root = MerkleTree::new(leaves.clone()).root.data;
    for i in 0..leaves.len() {
        for j in (i + 1)..leaves.len() {
            let mut swapped = leaves.clone();
            swapped.swap(i, j);
            assert_ne!(MerkleTree::new(swapped).root.data, root);
        }
    }
}
