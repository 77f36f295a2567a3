//! A Merkle tree over byte strings, built bottom-up; only digests are kept.

use vstd::prelude::*;
use crate::hashing::{sha256, sha256_of, sha256_pair};
use crate::utils::copy_bytes;

verus! {

/// One node of the tree: the digest it stands for.
#[derive(Debug)]
pub struct MerkleNode {
    pub data: Vec<u8>,
}

/// A finished tree, of which the root is kept.
#[derive(Debug)]
pub struct MerkleTree {
    pub root: MerkleNode,
}

/// The views of a row of byte vectors.
pub open spec fn rows(data: Seq<Vec<u8>>) -> Seq<Seq<u8>> {
    data.map_values(|row: Vec<u8>| row@)
}

/// The digests held by a row of nodes.
pub open spec fn digests(nodes: Seq<MerkleNode>) -> Seq<Seq<u8>> {
    nodes.map_values(|node: MerkleNode| node.data@)
}

/// The digest of each leaf.
pub open spec fn leaf_digests(leaves: Seq<Seq<u8>>) -> Seq<Seq<u8>> {
    leaves.map_values(|leaf: Seq<u8>| sha256_of(leaf))
}

/// A row made even by repeating its last digest.
pub open spec fn pad_even(row: Seq<Seq<u8>>) -> Seq<Seq<u8>> {
    if row.len() % 2 == 1 {
        row.push(row.last())
    } else {
        row
    }
}

/// The row above an even row: the digest of each pair of neighbours.
pub open spec fn pair_up(row: Seq<Seq<u8>>) -> Seq<Seq<u8>> {
    Seq::new(row.len() / 2, |i: int| sha256_of(row[2 * i] + row[2 * i + 1]))
}

/// The digest that remains when a row is paired up, level by level, until
/// one is left; an odd row has its last digest repeated first.
pub open spec fn fold_rows(row: Seq<Seq<u8>>) -> Seq<u8>
    decreases row.len(),
{
    if row.len() <= 1 {
        row[0]
    } else {
        fold_rows(pair_up(pad_even(row)))
    }
}

/// The Merkle root of a list of leaves. Each leaf is hashed; a row of odd
/// length has its last digest repeated (a single leaf is paired with itself);
/// each parent is the digest of its two children joined.
pub open spec fn merkle_root(leaves: Seq<Seq<u8>>) -> Seq<u8> {
    fold_rows(pair_up(pad_even(leaf_digests(leaves))))
}

impl MerkleNode {
    /// A leaf holds the digest of its data; a parent holds the digest of its
    /// children's digests, the left one first.
    pub fn new(left: Option<&MerkleNode>, right: Option<&MerkleNode>, data: Option<&[u8]>) -> (node:
        Self)
        requires
            left is None && right is None ==> data is Some,
            left is Some || right is Some ==> left is Some && right is Some,
        ensures
            left is None ==> node.data@ == sha256_of(data.unwrap()@),
            left is Some ==> node.data@ == sha256_of(left.unwrap().data@ + right.unwrap().data@),
            node.data@.len() == 32,
    {
        match (left, right) {
            (Some(l), Some(r)) => MerkleNode {
                data: sha256_pair(l.data.as_slice(), r.data.as_slice()),
            },
            _ => match data {
                Some(bytes) => MerkleNode { data: sha256(bytes) },
                None => MerkleNode { data: sha256(Vec::new().as_slice()) },
            },
        }
    }
}

/// Repeats the last node of an odd row.
fn make_even(nodes: &mut Vec<MerkleNode>)
    ensures
        digests(final(nodes)@) == pad_even(digests(old(nodes)@)),
        final(nodes)@.len() % 2 == 0,
        final(nodes)@.len() >= old(nodes)@.len(),
        final(nodes)@.len() <= old(nodes)@.len() + 1,
{
    let n = nodes.len();
    if n % 2 == 1 {
        let copy = MerkleNode { data: copy_bytes(nodes[n - 1].data.as_slice()) };
        nodes.push(copy);
        assert(digests(nodes@) =~= pad_even(digests(old(nodes)@)));
    }
}

/// The parents of an even row.
fn parents(nodes: &Vec<MerkleNode>) -> (above: Vec<MerkleNode>)
    requires
        nodes@.len() % 2 == 0,
    ensures
        digests(above@) == pair_up(digests(nodes@)),
        above@.len() == nodes@.len() / 2,
        forall|k: int| 0 <= k < above@.len() ==> (#[trigger] above@[k]).data@.len() == 32,
{
    let mut above: Vec<MerkleNode> = Vec::new();
    let mut i: usize = 0;
    while i < nodes.len()
        invariant
            i <= nodes.len(),
            i % 2 == 0,
            nodes@.len() % 2 == 0,
            above@.len() == i / 2,
            forall|k: int|
                0 <= k < above@.len() ==> (#[trigger] above@[k]).data@ == pair_up(
                    digests(nodes@),
                )[k],
            forall|k: int| 0 <= k < above@.len() ==> (#[trigger] above@[k]).data@.len() == 32,
        decreases nodes.len() - i,
    {
        let node = MerkleNode::new(Some(&nodes[i]), Some(&nodes[i + 1]), None);
        above.push(node);
        i += 2;
    }
    assert(digests(above@) =~= pair_up(digests(nodes@)));
    above
}

impl MerkleTree {
    /// Builds the tree over `data` and keeps its root.
    pub fn new(data: Vec<Vec<u8>>) -> (tree: Self)
        requires
            data@.len() > 0,
        ensures
            tree.root.data@ == merkle_root(rows(data@)),
            tree.root.data@.len() == 32,
    {
        let mut nodes: Vec<MerkleNode> = Vec::new();
        let mut i: usize = 0;
        while i < data.len()
            invariant
                i <= data.len(),
                nodes@.len() == i,
                forall|k: int|
                    0 <= k < i ==> (#[trigger] nodes@[k]).data@ == sha256_of(data@[k]@),
            decreases data.len() - i,
        {
            nodes.push(MerkleNode::new(None, None, Some(data[i].as_slice())));
            i += 1;
        }
        assert(digests(nodes@) =~= leaf_digests(rows(data@)));
        make_even(&mut nodes);
        nodes = parents(&nodes);
        while nodes.len() > 1
            invariant
                nodes@.len() >= 1,
                fold_rows(digests(nodes@)) == merkle_root(rows(data@)),
                forall|k: int| 0 <= k < nodes@.len() ==> (#[trigger] nodes@[k]).data@.len() == 32,
            decreases nodes@.len(),
        {
            make_even(&mut nodes);
            nodes = parents(&nodes);
        }
        let ghost row = digests(nodes@);
        let root = nodes.remove(0);
        assert(root.data@ == row[0]);
        MerkleTree { root }
    }
}


/// Whether two different byte strings share a SHA-256 digest.
pub open spec fn sha256_collides() -> bool {
    exists|x: Seq<u8>, y: Seq<u8>| x != y && #[trigger] sha256_of(x) == #[trigger] sha256_of(y)
}

/// Whether every SHA-256 digest is 32 bytes long, as each computed one is.
pub open spec fn sha256_is_32_bytes() -> bool {
    forall|x: Seq<u8>| (#[trigger] sha256_of(x)).len() == 32
}

spec fn all_32(row: Seq<Seq<u8>>) -> bool {
    forall|i: int| 0 <= i < row.len() ==> (#[trigger] row[i]).len() == 32
}

proof fn lemma_pair_up_binds(x: Seq<Seq<u8>>, y: Seq<Seq<u8>>)
    requires
        !sha256_collides(),
        x.len() == y.len(),
        x.len() % 2 == 0,
        all_32(x),
        all_32(y),
        pair_up(x) == pair_up(y),
    ensures
        x == y,
{
    assert forall|k: int| 0 <= k < x.len() implies x[k] == y[k] by {
        let i = k / 2;
        let jx = x[2 * i] + x[2 * i + 1];
        let jy = y[2 * i] + y[2 * i + 1];
        assert(pair_up(x)[i] == sha256_of(jx));
        assert(pair_up(y)[i] == sha256_of(jy));
        assert(jx == jy);
        assert(x[2 * i].len() == 32 && y[2 * i].len() == 32);
        assert(x[2 * i] =~= jx.subrange(0, 32));
        assert(y[2 * i] =~= jy.subrange(0, 32));
        assert(x[2 * i + 1] =~= jx.subrange(32, jx.len() as int));
        assert(y[2 * i + 1] =~= jy.subrange(32, jy.len() as int));
    }
    assert(x =~= y);
}

proof fn lemma_fold_rows_binds(x: Seq<Seq<u8>>, y: Seq<Seq<u8>>)
    requires
        !sha256_collides(),
        sha256_is_32_bytes(),
        x.len() == y.len(),
        x.len() >= 1,
        all_32(x),
        all_32(y),
        fold_rows(x) == fold_rows(y),
    ensures
        x == y,
    decreases x.len(),
{
    if x.len() == 1 {
        assert(x =~= y);
    } else {
        let ex = pad_even(x);
        let ey = pad_even(y);
        assert(all_32(ex));
        assert(all_32(ey));
        lemma_fold_rows_binds(pair_up(ex), pair_up(ey));
        lemma_pair_up_binds(ex, ey);
        assert forall|k: int| 0 <= k < x.len() implies x[k] == y[k] by {
            assert(ex[k] == x[k]);
            assert(ey[k] == y[k]);
        }
        assert(x =~= y);
    }
}

/// Two lists of equally many leaves with one Merkle root are the same list,
/// unless SHA-256 maps two different byte strings to one digest (or yields
/// a digest that is not 32 bytes long).
pub proof fn lemma_merkle_root_binds_leaves(a: Seq<Seq<u8>>, b: Seq<Seq<u8>>)
    requires
        a.len() == b.len(),
        a.len() > 0,
        merkle_root(a) == merkle_root(b),
    ensures
        a == b || sha256_collides() || !sha256_is_32_bytes(),
{
    if !sha256_collides() && sha256_is_32_bytes() {
        let ha = pad_even(leaf_digests(a));
        let hb = pad_even(leaf_digests(b));
        assert(all_32(ha));
        assert(all_32(hb));
        lemma_fold_rows_binds(pair_up(ha), pair_up(hb));
        lemma_pair_up_binds(ha, hb);
        assert forall|k: int| 0 <= k < a.len() implies a[k] == b[k] by {
            assert(ha[k] == sha256_of(a[k]));
            assert(hb[k] == sha256_of(b[k]));
        }
        assert(a =~= b);
    }
}

/// Exchanging two leaves that differ changes the Merkle root, unless
/// SHA-256 maps two different byte strings to one digest (or yields a digest
/// that is not 32 bytes long).
pub proof fn lemma_swapped_leaves_change_root(leaves: Seq<Seq<u8>>, i: int, j: int)
    requires
        0 <= i < leaves.len(),
        0 <= j < leaves.len(),
        leaves[i] != leaves[j],
    ensures
        merkle_root(leaves.update(i, leaves[j]).update(j, leaves[i])) != merkle_root(leaves)
            || sha256_collides() || !sha256_is_32_bytes(),
{
    let swapped = leaves.update(i, leaves[j]).update(j, leaves[i]);
    if merkle_root(swapped) == merkle_root(leaves) {
        lemma_merkle_root_binds_leaves(swapped, leaves);
        if swapped == leaves {
            assert(swapped[j] == leaves[i]);
        }
    }
}

/// A list of odd length has the root of the list with its last leaf repeated.
pub proof fn lemma_odd_leaf_is_repeated(leaves: Seq<Seq<u8>>)
    requires
        leaves.len() % 2 == 1,
    ensures
        merkle_root(leaves) == merkle_root(leaves.push(leaves.last())),
{
    let longer = leaves.push(leaves.last());
    assert(pad_even(leaf_digests(leaves)) =~= leaf_digests(longer));
    assert(pad_even(leaf_digests(longer)) == leaf_digests(longer));
}

} // verus!
