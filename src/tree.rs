//! The binary Merkle tree: its mathematical model and its bottom-up
//! construction from an ordered sequence of leaf digests.

use crate::hasher::{concat_hash, generate_hash, leaf_digest, pair_digest};
use vstd::prelude::*;

verus! {

/// Why building a tree or an inclusion proof failed.
#[derive(Debug, Clone, Copy, PartialEq, Eq, Structural)]
pub enum MerkleError {
    /// A tree needs at least one leaf.
    EmptyInput,
    /// No leaf of the tree carries the requested digest.
    TargetNotFound,
}

/// The model of a tree node: its digest and its children.
pub struct TreeView {
    pub hash: Seq<char>,
    pub left: Option<Box<TreeView>>,
    pub right: Option<Box<TreeView>>,
}

/// A leaf carrying digest `h`.
pub open spec fn leaf(h: Seq<char>) -> TreeView {
    TreeView { hash: h, left: None, right: None }
}

/// An internal node over `l` and `r`, whose digest covers both children.
pub open spec fn branch(l: TreeView, r: TreeView) -> TreeView {
    TreeView { hash: pair_digest(l.hash, r.hash), left: Some(Box::new(l)), right: Some(Box::new(r)) }
}

impl TreeView {
    /// The leaf digests, left to right. A node with a single child is
    /// malformed and holds no leaves.
    pub open spec fn leaves(self) -> Seq<Seq<char>>
        decreases self,
    {
        match self.left {
            Some(l) => match self.right {
                Some(r) => l.leaves() + r.leaves(),
                None => Seq::empty(),
            },
            None => match self.right {
                Some(_) => Seq::empty(),
                None => seq![self.hash],
            },
        }
    }

    /// Every internal node has two children and carries the digest of their
    /// two digests, left first.
    pub open spec fn hashes_consistent(self) -> bool
        decreases self,
    {
        match self.left {
            Some(l) => match self.right {
                Some(r) => {
                    &&& l.hashes_consistent()
                    &&& r.hashes_consistent()
                    &&& self.hash == pair_digest(l.hash, r.hash)
                },
                None => false,
            },
            None => self.right is None,
        }
    }
}

/// One leaf per digest, in order.
pub open spec fn leaf_level(hs: Seq<Seq<char>>) -> Seq<TreeView> {
    Seq::new(hs.len(), |i: int| leaf(hs[i]))
}

/// The partner of the node at `2 * k`: its right neighbour, or the node
/// itself when it is the last of an odd level.
pub open spec fn partner(ts: Seq<TreeView>, k: int) -> TreeView {
    if 2 * k + 1 < ts.len() {
        ts[2 * k + 1]
    } else {
        ts[2 * k]
    }
}

/// The level above `ts`: neighbours paired left to right, a lone last node
/// paired with a copy of itself.
pub open spec fn pair_level(ts: Seq<TreeView>) -> Seq<TreeView> {
    Seq::new(((ts.len() + 1) / 2) as nat, |k: int| branch(ts[2 * k], partner(ts, k)))
}

/// Pairs levels until a single node remains.
pub open spec fn reduce(ts: Seq<TreeView>) -> TreeView
    decreases ts.len(),
{
    if ts.len() <= 1 {
        ts[0]
    } else {
        reduce(pair_level(ts))
    }
}

/// The Merkle tree over the leaf digests `hs`, in order.
pub open spec fn merkle_tree(hs: Seq<Seq<char>>) -> TreeView {
    reduce(leaf_level(hs))
}

/// A tree node. A leaf has no children; an internal node has both.
#[derive(Debug)]
pub struct Node {
    pub hash: String,
    pub left: Option<Box<Node>>,
    pub right: Option<Box<Node>>,
}

impl Node {
    pub open spec fn model(self) -> TreeView
        decreases self,
    {
        TreeView {
            hash: self.hash@,
            left: match self.left {
                Some(l) => Some(Box::new(l.model())),
                None => None,
            },
            right: match self.right {
                Some(r) => Some(Box::new(r.model())),
                None => None,
            },
        }
    }
}

impl View for Node {
    type V = TreeView;

    open spec fn view(&self) -> TreeView {
        self.model()
    }
}

/// The models of a sequence of nodes.
pub open spec fn views(ns: Seq<Node>) -> Seq<TreeView> {
    Seq::new(ns.len(), |i: int| ns[i]@)
}

impl Node {
    /// A leaf carrying `hash`.
    pub fn new(hash: String) -> (r: Node)
        ensures
            r.hash == hash,
            r.left is None,
            r.right is None,
            r@ == leaf(hash@),
    {
        Node { hash, left: None, right: None }
    }

    /// Attaches `node` as the left child; the slot must be empty.
    pub fn add_left_node(&mut self, node: Node)
        requires
            old(self).left is None,
        ensures
            final(self).hash == old(self).hash,
            final(self).right == old(self).right,
            final(self).left == Some(Box::new(node)),
    {
        self.left = Some(Box::new(node));
    }

    /// Attaches `node` as the right child; the slot must be empty.
    pub fn add_right_node(&mut self, node: Node)
        requires
            old(self).right is None,
        ensures
            final(self).hash == old(self).hash,
            final(self).left == old(self).left,
            final(self).right == Some(Box::new(node)),
    {
        self.right = Some(Box::new(node));
    }

    /// An independent deep copy of this subtree.
    pub fn duplicate(&self) -> (r: Node)
        ensures
            r@ == self@,
        decreases self,
    {
        let left = match &self.left {
            Some(l) => Some(Box::new(l.duplicate())),
            None => None,
        };
        let right = match &self.right {
            Some(r) => Some(Box::new(r.duplicate())),
            None => None,
        };
        Node { hash: self.hash.clone(), left, right }
    }
}

/// Builds the Merkle tree over `hashes`, which are taken as the leaf digests
/// themselves.
pub fn build_tree_from_hashes(hashes: Vec<String>) -> (r: Result<Node, MerkleError>)
    ensures
        match r {
            Ok(root) => hashes@.len() > 0 && root@ == merkle_tree(hashes.deep_view()),
            Err(e) => hashes@.len() == 0 && e == MerkleError::EmptyInput,
        },
{
    let n = hashes.len();
    if n == 0 {
        return Err(MerkleError::EmptyInput);
    }
    let ghost hs = hashes.deep_view();
    let mut level: Vec<Node> = Vec::new();
    let mut i: usize = 0;
    while i < n
        invariant
            n == hashes@.len(),
            hs == hashes.deep_view(),
            i <= n,
            views(level@) =~= leaf_level(hs).take(i as int),
        decreases n - i,
    {
        let ghost before = level@;
        let h = hashes[i].clone();
        assert(h@ == hs[i as int]);
        level.push(Node::new(h));
        assert(views(level@) =~= views(before).push(leaf(hs[i as int])));
        assert(leaf_level(hs).take(i + 1) =~= leaf_level(hs).take(i as int).push(leaf(hs[i as int])));
        i += 1;
    }
    assert(leaf_level(hs).take(n as int) =~= leaf_level(hs));
    while level.len() > 1
        invariant
            level@.len() >= 1,
            reduce(views(level@)) == merkle_tree(hs),
        decreases level@.len(),
    {
        let m = level.len();
        let half = m - m / 2;
        let ghost ts = views(level@);
        let mut next: Vec<Node> = Vec::new();
        let mut k: usize = 0;
        while k < half
            invariant
                m == level@.len(),
                m >= 2,
                half == m - m / 2,
                ts == views(level@),
                k <= half,
                views(next@) =~= pair_level(ts).take(k as int),
            decreases half - k,
        {
            let left = level[2 * k].duplicate();
            let right = if 2 * k + 1 < m {
                level[2 * k + 1].duplicate()
            } else {
                level[2 * k].duplicate()
            };
            let h = concat_hash(left.hash.as_str(), right.hash.as_str());
            let parent = Node { hash: h, left: Some(Box::new(left)), right: Some(Box::new(right)) };
            assert(parent@ == branch(ts[2 * k as int], partner(ts, k as int)));
            let ghost before = next@;
            next.push(parent);
            assert(views(next@) =~= views(before).push(parent@));
            assert(pair_level(ts).take(k + 1) =~= pair_level(ts).take(k as int).push(parent@));
            k += 1;
        }
        assert(pair_level(ts).take(half as int) =~= pair_level(ts));
        level = next;
    }
    let root = level.pop().unwrap();
    Ok(root)
}

/// The leaf digest of each page text, in order.
pub fn page_digests(pages: &Vec<String>) -> (r: Vec<String>)
    ensures
        r.deep_view() == Seq::new(pages@.len(), |i: int| leaf_digest(pages@[i]@)),
{
    let mut hashes: Vec<String> = Vec::new();
    let mut i: usize = 0;
    while i < pages.len()
        invariant
            i <= pages@.len(),
            hashes.deep_view() =~= Seq::new(i as nat, |j: int| leaf_digest(pages@[j]@)),
        decreases pages@.len() - i,
    {
        let ghost before = hashes.deep_view();
        let h = generate_hash(pages[i].as_str().as_bytes());
        hashes.push(h);
        assert(hashes.deep_view() =~= before.push(h@));
        i += 1;
    }
    assert(hashes.deep_view() =~= Seq::new(pages@.len(), |i: int| leaf_digest(pages@[i]@)));
    hashes
}

/// Builds the Merkle tree over raw page texts: each page is hashed first and
/// its digest becomes the leaf.
pub fn build_merkle_tree(data: Vec<String>) -> (r: Result<Node, MerkleError>)
    ensures
        match r {
            Ok(root) => data@.len() > 0 && root@ == merkle_tree(
                Seq::new(data@.len(), |i: int| leaf_digest(data@[i]@)),
            ),
            Err(e) => data@.len() == 0 && e == MerkleError::EmptyInput,
        },
{
    build_tree_from_hashes(page_digests(&data))
}

} // verus!
