//! Properties that relate tree construction, proof generation and proof
//! verification, proved over the models that their contracts use.

use crate::inclusion::{
    first_index, lemma_first_index, path_to, proof_accepts, proof_for, tag_left, tag_right,
    tags_valid,
};
use crate::tree::{leaf, leaf_level, merkle_tree, pair_level, partner, reduce, Node, TreeView};
use vstd::prelude::*;

verus! {

/// The leaves of a sequence of trees, concatenated left to right.
pub open spec fn flat(ts: Seq<TreeView>) -> Seq<Seq<char>>
    decreases ts.len(),
{
    if ts.len() == 0 {
        Seq::empty()
    } else {
        flat(ts.drop_last()) + ts.last().leaves()
    }
}

/// `hs` is a prefix of `ls`, and every element of `ls` occurs in `hs`.
pub open spec fn covers(ls: Seq<Seq<char>>, hs: Seq<Seq<char>>) -> bool {
    &&& hs.len() <= ls.len()
    &&& forall|i: int| 0 <= i < hs.len() ==> ls[i] == hs[i]
    &&& forall|i: int| 0 <= i < ls.len() ==> hs.contains(#[trigger] ls[i])
}

proof fn lemma_tags_differ()
    ensures
        tag_left() != tag_right(),
{
    assert(tag_left()[0] != tag_right()[0]);
}

/// Folding the path of any leaf of a hash-consistent tree reaches its root.
pub proof fn lemma_path_folds_to_root(t: TreeView, i: int)
    requires
        t.hashes_consistent(),
        0 <= i < t.leaves().len(),
    ensures
        proof_accepts(t.hash, t.leaves()[i], path_to(t, i)),
    decreases t,
{
    lemma_tags_differ();
    match t.left {
        Some(l) => match t.right {
            Some(r) => {
                let n = l.leaves().len();
                if i < n {
                    lemma_path_folds_to_root(*l, i);
                    let p = path_to(*l, i);
                    let q = p.push((r.hash, tag_right()));
                    assert(q.drop_last() =~= p);
                    assert(t.leaves()[i] == l.leaves()[i]);
                    assert forall|j: int| 0 <= j < q.len() implies (#[trigger] q[j]).1 == tag_left()
                        || q[j].1 == tag_right() by {
                        if j < p.len() {
                            assert(q[j] == p[j]);
                        }
                    }
                } else {
                    lemma_path_folds_to_root(*r, i - n);
                    let p = path_to(*r, i - n);
                    let q = p.push((l.hash, tag_left()));
                    assert(q.drop_last() =~= p);
                    assert(t.leaves()[i] == r.leaves()[i - n]);
                    assert forall|j: int| 0 <= j < q.len() implies (#[trigger] q[j]).1 == tag_left()
                        || q[j].1 == tag_right() by {
                        if j < p.len() {
                            assert(q[j] == p[j]);
                        }
                    }
                }
            },
            None => {},
        },
        None => {
            assert(tags_valid(Seq::<(Seq<char>, Seq<char>)>::empty()));
        },
    }
}

proof fn lemma_flat_leaf_level(hs: Seq<Seq<char>>)
    ensures
        flat(leaf_level(hs)) == hs,
    decreases hs.len(),
{
    if hs.len() > 0 {
        assert(leaf_level(hs).drop_last() =~= leaf_level(hs.drop_last()));
        lemma_flat_leaf_level(hs.drop_last());
        assert(leaf(hs.last()).leaves() =~= seq![hs.last()]);
        assert(hs.drop_last() + seq![hs.last()] =~= hs);
    }
}

proof fn lemma_flat_pair_prefix(ts: Seq<TreeView>, k: int)
    requires
        0 <= k,
        2 * k <= ts.len(),
    ensures
        flat(pair_level(ts).take(k)) == flat(ts.take(2 * k)),
    decreases k,
{
    if k > 0 {
        lemma_flat_pair_prefix(ts, k - 1);
        let ps = pair_level(ts).take(k);
        assert(ps.drop_last() =~= pair_level(ts).take(k - 1));
        let a = ts.take(2 * k);
        assert(a.drop_last() =~= ts.take(2 * k - 1));
        assert(a.drop_last().drop_last() =~= ts.take(2 * k - 2));
        assert(ps.last().leaves() == ts[2 * k - 2].leaves() + ts[2 * k - 1].leaves());
        assert(flat(ts.take(2 * k - 1)) == flat(ts.take(2 * k - 2)) + ts[2 * k - 2].leaves());
        assert(flat(a) == flat(ts.take(2 * k - 1)) + ts[2 * k - 1].leaves());
        vstd::seq_lib::lemma_concat_associative(
            flat(ts.take(2 * k - 2)),
            ts[2 * k - 2].leaves(),
            ts[2 * k - 1].leaves(),
        );
    }
}

proof fn lemma_flat_pair_level(ts: Seq<TreeView>)
    requires
        ts.len() >= 1,
    ensures
        ts.len() % 2 == 0 ==> flat(pair_level(ts)) == flat(ts),
        ts.len() % 2 == 1 ==> flat(pair_level(ts)) == flat(ts) + ts.last().leaves(),
{
    let n = ts.len() as int;
    let ps = pair_level(ts);
    if n % 2 == 0 {
        lemma_flat_pair_prefix(ts, n / 2);
        assert(ps.take(n / 2) =~= ps);
        assert(ts.take(n) =~= ts);
    } else {
        let k = n / 2;
        lemma_flat_pair_prefix(ts, k);
        assert(ps.drop_last() =~= ps.take(k));
        assert(ts.drop_last() =~= ts.take(2 * k));
        assert(ps.last().leaves() == ts.last().leaves() + ts.last().leaves());
        vstd::seq_lib::lemma_concat_associative(
            flat(ts.drop_last()),
            ts.last().leaves(),
            ts.last().leaves(),
        );
    }
}

proof fn lemma_reduce_shape(ts: Seq<TreeView>, hs: Seq<Seq<char>>)
    requires
        ts.len() >= 1,
        forall|j: int| 0 <= j < ts.len() ==> (#[trigger] ts[j]).hashes_consistent(),
        covers(flat(ts), hs),
    ensures
        reduce(ts).hashes_consistent(),
        covers(reduce(ts).leaves(), hs),
    decreases ts.len(),
{
    if ts.len() == 1 {
        assert(ts.drop_last() =~= Seq::<TreeView>::empty());
        assert(flat(ts) =~= ts[0].leaves());
    } else {
        let ps = pair_level(ts);
        assert forall|j: int| 0 <= j < ps.len() implies (#[trigger] ps[j]).hashes_consistent() by {
            assert(ts[2 * j].hashes_consistent());
            assert(partner(ts, j).hashes_consistent());
        }
        lemma_flat_pair_level(ts);
        let f = flat(ts);
        let g = flat(ps);
        if ts.len() % 2 == 1 {
            let tail = ts.last().leaves();
            assert(f == flat(ts.drop_last()) + tail);
            assert forall|i: int| 0 <= i < g.len() implies hs.contains(#[trigger] g[i]) by {
                if i >= f.len() {
                    assert(g[i] == tail[i - f.len()]);
                    assert(f[flat(ts.drop_last()).len() + i - f.len()] == tail[i - f.len()]);
                    assert(hs.contains(f[flat(ts.drop_last()).len() + i - f.len()]));
                } else {
                    assert(g[i] == f[i]);
                }
            }
            assert forall|i: int| 0 <= i < hs.len() implies g[i] == hs[i] by {
                assert(g[i] == f[i]);
            }
        }
        lemma_reduce_shape(ps, hs);
    }
}

/// The tree over a nonempty leaf sequence is hash-consistent, its leaves
/// start with the given sequence, and every leaf is one of the given digests.
pub proof fn lemma_merkle_tree_shape(hs: Seq<Seq<char>>)
    requires
        hs.len() > 0,
    ensures
        merkle_tree(hs).hashes_consistent(),
        covers(merkle_tree(hs).leaves(), hs),
{
    let ts = leaf_level(hs);
    lemma_flat_leaf_level(hs);
    assert forall|i: int| 0 <= i < hs.len() implies hs.contains(#[trigger] hs[i]) by {}
    lemma_reduce_shape(ts, hs);
}

/// Building twice over the same leaf sequence gives the same root digest.
pub proof fn lemma_build_deterministic(hs: Seq<Seq<char>>, a: Node, b: Node)
    requires
        a@ == merkle_tree(hs),
        b@ == merkle_tree(hs),
    ensures
        a.hash@ == b.hash@,
{
}

/// For every position of a nonempty leaf sequence, the proof generated for
/// that leaf exists and verifies against the root of the tree.
pub proof fn lemma_inclusion_sound(hs: Seq<Seq<char>>, i: int)
    requires
        0 <= i < hs.len(),
    ensures
        proof_for(merkle_tree(hs), hs[i]) is Some,
        proof_accepts(merkle_tree(hs).hash, hs[i], proof_for(merkle_tree(hs), hs[i]).unwrap()),
{
    let t = merkle_tree(hs);
    lemma_merkle_tree_shape(hs);
    assert(t.leaves()[i] == hs[i]);
    assert(t.leaves().contains(hs[i]));
    lemma_first_index(t.leaves(), hs[i]);
    lemma_path_folds_to_root(t, first_index(t.leaves(), hs[i]));
}

/// A digest that is not among the leaves given to the build has no proof.
pub proof fn lemma_absent_target_not_found(hs: Seq<Seq<char>>, target: Seq<char>)
    requires
        hs.len() > 0,
        !hs.contains(target),
    ensures
        proof_for(merkle_tree(hs), target) is None,
{
    let ls = merkle_tree(hs).leaves();
    lemma_merkle_tree_shape(hs);
    if ls.contains(target) {
        let k = choose|k: int| 0 <= k < ls.len() && ls[k] == target;
        assert(hs.contains(ls[k]));
    }
}

/// A single leaf is its own root; its proof is empty and verifies.
pub proof fn lemma_single_leaf(a: Seq<char>)
    ensures
        merkle_tree(seq![a]) == leaf(a),
        merkle_tree(seq![a]).hash == a,
        proof_for(merkle_tree(seq![a]), a) == Some(Seq::<(Seq<char>, Seq<char>)>::empty()),
        proof_accepts(a, a, Seq::empty()),
{
    assert(leaf_level(seq![a]) =~= seq![leaf(a)]);
    assert(leaf(a).leaves() =~= seq![a]);
    assert(leaf(a).leaves()[0] == a);
}

/// A proof generated from a tree rebuilt out of the stored leaf sequence
/// verifies against the root obtained when the tree was first built.
pub proof fn lemma_rebuild_round_trip(hs: Seq<Seq<char>>, i: int, first: Node, rebuilt: Node)
    requires
        first@ == merkle_tree(hs),
        rebuilt@ == merkle_tree(hs),
        0 <= i < hs.len(),
    ensures
        proof_for(rebuilt@, hs[i]) is Some,
        proof_accepts(first.hash@, hs[i], proof_for(rebuilt@, hs[i]).unwrap()),
{
    lemma_inclusion_sound(hs, i);
}

/// Replacing the side tag of any step by a string that is neither `"L"` nor
/// `"R"` makes the proof fail.
pub proof fn lemma_foreign_tag_rejected(
    root: Seq<char>,
    leaf_hash: Seq<char>,
    proof: Seq<(Seq<char>, Seq<char>)>,
    i: int,
    tag: Seq<char>,
)
    requires
        0 <= i < proof.len(),
        tag != tag_left(),
        tag != tag_right(),
    ensures
        !proof_accepts(root, leaf_hash, proof.update(i, (proof[i].0, tag))),
{
    assert(proof.update(i, (proof[i].0, tag))[i].1 == tag);
}

} // verus!
