//! Inclusion proofs: the sibling path from a leaf up to the root, and its
//! verification from plain values alone.
//!
//! A proof travels as an ordered list of `(sibling digest, side)` pairs,
//! closest to the leaf first. The side is `"L"` when the sibling sits to the
//! left of the digest accumulated so far, and `"R"` when it sits to the right.

use crate::hasher::{concat_hash, pair_digest};
use crate::tree::{MerkleError, Node, TreeView};
use vstd::prelude::*;

verus! {

/// The side tag of a sibling on the left.
pub open spec fn tag_left() -> Seq<char> {
    seq!['L']
}

/// The side tag of a sibling on the right.
pub open spec fn tag_right() -> Seq<char> {
    seq!['R']
}

/// The sibling path from leaf number `i` of `t` (counting the leaves left to
/// right) up to the root, closest to the leaf first.
pub open spec fn path_to(t: TreeView, i: int) -> Seq<(Seq<char>, Seq<char>)>
    decreases t,
{
    match t.left {
        Some(l) => match t.right {
            Some(r) => if i < l.leaves().len() {
                path_to(*l, i).push((r.hash, tag_right()))
            } else {
                path_to(*r, i - l.leaves().len()).push((l.hash, tag_left()))
            },
            None => Seq::empty(),
        },
        None => Seq::empty(),
    }
}

/// The position of the first occurrence of `x` in `s`.
pub open spec fn first_index(s: Seq<Seq<char>>, x: Seq<char>) -> int
    decreases s.len(),
{
    if s.len() == 0 {
        0
    } else if s[0] == x {
        0
    } else {
        1 + first_index(s.drop_first(), x)
    }
}

/// The proof that `generate_proof` owes for `target` in the tree `t`: the
/// path from the leftmost leaf carrying `target`, or none when no leaf does.
pub open spec fn proof_for(t: TreeView, target: Seq<char>) -> Option<Seq<(Seq<char>, Seq<char>)>> {
    if t.leaves().contains(target) {
        Some(path_to(t, first_index(t.leaves(), target)))
    } else {
        None
    }
}

/// One folding step: combines the accumulated digest with a sibling on the
/// side that the step names.
pub open spec fn fold_step(current: Seq<char>, step: (Seq<char>, Seq<char>)) -> Seq<char> {
    if step.1 == tag_left() {
        pair_digest(step.0, current)
    } else {
        pair_digest(current, step.0)
    }
}

/// The digest reached by folding `proof` upward from `leaf`.
pub open spec fn fold_proof(leaf: Seq<char>, proof: Seq<(Seq<char>, Seq<char>)>) -> Seq<char>
    decreases proof.len(),
{
    if proof.len() == 0 {
        leaf
    } else {
        fold_step(fold_proof(leaf, proof.drop_last()), proof.last())
    }
}

/// Every step of `proof` carries one of the two side tags.
pub open spec fn tags_valid(proof: Seq<(Seq<char>, Seq<char>)>) -> bool {
    forall|i: int| 0 <= i < proof.len() ==> (#[trigger] proof[i]).1 == tag_left() || proof[i].1 == tag_right()
}

/// `proof` is well formed and leads from `leaf` to `root`.
pub open spec fn proof_accepts(root: Seq<char>, leaf: Seq<char>, proof: Seq<(Seq<char>, Seq<char>)>) -> bool {
    tags_valid(proof) && fold_proof(leaf, proof) == root
}

/// Where `s` holds `x`, its first position holds `x` and no earlier one does.
pub proof fn lemma_first_index(s: Seq<Seq<char>>, x: Seq<char>)
    requires
        s.contains(x),
    ensures
        0 <= first_index(s, x) < s.len(),
        s[first_index(s, x)] == x,
        forall|j: int| 0 <= j < first_index(s, x) ==> s[j] != x,
    decreases s.len(),
{
    if s[0] != x {
        let k = choose|k: int| 0 <= k < s.len() && s[k] == x;
        assert(s.drop_first()[k - 1] == x);
        lemma_first_index(s.drop_first(), x);
        assert forall|j: int| 0 <= j < first_index(s, x) implies s[j] != x by {
            if j > 0 {
                assert(s[j] == s.drop_first()[j - 1]);
            }
        }
    }
}

proof fn lemma_first_index_concat(a: Seq<Seq<char>>, b: Seq<Seq<char>>, x: Seq<char>)
    ensures
        first_index(a + b, x) == if a.contains(x) {
            first_index(a, x)
        } else {
            a.len() + first_index(b, x)
        },
    decreases a.len(),
{
    if a.len() == 0 {
        assert(a + b =~= b);
    } else {
        assert((a + b).drop_first() =~= a.drop_first() + b);
        lemma_first_index_concat(a.drop_first(), b, x);
        if a[0] != x {
            if a.contains(x) {
                let k = choose|k: int| 0 <= k < a.len() && a[k] == x;
                assert(a.drop_first()[k - 1] == x);
            } else {
                assert forall|k: int| 0 <= k < a.drop_first().len() implies a.drop_first()[k] != x by {
                    assert(a[k + 1] == a.drop_first()[k]);
                }
            }
        } else {
            assert(a.contains(x)) by {
                assert(a[0] == x);
            }
        }
    }
}

fn left_tag() -> (r: String)
    ensures
        r@ == tag_left(),
{
    let r = "L".to_owned();
    proof {
        reveal_strlit("L");
    }
    r
}

fn right_tag() -> (r: String)
    ensures
        r@ == tag_right(),
{
    let r = "R".to_owned();
    proof {
        reveal_strlit("R");
    }
    r
}

/// The path from the leftmost leaf of `node` that carries `target`.
fn find_path(node: &Node, target: &String) -> (r: Option<Vec<(String, String)>>)
    ensures
        match r {
            Some(p) => node@.leaves().contains(target@) && p.deep_view() == path_to(
                node@,
                first_index(node@.leaves(), target@),
            ),
            None => !node@.leaves().contains(target@),
        },
    decreases node,
{
    match &node.left {
        Some(l) => match &node.right {
            Some(rt) => {
                proof {
                    lemma_first_index_concat(l@.leaves(), rt@.leaves(), target@);
                    assert(node@.leaves() == l@.leaves() + rt@.leaves());
                }
                match find_path(l, target) {
                    Some(mut p) => {
                        proof {
                            lemma_first_index(l@.leaves(), target@);
                            let j = first_index(l@.leaves(), target@);
                            assert(node@.leaves()[j] == target@);
                        }
                        let ghost before = p.deep_view();
                        p.push((rt.hash.clone(), right_tag()));
                        assert(p.deep_view() =~= before.push((rt.hash@, tag_right())));
                        Some(p)
                    },
                    None => match find_path(rt, target) {
                        Some(mut p) => {
                            proof {
                                lemma_first_index(rt@.leaves(), target@);
                                let j = first_index(rt@.leaves(), target@);
                                assert(node@.leaves()[l@.leaves().len() + j] == target@);
                            }
                            let ghost before = p.deep_view();
                            p.push((l.hash.clone(), left_tag()));
                            assert(p.deep_view() =~= before.push((l.hash@, tag_left())));
                            Some(p)
                        },
                        None => None,
                    },
                }
            },
            None => None,
        },
        None => match &node.right {
            Some(_) => None,
            None => {
                if node.hash == *target {
                    assert(node@.leaves()[0] == target@);
                    Some(Vec::new())
                } else {
                    None
                }
            },
        },
    }
}

/// The inclusion proof for the leaf digest `target_hash` in the tree under
/// `root`: the sibling path from the leftmost leaf carrying it, closest to
/// the leaf first. Fails when no leaf carries it.
pub fn generate_proof(root: &Node, target_hash: &str) -> (r: Result<Vec<(String, String)>, MerkleError>)
    ensures
        match r {
            Ok(p) => proof_for(root@, target_hash@) == Some(p.deep_view()),
            Err(e) => proof_for(root@, target_hash@) is None && e == MerkleError::TargetNotFound,
        },
{
    let target = target_hash.to_owned();
    match find_path(root, &target) {
        Some(p) => Ok(p),
        None => Err(MerkleError::TargetNotFound),
    }
}

/// Checks an inclusion proof from plain values: folds `proof` upward from
/// `target_hash` and compares the result with `root_hash`. A step whose side
/// tag is neither `"L"` nor `"R"` makes the proof fail.
pub fn verify_proof(root_hash: &str, target_hash: &str, proof: Vec<(String, String)>) -> (r: bool)
    ensures
        r == proof_accepts(root_hash@, target_hash@, proof.deep_view()),
{
    let ghost pv = proof.deep_view();
    let l = left_tag();
    let rt = right_tag();
    let mut current = target_hash.to_owned();
    let mut i: usize = 0;
    while i < proof.len()
        invariant
            pv == proof.deep_view(),
            l@ == tag_left(),
            rt@ == tag_right(),
            i <= pv.len(),
            tags_valid(pv.take(i as int)),
            current@ == fold_proof(target_hash@, pv.take(i as int)),
        decreases pv.len() - i,
    {
        let step = &proof[i];
        assert(pv[i as int] == (step.0@, step.1@));
        assert(pv.take(i + 1).drop_last() =~= pv.take(i as int));
        if step.1 == l {
            current = concat_hash(step.0.as_str(), current.as_str());
        } else if step.1 == rt {
            current = concat_hash(current.as_str(), step.0.as_str());
        } else {
            assert(!tags_valid(pv) && pv[i as int].1 != tag_left());
            return false;
        }
        i += 1;
    }
    assert(pv.take(i as int) =~= pv);
    let root = root_hash.to_owned();
    current == root
}

/// Checks an inclusion proof; the same check as [`verify_proof`].
#[allow(non_snake_case)]
pub fn verifyProof(root_hash: &str, target_hash: &str, proof: Vec<(String, String)>) -> (r: bool)
    ensures
        r == proof_accepts(root_hash@, target_hash@, proof.deep_view()),
{
    verify_proof(root_hash, target_hash, proof)
}

} // verus!
