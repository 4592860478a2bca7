use merkle_pages::hasher::generate_hash;
use merkle_pages::inclusion::{generate_proof, verifyProof, verify_proof};
use merkle_pages::pages::pdf_to_pages;
use merkle_pages::service::{page_proof, VerifyRequest};
use merkle_pages::tree::{
    build_merkle_tree, build_tree_from_hashes, page_digests, MerkleError, Node,
};

fn h(s: &str) -> String {
    generate_hash(s.as_bytes())
}

fn pair(a: &str, b: &str) -> String {
    generate_hash(format!("{}{}", a, b).as_bytes())
}

fn step(hash: &str, side: &str) -> (String, String) {
    (hash.to_string(), side.to_string())
}

fn four_leaves() -> Vec<String> {
    vec![h("data1"), h("data2"), h("data3"), h("data4")]
}

#[test]
fn digest_of_known_inputs() {
    assert_eq!(
        generate_hash(b"abc"),
        "ba7816bf8f01cfea414140de5dae2223b00361a396177a9cb410ff61f20015ad"
    );
    assert_eq!(
        generate_hash(b""),
        "e3b0c44298fc1c149afbf4c8996fb92427ae41e4649b934ca495991b7852b855"
    );
}

#[test]
fn internal_node_hashes_concatenation() {
    let root = build_tree_from_hashes(vec!["ab".to_string(), "c".to_string()]).unwrap();
    assert_eq!(
        root.hash,
        "ba7816bf8f01cfea414140de5dae2223b00361a396177a9cb410ff61f20015ad"
    );
    assert_eq!(root.left.as_ref().unwrap().hash, "ab");
    assert_eq!(root.right.as_ref().unwrap().hash, "c");
}

#[test]
fn build_is_deterministic() {
    let a = build_tree_from_hashes(four_leaves()).unwrap();
    let b = build_tree_from_hashes(four_leaves()).unwrap();
    assert_eq!(a.hash, b.hash);
}

#[test]
fn empty_input_is_rejected() {
    assert_eq!(build_tree_from_hashes(vec![]).err(), Some(MerkleError::EmptyInput));
    assert_eq!(build_merkle_tree(vec![]).err(), Some(MerkleError::EmptyInput));
}

#[test]
fn four_leaf_scenario() {
    let l = four_leaves();
    let root = build_tree_from_hashes(l.clone()).unwrap();
    let p12 = pair(&l[0], &l[1]);
    let p34 = pair(&l[2], &l[3]);
    assert_eq!(root.hash, pair(&p12, &p34));
    let proof = generate_proof(&root, &l[2]).unwrap();
    assert_eq!(proof, vec![step(&l[3], "R"), step(&p12, "L")]);
    assert!(verify_proof(&root.hash, &l[2], proof));
}

#[test]
fn content_build_hashes_pages_once() {
    let data: Vec<String> = ["data1", "data2", "data3", "data4"].iter().map(|s| s.to_string()).collect();
    let from_content = build_merkle_tree(data).unwrap();
    let from_hashes = build_tree_from_hashes(four_leaves()).unwrap();
    assert_eq!(from_content.hash, from_hashes.hash);
}

#[test]
fn odd_count_scenario() {
    let l = vec![h("a"), h("b"), h("c")];
    let root = build_tree_from_hashes(l.clone()).unwrap();
    let left_pair = pair(&l[0], &l[1]);
    let right_pair = pair(&l[2], &l[2]);
    assert_eq!(root.hash, pair(&left_pair, &right_pair));
    let proof = generate_proof(&root, &l[2]).unwrap();
    assert_eq!(proof, vec![step(&l[2], "R"), step(&left_pair, "L")]);
    assert!(verify_proof(&root.hash, &l[2], proof));
}

#[test]
fn five_leaves_every_page_verifies() {
    let l: Vec<String> = (0..5).map(|i| h(&format!("page {}", i))).collect();
    let root = build_tree_from_hashes(l.clone()).unwrap();
    for leaf in &l {
        let proof = generate_proof(&root, leaf).unwrap();
        assert_eq!(proof.len(), 3);
        assert!(verify_proof(&root.hash, leaf, proof));
    }
}

#[test]
fn single_leaf_tree() {
    let a = h("only page");
    let root = build_tree_from_hashes(vec![a.clone()]).unwrap();
    assert_eq!(root.hash, a);
    assert!(root.left.is_none() && root.right.is_none());
    let proof = generate_proof(&root, &a).unwrap();
    assert!(proof.is_empty());
    assert!(verify_proof(&root.hash, &a, vec![]));
    let from_content = build_merkle_tree(vec!["only page".to_string()]).unwrap();
    assert_eq!(from_content.hash, a);
}

#[test]
fn absent_leaf_not_found() {
    let root = build_tree_from_hashes(four_leaves()).unwrap();
    assert_eq!(generate_proof(&root, &h("data5")).err(), Some(MerkleError::TargetNotFound));
    let p12 = pair(&four_leaves()[0], &four_leaves()[1]);
    assert_eq!(generate_proof(&root, &p12).err(), Some(MerkleError::TargetNotFound));
    let single = build_tree_from_hashes(vec![h("x")]).unwrap();
    assert_eq!(generate_proof(&single, &h("y")).err(), Some(MerkleError::TargetNotFound));
}

#[test]
fn duplicate_leaves_take_leftmost() {
    let a = h("same");
    let b = h("other");
    let root = build_tree_from_hashes(vec![b.clone(), a.clone(), a.clone(), b.clone()]).unwrap();
    let proof = generate_proof(&root, &a).unwrap();
    assert_eq!(proof, vec![step(&b, "L"), step(&pair(&a, &b), "R")]);
    assert!(verify_proof(&root.hash, &a, proof));
}

#[test]
fn tampered_sibling_fails() {
    let l = four_leaves();
    let root = build_tree_from_hashes(l.clone()).unwrap();
    let proof = generate_proof(&root, &l[2]).unwrap();
    for k in 0..proof.len() {
        let mut bad = proof.clone();
        let mut chars: Vec<char> = bad[k].0.chars().collect();
        chars[5] = if chars[5] == '0' { '1' } else { '0' };
        bad[k].0 = chars.into_iter().collect();
        assert!(!verify_proof(&root.hash, &l[2], bad));
    }
}

#[test]
fn swapped_side_fails() {
    let l = four_leaves();
    let root = build_tree_from_hashes(l.clone()).unwrap();
    let proof = generate_proof(&root, &l[2]).unwrap();
    for k in 0..proof.len() {
        let mut bad = proof.clone();
        bad[k].1 = if bad[k].1 == "L" { "R".to_string() } else { "L".to_string() };
        assert!(!verify_proof(&root.hash, &l[2], bad));
    }
}

#[test]
fn foreign_side_tag_fails() {
    let l = four_leaves();
    let root = build_tree_from_hashes(l.clone()).unwrap();
    let mut proof = generate_proof(&root, &l[2]).unwrap();
    proof[0].1 = "X".to_string();
    assert!(!verify_proof(&root.hash, &l[2], proof));
}

#[test]
fn wrong_root_or_leaf_fails() {
    let l = four_leaves();
    let root = build_tree_from_hashes(l.clone()).unwrap();
    let proof = generate_proof(&root, &l[2]).unwrap();
    assert!(!verify_proof(&l[0], &l[2], proof.clone()));
    assert!(!verify_proof(&root.hash, &l[1], proof));
    assert!(!verify_proof(&root.hash, &l[2], vec![]));
}

#[test]
fn camel_case_verifier_agrees() {
    let l = four_leaves();
    let root = build_tree_from_hashes(l.clone()).unwrap();
    let proof = generate_proof(&root, &l[0]).unwrap();
    assert!(verifyProof(&root.hash, &l[0], proof.clone()));
    assert!(!verifyProof(&root.hash, &l[1], proof));
}

#[test]
fn round_trip_across_rebuild() {
    let stored = four_leaves();
    let first_root = build_tree_from_hashes(stored.clone()).unwrap().hash;
    let rebuilt = build_tree_from_hashes(stored.clone()).unwrap();
    let proof = generate_proof(&rebuilt, &stored[1]).unwrap();
    assert!(verify_proof(&first_root, &stored[1], proof));
}

#[test]
fn page_proof_matches_generated() {
    let stored = vec![h("page a"), h("page b"), h("page c")];
    let root = build_tree_from_hashes(stored.clone()).unwrap();
    let proof = page_proof(stored.clone(), 2);
    assert_eq!(proof, generate_proof(&root, &stored[2]).unwrap());
    assert!(verify_proof(&root.hash, &stored[2], proof));
}

#[test]
fn page_digests_hash_each_page() {
    let pages = vec!["abc".to_string(), String::new()];
    assert_eq!(
        page_digests(&pages),
        vec![
            "ba7816bf8f01cfea414140de5dae2223b00361a396177a9cb410ff61f20015ad".to_string(),
            "e3b0c44298fc1c149afbf4c8996fb92427ae41e4649b934ca495991b7852b855".to_string(),
        ]
    );
}

#[test]
fn verify_request_evaluates() {
    let l = four_leaves();
    let root = build_tree_from_hashes(l.clone()).unwrap();
    let proof = generate_proof(&root, &l[3]).unwrap();
    let ok = VerifyRequest { root_hash: root.hash.clone(), page_hash: l[3].clone(), proof: proof.clone() };
    assert!(ok.evaluate().valid);
    let bad = VerifyRequest { root_hash: root.hash.clone(), page_hash: l[0].clone(), proof };
    assert!(!bad.evaluate().valid);
}

#[test]
fn node_children_attach_once() {
    let mut parent = Node::new("p".to_string());
    assert!(parent.left.is_none() && parent.right.is_none());
    parent.add_left_node(Node::new("l".to_string()));
    parent.add_right_node(Node::new("r".to_string()));
    assert_eq!(parent.hash, "p");
    assert_eq!(parent.left.as_ref().unwrap().hash, "l");
    assert_eq!(parent.right.as_ref().unwrap().hash, "r");
    let copy = parent.duplicate();
    assert_eq!(copy.hash, "p");
    assert_eq!(copy.left.as_ref().unwrap().hash, "l");
    assert_eq!(copy.right.as_ref().unwrap().hash, "r");
}

#[test]
fn plain_text_upload_is_one_page() {
    assert_eq!(pdf_to_pages(b"hello pages").unwrap(), vec!["hello pages".to_string()]);
    assert_eq!(pdf_to_pages(b"a\xffb").unwrap(), vec!["a\u{FFFD}b".to_string()]);
}
