//! The computations behind the document service: proofs for stored pages and
//! the verdict on a submitted proof.

use crate::inclusion::{generate_proof, proof_accepts, proof_for, verify_proof};
use crate::laws::lemma_inclusion_sound;
use crate::tree::{build_tree_from_hashes, merkle_tree};
use vstd::prelude::*;

verus! {

/// A proof submitted for checking.
pub struct VerifyRequest {
    pub root_hash: String,
    pub page_hash: String,
    pub proof: Vec<(String, String)>,
}

/// The verdict on a submitted proof.
pub struct VerifyResponse {
    pub valid: bool,
}

impl VerifyRequest {
    /// Checks the submitted proof against the submitted root.
    pub fn evaluate(self) -> (r: VerifyResponse)
        ensures
            r.valid == proof_accepts(self.root_hash@, self.page_hash@, self.proof.deep_view()),
    {
        let valid = verify_proof(self.root_hash.as_str(), self.page_hash.as_str(), self.proof);
        VerifyResponse { valid }
    }
}

/// The inclusion proof of page `page_index` of a document, rebuilt from the
/// stored leaf digests of its pages. Such a proof always exists and always
/// verifies against the root of those digests.
pub fn page_proof(page_hashes: Vec<String>, page_index: usize) -> (r: Vec<(String, String)>)
    requires
        page_index < page_hashes@.len(),
    ensures
        Some(r.deep_view()) == proof_for(
            merkle_tree(page_hashes.deep_view()),
            page_hashes@[page_index as int]@,
        ),
        proof_accepts(
            merkle_tree(page_hashes.deep_view()).hash,
            page_hashes@[page_index as int]@,
            r.deep_view(),
        ),
{
    let ghost hs = page_hashes.deep_view();
    let target = page_hashes[page_index].clone();
    proof {
        lemma_inclusion_sound(hs, page_index as int);
    }
    // Neither failure can occur: the digests are nonempty and hold the target.
    match build_tree_from_hashes(page_hashes) {
        Ok(root) => match generate_proof(&root, target.as_str()) {
            Ok(p) => p,
            Err(_) => {
                assert(false);
                Vec::new()
            },
        },
        Err(_) => {
            assert(false);
            Vec::new()
        },
    }
}

} // verus!
