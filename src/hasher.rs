//! SHA-256 digests, rendered as lowercase hexadecimal strings.

use sha2::{Digest, Sha256};
use vstd::prelude::*;

verus! {

/// Lowercase hexadecimal rendering of the SHA-256 digest of `data`.
pub uninterp spec fn sha256_hex(data: Seq<u8>) -> Seq<char>;

/// The digest of one leaf value (one page of text, as UTF-8 bytes).
pub open spec fn leaf_digest(value: Seq<char>) -> Seq<char> {
    sha256_hex(vstd::utf8::encode_utf8(value))
}

/// The digest of an internal node: the left child's digest followed by the
/// right child's digest, hashed as one byte string.
pub open spec fn pair_digest(left: Seq<char>, right: Seq<char>) -> Seq<char> {
    sha256_hex(vstd::utf8::encode_utf8(left) + vstd::utf8::encode_utf8(right))
}

/// Relies on sha2's `Sha256` and the lowercase-hex formatting of its output:
/// the result is the digest of `input`, rendered in hex.
#[verifier::external_body]
pub fn generate_hash(input: &[u8]) -> (r: String)
    ensures
        r@ == sha256_hex(input@),
{
    let mut hasher = Sha256::new();
    hasher.update(input);
    format!("{:x}", hasher.finalize())
}

/// Relies on sha2's `Sha256`: two `update` calls hash the concatenation of
/// the UTF-8 bytes of `left` and `right`; the digest is rendered in hex.
#[verifier::external_body]
pub(crate) fn concat_hash(left: &str, right: &str) -> (r: String)
    ensures
        r@ == sha256_hex(vstd::utf8::encode_utf8(left@) + vstd::utf8::encode_utf8(right@)),
{
    let mut hasher = Sha256::new();
    hasher.update(left);
    hasher.update(right);
    format!("{:x}", hasher.finalize())
}

} // verus!
