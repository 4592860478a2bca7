//! Page texts of an uploaded document held as plain text.

use vstd::prelude::*;

verus! {

#[verifier::external_type_specification]
#[verifier::external_body]
pub struct ExAnyhowError(anyhow::Error);

/// The text that `String::from_utf8_lossy` decodes from `bytes`.
pub uninterp spec fn utf8_lossy(bytes: Seq<u8>) -> Seq<char>;

/// Relies on `String::from_utf8_lossy`: invalid sequences become U+FFFD, and
/// valid UTF-8 is returned unchanged.
#[verifier::external_body]
fn decode_lossy(bytes: &[u8]) -> (r: String)
    ensures
        r@ == utf8_lossy(bytes@),
        vstd::utf8::valid_utf8(bytes@) ==> r@ == vstd::utf8::decode_utf8(bytes@),
{
    String::from_utf8_lossy(bytes).into_owned()
}

/// Splits an uploaded document into page texts. A plain-text upload is a
/// single page: its bytes decoded as UTF-8, with invalid sequences replaced.
pub fn pdf_to_pages(bytes: &[u8]) -> (r: Result<Vec<String>, anyhow::Error>)
    ensures
        match r {
            Ok(pages) => pages@.len() == 1 && pages@[0]@ == utf8_lossy(bytes@),
            Err(_) => false,
        },
{
    let text = decode_lossy(bytes);
    let mut pages: Vec<String> = Vec::new();
    pages.push(text);
    Ok(pages)
}

} // verus!
