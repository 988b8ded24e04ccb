//! The ntfy.sh topic that all machines of one GitHub account share.
use vstd::prelude::*;

use sha2::Digest;

verus! {

/// The SHA-256 digest of `data`.
pub uninterp spec fn sha256(data: Seq<u8>) -> Seq<u8>;

/// `sha2::Sha256::digest`. Claimed: the digest is the named SHA-256 of the
/// input, 32 bytes long.
#[verifier::external_body]
fn sha256_digest(data: &[u8]) -> (d: Vec<u8>)
    ensures
        d@ == sha256(data@),
        d@.len() == 32,
{
    sha2::Sha256::digest(data).to_vec()
}

/// The topic for `input`: lowercase hex of SHA-256 of its UTF-8 bytes.
pub open spec fn ntfy_topic(input: Seq<char>) -> Seq<char> {
    crate::text::hex_lower(sha256(vstd::utf8::encode_utf8(input)))
}

/// Derive the ntfy.sh topic from an arbitrary string (the GitHub user ID).
/// Topic = lowercase hex of SHA-256(input). Never transmitted.
pub fn derive_ntfy_topic(input: &str) -> (topic: String)
    ensures
        topic@ == ntfy_topic(input@),
        topic@.len() == 64,
        forall|i: int| 0 <= i < 64 ==> crate::text::is_hex_digit(#[trigger] topic@[i]),
{
    let digest = sha256_digest(input.as_bytes());
    let topic = crate::text::hex_encode(digest.as_slice(), false);
    assert forall|i: int| 0 <= i < 64 implies crate::text::is_hex_digit(#[trigger] topic@[i]) by {
        let b = digest@[i / 2];
        assert(b / 16 < 16 && b % 16 < 16);
    }
    topic
}

} // verus!
