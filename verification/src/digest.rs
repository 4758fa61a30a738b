//! `sha256:`-labelled content digests.

use sha2::{Digest, Sha256};
use vstd::prelude::*;
use crate::text::{hex_bytes, push_hex_bytes, push_str};

verus! {

/// The SHA-256 digest (FIPS 180-4) of a byte string.
pub uninterp spec fn sha256_digest(data: Seq<u8>) -> Seq<u8>;

/// `sha2::Sha256::digest`: the SHA-256 digest of the bytes, named
/// `sha256_digest`; the digest is 32 bytes long.
#[verifier::external_body]
fn sha256_bytes(data: &[u8]) -> (digest: Vec<u8>)
    ensures
        digest@ == sha256_digest(data@),
        digest@.len() == 32,
{
    Sha256::digest(data).to_vec()
}

/// `sha256:` followed by two lowercase hexadecimal digits per digest byte.
pub open spec fn digest_label(digest: Seq<u8>) -> Seq<char> {
    "sha256:"@ + hex_bytes(digest)
}

/// The label of the SHA-256 digest of `data`.
pub open spec fn sha256_label(data: Seq<u8>) -> Seq<char> {
    digest_label(sha256_digest(data))
}

/// Formats a digest as `sha256:<lowercase hex>`.
pub fn label_digest(digest: &[u8]) -> (label: String)
    ensures
        label@ == digest_label(digest@),
{
    let mut label = String::new();
    push_str(&mut label, "sha256:");
    push_hex_bytes(&mut label, digest);
    assert(label@ =~= digest_label(digest@));
    label
}

/// The `sha256:<lowercase hex>` label of the bytes' digest.
pub fn sha256(data: &[u8]) -> (label: String)
    ensures
        label@ == sha256_label(data@),
{
    let digest = sha256_bytes(data);
    label_digest(digest.as_slice())
}

} // verus!
