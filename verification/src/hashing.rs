//! The digests the chain is built on.

use vstd::prelude::*;
use crate::utils::append_bytes;
use sha2::Digest;

verus! {

/// The SHA-256 digest of a byte string.
pub uninterp spec fn sha256_of(data: Seq<u8>) -> Seq<u8>;

/// The RIPEMD-160 digest of a byte string.
pub uninterp spec fn ripemd160_of(data: Seq<u8>) -> Seq<u8>;

/// SHA-256 applied twice.
pub open spec fn sha256d_of(data: Seq<u8>) -> Seq<u8> {
    sha256_of(sha256_of(data))
}

/// The hash that locks an output to a public key: RIPEMD-160 of SHA-256.
pub open spec fn pub_key_hash_of(key: Seq<u8>) -> Seq<u8> {
    ripemd160_of(sha256_of(key))
}

/// Trusted: feeds `data` to `sha2::Sha256` and returns the finished digest,
/// which is a function of the input alone and 32 bytes long.
#[verifier::external_body]
pub(crate) fn sha256(data: &[u8]) -> (digest: Vec<u8>)
    ensures
        digest@ == sha256_of(data@),
        digest@.len() == 32,
{
    let mut hasher = sha2::Sha256::new();
    hasher.update(data);
    hasher.finalize().to_vec()
}

/// Trusted: feeds `data` to `ripemd::Ripemd160` and returns the finished
/// digest, which is a function of the input alone and 20 bytes long.
#[verifier::external_body]
pub(crate) fn ripemd160(data: &[u8]) -> (digest: Vec<u8>)
    ensures
        digest@ == ripemd160_of(data@),
        digest@.len() == 20,
{
    let mut hasher = ripemd::Ripemd160::new();
    hasher.update(data);
    hasher.finalize().to_vec()
}

/// SHA-256 of the SHA-256 of `data`.
pub fn sha256d(data: &[u8]) -> (digest: Vec<u8>)
    ensures
        digest@ == sha256d_of(data@),
        digest@.len() == 32,
{
    let once = sha256(data);
    sha256(once.as_slice())
}

/// SHA-256 of `left` followed by `right`.
pub fn sha256_pair(left: &[u8], right: &[u8]) -> (digest: Vec<u8>)
    ensures
        digest@ == sha256_of(left@ + right@),
        digest@.len() == 32,
{
    let mut joined: Vec<u8> = Vec::new();
    append_bytes(&mut joined, left);
    append_bytes(&mut joined, right);
    assert(joined@ =~= left@ + right@);
    sha256(joined.as_slice())
}

} // verus!
