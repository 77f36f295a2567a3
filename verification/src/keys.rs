//! ECDSA over the curve P-256: key pairs, signatures and their checking.

use vstd::prelude::*;
use p256::ecdsa::signature::{Signer, Verifier};

verus! {

/// The uncompressed SEC1 public key that belongs to a private key; `None`
/// where the bytes are no private key.
pub uninterp spec fn public_key_of(private_key: Seq<u8>) -> Option<Seq<u8>>;

/// The deterministic ECDSA signature of `message` under a private key;
/// `None` where the bytes are no private key or no signature comes about.
pub uninterp spec fn ecdsa_signature_of(private_key: Seq<u8>, message: Seq<u8>) -> Option<Seq<u8>>;

/// Whether `signature` is a valid ECDSA signature of `message` under the
/// SEC1 public key `public_key`; false where either does not parse.
pub uninterp spec fn ecdsa_accepts(public_key: Seq<u8>, message: Seq<u8>, signature: Seq<u8>) -> bool;

/// Trusted: draws a private key with `p256::ecdsa::SigningKey::random` from
/// the operating system's generator and returns its 32 bytes. Which key comes
/// is not said, only that it is one.
#[verifier::external_body]
pub(crate) fn generate_private_key() -> (private_key: Vec<u8>)
    ensures
        private_key@.len() == 32,
        public_key_of(private_key@) is Some,
{
    p256::ecdsa::SigningKey::random(&mut rand_core::OsRng).to_bytes().to_vec()
}

/// Trusted: parses the private key with `p256::ecdsa::SigningKey::from_bytes`
/// and returns the uncompressed SEC1 encoding, 65 bytes, of its
/// `VerifyingKey`; `None` where the bytes are no private key.
#[verifier::external_body]
pub(crate) fn derive_public_key(private_key: &[u8]) -> (public_key: Option<Vec<u8>>)
    ensures
        match public_key {
            Some(key) => public_key_of(private_key@) == Some(key@) && key@.len() == 65,
            None => public_key_of(private_key@) is None,
        },
{
    let key = p256::ecdsa::SigningKey::from_bytes(private_key).ok()?;
    Some(p256::ecdsa::VerifyingKey::from(&key).to_encoded_point(false).as_bytes().to_vec())
}

/// Trusted: signs `message` with `Signer::try_sign` of
/// `p256::ecdsa::SigningKey`, which hashes it with SHA-256 and derives the
/// nonce from key and message alone, and returns the signature, which is
/// 64 bytes long. A signature made this way is accepted under the public
/// key that belongs to the private key.
#[verifier::external_body]
pub(crate) fn ecdsa_sign(private_key: &[u8], message: &[u8]) -> (signature: Option<Vec<u8>>)
    ensures
        match signature {
            Some(bytes) => ecdsa_signature_of(private_key@, message@) == Some(bytes@)
                && bytes@.len() == 64,
            None => ecdsa_signature_of(private_key@, message@) is None,
        },
        signature is Some ==> public_key_of(private_key@) is Some && ecdsa_accepts(
            public_key_of(private_key@).unwrap(),
            message@,
            signature.unwrap()@,
        ),
{
    let key = p256::ecdsa::SigningKey::from_bytes(private_key).ok()?;
    Some(key.try_sign(message).ok()?.to_vec())
}

/// Trusted: parses the key with `p256::ecdsa::VerifyingKey::from_sec1_bytes`
/// and the signature from its 64 bytes, and checks it with
/// `Verifier::verify`. A key or signature that does not parse is a refusal.
#[verifier::external_body]
pub(crate) fn ecdsa_verify(public_key: &[u8], message: &[u8], signature: &[u8]) -> (accepted: bool)
    ensures
        accepted == ecdsa_accepts(public_key@, message@, signature@),
{
    let Ok(key) = p256::ecdsa::VerifyingKey::from_sec1_bytes(public_key) else {
        return false;
    };
    let Ok(parsed) = p256::ecdsa::Signature::try_from(signature) else {
        return false;
    };
    key.verify(message, &parsed).is_ok()
}

} // verus!
