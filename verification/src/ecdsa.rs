//! secp256k1 ECDSA through `k256`: key generation, signing and verification.
//! A secret key is held as its 32 big-endian bytes.

use vstd::prelude::*;
use k256::ecdsa::signature::{Signer, Verifier};

verus! {

/// The bytes of an optional byte vector.
pub open spec fn opt_bytes(o: Option<Vec<u8>>) -> Option<Seq<u8>> {
    match o {
        Some(v) => Some(v@),
        None => None,
    }
}

/// The compressed SEC1 encoding of the public key of the secret scalar
/// `secret`, or `None` where `secret` is not a valid secp256k1 secret key.
pub uninterp spec fn secp256k1_public_key(secret: Seq<u8>) -> Option<Seq<u8>>;

/// The DER encoding of the deterministic (RFC 6979) ECDSA signature over
/// SHA-256 of `msg` under `secret`, or `None` where signing fails.
pub uninterp spec fn ecdsa_signature(secret: Seq<u8>, msg: Seq<u8>) -> Option<Seq<u8>>;

/// Whether `signature_der` parses as a DER signature, `public_key` parses as a
/// SEC1 point, and the signature is valid for `msg` under that key.
pub uninterp spec fn ecdsa_verifies(public_key: Seq<u8>, msg: Seq<u8>, signature_der: Seq<u8>) -> bool;

/// `rand_core::OsRng::try_fill_bytes`: `len` bytes from the operating
/// system's generator, or `None` where the generator reports an error. The
/// bytes are random; what holds of every outcome is their number.
#[verifier::external_body]
fn os_random_bytes(len: usize) -> (res: Option<Vec<u8>>)
    ensures
        res matches Some(b) ==> b@.len() == len,
{
    let mut buf = vec![0u8; len];
    match rand_core::RngCore::try_fill_bytes(&mut rand_core::OsRng, &mut buf) {
        Ok(()) => Some(buf),
        Err(_) => None,
    }
}

/// A random secret key: 32 bytes from the operating system's generator,
/// drawn again (by rejection, as `SigningKey::random` does) while they do
/// not form a valid secret key. `None` where the generator fails, or after
/// `u64::MAX` draws that all fail to form a key.
pub(crate) fn random_secret_key() -> (res: Option<Vec<u8>>)
    ensures
        res matches Some(k) ==> k@.len() == 32 && secp256k1_public_key(k@) is Some,
{
    let mut tries: u64 = 0;
    loop
        decreases u64::MAX - tries,
    {
        let bytes = match os_random_bytes(32) {
            Some(b) => b,
            None => return None,
        };
        if public_key_for(bytes.as_slice()).is_some() {
            return Some(bytes);
        }
        if tries == u64::MAX {
            return None;
        }
        tries = tries + 1;
    }
}

/// `SigningKey::from_slice` followed by `verifying_key().to_encoded_point(true)`:
/// the 33-byte compressed public key, or `None` where `from_slice` refuses
/// the secret.
#[verifier::external_body]
pub(crate) fn public_key_for(secret: &[u8]) -> (res: Option<Vec<u8>>)
    ensures
        opt_bytes(res) == secp256k1_public_key(secret@),
        res matches Some(pk) ==> pk@.len() == 33,
{
    match k256::ecdsa::SigningKey::from_slice(secret) {
        Ok(key) => Some(key.verifying_key().to_encoded_point(true).as_bytes().to_vec()),
        Err(_) => None,
    }
}

/// `SigningKey::from_slice` then `Signer::try_sign` and `Signature::to_der`.
/// Signing is deterministic (RFC 6979); a signature it produces verifies
/// under the public key of the same secret, as `k256` documents for its
/// signer and verifier.
#[verifier::external_body]
pub(crate) fn sign_message(secret: &[u8], msg: &[u8]) -> (res: Option<Vec<u8>>)
    ensures
        opt_bytes(res) == ecdsa_signature(secret@, msg@),
        res matches Some(sig) ==> (secp256k1_public_key(secret@) matches Some(pk)
            && ecdsa_verifies(pk, msg@, sig@)),
{
    let key = match k256::ecdsa::SigningKey::from_slice(secret) {
        Ok(key) => key,
        Err(_) => return None,
    };
    match Signer::<k256::ecdsa::Signature>::try_sign(&key, msg) {
        Ok(sig) => Some(sig.to_der().as_bytes().to_vec()),
        Err(_) => None,
    }
}

/// `VerifyingKey::from_sec1_bytes`, `Signature::from_der` and
/// `Verifier::verify`: true exactly when both parse and the signature is
/// valid for `msg`.
#[verifier::external_body]
pub(crate) fn verify_signature(public_key: &[u8], msg: &[u8], signature_der: &[u8]) -> (res: bool)
    ensures
        res == ecdsa_verifies(public_key@, msg@, signature_der@),
{
    let key = match k256::ecdsa::VerifyingKey::from_sec1_bytes(public_key) {
        Ok(key) => key,
        Err(_) => return false,
    };
    let sig = match k256::ecdsa::Signature::from_der(signature_der) {
        Ok(sig) => sig,
        Err(_) => return false,
    };
    key.verify(msg, &sig).is_ok()
}

} // verus!
