//! SHA-256 and RIPEMD-160, and the hex digests that the chain is built from.

use vstd::prelude::*;
use vstd::string::StringSliceAdditionalSpecFns;
use sha2::Digest;
use crate::hexenc::{hex_alphabet, hex_encode, hex_encode_bytes, lemma_hex_encode_digits};

verus! {

/// The SHA-256 digest of `data`, as `sha2::Sha256::digest` computes it.
pub uninterp spec fn sha256(data: Seq<u8>) -> Seq<u8>;

/// The RIPEMD-160 digest of `data`, as `ripemd::Ripemd160::digest` computes it.
pub uninterp spec fn ripemd160(data: Seq<u8>) -> Seq<u8>;

/// `sha2::Sha256::digest`: the 32-byte SHA-256 digest of `data`.
#[verifier::external_body]
fn sha256_digest(data: &[u8]) -> (res: Vec<u8>)
    ensures
        res@ == sha256(data@),
        res@.len() == 32,
{
    sha2::Sha256::digest(data).to_vec()
}

/// `ripemd::Ripemd160::digest`: the 20-byte RIPEMD-160 digest of `data`.
#[verifier::external_body]
fn ripemd160_digest(data: &[u8]) -> (res: Vec<u8>)
    ensures
        res@ == ripemd160(data@),
        res@.len() == 20,
{
    ripemd::Ripemd160::digest(data).to_vec()
}

/// Lowercase hex of the SHA-256 digest of `data`.
pub open spec fn hash_hex(data: Seq<u8>) -> Seq<char> {
    hex_encode(sha256(data))
}

/// HASH160: RIPEMD-160 of SHA-256.
pub open spec fn hash160(data: Seq<u8>) -> Seq<u8> {
    ripemd160(sha256(data))
}

/// The SHA-256 digest of the UTF-8 bytes of `input`, in lowercase hex.
pub fn hash_str(input: &str) -> (res: String)
    ensures
        res@ == hash_hex(input.spec_bytes()),
        res@.len() == 64,
        forall|i: int| 0 <= i < 64 ==> hex_alphabet().contains(#[trigger] res@[i]),
{
    let h = sha256_digest(input.as_bytes());
    proof {
        lemma_hex_encode_digits(h@);
    }
    hex_encode_bytes(h.as_slice())
}

/// HASH160 of `data` in lowercase hex: the address form of a public key.
pub fn hash160_hex(data: &[u8]) -> (res: String)
    ensures
        res@ == hex_encode(hash160(data@)),
        res@.len() == 40,
        forall|i: int| 0 <= i < 40 ==> hex_alphabet().contains(#[trigger] res@[i]),
{
    let sha = sha256_digest(data);
    let ripe = ripemd160_digest(sha.as_slice());
    proof {
        lemma_hex_encode_digits(ripe@);
    }
    hex_encode_bytes(ripe.as_slice())
}

} // verus!
