//! Proof of work: a block hash must start with a number of zero bits.

use vstd::prelude::*;
use vstd::string::StringSliceAdditionalSpecFns;
use vstd::utf8::encode_utf8;
use crate::hexenc::{hex_decodable, hex_decode, decode_hex};

verus! {

/// Two to the power `e`.
pub open spec fn two_pow(e: nat) -> nat
    decreases e,
{
    if e == 0 {
        1
    } else {
        2 * two_pow((e - 1) as nat)
    }
}

/// The first `n` bits of `bytes`, most significant bit first, are all zero
/// (and `bytes` has at least `n` bits).
pub open spec fn leading_zero_bits(bytes: Seq<u8>, n: nat) -> bool {
    &&& n <= 8 * bytes.len()
    &&& forall|i: int| 0 <= i < n / 8 ==> #[trigger] bytes[i] == 0
    &&& n % 8 != 0 ==> (bytes[(n / 8) as int] as nat) < two_pow((8 - n % 8) as nat)
}

/// Hex text whose bytes start with `zero_bits` zero bits.
pub open spec fn meets_difficulty(hash_hex: Seq<char>, zero_bits: nat) -> bool {
    &&& hex_decodable(encode_utf8(hash_hex))
    &&& leading_zero_bits(hex_decode(encode_utf8(hash_hex)), zero_bits)
}

/// Masking the top `8 - s` bits of a byte leaves zero exactly when the byte
/// is below two to the `s`.
proof fn lemma_top_bits_zero(b: u8, rem: u32)
    requires
        1 <= rem <= 7,
    ensures
        ((b & (0xFFu8 << (8 - rem))) == 0) == ((b as nat) < two_pow((8 - rem) as nat)),
{
    reveal_with_fuel(two_pow, 8);
    if rem == 1 {
        assert((b & (0xFFu8 << 7u32)) == 0 <==> b < 128u8) by (bit_vector);
    } else if rem == 2 {
        assert((b & (0xFFu8 << 6u32)) == 0 <==> b < 64u8) by (bit_vector);
    } else if rem == 3 {
        assert((b & (0xFFu8 << 5u32)) == 0 <==> b < 32u8) by (bit_vector);
    } else if rem == 4 {
        assert((b & (0xFFu8 << 4u32)) == 0 <==> b < 16u8) by (bit_vector);
    } else if rem == 5 {
        assert((b & (0xFFu8 << 3u32)) == 0 <==> b < 8u8) by (bit_vector);
    } else if rem == 6 {
        assert((b & (0xFFu8 << 2u32)) == 0 <==> b < 4u8) by (bit_vector);
    } else {
        assert((b & (0xFFu8 << 1u32)) == 0 <==> b < 2u8) by (bit_vector);
    }
}

/// Whether the hex text `hash_hex` decodes and its bytes start with
/// `zero_bits` zero bits.
pub fn has_leading_zero_bits_hex(hash_hex: &str, zero_bits: u32) -> (res: bool)
    ensures
        res == meets_difficulty(hash_hex@, zero_bits as nat),
{
    let bytes = match decode_hex(hash_hex) {
        Some(v) => v,
        None => return false,
    };
    let ghost n = zero_bits as nat;
    let mut rem = zero_bits;
    let mut i: usize = 0;
    while i < bytes.len()
        invariant
            i <= bytes.len(),
            rem as int == n - 8 * i,
            forall|k: int| 0 <= k < i ==> #[trigger] bytes@[k] == 0,
            n == zero_bits as nat,
            bytes@ == hex_decode(hash_hex.spec_bytes()),
            hex_decodable(hash_hex.spec_bytes()),
        decreases bytes.len() - i,
    {
        let b = bytes[i];
        if rem == 0 {
            assert(n / 8 == i);
            return true;
        }
        if rem >= 8 {
            if b != 0 {
                assert(i < n / 8);
                return false;
            }
            rem -= 8;
        } else {
            let mask = 0xFFu8 << (8 - rem);
            proof {
                lemma_top_bits_zero(b, rem);
                assert(n / 8 == i);
                assert(n % 8 == rem);
            }
            return (b & mask) == 0;
        }
        i += 1;
    }
    proof {
        if rem == 0 {
            assert(n / 8 == i);
        }
    }
    rem == 0
}

} // verus!
