//! Hexadecimal text: the lowercase encoding that `hex::encode` writes and
//! the decoding that `hex::decode` performs.

use vstd::prelude::*;
use vstd::string::StringSliceAdditionalSpecFns;
use vstd::utf8::{encode_utf8, is_ascii_chars, is_ascii_chars_encode_utf8};

verus! {

/// The sixteen lowercase hexadecimal digits.
pub open spec fn hex_alphabet() -> Seq<char> {
    seq!['0', '1', '2', '3', '4', '5', '6', '7', '8', '9', 'a', 'b', 'c', 'd', 'e', 'f']
}

/// Lowercase hex text of `data`: two digits per byte, high nibble first.
pub open spec fn hex_encode(data: Seq<u8>) -> Seq<char> {
    Seq::new(
        2 * data.len(),
        |i: int|
            if i % 2 == 0 {
                hex_alphabet()[data[i / 2] as int / 16]
            } else {
                hex_alphabet()[data[i / 2] as int % 16]
            },
    )
}

/// Hex text has two characters per byte, each a lowercase hex digit.
pub proof fn lemma_hex_encode_digits(data: Seq<u8>)
    ensures
        hex_encode(data).len() == 2 * data.len(),
        forall|i: int| 0 <= i < hex_encode(data).len() ==> hex_alphabet().contains(#[trigger] hex_encode(data)[i]),
{
    assert forall|i: int| 0 <= i < hex_encode(data).len() implies hex_alphabet().contains(#[trigger] hex_encode(data)[i]) by {
        let x: int = if i % 2 == 0 { data[i / 2] as int / 16 } else { data[i / 2] as int % 16 };
        assert(0 <= x < 16);
        assert(hex_alphabet()[x] == hex_encode(data)[i]);
    }
}

/// A byte that `hex::decode` accepts as a digit: `0-9`, `a-f` or `A-F`.
pub open spec fn is_hex_byte(b: u8) -> bool {
    (48 <= b && b <= 57) || (97 <= b && b <= 102) || (65 <= b && b <= 70)
}

/// The value of a hex digit byte.
pub open spec fn hex_byte_value(b: u8) -> int {
    if 48 <= b && b <= 57 {
        b - 48
    } else if 97 <= b && b <= 102 {
        b - 87
    } else {
        b - 55
    }
}

/// Text that `hex::decode` accepts: an even number of hex digits.
pub open spec fn hex_decodable(text: Seq<u8>) -> bool {
    &&& text.len() % 2 == 0
    &&& forall|i: int| 0 <= i < text.len() ==> is_hex_byte(#[trigger] text[i])
}

/// The bytes that `hex::decode` returns for decodable text.
pub open spec fn hex_decode(text: Seq<u8>) -> Seq<u8> {
    Seq::new(
        text.len() / 2,
        |i: int| (hex_byte_value(text[2 * i]) * 16 + hex_byte_value(text[2 * i + 1])) as u8,
    )
}

/// `hex::encode`: the lowercase hex text of `data`.
#[verifier::external_body]
pub(crate) fn hex_encode_bytes(data: &[u8]) -> (res: String)
    ensures
        res@ == hex_encode(data@),
{
    ::hex::encode(data)
}

/// The error type of `hex::decode`.
#[verifier::external_type_specification]
#[verifier::external_body]
pub struct ExFromHexError(::hex::FromHexError);

/// `hex::decode` on the UTF-8 bytes of `text`: it succeeds exactly on an even
/// number of hex digits (either case) and then returns one byte per pair.
#[verifier::external_body]
fn hex_decode_str(text: &str) -> (res: Result<Vec<u8>, ::hex::FromHexError>)
    ensures
        res is Ok <==> hex_decodable(text.spec_bytes()),
        res matches Ok(v) ==> v@ == hex_decode(text.spec_bytes()),
{
    ::hex::decode(text)
}

/// Decodes hex text; `None` where `hex::decode` reports an error.
pub fn decode_hex(text: &str) -> (res: Option<Vec<u8>>)
    ensures
        res is Some <==> hex_decodable(text.spec_bytes()),
        res matches Some(v) ==> v@ == hex_decode(text.spec_bytes()),
{
    match hex_decode_str(text) {
        Ok(v) => Some(v),
        Err(_) => None,
    }
}

/// Each hex digit is an ASCII character whose byte decodes back to its value.
pub proof fn lemma_hex_digit(v: int)
    requires
        0 <= v < 16,
    ensures
        '\0' <= hex_alphabet()[v] <= '\u{7f}',
        is_hex_byte(hex_alphabet()[v] as u8),
        hex_byte_value(hex_alphabet()[v] as u8) == v,
{
    let a = hex_alphabet();
    if v == 0 { assert(a[0] == '0'); }
    else if v == 1 { assert(a[1] == '1'); }
    else if v == 2 { assert(a[2] == '2'); }
    else if v == 3 { assert(a[3] == '3'); }
    else if v == 4 { assert(a[4] == '4'); }
    else if v == 5 { assert(a[5] == '5'); }
    else if v == 6 { assert(a[6] == '6'); }
    else if v == 7 { assert(a[7] == '7'); }
    else if v == 8 { assert(a[8] == '8'); }
    else if v == 9 { assert(a[9] == '9'); }
    else if v == 10 { assert(a[10] == 'a'); }
    else if v == 11 { assert(a[11] == 'b'); }
    else if v == 12 { assert(a[12] == 'c'); }
    else if v == 13 { assert(a[13] == 'd'); }
    else if v == 14 { assert(a[14] == 'e'); }
    else { assert(a[15] == 'f'); }
}

/// Decoding the UTF-8 bytes of hex text gives back the encoded bytes.
pub proof fn lemma_hex_roundtrip(data: Seq<u8>)
    ensures
        hex_decodable(encode_utf8(hex_encode(data))),
        hex_decode(encode_utf8(hex_encode(data))) == data,
{
    let text = hex_encode(data);
    assert forall|i: int| 0 <= i < text.len() implies '\0' <= #[trigger] text[i] <= '\u{7f}' by {
        if i % 2 == 0 {
            lemma_hex_digit(data[i / 2] as int / 16);
        } else {
            lemma_hex_digit(data[i / 2] as int % 16);
        }
    }
    assert(is_ascii_chars(text));
    is_ascii_chars_encode_utf8(text);
    let bytes = encode_utf8(text);
    assert forall|i: int| 0 <= i < bytes.len() implies is_hex_byte(#[trigger] bytes[i]) by {
        assert(bytes[i] == text[i] as u8);
        if i % 2 == 0 {
            lemma_hex_digit(data[i / 2] as int / 16);
        } else {
            lemma_hex_digit(data[i / 2] as int % 16);
        }
    }
    assert forall|i: int| 0 <= i < data.len() implies #[trigger] hex_decode(bytes)[i] == data[i] by {
        assert(bytes[2 * i] == text[2 * i] as u8);
        assert(bytes[2 * i + 1] == text[2 * i + 1] as u8);
        assert((2 * i) / 2 == i);
        assert((2 * i + 1) / 2 == i);
        assert((2 * i) % 2 == 0);
        assert((2 * i + 1) % 2 == 1);
        lemma_hex_digit(data[i] as int / 16);
        lemma_hex_digit(data[i] as int % 16);
    }
    assert(hex_decode(bytes) =~= data);
}

} // verus!
