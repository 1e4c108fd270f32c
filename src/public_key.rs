//! Validator public keys, written as hexadecimal text.
use vstd::prelude::*;

use crate::errors::ParamError;

verus! {

#[verifier::external_type_specification]
#[verifier::external_body]
pub struct ExFromHexError(hex::FromHexError);

/// A digit of either case: `0-9`, `a-f` or `A-F`.
pub open spec fn is_hex_digit(c: char) -> bool {
    ('0' <= c && c <= '9') || ('a' <= c && c <= 'f') || ('A' <= c && c <= 'F')
}

/// The value of a hexadecimal digit.
pub open spec fn hex_value(c: char) -> int {
    if '0' <= c && c <= '9' {
        c as int - '0' as int
    } else if 'a' <= c && c <= 'f' {
        c as int - 'a' as int + 10
    } else {
        c as int - 'A' as int + 10
    }
}

/// Text that decodes: an even number of hexadecimal digits.
pub open spec fn is_hex_text(s: Seq<char>) -> bool {
    &&& s.len() % 2 == 0
    &&& forall|i: int| 0 <= i < s.len() ==> is_hex_digit(#[trigger] s[i])
}

/// The bytes that hexadecimal text stands for, two digits per byte, high nibble first.
pub open spec fn hex_bytes(s: Seq<char>) -> Seq<u8> {
    Seq::new(
        (s.len() / 2) as nat,
        |i: int| (hex_value(s[2 * i]) * 16 + hex_value(s[2 * i + 1])) as u8,
    )
}

/// The lower-case digit of a nibble.
pub open spec fn lower_hex_digit(n: int) -> char {
    if n < 10 {
        (n + 48) as char
    } else {
        (n + 87) as char
    }
}

/// Lower-case hexadecimal text of bytes, two digits per byte, high nibble first.
pub open spec fn hex_text(b: Seq<u8>) -> Seq<char> {
    Seq::new(
        2 * b.len(),
        |i: int|
            if i % 2 == 0 {
                lower_hex_digit(b[i / 2] as int / 16)
            } else {
                lower_hex_digit(b[i / 2] as int % 16)
            },
    )
}

/// Relies on hex::decode: it accepts exactly an even number of hexadecimal
/// digits of either case and yields one byte per pair, high nibble first.
#[verifier::external_body]
fn hex_decode(s: &str) -> (r: Result<Vec<u8>, hex::FromHexError>)
    ensures
        r.is_ok() <==> is_hex_text(s@),
        r matches Ok(b) ==> b@ == hex_bytes(s@),
{
    hex::decode(s)
}

/// Relies on hex::encode: two lower-case digits per byte, high nibble first.
#[verifier::external_body]
fn hex_encode(b: &[u8]) -> (r: String)
    ensures
        r@ == hex_text(b@),
{
    hex::encode(b)
}

/// Decodes a validator public key from hexadecimal text.
pub fn decode_public_key(s: &str) -> (r: Result<Vec<u8>, ParamError>)
    ensures
        r.is_ok() <==> is_hex_text(s@),
        r matches Ok(b) ==> b@ == hex_bytes(s@),
        r matches Err(e) ==> e == ParamError::InvalidPublicKeyEncoding,
{
    match hex_decode(s) {
        Ok(b) => Ok(b),
        Err(_) => Err(ParamError::InvalidPublicKeyEncoding),
    }
}

/// Writes a public key as lower-case hexadecimal text.
pub fn encode_public_key(key: &[u8]) -> (r: String)
    ensures
        r@ == hex_text(key@),
{
    hex_encode(key)
}

proof fn lemma_nibble_digit(n: int)
    requires
        0 <= n < 16,
    ensures
        is_hex_digit(lower_hex_digit(n)),
        hex_value(lower_hex_digit(n)) == n,
{
}

/// Encoding bytes as hexadecimal text and decoding that text gives the bytes back.
pub proof fn lemma_public_key_round_trip(b: Seq<u8>)
    ensures
        is_hex_text(hex_text(b)),
        hex_bytes(hex_text(b)) == b,
{
    let t = hex_text(b);
    assert forall|i: int| 0 <= i < t.len() implies is_hex_digit(#[trigger] t[i]) by {
        lemma_nibble_digit(b[i / 2] as int / 16);
        lemma_nibble_digit(b[i / 2] as int % 16);
    }
    assert forall|i: int| 0 <= i < b.len() implies #[trigger] hex_bytes(t)[i] == b[i] by {
        let x = b[i] as int;
        lemma_nibble_digit(x / 16);
        lemma_nibble_digit(x % 16);
        assert((2 * i) / 2 == i);
        assert((2 * i + 1) / 2 == i);
        assert(x / 16 * 16 + x % 16 == x);
    }
    assert(hex_bytes(t) =~= b);
}

/// Text of odd length, or holding a character that is not a hexadecimal
/// digit, never decodes.
pub proof fn lemma_malformed_key_rejected(s: Seq<char>, i: int)
    requires
        s.len() % 2 == 1 || (0 <= i < s.len() && !is_hex_digit(s[i])),
    ensures
        !is_hex_text(s),
{
}

} // verus!
