//! Lowercase hexadecimal encoding and decoding, as the `hex` crate does it,
//! stated over byte sequences.

use vstd::prelude::*;

verus! {

/// ASCII code of the lowercase hex digit for `n` (`n < 16`).
pub open spec fn hex_digit(n: u8) -> u8 {
    if n < 10 { (48 + n) as u8 } else { (87 + n) as u8 }
}

/// Hex encoding of `d` as ASCII bytes: two lowercase digits per byte, high
/// nibble first.
pub open spec fn hex_encode_bytes(d: Seq<u8>) -> Seq<u8>
    decreases d.len(),
{
    if d.len() == 0 {
        Seq::empty()
    } else {
        seq![hex_digit(d[0] / 16), hex_digit(d[0] % 16)] + hex_encode_bytes(d.drop_first())
    }
}

/// Characters of an ASCII byte sequence.
pub open spec fn ascii_chars(b: Seq<u8>) -> Seq<char> {
    Seq::new(b.len(), |i: int| b[i] as char)
}

/// Hex encoding of `d` as characters.
pub open spec fn hex_encode_chars(d: Seq<u8>) -> Seq<char> {
    ascii_chars(hex_encode_bytes(d))
}

/// Value of one hex digit, upper or lower case.
pub open spec fn hex_value(c: u8) -> Option<u8> {
    if 48 <= c <= 57 {
        Some((c - 48) as u8)
    } else if 97 <= c <= 102 {
        Some((c - 87) as u8)
    } else if 65 <= c <= 70 {
        Some((c - 55) as u8)
    } else {
        None
    }
}

/// Decoding of a hex string given as bytes: `None` when its length is odd or
/// a character is not a hex digit.
pub open spec fn hex_decode_bytes(s: Seq<u8>) -> Option<Seq<u8>>
    decreases s.len(),
{
    if s.len() == 0 {
        Some(Seq::empty())
    } else if s.len() == 1 {
        None
    } else {
        match (hex_value(s[0]), hex_value(s[1]), hex_decode_bytes(s.skip(2))) {
            (Some(hi), Some(lo), Some(rest)) => Some(seq![(hi * 16 + lo) as u8] + rest),
            _ => None,
        }
    }
}

/// Decoding gives back what encoding was given.
pub proof fn lemma_hex_roundtrip(d: Seq<u8>)
    ensures
        hex_encode_bytes(d).len() == 2 * d.len(),
        hex_decode_bytes(hex_encode_bytes(d)) == Some(d),
        forall|i: int| 0 <= i < hex_encode_bytes(d).len() ==> #[trigger] hex_encode_bytes(d)[i] < 128,
    decreases d.len(),
{
    if d.len() > 0 {
        lemma_hex_roundtrip(d.drop_first());
        let e = hex_encode_bytes(d);
        let hi = d[0] / 16;
        let lo = d[0] % 16;
        assert(e.skip(2) =~= hex_encode_bytes(d.drop_first()));
        assert(hex_value(hex_digit(hi)) == Some(hi));
        assert(hex_value(hex_digit(lo)) == Some(lo));
        assert(seq![(hi * 16 + lo) as u8] + d.drop_first() =~= d);
    }
}

/// The characters of an ASCII byte sequence are ASCII, and encode back to it.
pub proof fn lemma_ascii_chars_utf8(b: Seq<u8>)
    requires
        forall|i: int| 0 <= i < b.len() ==> #[trigger] b[i] < 128,
    ensures
        vstd::utf8::is_ascii_chars(ascii_chars(b)),
        vstd::utf8::encode_utf8(ascii_chars(b)) == b,
{
    let c = ascii_chars(b);
    assert forall|i: int| 0 <= i < c.len() implies '\0' <= #[trigger] c[i] <= '\u{7f}' by {
        assert(b[i] < 128);
    }
    vstd::utf8::is_ascii_chars_encode_utf8(c);
    assert(vstd::utf8::encode_utf8(c) =~= b);
}

#[verifier::external_type_specification]
#[verifier::external_body]
pub struct ExFromHexError(hex::FromHexError);

/// Calls `hex::encode`: lowercase hex, two digits per byte, high nibble first.
#[verifier::external_body]
pub(crate) fn hex_encode(data: &[u8]) -> (s: String)
    ensures
        s@ == hex_encode_chars(data@),
{
    hex::encode(data)
}

/// Calls `hex::decode`: succeeds exactly when the input has even length and
/// only hex digits (either case), and then returns the decoded bytes. Which
/// `FromHexError` variant comes back on failure is left unsaid.
#[verifier::external_body]
pub(crate) fn hex_decode(data: &[u8]) -> (r: Result<Vec<u8>, hex::FromHexError>)
    ensures
        r is Ok <==> hex_decode_bytes(data@) is Some,
        r matches Ok(v) ==> hex_decode_bytes(data@) == Some(v@),
{
    hex::decode(data)
}

} // verus!
