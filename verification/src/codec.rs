//! Byte-level encodings shared by the consensus formats: decimal numbers and
//! literal text.

use vstd::prelude::*;
use vstd::string::StringSliceAdditionalSpecFns;

use crate::hexcodec::{hex_encode, hex_encode_bytes, lemma_ascii_chars_utf8, lemma_hex_roundtrip};
use crate::primitives::append_bytes;

verus! {

/// ASCII decimal digits of `n`, no leading zeros.
pub open spec fn decimal_bytes(n: nat) -> Seq<u8>
    decreases n,
{
    if n < 10 {
        seq![(48 + n) as u8]
    } else {
        decimal_bytes(n / 10) + seq![(48 + n % 10) as u8]
    }
}

/// Appends the decimal digits of `n`.
pub fn push_decimal(v: &mut Vec<u8>, n: u64)
    ensures
        final(v)@ == old(v)@ + decimal_bytes(n as nat),
    decreases n,
{
    if n >= 10 {
        push_decimal(v, n / 10);
    }
    v.push((48 + n % 10) as u8);
    proof {
        if n < 10 {
            assert(n % 10 == n);
        }
    }
}

/// Appends the UTF-8 bytes of a string.
pub fn push_str(v: &mut Vec<u8>, s: &str)
    ensures
        final(v)@ == old(v)@ + s.spec_bytes(),
{
    append_bytes(v, s.as_bytes());
}

/// Appends the lowercase hex digits of `data`.
pub fn push_hex(v: &mut Vec<u8>, data: &[u8])
    ensures
        final(v)@ == old(v)@ + hex_encode_bytes(data@),
{
    let h = hex_encode(data);
    proof {
        lemma_hex_roundtrip(data@);
        lemma_ascii_chars_utf8(hex_encode_bytes(data@));
    }
    append_bytes(v, h.as_str().as_bytes());
}

} // verus!
