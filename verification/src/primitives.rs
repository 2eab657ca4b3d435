//! Base types: 256-bit hashes (BLAKE3), Ed25519 public keys, signatures and
//! key pairs, and 20-byte account addresses written `ondr` + hex.

use ed25519_dalek::{Signature as DalekSignature, Signer, SigningKey, Verifier, VerifyingKey};
use rand::rngs::OsRng;
use rand::RngCore;
use vstd::prelude::*;
use vstd::string::StringSliceAdditionalSpecFns;

use crate::hexcodec::{
    ascii_chars, hex_decode, hex_decode_bytes, hex_encode, hex_encode_bytes, hex_encode_chars,
};

verus! {

/// Text that starts every address.
pub const ADDRESS_PREFIX: &'static str = "ondr";

/// What BLAKE3 returns for `data` (32 bytes).
pub uninterp spec fn blake3_digest(data: Seq<u8>) -> Seq<u8>;

/// Calls `blake3::hash`; the result is the BLAKE3 digest of `data`, 32 bytes.
#[verifier::external_body]
fn blake3_hash(data: &[u8]) -> (out: [u8; 32])
    ensures
        out@ == blake3_digest(data@),
{
    *blake3::hash(data).as_bytes()
}

/// The Ed25519 public key (compressed, 32 bytes) of a 32-byte secret seed.
pub uninterp spec fn ed25519_public_key(seed: Seq<u8>) -> Seq<u8>;

/// The Ed25519 signature (64 bytes) of `msg` under the key with secret seed `seed`.
pub uninterp spec fn ed25519_signature(seed: Seq<u8>, msg: Seq<u8>) -> Seq<u8>;

/// Whether `signature` is a valid Ed25519 signature of `msg` under `public_key`
/// (false also when `public_key` is not a valid curve point).
pub uninterp spec fn ed25519_verifies(public_key: Seq<u8>, msg: Seq<u8>, signature: Seq<u8>) -> bool;

/// Calls `SigningKey::from_bytes(seed).verifying_key().to_bytes()` of
/// `ed25519_dalek`: the public key of the seed.
#[verifier::external_body]
fn ed25519_public_from_seed(seed: &[u8; 32]) -> (pk: [u8; 32])
    ensures
        pk@ == ed25519_public_key(seed@),
{
    SigningKey::from_bytes(seed).verifying_key().to_bytes()
}

/// Calls `SigningKey::from_bytes(seed).sign(msg)` of `ed25519_dalek`: the
/// signature of `msg`, which (as Ed25519 promises) verifies under the public
/// key of the same seed.
#[verifier::external_body]
fn ed25519_sign(seed: &[u8; 32], msg: &[u8]) -> (sig: [u8; 64])
    ensures
        sig@ == ed25519_signature(seed@, msg@),
        ed25519_verifies(ed25519_public_key(seed@), msg@, sig@),
{
    SigningKey::from_bytes(seed).sign(msg).to_bytes()
}

/// Calls `VerifyingKey::from_bytes`, `Signature::from_slice` and
/// `VerifyingKey::verify` of `ed25519_dalek`: true exactly when the key
/// decodes and the signature verifies.
#[verifier::external_body]
fn ed25519_verify(pk: &[u8; 32], msg: &[u8], sig: &[u8; 64]) -> (ok: bool)
    ensures
        ok == ed25519_verifies(pk@, msg@, sig@),
{
    match (VerifyingKey::from_bytes(pk), DalekSignature::from_slice(sig)) {
        (Ok(vk), Ok(s)) => vk.verify(msg, &s).is_ok(),
        _ => false,
    }
}

/// Calls `OsRng.fill_bytes` of `rand`: `len` bytes from the operating
/// system's random source. Nothing is said of their values.
#[verifier::external_body]
pub(crate) fn os_random_bytes(len: usize) -> (v: Vec<u8>)
    ensures
        v@.len() == len,
{
    let mut v = vec![0u8; len];
    OsRng.fill_bytes(&mut v);
    v
}

/// Whether two byte slices hold the same bytes.
pub fn bytes_eq(a: &[u8], b: &[u8]) -> (r: bool)
    ensures
        r == (a@ == b@),
{
    if a.len() != b.len() {
        return false;
    }
    let mut i: usize = 0;
    while i < a.len()
        invariant
            0 <= i <= a@.len(),
            a@.len() == b@.len(),
            forall|j: int| 0 <= j < i ==> a@[j] == b@[j],
        decreases a@.len() - i,
    {
        if a[i] != b[i] {
            return false;
        }
        i = i + 1;
    }
    assert(a@ =~= b@);
    true
}

/// Appends a byte slice to a vector.
pub fn append_bytes(v: &mut Vec<u8>, s: &[u8])
    ensures
        final(v)@ == old(v)@ + s@,
{
    let mut i: usize = 0;
    let ghost start = v@;
    while i < s.len()
        invariant
            0 <= i <= s@.len(),
            v@ == start + s@.take(i as int),
        decreases s@.len() - i,
    {
        v.push(s[i]);
        i = i + 1;
        assert(v@ =~= start + s@.take(i as int));
    }
    assert(s@.take(s@.len() as int) =~= s@);
}

/// Errors from parsing keys and addresses.
#[derive(Debug)]
pub enum PrimitiveError {
    /// The text is not valid hex.
    InvalidHex(hex::FromHexError),
    /// The decoded bytes have the wrong length.
    InvalidLength,
}

/// 256-bit hash (BLAKE3 output): block hashes, transaction hashes, Merkle roots.
#[derive(Clone, Copy, Eq, Hash, PartialOrd, Ord, Debug)]
pub struct Hash256(pub [u8; 32]);

impl Hash256 {
    /// The all-zero hash.
    pub fn zero() -> (h: Hash256)
        ensures
            h.0@ == Seq::new(32, |i: int| 0u8),
    {
        let h = Hash256([0u8; 32]);
        assert(h.0@ =~= Seq::new(32, |i: int| 0u8));
        h
    }

    /// BLAKE3 hash of `data`.
    pub fn hash(data: &[u8]) -> (h: Hash256)
        ensures
            h.0@ == blake3_digest(data@),
    {
        Hash256(blake3_hash(data))
    }

    pub fn as_bytes(&self) -> (b: &[u8; 32])
        ensures
            b@ == self.0@,
    {
        &self.0
    }

    /// The hash as a big-endian 256-bit integer, for comparison with a target.
    pub fn to_u256_be(&self) -> (b: [u8; 32])
        ensures
            b@ == self.0@,
    {
        self.0
    }

    pub fn to_hex(&self) -> (s: String)
        ensures
            s@ == hex_encode_chars(self.0@),
    {
        hex_encode(&self.0)
    }

    /// Parses hex; a well-formed hex string whose length is not 64 gives the
    /// all-zero hash.
    pub fn from_hex(s: &str) -> (r: Result<Hash256, hex::FromHexError>)
        ensures
            r is Ok <==> hex_decode_bytes(s.spec_bytes()) is Some,
            r matches Ok(h) ==> (if hex_decode_bytes(s.spec_bytes()).unwrap().len() == 32 {
                h.0@ == hex_decode_bytes(s.spec_bytes()).unwrap()
            } else {
                h.0@ == Seq::new(32, |i: int| 0u8)
            }),
    {
        let bytes = hex_decode(s.as_bytes())?;
        let mut arr = [0u8; 32];
        if bytes.len() == 32 {
            let mut i: usize = 0;
            while i < 32
                invariant
                    0 <= i <= 32,
                    bytes@.len() == 32,
                    arr@.len() == 32,
                    forall|j: int| 0 <= j < i ==> arr@[j] == bytes@[j],
                decreases 32 - i,
            {
                arr[i] = bytes[i];
                i = i + 1;
            }
            assert(arr@ =~= bytes@);
        } else {
            assert(arr@ =~= Seq::new(32, |i: int| 0u8));
        }
        Ok(Hash256(arr))
    }
}

/// Ed25519 public key, 32 bytes.
#[derive(Clone, Copy, Eq, Debug)]
pub struct PublicKey(pub [u8; 32]);

/// The address of a public key: the first 20 bytes of its BLAKE3 hash.
pub open spec fn address_of_key(pk: Seq<u8>) -> Seq<u8> {
    blake3_digest(pk).take(20)
}

impl PublicKey {
    pub fn to_hex(&self) -> (s: String)
        ensures
            s@ == hex_encode_chars(self.0@),
    {
        hex_encode(&self.0)
    }

    /// Parses 64 hex digits.
    pub fn from_hex(s: &str) -> (r: Result<PublicKey, PrimitiveError>)
        ensures
            r matches Ok(k) ==> hex_decode_bytes(s.spec_bytes()) == Some(k.0@),
            r is Ok <==> (hex_decode_bytes(s.spec_bytes()) is Some
                && hex_decode_bytes(s.spec_bytes()).unwrap().len() == 32),
            r matches Err(PrimitiveError::InvalidHex(_)) <==> hex_decode_bytes(s.spec_bytes()) is None,
    {
        let bytes = match hex_decode(s.as_bytes()) {
            Ok(b) => b,
            Err(e) => return Err(PrimitiveError::InvalidHex(e)),
        };
        if bytes.len() != 32 {
            return Err(PrimitiveError::InvalidLength);
        }
        let mut arr = [0u8; 32];
        let mut i: usize = 0;
        while i < 32
            invariant
                0 <= i <= 32,
                bytes@.len() == 32,
                arr@.len() == 32,
                forall|j: int| 0 <= j < i ==> arr@[j] == bytes@[j],
            decreases 32 - i,
        {
            arr[i] = bytes[i];
            i = i + 1;
        }
        assert(arr@ =~= bytes@);
        Ok(PublicKey(arr))
    }

    /// The address of this key: `BLAKE3(key)[..20]`.
    pub fn to_address(&self) -> (a: Address)
        ensures
            a.0@ == address_of_key(self.0@),
    {
        let h = blake3_hash(&self.0);
        let mut addr = [0u8; 20];
        let mut i: usize = 0;
        while i < 20
            invariant
                0 <= i <= 20,
                h@.len() == 32,
                addr@.len() == 20,
                forall|j: int| 0 <= j < i ==> addr@[j] == h@[j],
            decreases 20 - i,
        {
            addr[i] = h[i];
            i = i + 1;
        }
        assert(addr@ =~= h@.take(20));
        Address(addr)
    }

    /// Whether `signature` is a valid signature of `message` under this key.
    pub fn verify(&self, message: &[u8], signature: &Signature) -> (ok: bool)
        ensures
            ok == ed25519_verifies(self.0@, message@, signature.0@),
    {
        ed25519_verify(&self.0, message, &signature.0)
    }
}

/// Ed25519 signature, 64 bytes.
#[derive(Clone, Copy, Eq, Debug)]
pub struct Signature(pub [u8; 64]);

impl Signature {
    pub fn to_hex(&self) -> (s: String)
        ensures
            s@ == hex_encode_chars(self.0@),
    {
        hex_encode(&self.0)
    }
}

/// Account address: 20 bytes derived from a public key.
#[derive(Clone, Copy, Eq, Hash, PartialOrd, Ord, Debug)]
pub struct Address(pub [u8; 20]);

/// The bytes of `"ondr"`.
pub open spec fn address_prefix_bytes() -> Seq<u8> {
    seq![111u8, 110u8, 100u8, 114u8]
}

/// Text form of an address: `ondr` followed by 40 lowercase hex digits.
pub open spec fn address_text(a: Seq<u8>) -> Seq<char> {
    ascii_chars(address_prefix_bytes() + hex_encode_bytes(a))
}

/// The input with a leading `ondr` removed, if it has one.
pub open spec fn strip_address_prefix(b: Seq<u8>) -> Seq<u8> {
    if b.len() >= 4 && b.take(4) == address_prefix_bytes() { b.skip(4) } else { b }
}

/// The bytes an address text denotes, if it denotes one.
pub open spec fn parse_address_bytes(b: Seq<u8>) -> Option<Seq<u8>> {
    match hex_decode_bytes(strip_address_prefix(b)) {
        Some(v) => if v.len() == 20 { Some(v) } else { None },
        None => None,
    }
}

impl Address {
    pub fn to_hex(&self) -> (s: String)
        ensures
            s@ == hex_encode_chars(self.0@),
    {
        hex_encode(&self.0)
    }

    /// Parses 40 hex digits.
    pub fn from_hex(s: &str) -> (r: Result<Address, PrimitiveError>)
        ensures
            r matches Ok(a) ==> hex_decode_bytes(s.spec_bytes()) == Some(a.0@),
            r is Ok <==> (hex_decode_bytes(s.spec_bytes()) is Some
                && hex_decode_bytes(s.spec_bytes()).unwrap().len() == 20),
            r matches Err(PrimitiveError::InvalidHex(_)) <==> hex_decode_bytes(s.spec_bytes()) is None,
    {
        Self::from_hex_bytes(s.as_bytes())
    }

    fn from_hex_bytes(b: &[u8]) -> (r: Result<Address, PrimitiveError>)
        ensures
            r matches Ok(a) ==> hex_decode_bytes(b@) == Some(a.0@),
            r is Ok <==> (hex_decode_bytes(b@) is Some && hex_decode_bytes(b@).unwrap().len() == 20),
            r matches Err(PrimitiveError::InvalidHex(_)) <==> hex_decode_bytes(b@) is None,
    {
        let bytes = match hex_decode(b) {
            Ok(v) => v,
            Err(e) => return Err(PrimitiveError::InvalidHex(e)),
        };
        if bytes.len() != 20 {
            return Err(PrimitiveError::InvalidLength);
        }
        let mut arr = [0u8; 20];
        let mut i: usize = 0;
        while i < 20
            invariant
                0 <= i <= 20,
                bytes@.len() == 20,
                arr@.len() == 20,
                forall|j: int| 0 <= j < i ==> arr@[j] == bytes@[j],
            decreases 20 - i,
        {
            arr[i] = bytes[i];
            i = i + 1;
        }
        assert(arr@ =~= bytes@);
        Ok(Address(arr))
    }

    /// Text form: `ondr` + hex.
    pub fn to_string(&self) -> (s: String)
        ensures
            s@ == address_text(self.0@),
    {
        let mut s = String::from_str(ADDRESS_PREFIX);
        let h = hex_encode(&self.0);
        s.append(h.as_str());
        proof {
            reveal_strlit("ondr");
            assert(ADDRESS_PREFIX@ =~= ascii_chars(address_prefix_bytes()));
            assert(s@ =~= address_text(self.0@));
        }
        s
    }

    /// Parses an address, with or without its `ondr` prefix.
    pub fn parse_str(s: &str) -> (r: Result<Address, PrimitiveError>)
        ensures
            r is Ok <==> parse_address_bytes(s.spec_bytes()) is Some,
            r matches Ok(a) ==> parse_address_bytes(s.spec_bytes()) == Some(a.0@),
            r matches Err(PrimitiveError::InvalidHex(_)) <==> hex_decode_bytes(strip_address_prefix(s.spec_bytes())) is None,
    {
        let b = s.as_bytes();
        if b.len() >= 4 && b[0] == 111u8 && b[1] == 110u8 && b[2] == 100u8 && b[3] == 114u8 {
            assert(b@.take(4) =~= address_prefix_bytes());
            let mut rest: Vec<u8> = Vec::new();
            let mut i: usize = 4;
            while i < b.len()
                invariant
                    4 <= i <= b@.len(),
                    rest@ == b@.subrange(4, i as int),
                decreases b@.len() - i,
            {
                rest.push(b[i]);
                i = i + 1;
                assert(rest@ =~= b@.subrange(4, i as int));
            }
            assert(rest@ =~= b@.skip(4));
            Self::from_hex_bytes(rest.as_slice())
        } else {
            assert(!(b@.len() >= 4 && b@.take(4) == address_prefix_bytes())) by {
                if b@.len() >= 4 && b@.take(4) == address_prefix_bytes() {
                    assert(b@[0] == b@.take(4)[0]);
                    assert(b@[1] == b@.take(4)[1]);
                    assert(b@[2] == b@.take(4)[2]);
                    assert(b@[3] == b@.take(4)[3]);
                }
            }
            Self::from_hex_bytes(b)
        }
    }
}

impl std::str::FromStr for Address {
    type Err = PrimitiveError;

    fn from_str(s: &str) -> (r: Result<Address, PrimitiveError>)
        ensures
            r is Ok <==> parse_address_bytes(s.spec_bytes()) is Some,
            r matches Ok(a) ==> parse_address_bytes(s.spec_bytes()) == Some(a.0@),
            r matches Err(PrimitiveError::InvalidHex(_)) <==> hex_decode_bytes(strip_address_prefix(s.spec_bytes())) is None,
    {
        Address::parse_str(s)
    }
}

/// Reading back the text of an address gives the address.
pub proof fn lemma_address_text_roundtrip(a: Seq<u8>)
    requires
        a.len() == 20,
    ensures
        parse_address_bytes(vstd::utf8::encode_utf8(address_text(a))) == Some(a),
{
    crate::hexcodec::lemma_hex_roundtrip(a);
    let b = address_prefix_bytes() + hex_encode_bytes(a);
    assert forall|i: int| 0 <= i < b.len() implies #[trigger] b[i] < 128 by {
        if i >= 4 {
            assert(b[i] == hex_encode_bytes(a)[i - 4]);
        }
    }
    crate::hexcodec::lemma_ascii_chars_utf8(b);
    assert(b.take(4) =~= address_prefix_bytes());
    assert(b.skip(4) =~= hex_encode_bytes(a));
}

/// An Ed25519 key pair held in memory, by its 32-byte secret seed.
pub struct KeyPair {
    seed: [u8; 32],
}

impl KeyPair {
    /// The secret seed (a view for contracts).
    pub closed spec fn seed_view(&self) -> Seq<u8> {
        self.seed@
    }

    /// A fresh key pair from the operating system's random source.
    pub fn generate() -> (kp: KeyPair)
        ensures
            kp.seed_view().len() == 32,
    {
        let bytes = os_random_bytes(32);
        let mut seed = [0u8; 32];
        let mut i: usize = 0;
        while i < 32
            invariant
                0 <= i <= 32,
                bytes@.len() == 32,
                seed@.len() == 32,
            decreases 32 - i,
        {
            seed[i] = bytes[i];
            i = i + 1;
        }
        KeyPair { seed }
    }

    pub fn from_seed(seed: [u8; 32]) -> (kp: KeyPair)
        ensures
            kp.seed_view() == seed@,
    {
        KeyPair { seed }
    }

    pub fn seed_bytes(&self) -> (s: [u8; 32])
        ensures
            s@ == self.seed_view(),
    {
        self.seed
    }

    pub fn public(&self) -> (pk: PublicKey)
        ensures
            pk.0@ == ed25519_public_key(self.seed_view()),
    {
        PublicKey(ed25519_public_from_seed(&self.seed))
    }

    pub fn address(&self) -> (a: Address)
        ensures
            a.0@ == address_of_key(ed25519_public_key(self.seed_view())),
    {
        self.public().to_address()
    }

    /// Signs `message`; the signature verifies under `self.public()`.
    pub fn sign(&self, message: &[u8]) -> (sig: Signature)
        ensures
            sig.0@ == ed25519_signature(self.seed_view(), message@),
            ed25519_verifies(ed25519_public_key(self.seed_view()), message@, sig.0@),
    {
        Signature(ed25519_sign(&self.seed, message))
    }
}

} // verus!
