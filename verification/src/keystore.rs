//! Encrypted keystore: the Ed25519 seed sealed with AES-256-GCM under a key
//! derived from the password with Argon2id. Only the public key and address
//! are kept in the clear.

use aes_gcm::aead::Aead;
use aes_gcm::{Aes256Gcm, Key, KeyInit, Nonce};
use vstd::prelude::*;
use vstd::string::StringSliceAdditionalSpecFns;

use crate::genesis::utf8_of;
use crate::hexcodec::{
    ascii_chars, hex_decode, hex_decode_bytes, hex_encode, hex_encode_bytes, hex_encode_chars,
    lemma_ascii_chars_utf8, lemma_hex_roundtrip,
};
use crate::primitives::{address_of_key, address_text, ed25519_public_key, os_random_bytes, KeyPair};

verus! {

#[verifier::external_type_specification]
#[verifier::external_body]
pub struct ExArgon2Error(argon2::Error);

#[verifier::external_type_specification]
#[verifier::external_body]
pub struct ExAeadError(aes_gcm::Error);

/// The 32-byte key Argon2id (default parameters) derives from `password`
/// and `salt`.
pub uninterp spec fn argon2id_key(password: Seq<u8>, salt: Seq<u8>) -> Seq<u8>;

/// AES-256-GCM ciphertext (with its tag) of `plaintext` under `key` and
/// `nonce`, no associated data.
pub uninterp spec fn aes256gcm_seal(key: Seq<u8>, nonce: Seq<u8>, plaintext: Seq<u8>) -> Seq<u8>;

/// AES-256-GCM decryption of `ciphertext`: `None` when it does not
/// authenticate under `key` and `nonce`.
pub uninterp spec fn aes256gcm_open(key: Seq<u8>, nonce: Seq<u8>, ciphertext: Seq<u8>) -> Option<Seq<u8>>;

/// Argon2 accepts these lengths: a password of at most 2^32 - 1 bytes and a
/// salt of 8 to 2^32 - 1 bytes.
pub open spec fn argon2_inputs_ok(password: Seq<u8>, salt: Seq<u8>) -> bool {
    password.len() <= 0xffff_ffff && 8 <= salt.len() <= 0xffff_ffff
}

/// Calls `Argon2::default().hash_password_into` of `argon2` with a 32-byte
/// output: fails exactly on a password or salt of unsupported length;
/// otherwise the derived key.
#[verifier::external_body]
fn derive_key(password: &str, salt: &[u8]) -> (r: Result<[u8; 32], argon2::Error>)
    ensures
        r is Ok <==> argon2_inputs_ok(password.spec_bytes(), salt@),
        r matches Ok(k) ==> k@ == argon2id_key(password.spec_bytes(), salt@),
{
    let mut key = [0u8; 32];
    argon2::Argon2::default().hash_password_into(password.as_bytes(), salt, &mut key)?;
    Ok(key)
}

/// Calls `Aes256Gcm::encrypt` of `aes_gcm`: fails only for a plaintext over
/// 2^36 bytes; the ciphertext is the plaintext's length plus the 16-byte tag
/// and decrypts back to the plaintext (as AES-GCM promises).
#[verifier::external_body]
fn aes_encrypt(key: &[u8; 32], nonce: &[u8], plaintext: &[u8]) -> (r: Result<Vec<u8>, aes_gcm::Error>)
    requires
        nonce@.len() == 12,
    ensures
        r is Ok <==> plaintext@.len() <= 0x10_0000_0000,
        r matches Ok(c) ==> c@ == aes256gcm_seal(key@, nonce@, plaintext@)
            && c@.len() == plaintext@.len() + 16
            && aes256gcm_open(key@, nonce@, c@) == Some(plaintext@),
{
    let cipher = Aes256Gcm::new(Key::<Aes256Gcm>::from_slice(key));
    cipher.encrypt(Nonce::from_slice(nonce), plaintext)
}

/// Calls `Aes256Gcm::decrypt` of `aes_gcm`: the plaintext, or `None` when
/// the ciphertext does not authenticate.
#[verifier::external_body]
fn aes_decrypt(key: &[u8; 32], nonce: &[u8], ciphertext: &[u8]) -> (r: Option<Vec<u8>>)
    requires
        nonce@.len() == 12,
    ensures
        r is Some <==> aes256gcm_open(key@, nonce@, ciphertext@) is Some,
        r matches Some(p) ==> aes256gcm_open(key@, nonce@, ciphertext@) == Some(p@),
{
    let cipher = Aes256Gcm::new(Key::<Aes256Gcm>::from_slice(key));
    cipher.decrypt(Nonce::from_slice(nonce), ciphertext).ok()
}

/// Why a keystore cannot be created or unlocked.
#[derive(Debug)]
pub enum KeystoreError {
    /// A stored field is not valid hex.
    InvalidHex(hex::FromHexError),
    /// Argon2 refused the password or salt.
    KeyDerivation(argon2::Error),
    /// AES-GCM refused to encrypt.
    Encryption(aes_gcm::Error),
    /// Incorrect password or corrupted wallet file.
    Decryption,
    /// The decrypted seed is not 32 bytes.
    InvalidSeedLength,
}

/// An encrypted wallet file.
pub struct Keystore {
    pub public_key: String,
    pub address: String,
    salt: String,
    nonce: String,
    ciphertext: String,
}

/// What unlocking a keystore with a password comes to.
pub enum UnlockOutcome {
    Seed(Seq<u8>),
    BadHex,
    KeyDerivationFailed,
    WrongPassword,
    BadSeedLength,
    /// The stored nonce is not 12 bytes; AES-GCM cannot be called with it.
    BadNonceLength,
}

/// Unlocking, step by step: decode the salt, derive the key, decode nonce
/// and ciphertext, decrypt, check the seed length.
pub open spec fn unlock_outcome(salt: Seq<char>, nonce: Seq<char>, ciphertext: Seq<char>, password: Seq<u8>) -> UnlockOutcome {
    match hex_decode_bytes(utf8_of(salt)) {
        None => UnlockOutcome::BadHex,
        Some(s) => if !argon2_inputs_ok(password, s) {
            UnlockOutcome::KeyDerivationFailed
        } else {
            match hex_decode_bytes(utf8_of(nonce)) {
                None => UnlockOutcome::BadHex,
                Some(n) => match hex_decode_bytes(utf8_of(ciphertext)) {
                    None => UnlockOutcome::BadHex,
                    Some(c) => if n.len() != 12 {
                        UnlockOutcome::BadNonceLength
                    } else {
                        match aes256gcm_open(argon2id_key(password, s), n, c) {
                            None => UnlockOutcome::WrongPassword,
                            Some(p) => if p.len() == 32 { UnlockOutcome::Seed(p) } else { UnlockOutcome::BadSeedLength },
                        }
                    },
                },
            }
        }
    }
}

impl Keystore {
    pub closed spec fn public_key_view(&self) -> Seq<char> {
        self.public_key@
    }

    pub closed spec fn address_view(&self) -> Seq<char> {
        self.address@
    }

    pub closed spec fn salt_view(&self) -> Seq<char> {
        self.salt@
    }

    pub closed spec fn nonce_view(&self) -> Seq<char> {
        self.nonce@
    }

    pub closed spec fn ciphertext_view(&self) -> Seq<char> {
        self.ciphertext@
    }

    /// The stored fields are hex of a 16-byte salt, a 12-byte nonce and the
    /// AES-256-GCM sealing of `seed` (48 bytes with its tag) under the
    /// Argon2id key of `password` and that salt, with that nonce.
    pub open spec fn seals(&self, password: Seq<u8>, seed: Seq<u8>) -> bool {
        exists|salt: Seq<u8>, nonce: Seq<u8>|
            #![trigger aes256gcm_seal(argon2id_key(password, salt), nonce, seed)]
            salt.len() == 16 && nonce.len() == 12
                && self.salt_view() == hex_encode_chars(salt)
                && self.nonce_view() == hex_encode_chars(nonce)
                && aes256gcm_seal(argon2id_key(password, salt), nonce, seed).len() == 48
                && self.ciphertext_view() == hex_encode_chars(aes256gcm_seal(argon2id_key(password, salt), nonce, seed))
    }

    /// What unlocking with `password` comes to.
    pub open spec fn outcome(&self, password: Seq<u8>) -> UnlockOutcome {
        unlock_outcome(self.salt_view(), self.nonce_view(), self.ciphertext_view(), password)
    }

    /// A keystore from its stored fields.
    pub fn from_parts(public_key: String, address: String, salt: String, nonce: String, ciphertext: String) -> (ks: Keystore)
        ensures
            ks.public_key_view() == public_key@,
            ks.address_view() == address@,
            ks.salt_view() == salt@,
            ks.nonce_view() == nonce@,
            ks.ciphertext_view() == ciphertext@,
    {
        Keystore { public_key, address, salt, nonce, ciphertext }
    }

    pub fn public_key(&self) -> (s: &str)
        ensures
            s@ == self.public_key_view(),
    {
        self.public_key.as_str()
    }

    pub fn address(&self) -> (s: &str)
        ensures
            s@ == self.address_view(),
    {
        self.address.as_str()
    }

    pub fn salt(&self) -> (s: &str)
        ensures
            s@ == self.salt_view(),
    {
        self.salt.as_str()
    }

    pub fn nonce(&self) -> (s: &str)
        ensures
            s@ == self.nonce_view(),
    {
        self.nonce.as_str()
    }

    pub fn ciphertext(&self) -> (s: &str)
        ensures
            s@ == self.ciphertext_view(),
    {
        self.ciphertext.as_str()
    }
}

/// Creates a new key pair and its keystore under `password`. Unlocking the
/// keystore with the same password gives back the key pair's seed.
pub fn create(password: &str) -> (r: Result<(Keystore, KeyPair), KeystoreError>)
    ensures
        r is Ok <==> password.spec_bytes().len() <= 0xffff_ffff,
        r matches Ok((ks, kp)) ==> {
            &&& ks.public_key_view() == hex_encode_chars(ed25519_public_key(kp.seed_view()))
            &&& ks.address_view() == address_text(address_of_key(ed25519_public_key(kp.seed_view())))
            &&& ks.outcome(password.spec_bytes()) == UnlockOutcome::Seed(kp.seed_view())
            &&& ks.seals(password.spec_bytes(), kp.seed_view())
        },
        r matches Err(e) ==> e is KeyDerivation,
{
    let keypair = KeyPair::generate();
    let seed = keypair.seed_bytes();
    let salt = os_random_bytes(16);
    let key = match derive_key(password, salt.as_slice()) {
        Ok(k) => k,
        Err(e) => return Err(KeystoreError::KeyDerivation(e)),
    };
    let nonce = os_random_bytes(12);
    let ciphertext = match aes_encrypt(&key, nonce.as_slice(), &seed) {
        Ok(c) => c,
        Err(e) => return Err(KeystoreError::Encryption(e)),
    };
    let public_key = keypair.public().to_hex();
    let address = keypair.address().to_string();
    let salt_hex = hex_encode(salt.as_slice());
    let nonce_hex = hex_encode(nonce.as_slice());
    let ct_hex = hex_encode(ciphertext.as_slice());
    proof {
        lemma_hex_text_roundtrip(salt@);
        lemma_hex_text_roundtrip(nonce@);
        lemma_hex_text_roundtrip(ciphertext@);
    }
    let ks = Keystore { public_key, address, salt: salt_hex, nonce: nonce_hex, ciphertext: ct_hex };
    assert(ks.seals(password.spec_bytes(), keypair.seed_view())) by {
        assert(aes256gcm_seal(argon2id_key(password.spec_bytes(), salt@), nonce@, seed@) == ciphertext@);
    }
    Ok((ks, keypair))
}

/// The UTF-8 bytes of hex text decode back to the bytes encoded.
pub proof fn lemma_hex_text_roundtrip(d: Seq<u8>)
    ensures
        hex_decode_bytes(utf8_of(hex_encode_chars(d))) == Some(d),
{
    lemma_hex_roundtrip(d);
    lemma_ascii_chars_utf8(hex_encode_bytes(d));
}

/// Decrypts the key pair with `password`.
pub fn unlock(ks: &Keystore, password: &str) -> (r: Result<KeyPair, KeystoreError>)
    requires
        ks.outcome(password.spec_bytes()) != UnlockOutcome::BadNonceLength,
    ensures
        match ks.outcome(password.spec_bytes()) {
            UnlockOutcome::Seed(s) => r matches Ok(kp) && kp.seed_view() == s,
            UnlockOutcome::BadHex => r matches Err(KeystoreError::InvalidHex(_)),
            UnlockOutcome::KeyDerivationFailed => r matches Err(KeystoreError::KeyDerivation(_)),
            UnlockOutcome::WrongPassword => r matches Err(KeystoreError::Decryption),
            UnlockOutcome::BadSeedLength => r matches Err(KeystoreError::InvalidSeedLength),
            UnlockOutcome::BadNonceLength => false,
        },
{
    let salt = match hex_decode(ks.salt.as_str().as_bytes()) {
        Ok(s) => s,
        Err(e) => return Err(KeystoreError::InvalidHex(e)),
    };
    let key = match derive_key(password, salt.as_slice()) {
        Ok(k) => k,
        Err(e) => return Err(KeystoreError::KeyDerivation(e)),
    };
    let nonce_bytes = match hex_decode(ks.nonce.as_str().as_bytes()) {
        Ok(n) => n,
        Err(e) => return Err(KeystoreError::InvalidHex(e)),
    };
    let ciphertext = match hex_decode(ks.ciphertext.as_str().as_bytes()) {
        Ok(c) => c,
        Err(e) => return Err(KeystoreError::InvalidHex(e)),
    };
    let plaintext = match aes_decrypt(&key, nonce_bytes.as_slice(), ciphertext.as_slice()) {
        Some(p) => p,
        None => return Err(KeystoreError::Decryption),
    };
    if plaintext.len() != 32 {
        return Err(KeystoreError::InvalidSeedLength);
    }
    let mut seed = [0u8; 32];
    let mut i: usize = 0;
    while i < 32
        invariant
            0 <= i <= 32,
            plaintext@.len() == 32,
            seed@.len() == 32,
            forall|j: int| 0 <= j < i ==> seed@[j] == plaintext@[j],
        decreases 32 - i,
    {
        seed[i] = plaintext[i];
        i = i + 1;
    }
    assert(seed@ =~= plaintext@);
    Ok(KeyPair::from_seed(seed))
}

/// Unlocks like `unlock`, after checking that decryption would get a
/// 12-byte nonce: `None`, with nothing attempted past the checks, when the
/// stored nonce decodes to another length at the point where AES-GCM
/// would take it.
pub fn try_unlock(ks: &Keystore, password: &str) -> (r: Option<Result<KeyPair, KeystoreError>>)
    ensures
        r is None <==> ks.outcome(password.spec_bytes()) == UnlockOutcome::BadNonceLength,
        r matches Some(res) ==> match ks.outcome(password.spec_bytes()) {
            UnlockOutcome::Seed(s) => res matches Ok(kp) && kp.seed_view() == s,
            UnlockOutcome::BadHex => res matches Err(KeystoreError::InvalidHex(_)),
            UnlockOutcome::KeyDerivationFailed => res matches Err(KeystoreError::KeyDerivation(_)),
            UnlockOutcome::WrongPassword => res matches Err(KeystoreError::Decryption),
            UnlockOutcome::BadSeedLength => res matches Err(KeystoreError::InvalidSeedLength),
            UnlockOutcome::BadNonceLength => false,
        },
{
    let reaches_bad_nonce = match hex_decode(ks.salt.as_str().as_bytes()) {
        Err(_) => false,
        Ok(salt) => {
            let pw_len = password.as_bytes().len();
            let salt_len = salt.len();
            if !(pw_len <= 0xffff_ffff && 8 <= salt_len && salt_len <= 0xffff_ffff) {
                false
            } else {
                match hex_decode(ks.nonce.as_str().as_bytes()) {
                    Err(_) => false,
                    Ok(nonce) => match hex_decode(ks.ciphertext.as_str().as_bytes()) {
                        Err(_) => false,
                        Ok(_) => nonce.len() != 12,
                    },
                }
            }
        },
    };
    if reaches_bad_nonce {
        None
    } else {
        Some(unlock(ks, password))
    }
}

} // verus!
