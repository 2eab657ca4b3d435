//! Transfers between accounts, their signed bytes, signatures and hashes.

use vstd::prelude::*;
use vstd::string::StringSliceAdditionalSpecFns;
use vstd::bytes::u64_to_le_bytes;

use crate::codec::{decimal_bytes, push_decimal, push_hex, push_str};
use crate::hexcodec::hex_encode_bytes;
use crate::pow::le64;
use crate::primitives::{
    append_bytes, blake3_digest, ed25519_public_key, ed25519_signature, ed25519_verifies, Address,
    Hash256, KeyPair, PublicKey, Signature,
};

verus! {

/// A transfer of `amount` (plus `fee`) from the account of key `from` to
/// address `to`.
#[derive(Clone, Copy, Debug, PartialEq, Eq)]
pub struct Transaction {
    pub from: PublicKey,
    pub to: Address,
    pub amount: u64,
    pub fee: u64,
    /// Sender account's nonce, must be strictly increasing (replay
    /// protection); unrelated to the block's PoW nonce.
    pub account_nonce: u64,
    pub signature: Option<Signature>,
}

/// Signed bytes: key, recipient, then amount, fee and nonce little-endian.
pub open spec fn signing_bytes_spec(tx: Transaction) -> Seq<u8> {
    tx.from.0@ + tx.to.0@ + le64(tx.amount) + le64(tx.fee) + le64(tx.account_nonce)
}

/// A transaction's signature is present and verifies under its sender key.
pub open spec fn signature_valid_spec(tx: Transaction) -> bool {
    match tx.signature {
        None => false,
        Some(sig) => ed25519_verifies(tx.from.0@, signing_bytes_spec(tx), sig.0@),
    }
}

/// The JSON text of a transaction as its hash covers it: fields in order,
/// keys and addresses as lowercase hex, numbers in decimal, no spaces.
pub open spec fn tx_json(tx: Transaction) -> Seq<u8> {
    "{\"from\":\"".spec_bytes() + hex_encode_bytes(tx.from.0@)
        + "\",\"to\":\"ondr".spec_bytes() + hex_encode_bytes(tx.to.0@)
        + "\",\"amount\":".spec_bytes() + decimal_bytes(tx.amount as nat)
        + ",\"fee\":".spec_bytes() + decimal_bytes(tx.fee as nat)
        + ",\"account_nonce\":".spec_bytes() + decimal_bytes(tx.account_nonce as nat)
        + ",\"signature\":".spec_bytes()
        + (match tx.signature {
            None => "null".spec_bytes(),
            Some(sig) => "\"".spec_bytes() + hex_encode_bytes(sig.0@) + "\"".spec_bytes(),
        })
        + "}".spec_bytes()
}

/// Transaction hash: BLAKE3 of its JSON text.
pub open spec fn tx_hash_spec(tx: Transaction) -> Seq<u8> {
    blake3_digest(tx_json(tx))
}

impl Transaction {
    pub fn new_unsigned(from: PublicKey, to: Address, amount: u64, fee: u64, account_nonce: u64) -> (tx: Transaction)
        ensures
            tx == (Transaction { from, to, amount, fee, account_nonce, signature: None }),
    {
        Transaction { from, to, amount, fee, account_nonce, signature: None }
    }

    /// Signed bytes: everything except the signature itself.
    pub fn signing_bytes(&self) -> (b: Vec<u8>)
        ensures
            b@ == signing_bytes_spec(*self),
    {
        let mut buf: Vec<u8> = Vec::with_capacity(96);
        append_bytes(&mut buf, &self.from.0);
        append_bytes(&mut buf, &self.to.0);
        let a = u64_to_le_bytes(self.amount);
        append_bytes(&mut buf, a.as_slice());
        let f = u64_to_le_bytes(self.fee);
        append_bytes(&mut buf, f.as_slice());
        let n = u64_to_le_bytes(self.account_nonce);
        append_bytes(&mut buf, n.as_slice());
        buf
    }

    /// Signs with `keypair`, whose public key must be the sender's. The
    /// resulting transaction's signature is valid.
    pub fn sign(&mut self, keypair: &KeyPair)
        requires
            ed25519_public_key(keypair.seed_view()) == old(self).from.0@,
        ensures
            final(self).from == old(self).from,
            final(self).to == old(self).to,
            final(self).amount == old(self).amount,
            final(self).fee == old(self).fee,
            final(self).account_nonce == old(self).account_nonce,
            final(self).signature matches Some(sig)
                && sig.0@ == ed25519_signature(keypair.seed_view(), signing_bytes_spec(*old(self))),
            signature_valid_spec(*final(self)),
    {
        let msg = self.signing_bytes();
        let sig = keypair.sign(msg.as_slice());
        self.signature = Some(sig);
    }

    /// Signs with `keypair` if its public key is the sender's; otherwise
    /// leaves the transaction unchanged and returns false.
    pub fn sign_checked(&mut self, keypair: &KeyPair) -> (signed: bool)
        ensures
            signed == (ed25519_public_key(keypair.seed_view()) == old(self).from.0@),
            !signed ==> *final(self) == *old(self),
            signed ==> final(self).from == old(self).from
                && final(self).to == old(self).to
                && final(self).amount == old(self).amount
                && final(self).fee == old(self).fee
                && final(self).account_nonce == old(self).account_nonce
                && (final(self).signature matches Some(sig)
                    && sig.0@ == ed25519_signature(keypair.seed_view(), signing_bytes_spec(*old(self))))
                && signature_valid_spec(*final(self)),
    {
        let pk = keypair.public();
        if crate::primitives::bytes_eq(&pk.0, &self.from.0) {
            self.sign(keypair);
            true
        } else {
            false
        }
    }

    pub fn is_signature_valid(&self) -> (ok: bool)
        ensures
            ok == signature_valid_spec(*self),
    {
        match &self.signature {
            Some(sig) => {
                let msg = self.signing_bytes();
                self.from.verify(msg.as_slice(), sig)
            },
            None => false,
        }
    }

    /// The JSON text the hash is taken over.
    pub fn json_bytes(&self) -> (b: Vec<u8>)
        ensures
            b@ == tx_json(*self),
    {
        let mut v: Vec<u8> = Vec::new();
        push_str(&mut v, "{\"from\":\"");
        push_hex(&mut v, &self.from.0);
        push_str(&mut v, "\",\"to\":\"ondr");
        push_hex(&mut v, &self.to.0);
        push_str(&mut v, "\",\"amount\":");
        push_decimal(&mut v, self.amount);
        push_str(&mut v, ",\"fee\":");
        push_decimal(&mut v, self.fee);
        push_str(&mut v, ",\"account_nonce\":");
        push_decimal(&mut v, self.account_nonce);
        push_str(&mut v, ",\"signature\":");
        match &self.signature {
            None => {
                push_str(&mut v, "null");
            },
            Some(sig) => {
                push_str(&mut v, "\"");
                push_hex(&mut v, &sig.0);
                push_str(&mut v, "\"");
            },
        }
        push_str(&mut v, "}");
        assert(v@ =~= tx_json(*self));
        v
    }

    /// Transaction hash: BLAKE3 of its JSON serialization.
    pub fn hash(&self) -> (h: Hash256)
        ensures
            h.0@ == tx_hash_spec(*self),
    {
        let bytes = self.json_bytes();
        Hash256::hash(bytes.as_slice())
    }
}

} // verus!
