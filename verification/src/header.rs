//! Block headers and their proof-of-work identity.

use vstd::prelude::*;
use vstd::bytes::u64_to_le_bytes;

use crate::pow::{le64, ondris_hash, ondris_hash_spec, Dataset, MIX_ROUNDS, SCRATCHPAD_SIZE};
use crate::primitives::{append_bytes, Address, Hash256};

verus! {

#[derive(Clone, Copy, Debug, PartialEq, Eq)]
pub struct BlockHeader {
    pub height: u64,
    pub prev_hash: Hash256,
    pub tx_root: Hash256,
    pub timestamp: u64,
    pub difficulty: u64,
    pub miner: Address,
    pub nonce: u64,
}

/// The header bytes hashed by the proof of work, without the nonce.
pub open spec fn pow_bytes_spec(h: BlockHeader) -> Seq<u8> {
    le64(h.height) + h.prev_hash.0@ + h.tx_root.0@ + le64(h.timestamp) + le64(h.difficulty) + h.miner.0@
}

/// A header's identity: OndrisHash of its bytes and nonce.
pub open spec fn header_id_spec(h: BlockHeader, ds: Seq<u8>) -> Seq<u8> {
    ondris_hash_spec(pow_bytes_spec(h), h.nonce, ds, SCRATCHPAD_SIZE as nat, MIX_ROUNDS as nat)
}

impl BlockHeader {
    /// Canonical serialization of the header WITHOUT the nonce: height,
    /// previous hash, transaction root, timestamp, difficulty, miner.
    pub fn bytes_for_pow(&self) -> (b: Vec<u8>)
        ensures
            b@ == pow_bytes_spec(*self),
    {
        let mut buf: Vec<u8> = Vec::with_capacity(96);
        let h = u64_to_le_bytes(self.height);
        append_bytes(&mut buf, h.as_slice());
        append_bytes(&mut buf, &self.prev_hash.0);
        append_bytes(&mut buf, &self.tx_root.0);
        let t = u64_to_le_bytes(self.timestamp);
        append_bytes(&mut buf, t.as_slice());
        let d = u64_to_le_bytes(self.difficulty);
        append_bytes(&mut buf, d.as_slice());
        append_bytes(&mut buf, &self.miner.0);
        buf
    }

    /// This header's PoW hash, which is also the block identifier.
    pub fn id(&self, dataset: &Dataset) -> (h: Hash256)
        requires
            dataset.wf(),
        ensures
            h.0@ == header_id_spec(*self, dataset@),
    {
        ondris_hash(self.bytes_for_pow().as_slice(), self.nonce, dataset)
    }
}

} // verus!
