//! Values exchanged between the node's RPC API, the wallet and the miner.

use vstd::prelude::*;

use crate::block::Block;
use crate::difficulty::{be_value, target_for_difficulty, target_value};
use crate::pow::{epoch_of, epoch_of_spec};
use crate::primitives::{Address, Hash256};
use crate::state::Account;

verus! {

#[derive(Clone, Debug)]
pub struct ChainInfo {
    pub network: String,
    pub height: u64,
    pub tip_hash: Hash256,
    pub next_difficulty: u64,
    pub peer_count: usize,
}

#[derive(Clone, Copy, Debug)]
pub struct AccountInfo {
    pub address: Address,
    pub balance: u64,
    pub nonce: u64,
}

impl AccountInfo {
    pub fn new(address: Address, account: Account) -> (info: AccountInfo)
        ensures
            info.address == address,
            info.balance == account.balance,
            info.nonce == account.nonce,
    {
        AccountInfo { address, balance: account.balance, nonce: account.nonce }
    }
}

/// A block ready to be mined (nonce 0, transactions included) and what a
/// miner needs to rebuild the epoch's dataset locally.
#[derive(Clone, Debug)]
pub struct WorkTemplate {
    pub block: Block,
    pub target: [u8; 32],
    pub epoch: u64,
    /// Hash of the epoch boundary block, `None` only for epoch 0.
    pub epoch_boundary_hash: Option<Hash256>,
}

impl WorkTemplate {
    /// The template for `block`: its epoch and the target of its difficulty.
    pub fn new(block: Block, epoch_boundary_hash: Option<Hash256>) -> (w: WorkTemplate)
        ensures
            w.block == block,
            w.epoch == epoch_of_spec(block.header.height),
            be_value(w.target@) == target_value(block.header.difficulty),
            w.epoch_boundary_hash == epoch_boundary_hash,
    {
        let epoch = epoch_of(block.header.height);
        let target = target_for_difficulty(block.header.difficulty);
        WorkTemplate { block, target, epoch, epoch_boundary_hash }
    }
}

#[derive(Clone, Copy, Debug)]
pub struct SubmitBlockResponse {
    pub block_hash: Hash256,
    pub height: u64,
}

#[derive(Clone, Copy, Debug)]
pub struct SubmitTxResponse {
    pub tx_hash: Hash256,
}

#[derive(Clone, Debug)]
pub struct ErrorResponse {
    pub error: String,
}

} // verus!
