//! Ondris: a proof-of-work blockchain library. Hashes, addresses and keys,
//! the OndrisHash proof-of-work, difficulty retargeting, blocks and
//! transactions, and the consensus rules that decide which block extends
//! the chain, each with a machine-checked contract.

pub mod difficulty;
pub mod hexcodec;
pub mod primitives;
pub mod primitives_eq;
pub mod pow;
pub mod codec;
pub mod transaction;
pub mod header;
pub mod block;
pub mod state;
pub mod genesis;
pub mod chain;
pub mod network;
pub mod rpc_types;
pub mod miner;
pub mod keystore;
