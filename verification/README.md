# Ondris

A proof-of-work blockchain (testnet): account-model state, Ed25519
transactions, the memory-hard OndrisHash proof of work, and difficulty
retargeting.

## Layout

- `src/` — the library, verified with Verus. Each public function states in
  its contract what it returns or changes; the laws of the library (target
  monotonicity, retarget clamping, replay protection, locality of a block's
  state change, address and hex round trips, the keystore round trip, frame
  reassembly) are public proof functions or `ensures` clauses.
  - `difficulty` — targets as 256-bit big-endian numbers, retargeting.
  - `pow` — epoch seeds, the dataset, OndrisHash, the target check.
  - `primitives`, `hexcodec` — hashes, keys, signatures, addresses.
  - `transaction`, `header`, `block` — signing bytes, hashes, Merkle roots.
  - `state`, `chain`, `genesis` — accounts and the consensus rules.
  - `network` — message and Noise frames, chunking, the read buffer, the
    node identity file.
  - `miner` — the nonce search; `keystore` — the encrypted wallet file.
  - `rpc_types` — values exchanged with the node's HTTP API.
- `tests/` — tests of the library.
- `app/` — the `ondris` command: node (sled storage, TCP gossip, Noise
  transport, axum RPC), CPU miner and wallet. It does the I/O and calls the
  library for every rule.

Calls into BLAKE3, Ed25519, Xoshiro256\*\*, hex, Argon2 and AES-GCM are
made through small trusted wrappers whose contracts name the results of
those functions.
