//! Consensus rules: what a new block must satisfy to extend the chain, and
//! how it changes account state. Storage stays with the caller, which hands
//! in the chain tip, the epoch dataset, the expected difficulty and the
//! accounts a block touches.

use vstd::prelude::*;

use crate::block::{hash_views, merkle_root, merkle_root_spec, Block};
use crate::difficulty::{be_value, next_difficulty, next_difficulty_spec, target_for_difficulty, target_timespan, target_value};
use crate::genesis::{block_reward_spec, GenesisConfig};
use crate::header::{header_id_spec, BlockHeader};
use crate::pow::{epoch_seed, epoch_seed_spec, meets_target, Dataset, EPOCH_LENGTH};
use crate::primitives::{address_of_key, Address, Hash256};
use crate::state::{account_in, credit_spec, saturating_add_u64, Account, Accounts};
use crate::transaction::{signature_valid_spec, tx_hash_spec, Transaction};

verus! {

/// Why a block (or a request for work) is refused.
#[derive(Clone, Copy, Debug, PartialEq, Eq, Structural)]
pub enum ChainError {
    /// The chain has no tip yet.
    NotInitialized,
    /// The block's height is not the tip's plus one.
    UnexpectedHeight { got: u64, expected: u64 },
    /// `prev_hash` does not match the current tip.
    PrevHashMismatch,
    /// `tx_root` is not the Merkle root of the block's transactions.
    InvalidTxRoot,
    /// The epoch boundary block needed for the dataset seed is missing.
    EpochBoundaryMissing { height: u64 },
    /// The PoW does not meet the difficulty target.
    InsufficientWork,
    /// A block needed for retargeting is missing.
    BlockMissing { height: u64 },
    /// The block opening the retarget window is missing.
    WindowStartMissing,
    /// The block's difficulty is not the one expected at its height.
    WrongDifficulty,
    /// A transaction's signature is missing or invalid.
    InvalidSignature,
    /// A transaction's nonce is not its sender's next nonce (replay?).
    InvalidNonce,
    /// A sender cannot cover amount plus fee.
    InsufficientBalance,
}

/// The transaction hashes of a block, as bytes.
pub open spec fn tx_hashes_spec(txs: Seq<Transaction>) -> Seq<Seq<u8>> {
    Seq::new(txs.len(), |i: int| tx_hash_spec(txs[i]))
}

/// The outcome of checking a block against the tip: it must sit right on
/// top of it and carry the right transaction root.
pub open spec fn link_result(tip: Option<(u64, Hash256)>, block: Block) -> Result<(), ChainError> {
    match tip {
        None => Err(ChainError::NotInitialized),
        Some((height, hash)) => {
            if block.header.height != height + 1 {
                Err(ChainError::UnexpectedHeight { got: block.header.height, expected: (height + 1) as u64 })
            } else if block.header.prev_hash.0@ != hash.0@ {
                Err(ChainError::PrevHashMismatch)
            } else if block.header.tx_root.0@ != merkle_root_spec(tx_hashes_spec(block.transactions@)) {
                Err(ChainError::InvalidTxRoot)
            } else {
                Ok(())
            }
        },
    }
}

/// Checks that `block` extends the tip: height one above, previous hash the
/// tip's, transaction root correct.
pub fn check_block_link(tip: Option<(u64, Hash256)>, block: &Block) -> (r: Result<(), ChainError>)
    requires
        tip matches Some((h, _)) ==> h < u64::MAX,
    ensures
        r == link_result(tip, *block),
        r is Ok <==> (tip matches Some((h, hash))
            && block.header.height == h + 1
            && block.header.prev_hash.0@ == hash.0@
            && block.header.tx_root.0@ == merkle_root_spec(tx_hashes_spec(block.transactions@))),
{
    let (tip_height, tip_hash) = match tip {
        None => return Err(ChainError::NotInitialized),
        Some(t) => t,
    };
    if block.header.height != tip_height + 1 {
        return Err(ChainError::UnexpectedHeight { got: block.header.height, expected: tip_height + 1 });
    }
    if !(block.header.prev_hash == tip_hash) {
        return Err(ChainError::PrevHashMismatch);
    }
    let expected_tx_root = block.compute_tx_root();
    assert(tx_hashes_spec(block.transactions@) =~= Seq::new(block.transactions@.len(), |i: int| tx_hash_spec(block.transactions@[i])));
    if !(block.header.tx_root == expected_tx_root) {
        return Err(ChainError::InvalidTxRoot);
    }
    Ok(())
}

/// Checks the proof of work; on success returns the block hash.
pub fn check_block_work(block: &Block, dataset: &Dataset) -> (r: Result<Hash256, ChainError>)
    requires
        dataset.wf(),
    ensures
        r is Ok <==> be_value(header_id_spec(block.header, dataset@)) <= target_value(block.header.difficulty),
        r matches Ok(h) ==> h.0@ == header_id_spec(block.header, dataset@),
        r matches Err(e) ==> e == ChainError::InsufficientWork,
{
    let block_hash = block.header.id(dataset);
    let target = target_for_difficulty(block.header.difficulty);
    if meets_target(&block_hash, &target) {
        Ok(block_hash)
    } else {
        Err(ChainError::InsufficientWork)
    }
}

/// Checks the block's difficulty against the one expected at its height.
pub fn check_block_difficulty(block: &Block, expected: u64) -> (r: Result<(), ChainError>)
    ensures
        r is Ok <==> block.header.difficulty == expected,
        r matches Err(e) ==> e == ChainError::WrongDifficulty,
{
    if block.header.difficulty == expected {
        Ok(())
    } else {
        Err(ChainError::WrongDifficulty)
    }
}

/// Address bytes of a transaction's sender.
pub open spec fn sender_of(tx: Transaction) -> Seq<u8> {
    address_of_key(tx.from.0@)
}

/// Why a transaction cannot enter a block against state `m`, if it cannot:
/// signature, then nonce, then balance.
pub open spec fn tx_error(m: Map<Seq<u8>, Account>, tx: Transaction) -> Option<ChainError> {
    let acc = account_in(m, sender_of(tx));
    if !signature_valid_spec(tx) {
        Some(ChainError::InvalidSignature)
    } else if tx.account_nonce != acc.nonce {
        Some(ChainError::InvalidNonce)
    } else if acc.balance < saturating_add_u64(tx.amount, tx.fee) {
        Some(ChainError::InsufficientBalance)
    } else {
        None
    }
}

/// One transaction can be applied without arithmetic overflow: amount plus
/// fee fits, the sender covers it, and its nonce can go up.
pub open spec fn tx_step_ok(m: Map<Seq<u8>, Account>, tx: Transaction) -> bool {
    let acc = account_in(m, sender_of(tx));
    &&& tx.amount + tx.fee <= u64::MAX
    &&& acc.balance >= tx.amount + tx.fee
    &&& acc.nonce < u64::MAX
}

/// The state after one transaction: the sender pays amount plus fee and its
/// nonce goes up by one; then the recipient is credited the amount
/// (saturating). The fee leaves circulation.
pub open spec fn apply_tx_spec(m: Map<Seq<u8>, Account>, tx: Transaction) -> Map<Seq<u8>, Account> {
    let s = sender_of(tx);
    let acc = account_in(m, s);
    let m1 = m.insert(s, Account { balance: (acc.balance - (tx.amount + tx.fee)) as u64, nonce: (acc.nonce + 1) as u64 });
    m1.insert(tx.to.0@, credit_spec(account_in(m1, tx.to.0@), tx.amount))
}

/// The state after applying transactions in order.
pub open spec fn apply_txs_spec(m: Map<Seq<u8>, Account>, txs: Seq<Transaction>) -> Map<Seq<u8>, Account>
    decreases txs.len(),
{
    if txs.len() == 0 {
        m
    } else {
        apply_tx_spec(apply_txs_spec(m, txs.drop_last()), txs.last())
    }
}

/// Applying the transactions in order never overflows.
pub open spec fn apply_ok(m: Map<Seq<u8>, Account>, txs: Seq<Transaction>) -> bool
    decreases txs.len(),
{
    if txs.len() == 0 {
        true
    } else {
        apply_ok(m, txs.drop_last()) && tx_step_ok(apply_txs_spec(m, txs.drop_last()), txs.last())
    }
}

/// The state after a block: its transactions in order, then the miner
/// credited the block reward (saturating).
pub open spec fn apply_block_spec(m: Map<Seq<u8>, Account>, txs: Seq<Transaction>, miner: Seq<u8>, reward: u64) -> Map<Seq<u8>, Account> {
    let m2 = apply_txs_spec(m, txs);
    m2.insert(miner, credit_spec(account_in(m2, miner), reward))
}

fn apply_tx(accounts: &mut Accounts, tx: &Transaction)
    requires
        tx_step_ok(old(accounts)@, *tx),
    ensures
        final(accounts)@ == apply_tx_spec(old(accounts)@, *tx),
{
    let sender_addr = tx.from.to_address();
    let mut sender_acc = accounts.get(&sender_addr);
    sender_acc.balance = sender_acc.balance - (tx.amount + tx.fee);
    sender_acc.nonce = sender_acc.nonce + 1;
    accounts.set(&sender_addr, sender_acc);
    accounts.credit(&tx.to, tx.amount);
}

/// Whether an earlier transaction of the block has the same sender and the
/// same account nonce as transaction `k`.
pub open spec fn repeats_earlier(txs: Seq<Transaction>, k: int) -> bool {
    exists|j: int| 0 <= j < k && sender_of(#[trigger] txs[j]) == sender_of(txs[k]) && txs[j].account_nonce == txs[k].account_nonce
}

/// Why transaction `k` cannot enter the block, checked against the state
/// `m` before the block: signature; then its nonce, which must be the
/// sender's next one and not repeat an earlier sender/nonce pair of the
/// block; then the sender's balance.
pub open spec fn block_tx_error(m: Map<Seq<u8>, Account>, txs: Seq<Transaction>, k: int) -> Option<ChainError> {
    let tx = txs[k];
    let acc = account_in(m, sender_of(tx));
    if !signature_valid_spec(tx) {
        Some(ChainError::InvalidSignature)
    } else if tx.account_nonce != acc.nonce || repeats_earlier(txs, k) {
        Some(ChainError::InvalidNonce)
    } else if acc.balance < saturating_add_u64(tx.amount, tx.fee) {
        Some(ChainError::InsufficientBalance)
    } else {
        None
    }
}

/// The first error among transactions `i..`, in order.
pub open spec fn first_tx_error_from(m: Map<Seq<u8>, Account>, txs: Seq<Transaction>, i: int) -> Option<ChainError>
    decreases txs.len() - i,
{
    if 0 <= i < txs.len() {
        match block_tx_error(m, txs, i) {
            Some(e) => Some(e),
            None => first_tx_error_from(m, txs, i + 1),
        }
    } else {
        None
    }
}

/// Every transaction can be applied to the state before the block without
/// overflow (amount plus fee fits, the sender covers it, its nonce can go up).
pub open spec fn block_txs_fit(m: Map<Seq<u8>, Account>, txs: Seq<Transaction>) -> bool {
    forall|k: int| 0 <= k < txs.len() ==> #[trigger] tx_step_ok(m, txs[k])
}

/// The block's transactions pass every check and can be applied.
pub open spec fn block_txs_ok(m: Map<Seq<u8>, Account>, txs: Seq<Transaction>) -> bool {
    first_tx_error_from(m, txs, 0) is None && block_txs_fit(m, txs)
}

/// No error from `i` on means every transaction from `i` on passes.
proof fn lemma_first_error_none(m: Map<Seq<u8>, Account>, txs: Seq<Transaction>, i: int)
    requires
        0 <= i <= txs.len(),
    ensures
        first_tx_error_from(m, txs, i) is None <==> forall|k: int| i <= k < txs.len() ==> (#[trigger] block_tx_error(m, txs, k)) is None,
    decreases txs.len() - i,
{
    if i < txs.len() {
        lemma_first_error_none(m, txs, i + 1);
    }
}

/// Checks the block's transactions in order, each against the accounts as
/// they were before the block; a sender/nonce pair may appear only once.
/// The first failing transaction gives the error. `None` when all pass but
/// applying one would overflow.
pub fn check_block_transactions(block: &Block, accounts: &Accounts) -> (r: Option<Result<(), ChainError>>)
    ensures
        match first_tx_error_from(accounts@, block.transactions@, 0) {
            Some(e) => r == Some(Err::<(), ChainError>(e)),
            None => if block_txs_fit(accounts@, block.transactions@) {
                r == Some(Ok::<(), ChainError>(()))
            } else {
                r is None
            },
        },
        r == Some(Ok::<(), ChainError>(())) ==> apply_ok(accounts@, block.transactions@),
{
    let ghost m = accounts@;
    let ghost txs = block.transactions@;
    let mut senders: Vec<Address> = Vec::new();
    let mut overflow = false;
    let mut i: usize = 0;
    while i < block.transactions.len()
        invariant
            0 <= i <= txs.len(),
            txs == block.transactions@,
            m == accounts@,
            first_tx_error_from(m, txs, 0) == first_tx_error_from(m, txs, i as int),
            forall|k: int| 0 <= k < i ==> (#[trigger] block_tx_error(m, txs, k)) is None,
            senders@.len() == i,
            forall|j: int| 0 <= j < i ==> (#[trigger] senders@[j]).0@ == sender_of(txs[j]),
            overflow == !(forall|k: int| 0 <= k < i ==> #[trigger] tx_step_ok(m, txs[k])),
        decreases txs.len() - i,
    {
        let tx = block.transactions[i];
        if !tx.is_signature_valid() {
            return Some(Err(ChainError::InvalidSignature));
        }
        let sender_addr = tx.from.to_address();
        let account = accounts.get(&sender_addr);
        let mut repeated = false;
        let mut j: usize = 0;
        while j < i
            invariant
                0 <= j <= i,
                i < txs.len(),
                txs == block.transactions@,
                tx == txs[i as int],
                sender_addr.0@ == sender_of(tx),
                senders@.len() == i,
                forall|jj: int| 0 <= jj < i ==> (#[trigger] senders@[jj]).0@ == sender_of(txs[jj]),
                repeated == exists|jj: int| 0 <= jj < j && sender_of(#[trigger] txs[jj]) == sender_of(tx) && txs[jj].account_nonce == tx.account_nonce,
            decreases i - j,
        {
            let same = crate::primitives::bytes_eq(&senders[j].0, &sender_addr.0);
            if same && block.transactions[j].account_nonce == tx.account_nonce {
                repeated = true;
            }
            proof {
                assert(senders@[j as int].0@ == sender_of(txs[j as int]));
            }
            j = j + 1;
        }
        assert(repeated == repeats_earlier(txs, i as int));
        if tx.account_nonce != account.nonce || repeated {
            return Some(Err(ChainError::InvalidNonce));
        }
        if account.balance < tx.amount.saturating_add(tx.fee) {
            return Some(Err(ChainError::InsufficientBalance));
        }
        assert(block_tx_error(m, txs, i as int) is None);
        let step_bad = tx.amount > u64::MAX - tx.fee || account.nonce == u64::MAX;
        assert(step_bad == !tx_step_ok(m, txs[i as int]));
        overflow = overflow || step_bad;
        senders.push(sender_addr);
        i = i + 1;
    }
    if overflow {
        None
    } else {
        proof {
            lemma_first_error_none(m, txs, 0);
            lemma_checked_block_runs_valid(m, txs);
        }
        Some(Ok(()))
    }
}

/// A block whose transactions pass the checks has one transaction per
/// sender at most, so they also run validly in order, and the whole block
/// applies without overflow.
proof fn lemma_checked_block_runs_valid(m: Map<Seq<u8>, Account>, txs: Seq<Transaction>)
    requires
        forall|k: int| 0 <= k < txs.len() ==> (#[trigger] block_tx_error(m, txs, k)) is None,
        block_txs_fit(m, txs),
    ensures
        run_txs(m, txs) is Valid,
        apply_ok(m, txs),
{
    assert forall|k: int| 0 <= k < txs.len() implies (#[trigger] tx_error(m, txs[k])) is None && tx_step_ok(m, txs[k]) by {
        assert(block_tx_error(m, txs, k) is None);
    }
    assert forall|j: int, k: int| 0 <= j < k < txs.len() implies sender_of(#[trigger] txs[j]) != sender_of(#[trigger] txs[k]) by {
        assert(block_tx_error(m, txs, j) is None);
        assert(block_tx_error(m, txs, k) is None);
        if sender_of(txs[j]) == sender_of(txs[k]) {
            assert(repeats_earlier(txs, k));
        }
    }
    lemma_distinct_senders_run_valid(m, txs);
    if txs.len() > 0 {
        lemma_valid_run_checks_each(m, txs, 0);
    }
}

/// Transactions with pairwise distinct senders, each passing its checks
/// against the state before the block and applicable without overflow,
/// pass the block's checks.
pub proof fn lemma_distinct_senders_pass_checks(m: Map<Seq<u8>, Account>, txs: Seq<Transaction>)
    requires
        forall|k: int| 0 <= k < txs.len() ==> (#[trigger] tx_error(m, txs[k])) is None && tx_step_ok(m, txs[k]),
        forall|j: int, k: int| 0 <= j < k < txs.len() ==> sender_of(#[trigger] txs[j]) != sender_of(#[trigger] txs[k]),
    ensures
        block_txs_ok(m, txs),
{
    assert forall|k: int| 0 <= k < txs.len() implies (#[trigger] block_tx_error(m, txs, k)) is None by {
        assert(tx_error(m, txs[k]) is None);
        if repeats_earlier(txs, k) {
            let j = choose|j: int| 0 <= j < k && sender_of(#[trigger] txs[j]) == sender_of(txs[k]) && txs[j].account_nonce == txs[k].account_nonce;
            assert(sender_of(txs[j]) != sender_of(txs[k]));
        }
    }
    lemma_first_error_none(m, txs, 0);
    assert forall|k: int| 0 <= k < txs.len() implies #[trigger] tx_step_ok(m, txs[k]) by {
        assert(tx_error(m, txs[k]) is None && tx_step_ok(m, txs[k]));
    }
}

/// Applying the transactions in order, each checked against the state the
/// ones before it leave: `Overflow` where one passes its checks but
/// applying it would overflow. (The block's own checks use the state before
/// the block; on blocks that pass them this run is valid.)
enum TxRun {
    Valid,
    Invalid(ChainError),
    Overflow,
}

spec fn run_txs(m: Map<Seq<u8>, Account>, txs: Seq<Transaction>) -> TxRun
    decreases txs.len(),
{
    if txs.len() == 0 {
        TxRun::Valid
    } else {
        match tx_error(m, txs[0]) {
            Some(e) => TxRun::Invalid(e),
            None => if !tx_step_ok(m, txs[0]) {
                TxRun::Overflow
            } else {
                run_txs(apply_tx_spec(m, txs[0]), txs.drop_first())
            },
        }
    }
}

/// A valid run passes through every prefix: the transactions before `i`
/// apply without overflow, and the rest run validly from the state they
/// leave.
proof fn lemma_run_valid_at(m: Map<Seq<u8>, Account>, txs: Seq<Transaction>, i: int)
    requires
        run_txs(m, txs) is Valid,
        0 <= i <= txs.len(),
    ensures
        apply_ok(m, txs.take(i)),
        run_txs(apply_txs_spec(m, txs.take(i)), txs.skip(i)) is Valid,
    decreases i,
{
    if i == 0 {
        assert(txs.take(0) =~= Seq::<Transaction>::empty());
        assert(txs.skip(0) =~= txs);
    } else {
        lemma_run_valid_at(m, txs, i - 1);
        let rest = txs.skip(i - 1);
        assert(rest[0] == txs[i - 1]);
        assert(rest.drop_first() =~= txs.skip(i));
        assert(txs.take(i).drop_last() =~= txs.take(i - 1));
        assert(txs.take(i).last() == txs[i - 1]);
    }
}

/// In a valid run every transaction passes its checks against the state the
/// ones before it leave, and the whole sequence applies without overflow.
proof fn lemma_valid_run_checks_each(m: Map<Seq<u8>, Account>, txs: Seq<Transaction>, k: int)
    requires
        run_txs(m, txs) is Valid,
        0 <= k < txs.len(),
    ensures
        tx_error(apply_txs_spec(m, txs.take(k)), txs[k]) is None,
        tx_step_ok(apply_txs_spec(m, txs.take(k)), txs[k]),
        apply_ok(m, txs),
{
    lemma_run_valid_at(m, txs, k);
    assert(txs.skip(k)[0] == txs[k]);
    lemma_run_valid_at(m, txs, txs.len() as int);
    assert(txs.take(txs.len() as int) =~= txs);
}

/// `apply_ok` holds of every prefix of a sequence it holds of.
pub proof fn lemma_apply_ok_prefix(m: Map<Seq<u8>, Account>, txs: Seq<Transaction>, j: int)
    requires
        0 <= j <= txs.len(),
    ensures
        apply_ok(m, txs) ==> apply_ok(m, txs.take(j)),
    decreases txs.len(),
{
    if j < txs.len() {
        assert(txs.drop_last().take(j) =~= txs.take(j));
        lemma_apply_ok_prefix(m, txs.drop_last(), j);
    } else {
        assert(txs.take(j) =~= txs);
    }
}

/// Applies the block to `accounts`: its transactions in order, then the
/// block reward to the miner.
pub fn apply_block(block: &Block, accounts: &mut Accounts, reward: u64)
    requires
        apply_ok(old(accounts)@, block.transactions@),
    ensures
        final(accounts)@ == apply_block_spec(old(accounts)@, block.transactions@, block.header.miner.0@, reward),
{
    let ghost m = accounts@;
    let ghost txs = block.transactions@;
    let mut i: usize = 0;
    assert(txs.take(0) =~= Seq::<Transaction>::empty());
    while i < block.transactions.len()
        invariant
            0 <= i <= txs.len(),
            txs == block.transactions@,
            apply_ok(m, txs),
            accounts@ == apply_txs_spec(m, txs.take(i as int)),
        decreases txs.len() - i,
    {
        let tx = block.transactions[i];
        proof {
            lemma_apply_ok_prefix(m, txs, i + 1);
            assert(txs.take(i + 1).drop_last() =~= txs.take(i as int));
        }
        apply_tx(accounts, &tx);
        i = i + 1;
    }
    assert(txs.take(txs.len() as int) =~= txs);
    accounts.credit(&block.header.miner, reward);
}

/// Nonces never go down while transactions are applied.
proof fn lemma_nonces_grow(m: Map<Seq<u8>, Account>, txs: Seq<Transaction>, i: int, j: int, a: Seq<u8>)
    requires
        0 <= i <= j <= txs.len(),
        apply_ok(m, txs.take(j)),
    ensures
        account_in(apply_txs_spec(m, txs.take(i)), a).nonce <= account_in(apply_txs_spec(m, txs.take(j)), a).nonce,
    decreases j - i,
{
    if i < j {
        let p = txs.take(j - 1);
        assert(txs.take(j).drop_last() =~= p);
        assert(p.take(j - 1) =~= p);
        lemma_apply_ok_prefix(m, txs.take(j), j - 1);
        assert(txs.take(j).take(j - 1) =~= p);
        lemma_nonces_grow(m, txs, i, j - 1, a);
    }
}

/// Replay protection: once a block whose transactions all passed the checks
/// is applied, each of its transactions carries a nonce below its sender's
/// new nonce, so none can be included again.
pub proof fn lemma_applied_transactions_cannot_replay(
    m: Map<Seq<u8>, Account>,
    txs: Seq<Transaction>,
    miner: Seq<u8>,
    reward: u64,
    k: int,
)
    requires
        0 <= k < txs.len(),
        block_txs_ok(m, txs),
    ensures
        account_in(apply_block_spec(m, txs, miner, reward), sender_of(txs[k])).nonce > txs[k].account_nonce,
{
    lemma_first_error_none(m, txs, 0);
    lemma_checked_block_runs_valid(m, txs);
    lemma_valid_run_checks_each(m, txs, k);
    let s = sender_of(txs[k]);
    assert(txs.take(txs.len() as int) =~= txs);
    lemma_apply_ok_prefix(m, txs, k + 1);
    assert(txs.take(k + 1).drop_last() =~= txs.take(k));
    assert(txs.take(k + 1).last() == txs[k]);
    let before = apply_txs_spec(m, txs.take(k));
    assert(apply_txs_spec(m, txs.take(k + 1)) == apply_tx_spec(before, txs[k]));
    assert(account_in(apply_txs_spec(m, txs.take(k + 1)), s).nonce == account_in(before, s).nonce + 1);
    lemma_nonces_grow(m, txs, k + 1, txs.len() as int, s);
}

/// Transactions leave every account they do not name as sender or
/// recipient as it was.
proof fn lemma_txs_touch_only(m: Map<Seq<u8>, Account>, txs: Seq<Transaction>, a: Seq<u8>)
    requires
        forall|k: int| 0 <= k < txs.len() ==> sender_of(#[trigger] txs[k]) != a && txs[k].to.0@ != a,
    ensures
        account_in(apply_txs_spec(m, txs), a) == account_in(m, a),
    decreases txs.len(),
{
    if txs.len() > 0 {
        let p = txs.drop_last();
        assert forall|k: int| 0 <= k < p.len() implies sender_of(#[trigger] p[k]) != a && p[k].to.0@ != a by {
            assert(p[k] == txs[k]);
        }
        lemma_txs_touch_only(m, p, a);
        assert(sender_of(txs[txs.len() - 1]) != a);
    }
}

/// A block changes only the accounts it touches: every account that is
/// neither a sender, a recipient nor the miner keeps its balance and nonce.
/// So applying a block to just the touched accounts (as `touched_addresses`
/// lists them) gives the same new state as applying it to all of them.
pub proof fn lemma_block_touches_only_its_accounts(
    m: Map<Seq<u8>, Account>,
    block: Block,
    reward: u64,
    a: Seq<u8>,
)
    requires
        !touched_spec(block).contains(a),
    ensures
        account_in(apply_block_spec(m, block.transactions@, block.header.miner.0@, reward), a) == account_in(m, a),
{
    let txs = block.transactions@;
    let t = touched_spec(block);
    assert forall|k: int| 0 <= k < txs.len() implies sender_of(#[trigger] txs[k]) != a && txs[k].to.0@ != a by {
        vstd::arithmetic::div_mod::lemma_fundamental_div_mod_converse(2 * k, 2, k, 0);
        vstd::arithmetic::div_mod::lemma_fundamental_div_mod_converse(2 * k + 1, 2, k, 1);
        assert(t[2 * k] == sender_of(txs[k]));
        assert(t[2 * k + 1] == txs[k].to.0@);
    }
    lemma_txs_touch_only(m, txs, a);
    assert(t[2 * txs.len() as int] == block.header.miner.0@);
}

/// The state change of a block depends only on the touched accounts: two
/// states that agree on them give new states that agree on them.
pub proof fn lemma_block_reads_only_its_accounts(
    m1: Map<Seq<u8>, Account>,
    m2: Map<Seq<u8>, Account>,
    block: Block,
    reward: u64,
)
    requires
        forall|a: Seq<u8>| #[trigger] touched_spec(block).contains(a) ==> account_in(m1, a) == account_in(m2, a),
    ensures
        forall|a: Seq<u8>| #[trigger] touched_spec(block).contains(a) ==>
            account_in(apply_block_spec(m1, block.transactions@, block.header.miner.0@, reward), a)
                == account_in(apply_block_spec(m2, block.transactions@, block.header.miner.0@, reward), a),
{
    let txs = block.transactions@;
    let t = touched_spec(block);
    assert forall|k: int| 0 <= k < txs.len() implies t.contains(sender_of(#[trigger] txs[k])) && t.contains(txs[k].to.0@) by {
        vstd::arithmetic::div_mod::lemma_fundamental_div_mod_converse(2 * k, 2, k, 0);
        vstd::arithmetic::div_mod::lemma_fundamental_div_mod_converse(2 * k + 1, 2, k, 1);
        assert(t[2 * k] == sender_of(txs[k]));
        assert(t[2 * k + 1] == txs[k].to.0@);
    }
    assert(t[2 * txs.len() as int] == block.header.miner.0@);
    lemma_txs_agree(m1, m2, txs, t);
}

proof fn lemma_txs_agree(m1: Map<Seq<u8>, Account>, m2: Map<Seq<u8>, Account>, txs: Seq<Transaction>, t: Seq<Seq<u8>>)
    requires
        forall|k: int| 0 <= k < txs.len() ==> t.contains(sender_of(#[trigger] txs[k])) && t.contains(txs[k].to.0@),
        forall|a: Seq<u8>| #[trigger] t.contains(a) ==> account_in(m1, a) == account_in(m2, a),
    ensures
        forall|a: Seq<u8>| #[trigger] t.contains(a) ==> account_in(apply_txs_spec(m1, txs), a) == account_in(apply_txs_spec(m2, txs), a),
    decreases txs.len(),
{
    if txs.len() > 0 {
        let p = txs.drop_last();
        assert forall|k: int| 0 <= k < p.len() implies t.contains(sender_of(#[trigger] p[k])) && t.contains(p[k].to.0@) by {
            assert(p[k] == txs[k]);
        }
        lemma_txs_agree(m1, m2, p, t);
        let x = txs[txs.len() - 1];
        assert(t.contains(sender_of(x)) && t.contains(x.to.0@));
    }
}

/// Address bytes a block reads or writes, in order: for each transaction its
/// sender then its recipient, and last the miner.
pub open spec fn touched_spec(block: Block) -> Seq<Seq<u8>> {
    let txs = block.transactions@;
    Seq::new(
        2 * txs.len() + 1,
        |j: int|
            if j < 2 * txs.len() {
                if j % 2 == 0 { sender_of(txs[j / 2]) } else { txs[j / 2].to.0@ }
            } else {
                block.header.miner.0@
            },
    )
}

/// The byte views of a list of addresses.
pub open spec fn address_views(v: Seq<Address>) -> Seq<Seq<u8>> {
    Seq::new(v.len(), |j: int| v[j].0@)
}

/// The addresses a block reads or writes: every sender and recipient, and
/// the miner.
pub fn touched_addresses(block: &Block) -> (v: Vec<Address>)
    ensures
        address_views(v@) == touched_spec(*block),
{
    let mut v: Vec<Address> = Vec::new();
    let mut i: usize = 0;
    let ghost txs = block.transactions@;
    let ghost t = touched_spec(*block);
    while i < block.transactions.len()
        invariant
            0 <= i <= txs.len(),
            txs == block.transactions@,
            t == touched_spec(*block),
            address_views(v@) == t.take(2 * i),
        decreases txs.len() - i,
    {
        let tx = block.transactions[i];
        let ghost before = v@;
        let sa = tx.from.to_address();
        v.push(sa);
        v.push(tx.to);
        proof {
            let a = 2 * (i as int);
            assert(t.take(a).len() == a);
            assert(before.len() == a);
            assert(v@.len() == a + 2);
            vstd::arithmetic::div_mod::lemma_fundamental_div_mod_converse(a, 2, i as int, 0);
            vstd::arithmetic::div_mod::lemma_fundamental_div_mod_converse(a + 1, 2, i as int, 1);
            assert(t[a] == sender_of(txs[i as int]));
            assert(t[a + 1] == txs[i as int].to.0@);
            assert forall|j: int| 0 <= j < a + 2 implies #[trigger] address_views(v@)[j] == t.take(a + 2)[j] by {
                if j < a {
                    assert(v@[j] == before[j]);
                    assert(address_views(before)[j] == t.take(a)[j]);
                }
            }
            assert(address_views(v@) =~= t.take(a + 2));
        }
        i = i + 1;
    }
    let ghost before = v@;
    v.push(block.header.miner);
    proof {
        let n = 2 * txs.len();
        assert forall|j: int| 0 <= j < n + 1 implies #[trigger] address_views(v@)[j] == t[j] by {
            if j < n {
                assert(v@[j] == before[j]);
                assert(address_views(before)[j] == t.take(n as int)[j]);
            }
        }
        assert(address_views(v@) =~= t);
    }
    v
}

/// Heights of the two blocks the retarget at `next_height` reads (the tip
/// and the block opening the window), or `None` while the chain is shorter
/// than one window and the initial difficulty applies.
pub fn retarget_heights(genesis: &GenesisConfig, next_height: u64) -> (r: Option<(u64, u64)>)
    ensures
        r == (if next_height <= retarget_window_spec(genesis.retarget_window) {
            None::<(u64, u64)>
        } else {
            Some(((next_height - 1) as u64, (next_height - 1 - retarget_window_spec(genesis.retarget_window)) as u64))
        }),
{
    let window = if genesis.retarget_window < 1 { 1 } else { genesis.retarget_window };
    if next_height <= window {
        None
    } else {
        Some((next_height - 1, next_height - 1 - window))
    }
}

/// The retarget window, at least one block.
pub open spec fn retarget_window_spec(w: u64) -> u64 {
    if w < 1 { 1 } else { w }
}

/// Whether retargeting with these parameters stays within 64-bit arithmetic
/// (the target timespan times 4 fits).
pub fn difficulty_params_fit(genesis: &GenesisConfig) -> (ok: bool)
    ensures
        ok == (target_timespan(genesis.target_block_time_secs, retarget_window_spec(genesis.retarget_window)) * 4 <= u64::MAX),
{
    let window = if genesis.retarget_window < 1 { 1 } else { genesis.retarget_window };
    assert((genesis.target_block_time_secs as u128) * (window as u128) <= 0xffff_ffff_ffff_ffffu128 * 0xffff_ffff_ffff_ffffu128) by (nonlinear_arith);
    let prod: u128 = genesis.target_block_time_secs as u128 * window as u128;
    let sat: u64 = if prod > 0xffff_ffff_ffff_ffffu128 { 0xffff_ffff_ffff_ffffu64 } else { prod as u64 };
    let t: u64 = if sat < 1 { 1 } else { sat };
    t <= 0xffff_ffff_ffff_ffffu64 / 4
}

/// The difficulty expected at `next_height`: the initial difficulty for the
/// first window, else a retarget from the tip's difficulty over the time the
/// window took. `tip` and `window_start` are the blocks at the heights
/// `retarget_heights` names, `None` where they are missing.
pub fn expected_difficulty(
    genesis: &GenesisConfig,
    next_height: u64,
    tip: Option<BlockHeader>,
    window_start: Option<BlockHeader>,
) -> (r: Result<u64, ChainError>)
    requires
        next_height > retarget_window_spec(genesis.retarget_window) && tip is Some && window_start is Some
            ==> target_timespan(genesis.target_block_time_secs, retarget_window_spec(genesis.retarget_window)) * 4 <= u64::MAX,
    ensures
        r == expected_difficulty_spec(*genesis, next_height, tip, window_start),
{
    let window = if genesis.retarget_window < 1 { 1 } else { genesis.retarget_window };
    if next_height <= window {
        return Ok(genesis.initial_difficulty);
    }
    let tip_header = match tip {
        None => return Err(ChainError::BlockMissing { height: next_height - 1 }),
        Some(h) => h,
    };
    let start_header = match window_start {
        None => return Err(ChainError::WindowStartMissing),
        Some(h) => h,
    };
    let actual_timespan = tip_header.timestamp.saturating_sub(start_header.timestamp);
    Ok(next_difficulty(tip_header.difficulty, actual_timespan, genesis.target_block_time_secs, window))
}

pub open spec fn expected_difficulty_spec(
    genesis: GenesisConfig,
    next_height: u64,
    tip: Option<BlockHeader>,
    window_start: Option<BlockHeader>,
) -> Result<u64, ChainError> {
    let window = retarget_window_spec(genesis.retarget_window);
    if next_height <= window {
        Ok(genesis.initial_difficulty)
    } else {
        match tip {
            None => Err(ChainError::BlockMissing { height: (next_height - 1) as u64 }),
            Some(t) => match window_start {
                None => Err(ChainError::WindowStartMissing),
                Some(s) => {
                    let span = if t.timestamp >= s.timestamp { (t.timestamp - s.timestamp) as u64 } else { 0 };
                    Ok(next_difficulty_spec(t.difficulty, span, genesis.target_block_time_secs, window))
                },
            },
        }
    }
}

/// Height of the block whose hash seeds `epoch`'s dataset.
pub open spec fn epoch_boundary_height(epoch: u64) -> int {
    epoch * EPOCH_LENGTH
}

/// The dataset seed of `epoch`: fixed for epoch 0, else derived from the
/// hash of its boundary block, which must be known.
pub fn dataset_seed(epoch: u64, boundary_hash: Option<Hash256>) -> (r: Result<Hash256, ChainError>)
    requires
        epoch * EPOCH_LENGTH <= u64::MAX,
    ensures
        epoch == 0 ==> (r matches Ok(s) && s.0@ == epoch_seed_spec(None)),
        epoch != 0 ==> match boundary_hash {
            None => r == Err::<Hash256, ChainError>(ChainError::EpochBoundaryMissing { height: epoch_boundary_height(epoch) as u64 }),
            Some(h) => (r matches Ok(s) && s.0@ == epoch_seed_spec(Some(h))),
        },
{
    if epoch == 0 {
        Ok(epoch_seed(None))
    } else {
        match boundary_hash {
            None => Err(ChainError::EpochBoundaryMissing { height: epoch * EPOCH_LENGTH }),
            Some(h) => Ok(epoch_seed(Some(h))),
        }
    }
}

/// The block a miner works on next: on top of the tip, with the given
/// transactions, their Merkle root, the timestamp and difficulty, nonce 0.
pub fn assemble_block(
    tip_height: u64,
    tip_hash: Hash256,
    miner: Address,
    pending_txs: Vec<Transaction>,
    timestamp: u64,
    difficulty: u64,
) -> (b: Block)
    requires
        tip_height < u64::MAX,
    ensures
        b.header.height == tip_height + 1,
        b.header.prev_hash == tip_hash,
        b.header.tx_root.0@ == merkle_root_spec(tx_hashes_spec(pending_txs@)),
        b.header.timestamp == timestamp,
        b.header.difficulty == difficulty,
        b.header.miner == miner,
        b.header.nonce == 0,
        b.transactions@ == pending_txs@,
{
    let mut hashes: Vec<Hash256> = Vec::new();
    let mut i: usize = 0;
    while i < pending_txs.len()
        invariant
            0 <= i <= pending_txs@.len(),
            hashes@.len() == i,
            forall|k: int| 0 <= k < i ==> #[trigger] hashes@[k].0@ == tx_hash_spec(pending_txs@[k]),
        decreases pending_txs@.len() - i,
    {
        hashes.push(pending_txs[i].hash());
        i = i + 1;
    }
    assert(hash_views(hashes@) =~= tx_hashes_spec(pending_txs@));
    let tx_root = merkle_root(hashes.as_slice());
    let header = BlockHeader {
        height: tip_height + 1,
        prev_hash: tip_hash,
        tx_root,
        timestamp,
        difficulty,
        miner,
        nonce: 0,
    };
    Block { header, transactions: pending_txs }
}

/// The genesis block: height 0, zero hashes, the configured timestamp and
/// difficulty, zero miner, no transactions.
pub fn genesis_block(genesis: &GenesisConfig) -> (b: Block)
    ensures
        b.header.height == 0,
        b.header.prev_hash.0@ == Seq::new(32, |i: int| 0u8),
        b.header.tx_root.0@ == Seq::new(32, |i: int| 0u8),
        b.header.timestamp == genesis.timestamp,
        b.header.difficulty == genesis.initial_difficulty,
        b.header.miner.0@ == Seq::new(20, |i: int| 0u8),
        b.header.nonce == 0,
        b.transactions@.len() == 0,
{
    let miner = Address([0u8; 20]);
    assert(miner.0@ =~= Seq::new(20, |i: int| 0u8));
    let header = BlockHeader {
        height: 0,
        prev_hash: Hash256::zero(),
        tx_root: Hash256::zero(),
        timestamp: genesis.timestamp,
        difficulty: genesis.initial_difficulty,
        miner,
        nonce: 0,
    };
    Block { header, transactions: Vec::new() }
}

/// What a node makes of a block, checks in order: the link to the tip, the
/// proof of work, the expected difficulty (`expected`, or the error met
/// while working it out), then each transaction in order against the
/// accounts `m` before the block. `Some(Ok(id))` when the block is
/// accepted, with its id; `None` where applying transactions that passed
/// their checks would overflow.
pub open spec fn block_verdict(
    tip: Option<(u64, Hash256)>,
    block: Block,
    ds: Seq<u8>,
    expected: Result<u64, ChainError>,
    m: Map<Seq<u8>, Account>,
) -> Option<Result<Seq<u8>, ChainError>> {
    match link_result(tip, block) {
        Err(e) => Some(Err(e)),
        Ok(_) => if be_value(header_id_spec(block.header, ds)) > target_value(block.header.difficulty) {
            Some(Err(ChainError::InsufficientWork))
        } else {
            match expected {
                Err(e) => Some(Err(e)),
                Ok(d) => if block.header.difficulty != d {
                    Some(Err(ChainError::WrongDifficulty))
                } else {
                    match first_tx_error_from(m, block.transactions@, 0) {
                        Some(e) => Some(Err(e)),
                        None => if block_txs_fit(m, block.transactions@) {
                            Some(Ok(header_id_spec(block.header, ds)))
                        } else {
                            None
                        },
                    }
                },
            }
        },
    }
}

/// Runs every check on `block` before touching `accounts`, then applies it:
/// its transactions in order and the block reward of its height to the
/// miner. On refusal the accounts are left as they were; on acceptance the
/// block's id is returned.
pub fn validate_block(
    tip: Option<(u64, Hash256)>,
    block: &Block,
    dataset: &Dataset,
    expected_difficulty: Result<u64, ChainError>,
    genesis: &GenesisConfig,
    accounts: &mut Accounts,
) -> (r: Option<Result<Hash256, ChainError>>)
    requires
        tip matches Some((h, _)) ==> h < u64::MAX,
        dataset.wf(),
    ensures
        match block_verdict(tip, *block, dataset@, expected_difficulty, old(accounts)@) {
            None => r is None,
            Some(Err(e)) => r == Some(Err::<Hash256, ChainError>(e)),
            Some(Ok(id)) => r matches Some(Ok(h)) && h.0@ == id,
        },
        r matches Some(Ok(_)) ==> final(accounts)@ == apply_block_spec(
            old(accounts)@,
            block.transactions@,
            block.header.miner.0@,
            block_reward_spec(genesis.initial_reward, genesis.halving_interval, block.header.height),
        ),
        !(r matches Some(Ok(_))) ==> final(accounts)@ == old(accounts)@,
{
    match check_block_link(tip, block) {
        Err(e) => return Some(Err(e)),
        Ok(()) => {},
    }
    let hash = match check_block_work(block, dataset) {
        Err(e) => return Some(Err(e)),
        Ok(h) => h,
    };
    let expected = match expected_difficulty {
        Err(e) => return Some(Err(e)),
        Ok(d) => d,
    };
    match check_block_difficulty(block, expected) {
        Err(e) => return Some(Err(e)),
        Ok(()) => {},
    }
    match check_block_transactions(block, accounts) {
        None => return None,
        Some(Err(e)) => return Some(Err(e)),
        Some(Ok(())) => {},
    }
    let reward = genesis.block_reward(block.header.height);
    apply_block(block, accounts, reward);
    Some(Ok(hash))
}

/// Transactions with pairwise distinct senders, each passing its checks
/// against the state before the block and applicable without overflow,
/// run validly in order: a recipient's credit only raises a balance and
/// leaves its nonce alone.
proof fn lemma_distinct_senders_run_valid(m: Map<Seq<u8>, Account>, txs: Seq<Transaction>)
    requires
        forall|k: int| 0 <= k < txs.len() ==> (#[trigger] tx_error(m, txs[k])) is None && tx_step_ok(m, txs[k]),
        forall|j: int, k: int| 0 <= j < k < txs.len() ==> sender_of(#[trigger] txs[j]) != sender_of(#[trigger] txs[k]),
    ensures
        run_txs(m, txs) is Valid,
    decreases txs.len(),
{
    if txs.len() > 0 {
        let t0 = txs[0];
        assert(tx_error(m, t0) is None && tx_step_ok(m, t0));
        let m1 = apply_tx_spec(m, t0);
        let rest = txs.drop_first();
        assert forall|k: int| 0 <= k < rest.len() implies (#[trigger] tx_error(m1, rest[k])) is None && tx_step_ok(m1, rest[k]) by {
            let t = txs[k + 1];
            assert(rest[k] == t);
            assert(tx_error(m, t) is None && tx_step_ok(m, t));
            assert(sender_of(txs[0]) != sender_of(txs[k + 1]));
            let s = sender_of(t);
            let a0 = account_in(m, s);
            let a1 = account_in(m1, s);
            assert(a1.nonce == a0.nonce && a1.balance >= a0.balance);
        }
        assert forall|j: int, k: int| 0 <= j < k < rest.len() implies sender_of(#[trigger] rest[j]) != sender_of(#[trigger] rest[k]) by {
            assert(rest[j] == txs[j + 1]);
            assert(rest[k] == txs[k + 1]);
            assert(sender_of(txs[j + 1]) != sender_of(txs[k + 1]));
        }
        lemma_distinct_senders_run_valid(m1, rest);
    }
}

/// A mined work template is accepted as the next block: a block on top of
/// the tip with the right transaction root, whose proof of work meets its
/// target, whose difficulty is the one expected, and whose transactions run
/// validly, is accepted with its id as the block hash.
pub proof fn lemma_mined_block_is_accepted(
    tip_height: u64,
    tip_hash: Hash256,
    block: Block,
    ds: Seq<u8>,
    m: Map<Seq<u8>, Account>,
)
    requires
        tip_height < u64::MAX,
        block.header.height == tip_height + 1,
        block.header.prev_hash == tip_hash,
        block.header.tx_root.0@ == merkle_root_spec(tx_hashes_spec(block.transactions@)),
        be_value(header_id_spec(block.header, ds)) <= target_value(block.header.difficulty),
        block_txs_ok(m, block.transactions@),
    ensures
        block_verdict(Some((tip_height, tip_hash)), block, ds, Ok(block.header.difficulty), m)
            == Some(Ok::<Seq<u8>, ChainError>(header_id_spec(block.header, ds))),
{
}

/// Only the block right above the tip links to it: a block links exactly
/// when its height is the tip's plus one, its previous hash is the tip's
/// hash and its transaction root commits to its transactions. So two blocks
/// that both link to the same tip have the same height, and no block at or
/// below the tip's height links to it.
pub proof fn lemma_only_the_next_height_links(tip_height: u64, tip_hash: Hash256, b1: Block, b2: Block)
    requires
        tip_height < u64::MAX,
    ensures
        link_result(Some((tip_height, tip_hash)), b1) is Ok <==> (b1.header.height == tip_height + 1
            && b1.header.prev_hash.0@ == tip_hash.0@
            && b1.header.tx_root.0@ == merkle_root_spec(tx_hashes_spec(b1.transactions@))),
        b1.header.height <= tip_height ==> link_result(Some((tip_height, tip_hash)), b1)
            == Err::<(), ChainError>(ChainError::UnexpectedHeight { got: b1.header.height, expected: (tip_height + 1) as u64 }),
        link_result(Some((tip_height, tip_hash)), b1) is Ok && link_result(Some((tip_height, tip_hash)), b2) is Ok
            ==> b1.header.height == b2.header.height,
{
}

/// An accepted block sits right on top of the tip.
pub proof fn lemma_accepted_block_extends_the_tip(
    tip: Option<(u64, Hash256)>,
    block: Block,
    ds: Seq<u8>,
    expected: Result<u64, ChainError>,
    m: Map<Seq<u8>, Account>,
)
    requires
        block_verdict(tip, block, ds, expected, m) matches Some(Ok(_)),
    ensures
        tip matches Some((h, hash)) && block.header.height == h + 1 && block.header.prev_hash.0@ == hash.0@,
{
}

} // verus!
