//! OndrisHash: a memory-hard proof of work. A dataset regenerated per epoch,
//! and a scratchpad filled from it and mixed in rounds that depend on data
//! already written. Built from BLAKE3 and the Xoshiro256** generator.

use rand::{RngCore, SeedableRng};
use rand_xoshiro::Xoshiro256StarStar;
use vstd::prelude::*;
use vstd::bytes::{spec_u64_to_le_bytes, u64_to_le_bytes};
use vstd::string::StringSliceAdditionalSpecFns;

use crate::difficulty::be_value;
use crate::primitives::{append_bytes, blake3_digest, Hash256};

verus! {

/// Block height interval at which a new dataset is generated.
pub const EPOCH_LENGTH: u64 = 2048;
/// Size of the compact cache the full dataset is derived from.
pub const CACHE_SIZE: usize = 16 * 1024 * 1024;
/// Size of the full dataset used for mixing.
pub const DATASET_SIZE: usize = 64 * 1024 * 1024;
/// Size of the working memory per hash attempt.
pub const SCRATCHPAD_SIZE: usize = 2 * 1024 * 1024;
/// Number of data-dependent mixing rounds.
pub const MIX_ROUNDS: usize = 8;
/// Size of one dataset/scratchpad item (= BLAKE3 output size).
pub const ITEM_SIZE: usize = 32;

/// What the BLAKE3 extendable output gives, `len` bytes, for `seed`.
pub uninterp spec fn blake3_xof(seed: Seq<u8>, len: nat) -> Seq<u8>;

/// The `index`-th output (from 0) of a Xoshiro256** generator built with
/// `from_seed(seed)`.
pub uninterp spec fn xoshiro256ss_output(seed: Seq<u8>, index: nat) -> u64;

/// Calls `blake3::Hasher` (`update(seed)`, `finalize_xof`, `fill`): fills
/// `out` with the first `out.len()` bytes of BLAKE3's extendable output for
/// `seed`.
#[verifier::external_body]
fn xof_fill(seed: &[u8], out: &mut Vec<u8>)
    ensures
        final(out)@.len() == old(out)@.len(),
        final(out)@ == blake3_xof(seed@, old(out)@.len()),
{
    let mut hasher = blake3::Hasher::new();
    hasher.update(seed);
    let mut reader = hasher.finalize_xof();
    reader.fill(out);
}

/// Calls `Xoshiro256StarStar::from_seed(seed)` of `rand_xoshiro` and then
/// `next_u64` on it `count` times: the generator's first `count` outputs, in
/// order.
#[verifier::external_body]
fn xoshiro_draws(seed: &[u8; 32], count: usize) -> (v: Vec<u64>)
    ensures
        v@.len() == count,
        forall|k: int| 0 <= k < count ==> #[trigger] v@[k] == xoshiro256ss_output(seed@, k as nat),
{
    let mut rng = Xoshiro256StarStar::from_seed(*seed);
    let mut v = Vec::with_capacity(count);
    for _ in 0..count {
        v.push(rng.next_u64());
    }
    v
}

pub open spec fn epoch_of_spec(height: u64) -> u64 {
    height / EPOCH_LENGTH
}

/// The epoch a block height belongs to.
pub fn epoch_of(height: u64) -> (e: u64)
    ensures
        e == epoch_of_spec(height),
{
    height / EPOCH_LENGTH
}

/// The bytes of `"ONDRIS_GENESIS_EPOCH"`.
pub open spec fn genesis_epoch_tag() -> Seq<u8> {
    seq![79u8, 78u8, 68u8, 82u8, 73u8, 83u8, 95u8, 71u8, 69u8, 78u8, 69u8, 83u8, 73u8, 83u8, 95u8, 69u8, 80u8, 79u8, 67u8, 72u8]
}

/// The seed of an epoch: BLAKE3 of its boundary block hash, or of the fixed
/// tag for epoch 0.
pub open spec fn epoch_seed_spec(boundary: Option<Hash256>) -> Seq<u8> {
    match boundary {
        None => blake3_digest(genesis_epoch_tag()),
        Some(h) => blake3_digest(h.0@),
    }
}

/// Derives an epoch's seed from the hash of its boundary block (or a fixed
/// constant for epoch 0 / genesis).
pub fn epoch_seed(boundary_block_hash: Option<Hash256>) -> (s: Hash256)
    ensures
        s.0@ == epoch_seed_spec(boundary_block_hash),
{
    match boundary_block_hash {
        None => {
            let tag = "ONDRIS_GENESIS_EPOCH";
            proof {
                reveal_strlit("ONDRIS_GENESIS_EPOCH");
                vstd::string::is_ascii_spec_bytes(tag);
                assert(tag.spec_bytes() =~= genesis_epoch_tag());
            }
            Hash256::hash(tag.as_bytes())
        },
        Some(h) => Hash256::hash(h.as_bytes()),
    }
}

/// Little-endian bytes of a `u64`.
pub open spec fn le64(x: u64) -> Seq<u8> {
    spec_u64_to_le_bytes(x)
}

/// Where item `i` starts in the cache.
pub open spec fn cache_offset(i: nat, cache_size: nat) -> nat {
    (i * 32) % ((cache_size - 32 + 1) as nat)
}

/// Dataset item `i`: its 32 cache bytes hashed twice together with `i`.
pub open spec fn dataset_item(cache: Seq<u8>, cache_size: nat, i: nat) -> Seq<u8> {
    let off = cache_offset(i, cache_size) as int;
    let x0 = cache.subrange(off, off + 32);
    let x1 = blake3_digest(x0 + le64(i as u64));
    blake3_digest(x1 + le64(i as u64))
}

/// The 32-byte block number `b` of a byte sequence.
pub open spec fn block_of(s: Seq<u8>, b: int) -> Seq<u8> {
    s.subrange(b * 32, b * 32 + 32)
}

/// `s` with block `b` replaced by `data`.
pub open spec fn replace_block(s: Seq<u8>, b: int, data: Seq<u8>) -> Seq<u8> {
    Seq::new(s.len(), |p: int| if b * 32 <= p < b * 32 + 32 { data[p - b * 32] } else { s[p] })
}

proof fn lemma_block_bounds(b: int, n: int)
    requires
        0 <= b < n,
    ensures
        b * 32 + 32 <= n * 32,
        0 <= b * 32,
{
    assert(b * 32 + 32 <= n * 32) by (nonlinear_arith)
        requires
            b + 1 <= n,
    ;
}

proof fn lemma_div_mod_32(b: int, k: int)
    requires
        0 <= b,
        0 <= k < 32,
    ensures
        (b * 32 + k) / 32 == b,
        (b * 32 + k) % 32 == k,
{
    vstd::arithmetic::div_mod::lemma_fundamental_div_mod_converse(b * 32 + k, 32, b, k);
}

/// Full dataset for one epoch, derived from its seed.
pub struct Dataset {
    pub epoch: u64,
    bytes: Vec<u8>,
}

impl View for Dataset {
    type V = Seq<u8>;

    closed spec fn view(&self) -> Seq<u8> {
        self.bytes@
    }
}

/// A dataset has whole items, at least one.
pub open spec fn dataset_wf(bytes: Seq<u8>) -> bool {
    bytes.len() >= 32 && bytes.len() % 32 == 0
}

/// The dataset contents generated from `seed` with the given sizes.
pub open spec fn dataset_matches(bytes: Seq<u8>, seed: Seq<u8>, cache_size: nat, dataset_size: nat) -> bool {
    &&& bytes.len() == (dataset_size / 32) * 32
    &&& forall|i: int| 0 <= i < dataset_size / 32 ==> #[trigger] block_of(bytes, i)
            == dataset_item(blake3_xof(seed, cache_size), cache_size, i as nat)
}

/// The dataset is a function of its seed and sizes: any two byte strings
/// that both match the seed are the same. So a miner that rebuilds the
/// dataset from the epoch seed holds exactly the node's.
pub proof fn lemma_dataset_determined_by_seed(b1: Seq<u8>, b2: Seq<u8>, seed: Seq<u8>, cache_size: nat, dataset_size: nat)
    requires
        dataset_matches(b1, seed, cache_size, dataset_size),
        dataset_matches(b2, seed, cache_size, dataset_size),
    ensures
        b1 == b2,
{
    assert forall|p: int| 0 <= p < b1.len() implies b1[p] == b2[p] by {
        let i = p / 32;
        let k = p % 32;
        vstd::arithmetic::div_mod::lemma_fundamental_div_mod(p, 32);
        assert(p == i * 32 + k);
        assert(i < dataset_size / 32) by (nonlinear_arith)
            requires p == i * 32 + k, 0 <= k < 32, p < (dataset_size / 32) * 32, 0 <= i;
        lemma_block_bounds(i, (dataset_size / 32) as int);
        assert(block_of(b1, i) == block_of(b2, i));
        assert(b1[p] == block_of(b1, i)[k]);
        assert(b2[p] == block_of(b2, i)[k]);
    }
    assert(b1 =~= b2);
}

/// Copies 32 bytes of `src` from `start` into a new vector.
fn copy_block(src: &Vec<u8>, start: usize) -> (out: Vec<u8>)
    requires
        start + 32 <= src@.len(),
    ensures
        out@ == src@.subrange(start as int, start + 32),
{
    let mut out: Vec<u8> = Vec::with_capacity(32);
    let n = src.len();
    let mut k: usize = 0;
    while k < 32
        invariant
            0 <= k <= 32,
            n == src@.len(),
            start + 32 <= src@.len(),
            out@ == src@.subrange(start as int, start + k),
        decreases 32 - k,
    {
        out.push(src[start + k]);
        k = k + 1;
        assert(out@ =~= src@.subrange(start as int, start + k));
    }
    out
}

/// Writes 32 bytes of `data` as block `b` of `dst`.
fn write_block(dst: &mut Vec<u8>, b: usize, data: &[u8; 32])
    requires
        b * 32 + 32 <= old(dst)@.len(),
    ensures
        final(dst)@ == replace_block(old(dst)@, b as int, data@),
{
    let n = dst.len();
    let off = b * 32;
    let ghost start = dst@;
    let mut k: usize = 0;
    while k < 32
        invariant
            0 <= k <= 32,
            off == b * 32,
            off + 32 <= start.len(),
            dst@.len() == start.len(),
            forall|p: int| 0 <= p < start.len() ==> #[trigger] dst@[p] == (if off <= p < off + k { data@[p - off] } else { start[p] }),
        decreases 32 - k,
    {
        dst.set(off + k, data[k]);
        k = k + 1;
    }
    assert(dst@ =~= replace_block(start, b as int, data@));
}

fn vec_to_array32(v: &Vec<u8>) -> (a: [u8; 32])
    requires
        v@.len() == 32,
    ensures
        a@ == v@,
{
    let mut a = [0u8; 32];
    let mut k: usize = 0;
    while k < 32
        invariant
            0 <= k <= 32,
            v@.len() == 32,
            a@.len() == 32,
            forall|j: int| 0 <= j < k ==> a@[j] == v@[j],
        decreases 32 - k,
    {
        a[k] = v[k];
        k = k + 1;
    }
    assert(a@ =~= v@);
    a
}

impl Dataset {
    /// The epoch this dataset belongs to.
    pub closed spec fn epoch_spec(&self) -> u64 {
        self.epoch
    }

    pub closed spec fn wf(&self) -> bool {
        dataset_wf(self.bytes@)
    }

    /// The epoch this dataset belongs to.
    pub fn epoch(&self) -> (e: u64)
        ensures
            e == self.epoch_spec(),
    {
        self.epoch
    }

    /// The dataset for an epoch at full size.
    pub fn generate(epoch: u64, seed: Hash256) -> (d: Dataset)
        ensures
            d.epoch_spec() == epoch,
            d.wf(),
            dataset_matches(d@, seed.0@, CACHE_SIZE as nat, DATASET_SIZE as nat),
    {
        Self::generate_with_sizes(epoch, seed, CACHE_SIZE, DATASET_SIZE)
    }

    /// Size-parameterized dataset generation (tests use small sizes).
    pub fn generate_with_sizes(epoch: u64, seed: Hash256, cache_size: usize, dataset_size: usize) -> (d: Dataset)
        requires
            cache_size >= ITEM_SIZE,
            dataset_size >= ITEM_SIZE,
        ensures
            d.epoch_spec() == epoch,
            d.wf(),
            dataset_matches(d@, seed.0@, cache_size as nat, dataset_size as nat),
    {
        let mut cache: Vec<u8> = vec![0u8; cache_size];
        xof_fill(seed.as_bytes(), &mut cache);
        let ghost c = cache@;
        let n_items: usize = dataset_size / ITEM_SIZE;
        let total: usize = n_items * ITEM_SIZE;
        let mut bytes: Vec<u8> = vec![0u8; total];
        let modulus: usize = cache_size - ITEM_SIZE + 1;
        let mut i: usize = 0;
        while i < n_items
            invariant
                0 <= i <= n_items,
                n_items == dataset_size / 32,
                total == n_items * 32,
                total <= dataset_size,
                modulus == cache_size - 32 + 1,
                cache@ == c,
                c == blake3_xof(seed.0@, cache_size as nat),
                c.len() == cache_size,
                cache_size >= 32,
                bytes@.len() == total,
                forall|j: int| 0 <= j < i ==> #[trigger] block_of(bytes@, j)
                    == dataset_item(c, cache_size as nat, j as nat),
            decreases n_items - i,
        {
            proof {
                lemma_block_bounds(i as int, n_items as int);
            }
            let cache_off: usize = (i * ITEM_SIZE) % modulus;
            assert(cache_off + 32 <= cache_size);
            let x0 = copy_block(&cache, cache_off);
            let le = u64_to_le_bytes(i as u64);
            let mut buf = x0;
            append_bytes(&mut buf, le.as_slice());
            let x1 = Hash256::hash(buf.as_slice());
            let mut buf2: Vec<u8> = Vec::new();
            append_bytes(&mut buf2, &x1.0);
            append_bytes(&mut buf2, le.as_slice());
            let x2 = Hash256::hash(buf2.as_slice());
            let ghost before = bytes@;
            write_block(&mut bytes, i, &x2.0);
            proof {
                assert(x2.0@ == dataset_item(c, cache_size as nat, i as nat));
                assert forall|j: int| 0 <= j < i + 1 implies #[trigger] block_of(bytes@, j)
                    == dataset_item(c, cache_size as nat, j as nat) by {
                    lemma_block_bounds(j, n_items as int);
                    if j < i {
                        lemma_block_bounds(j, i as int);
                        assert(block_of(bytes@, j) =~= block_of(before, j));
                    } else {
                        assert(block_of(bytes@, j) =~= x2.0@);
                    }
                }
            }
            i = i + 1;
        }
        proof {
            vstd::arithmetic::div_mod::lemma_fundamental_div_mod(dataset_size as int, 32);
            assert(total >= 32) by (nonlinear_arith)
                requires total == n_items * 32, n_items == dataset_size / 32, dataset_size >= 32;
            vstd::arithmetic::div_mod::lemma_mod_multiples_basic(n_items as int, 32);
        }
        Dataset { epoch, bytes }
    }

    pub fn len_bytes(&self) -> (n: usize)
        ensures
            n == self@.len(),
    {
        self.bytes.len()
    }

    /// Item `idx % n_items` of the dataset.
    fn item(&self, idx: u64) -> (r: &[u8])
        requires
            self.wf(),
        ensures
            r@ == dataset_item_at(self@, idx),
            r@.len() == 32,
    {
        let n_items: u64 = (self.bytes.len() / ITEM_SIZE) as u64;
        let k: usize = (idx % n_items) as usize;
        proof {
            lemma_block_bounds(k as int, (self@.len() / 32) as int);
            vstd::arithmetic::div_mod::lemma_fundamental_div_mod(self@.len() as int, 32);
        }
        &self.bytes.as_slice()[k * ITEM_SIZE..(k + 1) * ITEM_SIZE]
    }
}

/// The dataset item that a draw `idx` selects.
pub open spec fn dataset_item_at(ds: Seq<u8>, idx: u64) -> Seq<u8> {
    block_of(ds, (idx % ((ds.len() / 32) as u64)) as int)
}

/// Number of 32-byte scratchpad blocks.
pub open spec fn scratch_blocks(scratchpad_size: nat) -> nat {
    if scratchpad_size / 32 < 1 { 1 } else { scratchpad_size / 32 }
}

/// The scratchpad after its initial fill: block `b` is the dataset item
/// chosen by draw `b`, XORed with the seed.
pub open spec fn initial_pad(ds: Seq<u8>, seed: Seq<u8>, nb: nat) -> Seq<u8> {
    Seq::new(nb * 32, |p: int| dataset_item_at(ds, xoshiro256ss_output(seed, (p / 32) as nat))[p % 32] ^ seed[p % 32])
}

/// Mixing step `t`: block `t % nb` becomes BLAKE3 of itself followed by the
/// block that draw `nb + t` points at.
pub open spec fn mix_step(pad: Seq<u8>, seed: Seq<u8>, nb: nat, t: nat) -> Seq<u8> {
    let b = (t % nb) as int;
    let dep = (xoshiro256ss_output(seed, nb + t) % (nb as u64)) as int;
    replace_block(pad, b, blake3_digest(block_of(pad, b) + block_of(pad, dep)))
}

/// The scratchpad after `steps` mixing steps.
pub open spec fn mixed_pad(ds: Seq<u8>, seed: Seq<u8>, nb: nat, steps: nat) -> Seq<u8>
    decreases steps,
{
    if steps == 0 {
        initial_pad(ds, seed, nb)
    } else {
        mix_step(mixed_pad(ds, seed, nb, (steps - 1) as nat), seed, nb, (steps - 1) as nat)
    }
}

/// The seed of one hash attempt: BLAKE3 of the header bytes followed by the
/// little-endian nonce.
pub open spec fn attempt_seed(header: Seq<u8>, nonce: u64) -> Seq<u8> {
    blake3_digest(header + le64(nonce))
}

/// OndrisHash of `header || nonce` over dataset `ds`.
pub open spec fn ondris_hash_spec(header: Seq<u8>, nonce: u64, ds: Seq<u8>, scratchpad_size: nat, mix_rounds: nat) -> Seq<u8> {
    let seed = attempt_seed(header, nonce);
    let nb = scratch_blocks(scratchpad_size);
    blake3_digest(mixed_pad(ds, seed, nb, mix_rounds * nb))
}

/// Computes OndrisHash(header || nonce) with the full-size scratchpad and
/// rounds. `header_bytes` is the header WITHOUT the nonce.
pub fn ondris_hash(header_bytes: &[u8], nonce: u64, dataset: &Dataset) -> (h: Hash256)
    requires
        dataset.wf(),
    ensures
        h.0@ == ondris_hash_spec(header_bytes@, nonce, dataset@, SCRATCHPAD_SIZE as nat, MIX_ROUNDS as nat),
{
    ondris_hash_with_sizes(header_bytes, nonce, dataset, SCRATCHPAD_SIZE, MIX_ROUNDS)
}

/// Size-parameterized OndrisHash (tests use small sizes).
pub fn ondris_hash_with_sizes(
    header_bytes: &[u8],
    nonce: u64,
    dataset: &Dataset,
    scratchpad_size: usize,
    mix_rounds: usize,
) -> (h: Hash256)
    requires
        dataset.wf(),
        scratch_blocks(scratchpad_size as nat) * (mix_rounds + 1) <= usize::MAX,
    ensures
        h.0@ == ondris_hash_spec(header_bytes@, nonce, dataset@, scratchpad_size as nat, mix_rounds as nat),
{
    let mut input: Vec<u8> = Vec::new();
    append_bytes(&mut input, header_bytes);
    let le = u64_to_le_bytes(nonce);
    append_bytes(&mut input, le.as_slice());
    let seed_hash = Hash256::hash(input.as_slice());
    let seed: [u8; 32] = seed_hash.0;
    let ghost sd = seed@;
    assert(sd == attempt_seed(header_bytes@, nonce));

    let n_blocks: usize = if scratchpad_size / ITEM_SIZE < 1 { 1 } else { scratchpad_size / ITEM_SIZE };
    let ghost nb = n_blocks as nat;
    assert(n_blocks * 32 <= scratchpad_size || n_blocks == 1);
    assert(n_blocks * 32 <= usize::MAX) by (nonlinear_arith)
        requires
            n_blocks * 32 <= scratchpad_size || n_blocks == 1,
            scratchpad_size <= usize::MAX;
    let pad_len: usize = n_blocks * ITEM_SIZE;
    let mut scratchpad: Vec<u8> = vec![0u8; pad_len];

    // Every draw of the generator, for the fill and then the mixing rounds.
    assert(n_blocks == scratch_blocks(scratchpad_size as nat));
    assert(mix_rounds + 1 <= n_blocks * (mix_rounds + 1)) by (nonlinear_arith) requires n_blocks >= 1;
    let total: usize = n_blocks * (mix_rounds + 1);
    assert(n_blocks <= total) by (nonlinear_arith) requires total == n_blocks * (mix_rounds + 1);
    let draws = xoshiro_draws(&seed, total);

    // Initial fill from pseudo-randomly chosen dataset items.
    let mut b: usize = 0;
    while b < n_blocks
        invariant
            0 <= b <= n_blocks,
            nb == n_blocks,
            pad_len == n_blocks * 32,
            scratchpad@.len() == pad_len,
            n_blocks <= total,
            draws@.len() == total,
            forall|k: int| 0 <= k < total ==> #[trigger] draws@[k] == xoshiro256ss_output(sd, k as nat),
            seed@ == sd,
            sd.len() == 32,
            dataset.wf(),
            forall|p: int| 0 <= p < b * 32 ==> #[trigger] scratchpad@[p] == initial_pad(dataset@, sd, nb)[p],
        decreases n_blocks - b,
    {
        proof {
            lemma_block_bounds(b as int, n_blocks as int);
        }
        let idx: u64 = draws[b];
        let d = dataset.item(idx);
        let off: usize = b * ITEM_SIZE;
        let mut k: usize = 0;
        while k < ITEM_SIZE
            invariant
                0 <= k <= 32,
                off == b * 32,
                off + 32 <= pad_len,
                b < n_blocks,
                nb == n_blocks,
                pad_len == n_blocks * 32,
                scratchpad@.len() == pad_len,
                d@.len() == 32,
                d@ == dataset_item_at(dataset@, xoshiro256ss_output(sd, b as nat)),
                seed@ == sd,
                sd.len() == 32,
                forall|p: int| 0 <= p < off + k ==> #[trigger] scratchpad@[p] == initial_pad(dataset@, sd, nb)[p],
            decreases 32 - k,
        {
            scratchpad.set(off + k, d[k] ^ seed[k]);
            proof {
                lemma_div_mod_32(b as int, k as int);
            }
            k = k + 1;
        }
        b = b + 1;
    }
    assert(scratchpad@ =~= mixed_pad(dataset@, sd, nb, 0));

    // Mixing rounds that depend on data already written.
    let mut round: usize = 0;
    while round < mix_rounds
        invariant
            0 <= round <= mix_rounds,
            nb == n_blocks,
            n_blocks >= 1,
            pad_len == n_blocks * 32,
            scratchpad@.len() == pad_len,
            seed@ == sd,
            total == n_blocks * (mix_rounds + 1),
            draws@.len() == total,
            forall|k: int| 0 <= k < total ==> #[trigger] draws@[k] == xoshiro256ss_output(sd, k as nat),
            scratchpad@ == mixed_pad(dataset@, sd, nb, (round * n_blocks) as nat),
        decreases mix_rounds - round,
    {
        assert(n_blocks * (round + 1) + n_blocks <= total) by (nonlinear_arith)
            requires round < mix_rounds, n_blocks >= 1, total == n_blocks * (mix_rounds + 1);
        let skip: usize = n_blocks * (round + 1);
        let mut b: usize = 0;
        while b < n_blocks
            invariant
                0 <= b <= n_blocks,
                round < mix_rounds,
                nb == n_blocks,
                n_blocks >= 1,
                pad_len == n_blocks * 32,
                scratchpad@.len() == pad_len,
                seed@ == sd,
                skip == n_blocks * (round + 1),
                skip + n_blocks <= total,
                draws@.len() == total,
                forall|k: int| 0 <= k < total ==> #[trigger] draws@[k] == xoshiro256ss_output(sd, k as nat),
                scratchpad@ == mixed_pad(dataset@, sd, nb, (round * n_blocks + b) as nat),
            decreases n_blocks - b,
        {
            let ghost t: nat = (round * n_blocks + b) as nat;
            let r: u64 = draws[skip + b];
            let dep: usize = (r % (n_blocks as u64)) as usize;
            proof {
                assert(skip + b == nb + t) by (nonlinear_arith)
                    requires skip == n_blocks * (round + 1), t == round * n_blocks + b, nb == n_blocks;
                vstd::arithmetic::div_mod::lemma_fundamental_div_mod_converse(t as int, nb as int, round as int, b as int);
                lemma_block_bounds(b as int, n_blocks as int);
                lemma_block_bounds(dep as int, n_blocks as int);
            }
            let off: usize = b * ITEM_SIZE;
            let dep_off: usize = dep * ITEM_SIZE;
            let mut buf = copy_block(&scratchpad, off);
            let dep_copy = copy_block(&scratchpad, dep_off);
            append_bytes(&mut buf, dep_copy.as_slice());
            let out = Hash256::hash(buf.as_slice());
            write_block(&mut scratchpad, b, &out.0);
            proof {
                assert(((round * n_blocks + b) + 1) as nat == (round * n_blocks + (b + 1)) as nat);
            }
            b = b + 1;
        }
        assert(round * n_blocks + n_blocks == (round + 1) * n_blocks) by (nonlinear_arith);
        round = round + 1;
    }
    assert(mix_rounds * n_blocks == mix_rounds * nb);
    Hash256::hash(scratchpad.as_slice())
}

/// Whether a hash meets a target: as big-endian 256-bit numbers, hash <= target.
pub fn meets_target(hash: &Hash256, target_be: &[u8; 32]) -> (ok: bool)
    ensures
        ok == (be_value(hash.0@) <= be_value(target_be@)),
{
    let h = hash.to_u256_be();
    let mut i: usize = 0;
    while i < 32
        invariant
            0 <= i <= 32,
            h@ == hash.0@,
            h@.len() == 32,
            target_be@.len() == 32,
            h@.take(i as int) == target_be@.take(i as int),
        decreases 32 - i,
    {
        if h[i] < target_be[i] {
            proof {
                lemma_be_lt(h@, target_be@, i as int);
            }
            return true;
        }
        if h[i] > target_be[i] {
            proof {
                lemma_be_lt(target_be@, h@, i as int);
            }
            return false;
        }
        assert(h@.take(i + 1) =~= target_be@.take(i + 1)) by {
            assert(h@.take(i + 1) =~= h@.take(i as int).push(h@[i as int]));
            assert(target_be@.take(i + 1) =~= target_be@.take(i as int).push(target_be@[i as int]));
        }
        i = i + 1;
    }
    assert(h@ =~= target_be@) by {
        assert(h@.take(32) =~= h@);
        assert(target_be@.take(32) =~= target_be@);
    }
    true
}

/// Big-endian order: equal prefixes and a smaller byte at position `i` give
/// a smaller value.
pub proof fn lemma_be_lt(a: Seq<u8>, b: Seq<u8>, i: int)
    requires
        a.len() == b.len(),
        0 <= i < a.len(),
        a.take(i) == b.take(i),
        a[i] < b[i],
    ensures
        be_value(a) < be_value(b),
    decreases a.len(),
{
    let n = a.len() as int;
    if i == n - 1 {
        assert(a.drop_last() =~= a.take(i));
        assert(b.drop_last() =~= b.take(i));
    } else {
        assert(a.drop_last().take(i) =~= a.take(i));
        assert(b.drop_last().take(i) =~= b.take(i));
        lemma_be_lt(a.drop_last(), b.drop_last(), i);
    }
}

} // verus!
