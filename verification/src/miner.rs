//! The miner's nonce search over one slice of the nonce space.

use vstd::prelude::*;

use crate::difficulty::be_value;
use crate::pow::{meets_target, ondris_hash, ondris_hash_spec, Dataset, MIX_ROUNDS, SCRATCHPAD_SIZE};

verus! {

/// The `k`-th nonce of a slice starting at `first` with stride `step`,
/// wrapping around `u64`.
pub open spec fn nth_nonce(first: u64, step: u64, k: nat) -> u64 {
    ((first + k * step) % 0x1_0000_0000_0000_0000) as u64
}

/// Whether a nonce solves the header against the target.
pub open spec fn solves(header: Seq<u8>, nonce: u64, ds: Seq<u8>, target: Seq<u8>) -> bool {
    be_value(ondris_hash_spec(header, nonce, ds, SCRATCHPAD_SIZE as nat, MIX_ROUNDS as nat)) <= be_value(target)
}

/// Tries the nonces `first`, `first + step`, ... (wrapping), `count` of
/// them, and returns the first that meets the target.
pub fn search_nonces(
    header_bytes: &[u8],
    first: u64,
    step: u64,
    count: u64,
    dataset: &Dataset,
    target: &[u8; 32],
) -> (r: Option<u64>)
    requires
        dataset.wf(),
    ensures
        r matches Some(n) ==> exists|k: nat| k < count && n == nth_nonce(first, step, k)
            && solves(header_bytes@, n, dataset@, target@)
            && forall|j: nat| j < k ==> !solves(header_bytes@, #[trigger] nth_nonce(first, step, j), dataset@, target@),
        r is None ==> forall|j: nat| j < count ==> !solves(header_bytes@, #[trigger] nth_nonce(first, step, j), dataset@, target@),
{
    let mut nonce: u64 = first;
    let mut i: u64 = 0;
    assert(nth_nonce(first, step, 0) == first) by {
        vstd::arithmetic::div_mod::lemma_small_mod(first as nat, 0x1_0000_0000_0000_0000nat);
    }
    while i < count
        invariant
            0 <= i <= count,
            dataset.wf(),
            nonce == nth_nonce(first, step, i as nat),
            forall|j: nat| j < i ==> !solves(header_bytes@, #[trigger] nth_nonce(first, step, j), dataset@, target@),
        decreases count - i,
    {
        let hash = ondris_hash(header_bytes, nonce, dataset);
        if meets_target(&hash, target) {
            return Some(nonce);
        }
        proof {
            let m = 0x1_0000_0000_0000_0000int;
            let a = first + i * step;
            assert(first + (i + 1) * step == a + step) by (nonlinear_arith) requires a == first + i * step;
            vstd::arithmetic::div_mod::lemma_add_mod_noop(a, step as int, m);
            vstd::arithmetic::div_mod::lemma_small_mod(step as nat, m as nat);
        }
        nonce = nonce.wrapping_add(step);
        i = i + 1;
    }
    None
}

} // verus!
