//! Blocks and the Merkle root over their transaction hashes.

use vstd::prelude::*;

use crate::header::BlockHeader;
use crate::primitives::{append_bytes, blake3_digest, Hash256};
use crate::transaction::{tx_hash_spec, Transaction};

verus! {

#[derive(Clone, Debug, PartialEq, Eq)]
pub struct Block {
    pub header: BlockHeader,
    pub transactions: Vec<Transaction>,
}

/// The byte views of a list of hashes.
pub open spec fn hash_views(s: Seq<Hash256>) -> Seq<Seq<u8>> {
    Seq::new(s.len(), |i: int| s[i].0@)
}

/// One level up the tree: neighbours hashed in pairs, a last odd element
/// paired with itself.
pub open spec fn merkle_level(s: Seq<Seq<u8>>) -> Seq<Seq<u8>> {
    Seq::new(
        ((s.len() + 1) / 2) as nat,
        |i: int|
            if 2 * i + 1 < s.len() {
                blake3_digest(s[2 * i] + s[2 * i + 1])
            } else {
                blake3_digest(s[2 * i] + s[2 * i])
            },
    )
}

/// Merkle root: all-zero for no leaves, the leaf itself for one, otherwise
/// the root of the next level up.
pub open spec fn merkle_root_spec(s: Seq<Seq<u8>>) -> Seq<u8>
    decreases s.len(),
{
    if s.len() == 0 {
        Seq::new(32, |i: int| 0u8)
    } else if s.len() == 1 {
        s[0]
    } else {
        merkle_root_spec(merkle_level(s))
    }
}

/// `2^k`.
pub open spec fn two_to(k: nat) -> nat
    decreases k,
{
    if k == 0 { 1 } else { 2 * two_to((k - 1) as nat) }
}

proof fn lemma_two_to_positive(k: nat)
    ensures
        two_to(k) >= 1,
    decreases k,
{
    if k > 0 {
        lemma_two_to_positive((k - 1) as nat);
    }
}

/// Pairing up a level works block by block: a first part of even length
/// pairs up on its own.
proof fn lemma_level_of_concat(l: Seq<Seq<u8>>, r: Seq<Seq<u8>>)
    requires
        l.len() % 2 == 0,
    ensures
        merkle_level(l + r) == merkle_level(l) + merkle_level(r),
{
    let s = l + r;
    let a = l.len() / 2;
    assert(l.len() == 2 * a);
    assert((s.len() + 1) / 2 == a + (r.len() + 1) / 2);
    let lhs = merkle_level(s);
    let rhs = merkle_level(l) + merkle_level(r);
    assert(lhs.len() == rhs.len());
    assert forall|i: int| 0 <= i < lhs.len() implies lhs[i] == rhs[i] by {
        if i < a {
            assert(2 * i + 1 < l.len());
            assert(s[2 * i] == l[2 * i]);
            assert(s[2 * i + 1] == l[2 * i + 1]);
        } else {
            let j = i - a;
            assert(s[2 * i] == r[2 * j]);
            if 2 * j + 1 < r.len() {
                assert(s[2 * i + 1] == r[2 * j + 1]);
            }
        }
    }
    assert(lhs =~= rhs);
}

/// For `2^k` leaves on each side, the root of both sides together is the
/// hash of the left root followed by the right root: every leaf is
/// committed to at its place in a full binary tree. Two leaves give
/// `H(a || b)`, four give `H(H(a || b) || H(c || d))`.
pub proof fn lemma_merkle_root_of_halves(l: Seq<Seq<u8>>, r: Seq<Seq<u8>>, k: nat)
    requires
        l.len() == two_to(k),
        r.len() == two_to(k),
    ensures
        merkle_root_spec(l + r) == blake3_digest(merkle_root_spec(l) + merkle_root_spec(r)),
    decreases k,
{
    let s = l + r;
    if k == 0 {
        let lv = merkle_level(s);
        assert(lv.len() == 1);
        assert(s[0] == l[0] && s[1] == r[0]);
        assert(lv[0] == blake3_digest(l[0] + r[0]));
        assert(merkle_root_spec(s) == merkle_root_spec(lv));
        assert(merkle_root_spec(lv) == lv[0]);
    } else {
        lemma_two_to_positive((k - 1) as nat);
        let h = two_to((k - 1) as nat);
        assert(l.len() == 2 * h);
        lemma_level_of_concat(l, r);
        let ll = merkle_level(l);
        let rl = merkle_level(r);
        assert(ll.len() == h);
        assert(rl.len() == h);
        lemma_merkle_root_of_halves(ll, rl, (k - 1) as nat);
        assert(merkle_root_spec(s) == merkle_root_spec(merkle_level(s)));
        assert(merkle_root_spec(l) == merkle_root_spec(ll));
        assert(merkle_root_spec(r) == merkle_root_spec(rl));
    }
}

/// An odd level's last hash is paired with itself: for three or more
/// leaves in odd number, repeating the last leaf does not change the root.
pub proof fn lemma_merkle_odd_repeats_last(s: Seq<Seq<u8>>)
    requires
        s.len() >= 3,
        s.len() % 2 == 1,
    ensures
        merkle_root_spec(s) == merkle_root_spec(s.push(s.last())),
{
    let t = s.push(s.last());
    let a = (s.len() - 1) / 2;
    assert(s.len() == 2 * a + 1);
    let ls = merkle_level(s);
    let lt = merkle_level(t);
    assert(ls.len() == a + 1);
    assert(lt.len() == a + 1);
    assert forall|i: int| 0 <= i < ls.len() implies ls[i] == lt[i] by {
        assert(t[2 * i] == s[2 * i]);
        if i < a {
            assert(t[2 * i + 1] == s[2 * i + 1]);
        } else {
            assert(t[2 * i + 1] == s[2 * i]);
        }
    }
    assert(ls =~= lt);
    assert(merkle_root_spec(s) == merkle_root_spec(ls));
    assert(merkle_root_spec(t) == merkle_root_spec(lt));
}

/// Simple Merkle root (binary tree, duplicating the last odd element) over
/// transaction hashes.
pub fn merkle_root(hashes: &[Hash256]) -> (root: Hash256)
    ensures
        root.0@ == merkle_root_spec(hash_views(hashes@)),
{
    if hashes.len() == 0 {
        return Hash256::zero();
    }
    let mut level: Vec<Hash256> = Vec::new();
    let mut i: usize = 0;
    while i < hashes.len()
        invariant
            0 <= i <= hashes@.len(),
            level@ == hashes@.take(i as int),
        decreases hashes@.len() - i,
    {
        level.push(hashes[i]);
        i = i + 1;
        assert(level@ =~= hashes@.take(i as int));
    }
    assert(hashes@.take(hashes@.len() as int) =~= hashes@);
    while level.len() > 1
        invariant
            level@.len() >= 1,
            merkle_root_spec(hash_views(level@)) == merkle_root_spec(hash_views(hashes@)),
        decreases level@.len(),
    {
        let n = level.len();
        let half = n / 2 + n % 2;
        let ghost lv = hash_views(level@);
        let mut next: Vec<Hash256> = Vec::with_capacity(half);
        let mut j: usize = 0;
        while j < half
            invariant
                0 <= j <= half,
                n == level@.len(),
                n > 1,
                half == (n + 1) / 2,
                lv == hash_views(level@),
                next@.len() == j,
                forall|k: int| 0 <= k < j ==> #[trigger] next@[k].0@ == merkle_level(lv)[k],
            decreases half - j,
        {
            let left = level[2 * j];
            let mut buf: Vec<u8> = Vec::with_capacity(64);
            append_bytes(&mut buf, &left.0);
            if 2 * j + 1 < n {
                let right = level[2 * j + 1];
                append_bytes(&mut buf, &right.0);
            } else {
                append_bytes(&mut buf, &left.0);
            }
            let h = Hash256::hash(buf.as_slice());
            next.push(h);
            j = j + 1;
        }
        assert(hash_views(next@) =~= merkle_level(lv));
        level = next;
    }
    level[0]
}

impl Block {
    pub fn compute_tx_root(&self) -> (root: Hash256)
        ensures
            root.0@ == merkle_root_spec(Seq::new(self.transactions@.len(), |i: int| tx_hash_spec(self.transactions@[i]))),
    {
        let mut hashes: Vec<Hash256> = Vec::new();
        let mut i: usize = 0;
        while i < self.transactions.len()
            invariant
                0 <= i <= self.transactions@.len(),
                hashes@.len() == i,
                forall|k: int| 0 <= k < i ==> #[trigger] hashes@[k].0@ == tx_hash_spec(self.transactions@[k]),
            decreases self.transactions@.len() - i,
        {
            hashes.push(self.transactions[i].hash());
            i = i + 1;
        }
        assert(hash_views(hashes@) =~= Seq::new(self.transactions@.len(), |i: int| tx_hash_spec(self.transactions@[i])));
        merkle_root(hashes.as_slice())
    }
}

} // verus!
