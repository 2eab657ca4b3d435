//! Genesis configuration: the parameters a network starts from.

use vstd::prelude::*;
use vstd::string::StringSliceAdditionalSpecFns;

use crate::codec::{decimal_bytes, push_decimal, push_str};
use crate::primitives::{blake3_digest, parse_address_bytes, Address, Hash256, PrimitiveError};

verus! {

#[derive(Clone, Debug)]
pub struct PremineEntry {
    pub address: String,
    pub amount: u64,
}

#[derive(Clone, Debug)]
pub struct GenesisConfig {
    pub network_name: String,
    pub timestamp: u64,
    pub initial_difficulty: u64,
    /// Initial block reward, in smallest units (1 ONDR = 100,000,000 units).
    pub initial_reward: u64,
    pub halving_interval: u64,
    pub target_block_time_secs: u64,
    pub retarget_window: u64,
    pub premine: Vec<PremineEntry>,
}

/// The UTF-8 bytes of a string's characters.
pub open spec fn utf8_of(s: Seq<char>) -> Seq<u8> {
    vstd::utf8::encode_utf8(s)
}

impl GenesisConfig {
    /// Quick test config, not intended for a real network.
    pub fn testnet_default() -> (g: GenesisConfig)
        ensures
            g.network_name@ == "ondris-testnet"@,
            g.timestamp == 1_784_678_400,
            g.initial_difficulty == 1000,
            g.initial_reward == 5_000_000_000,
            g.halving_interval == 210_000,
            g.target_block_time_secs == 30,
            g.retarget_window == 60,
            g.premine@.len() == 0,
    {
        GenesisConfig {
            network_name: String::from_str("ondris-testnet"),
            timestamp: 1_784_678_400,
            initial_difficulty: 1000,
            initial_reward: 50 * 100_000_000,
            halving_interval: 210_000,
            target_block_time_secs: 30,
            retarget_window: 60,
            premine: Vec::new(),
        }
    }

    /// The premine entries with their addresses parsed; the first address
    /// that does not parse gives the error.
    pub fn premine_parsed(&self) -> (r: Result<Vec<(Address, u64)>, PrimitiveError>)
        ensures
            r is Ok <==> forall|k: int| 0 <= k < self.premine@.len()
                ==> (#[trigger] parse_address_bytes(utf8_of(self.premine@[k].address@))) is Some,
            r matches Ok(v) ==> v@.len() == self.premine@.len() && forall|k: int| 0 <= k < v@.len()
                ==> Some((#[trigger] v@[k]).0.0@) == parse_address_bytes(utf8_of(self.premine@[k].address@))
                    && v@[k].1 == self.premine@[k].amount,
    {
        let mut out: Vec<(Address, u64)> = Vec::new();
        let mut i: usize = 0;
        while i < self.premine.len()
            invariant
                0 <= i <= self.premine@.len(),
                out@.len() == i,
                forall|k: int| 0 <= k < i ==> (#[trigger] parse_address_bytes(utf8_of(self.premine@[k].address@))) is Some,
                forall|k: int| 0 <= k < i ==> Some((#[trigger] out@[k]).0.0@) == parse_address_bytes(utf8_of(self.premine@[k].address@))
                    && out@[k].1 == self.premine@[k].amount,
            decreases self.premine@.len() - i,
        {
            let entry = &self.premine[i];
            let name = entry.address.as_str();
            let addr = match Address::parse_str(name) {
                Ok(a) => a,
                Err(e) => {
                    assert(name.spec_bytes() == utf8_of(self.premine@[i as int].address@));
                    assert(parse_address_bytes(utf8_of(self.premine@[i as int].address@)) is None);
                    return Err(e);
                },
            };
            out.push((addr, entry.amount));
            i = i + 1;
        }
        Ok(out)
    }

    /// The block reward at `height`: the initial reward halved once per
    /// `halving_interval` blocks (an interval of 0 counts as 1), and 0 from
    /// the 64th halving on.
    pub fn block_reward(&self, height: u64) -> (r: u64)
        ensures
            r == block_reward_spec(self.initial_reward, self.halving_interval, height),
    {
        let interval = if self.halving_interval < 1 { 1 } else { self.halving_interval };
        let halvings = height / interval;
        if halvings >= 64 {
            0
        } else {
            self.initial_reward >> halvings
        }
    }
}

/// Number of halvings reached at `height`.
pub open spec fn halvings_at(halving_interval: u64, height: u64) -> u64 {
    height / (if halving_interval < 1 { 1 } else { halving_interval })
}

pub open spec fn block_reward_spec(initial_reward: u64, halving_interval: u64, height: u64) -> u64 {
    let h = halvings_at(halving_interval, height);
    if h >= 64 { 0 } else { initial_reward >> h }
}

/// The halving schedule: the full reward for the first interval, and each
/// further interval pays half (rounded down) of the one before; so after
/// `k` intervals the reward is the initial one divided by `2^k`, reaching 0
/// for good. (An interval of 0 counts as 1.)
pub proof fn lemma_reward_halves_each_interval(initial_reward: u64, halving_interval: u64, height: u64)
    ensures
        height < (if halving_interval < 1 { 1 } else { halving_interval })
            ==> block_reward_spec(initial_reward, halving_interval, height) == initial_reward,
        height + (if halving_interval < 1 { 1 } else { halving_interval }) <= u64::MAX ==>
            block_reward_spec(initial_reward, halving_interval, (height + (if halving_interval < 1 { 1 } else { halving_interval })) as u64)
                == block_reward_spec(initial_reward, halving_interval, height) / 2,
{
    let i: u64 = if halving_interval < 1 { 1 } else { halving_interval };
    if height < i {
        vstd::arithmetic::div_mod::lemma_basic_div(height as int, i as int);
        assert(initial_reward >> 0u64 == initial_reward) by (bit_vector);
    }
    if height + i <= u64::MAX {
        let h2 = (height + i) as u64;
        let a = height / i;
        vstd::arithmetic::div_mod::lemma_div_plus_one(height as int, i as int);
        assert((i + height) as int / i as int == 1 + height as int / i as int);
        assert(h2 / i == a + 1);
        if a + 1 < 64 {
            let k: u64 = a;
            assert(initial_reward >> ((k + 1) as u64) == (initial_reward >> k) / 2) by (bit_vector)
                requires k < 63;
        } else if a == 63 {
            let k: u64 = a;
            assert((initial_reward >> k) / 2 == 0) by (bit_vector)
                requires k == 63;
        }
    }
}

/// The reward never grows with height and never exceeds the initial reward.
pub proof fn lemma_reward_never_increases(initial_reward: u64, halving_interval: u64, h1: u64, h2: u64)
    requires
        h1 <= h2,
    ensures
        block_reward_spec(initial_reward, halving_interval, h2) <= block_reward_spec(initial_reward, halving_interval, h1),
        block_reward_spec(initial_reward, halving_interval, h1) <= initial_reward,
{
    let i = if halving_interval < 1 { 1 } else { halving_interval };
    let a = h1 / i;
    let b = h2 / i;
    vstd::arithmetic::div_mod::lemma_div_is_ordered(h1 as int, h2 as int, i as int);
    assert(a <= b);
    if b < 64 {
        assert(initial_reward >> b <= initial_reward >> a) by (bit_vector)
            requires a <= b, b < 64;
    }
    if a < 64 {
        assert(initial_reward >> a <= initial_reward) by (bit_vector);
    }
}

/// The bytes hashed to name the genesis block:
/// `ONDRIS_GENESIS:<network name>:<timestamp>`.
pub open spec fn genesis_tag(network_name: Seq<char>, timestamp: u64) -> Seq<u8> {
    "ONDRIS_GENESIS:".spec_bytes() + utf8_of(network_name) + ":".spec_bytes() + decimal_bytes(timestamp as nat)
}

/// Fixed block hash for genesis (genesis is not mined).
pub fn genesis_block_hash(genesis: &GenesisConfig) -> (h: Hash256)
    ensures
        h.0@ == blake3_digest(genesis_tag(genesis.network_name@, genesis.timestamp)),
{
    let mut v: Vec<u8> = Vec::new();
    push_str(&mut v, "ONDRIS_GENESIS:");
    push_str(&mut v, genesis.network_name.as_str());
    push_str(&mut v, ":");
    push_decimal(&mut v, genesis.timestamp);
    Hash256::hash(v.as_slice())
}

} // verus!
