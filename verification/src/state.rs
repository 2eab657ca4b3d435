//! Account state: balances and nonces, and an in-memory set of accounts
//! that consensus reads and updates.

use vstd::prelude::*;

use crate::primitives::Address;

verus! {

#[derive(Clone, Copy, Debug, PartialEq, Eq, Structural)]
pub struct Account {
    pub balance: u64,
    /// Next expected transaction `account_nonce` (anti-replay protection).
    pub nonce: u64,
}

/// A fresh account: no balance, nonce 0.
pub open spec fn empty_account() -> Account {
    Account { balance: 0, nonce: 0 }
}

impl Default for Account {
    fn default() -> (a: Account)
        ensures
            a == empty_account(),
    {
        Account { balance: 0, nonce: 0 }
    }
}

/// The account stored under `a`, or a fresh one.
pub open spec fn account_in(m: Map<Seq<u8>, Account>, a: Seq<u8>) -> Account {
    if m.contains_key(a) { m[a] } else { empty_account() }
}

/// The map an entry list describes, later entries overriding earlier ones.
pub open spec fn entries_map(s: Seq<(Address, Account)>) -> Map<Seq<u8>, Account>
    decreases s.len(),
{
    if s.len() == 0 {
        Map::empty()
    } else {
        entries_map(s.drop_last()).insert(s.last().0.0@, s.last().1)
    }
}

/// Accounts by address, held in memory.
pub struct Accounts {
    entries: Vec<(Address, Account)>,
}

impl View for Accounts {
    type V = Map<Seq<u8>, Account>;

    closed spec fn view(&self) -> Map<Seq<u8>, Account> {
        entries_map(self.entries@)
    }
}

impl Accounts {
    pub fn new() -> (s: Accounts)
        ensures
            s@ == Map::<Seq<u8>, Account>::empty(),
    {
        Accounts { entries: Vec::new() }
    }

    /// The account under `addr` (a fresh account if none is stored).
    pub fn get(&self, addr: &Address) -> (a: Account)
        ensures
            a == account_in(self@, addr.0@),
    {
        let mut i = self.entries.len();
        let ghost e = self.entries@;
        assert(e.take(i as int) =~= e);
        while i > 0
            invariant
                0 <= i <= e.len(),
                e == self.entries@,
                account_in(entries_map(e), addr.0@) == account_in(entries_map(e.take(i as int)), addr.0@),
            decreases i,
        {
            assert(e.take(i as int).drop_last() =~= e.take(i - 1));
            let entry = self.entries[i - 1];
            if entry.0 == *addr {
                return entry.1;
            }
            i = i - 1;
        }
        assert(e.take(0) =~= Seq::<(Address, Account)>::empty());
        Account { balance: 0, nonce: 0 }
    }

    /// Stores `account` under `addr`.
    pub fn set(&mut self, addr: &Address, account: Account)
        ensures
            final(self)@ == old(self)@.insert(addr.0@, account),
    {
        let ghost before = self.entries@;
        self.entries.push((*addr, account));
        assert(self.entries@.drop_last() =~= before);
    }

    /// Adds `amount` to the balance under `addr`, saturating at `u64::MAX`.
    pub fn credit(&mut self, addr: &Address, amount: u64)
        ensures
            final(self)@ == old(self)@.insert(addr.0@, credit_spec(account_in(old(self)@, addr.0@), amount)),
    {
        let mut acc = self.get(addr);
        acc.balance = acc.balance.saturating_add(amount);
        self.set(addr, acc);
    }

    /// The stored entries, in the order they were written; later entries
    /// override earlier ones for the same address.
    pub fn entries(&self) -> (v: Vec<(Address, Account)>)
        ensures
            entries_map(v@) == self@,
    {
        let mut v: Vec<(Address, Account)> = Vec::new();
        let mut i: usize = 0;
        while i < self.entries.len()
            invariant
                0 <= i <= self.entries@.len(),
                v@ == self.entries@.take(i as int),
            decreases self.entries@.len() - i,
        {
            v.push(self.entries[i]);
            i = i + 1;
            assert(v@ =~= self.entries@.take(i as int));
        }
        assert(self.entries@.take(self.entries@.len() as int) =~= self.entries@);
        v
    }

    /// An independent copy.
    pub fn duplicate(&self) -> (c: Accounts)
        ensures
            c@ == self@,
    {
        Accounts { entries: self.entries() }
    }
}

/// `x + y` saturated at `u64::MAX`.
pub open spec fn saturating_add_u64(x: u64, y: u64) -> u64 {
    if x + y > u64::MAX { u64::MAX } else { (x + y) as u64 }
}

/// An account with `amount` credited, saturating.
pub open spec fn credit_spec(acc: Account, amount: u64) -> Account {
    Account { balance: saturating_add_u64(acc.balance, amount), nonce: acc.nonce }
}

} // verus!
