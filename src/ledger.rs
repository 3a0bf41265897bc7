//! Balances of participants, independent of any round. A participant with no
//! account yet has the starting grant: the account is opened on first
//! contact. Balances change only by a debit when a wager is placed and a
//! credit when a round is settled.

use vstd::prelude::*;
use vstd::hash_map::HashMapWithView;

verus! {

broadcast use vstd::std_specs::hash::group_hash_axioms;

/// What a new participant starts with.
pub const STARTING_GRANT: u64 = 1000;

pub struct Ledger {
    accounts: HashMapWithView<u64, u64>,
    grant: u64,
}

/// A ledger as its accounts and the grant that a new account starts with.
pub ghost struct LedgerView {
    pub accounts: Map<u64, u64>,
    pub grant: u64,
}

impl LedgerView {
    /// The balance of `p`: the starting grant if `p` has no account yet.
    pub open spec fn balance_of(self, p: u64) -> nat {
        if self.accounts.contains_key(p) {
            self.accounts[p] as nat
        } else {
            self.grant as nat
        }
    }

    /// The ledger after `amount` is taken from `p`, whose balance covers it.
    pub open spec fn debited(self, p: u64, amount: nat) -> LedgerView {
        LedgerView {
            accounts: self.accounts.insert(p, (self.balance_of(p) - amount) as u64),
            grant: self.grant,
        }
    }

    /// The ledger after `amount` is given to `p`; a balance never exceeds
    /// `u64::MAX`.
    pub open spec fn credited(self, p: u64, amount: nat) -> LedgerView {
        let b = self.balance_of(p) + amount;
        LedgerView {
            accounts: self.accounts.insert(p, if b <= u64::MAX { b as u64 } else { u64::MAX }),
            grant: self.grant,
        }
    }
}

impl View for Ledger {
    type V = LedgerView;

    closed spec fn view(&self) -> LedgerView {
        LedgerView { accounts: self.accounts@, grant: self.grant }
    }
}

impl Ledger {
    /// An empty ledger whose new accounts start with `grant`.
    pub fn new(grant: u64) -> (r: Ledger)
        ensures
            r@.accounts == Map::<u64, u64>::empty(),
            r@.grant == grant,
    {
        Ledger { accounts: HashMapWithView::new(), grant }
    }

    /// An empty ledger whose new accounts start with [`STARTING_GRANT`].
    pub fn with_starting_grant() -> (r: Ledger)
        ensures
            r@.accounts == Map::<u64, u64>::empty(),
            r@.grant == STARTING_GRANT,
    {
        Ledger::new(STARTING_GRANT)
    }

    /// Puts back an account as the store holds it, such as on start-up.
    pub fn restore(&mut self, p: u64, balance: u64)
        ensures
            final(self)@.accounts == old(self)@.accounts.insert(p, balance),
            final(self)@.grant == old(self)@.grant,
    {
        self.accounts.insert(p, balance);
    }

    /// The balance of `p`, the starting grant if they have no account yet.
    pub fn balance(&self, p: u64) -> (r: u64)
        ensures
            r == self@.balance_of(p),
    {
        match self.accounts.get(&p) {
            Some(b) => *b,
            None => self.grant,
        }
    }

    /// Opens the account of `p` with the starting grant, if it has none, and
    /// returns its balance.
    pub fn open_account(&mut self, p: u64) -> (r: u64)
        ensures
            r == old(self)@.balance_of(p),
            final(self)@.accounts == old(self)@.accounts.insert(p, r),
            final(self)@.grant == old(self)@.grant,
    {
        let b = self.balance(p);
        self.accounts.insert(p, b);
        proof {
            if old(self)@.accounts.contains_key(p) {
                assert(old(self)@.accounts.insert(p, b) =~= old(self)@.accounts);
            }
        }
        b
    }

    /// Takes `amount` from `p` if their balance covers it, in one step, and
    /// tells whether it did.
    pub fn try_debit(&mut self, p: u64, amount: u64) -> (r: bool)
        ensures
            r == (amount as nat <= old(self)@.balance_of(p)),
            r ==> final(self)@ == old(self)@.debited(p, amount as nat),
            !r ==> final(self)@ == old(self)@,
    {
        let b = self.balance(p);
        if b < amount {
            return false;
        }
        self.accounts.insert(p, b - amount);
        true
    }

    /// Gives `amount` to `p`. A balance that would pass `u64::MAX` stays there.
    pub fn credit(&mut self, p: u64, amount: u128)
        ensures
            final(self)@ == old(self)@.credited(p, amount as nat),
    {
        let b = self.balance(p);
        let sum: u128 = if amount <= u64::MAX as u128 {
            b as u128 + amount
        } else {
            u64::MAX as u128 + 1
        };
        let nb: u64 = if sum <= u64::MAX as u128 {
            sum as u64
        } else {
            u64::MAX
        };
        self.accounts.insert(p, nb);
    }
}

} // verus!
