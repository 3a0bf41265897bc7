//! One participant's committed wager, and the fee policy applied when it is
//! placed.

use vstd::prelude::*;

verus! {

/// A wager recorded in a round. `stake` is what was debited from the
/// participant; `amount` is what entered the pool (the stake less the fee),
/// and is what a refund returns and a payout multiplies.
#[derive(Clone, Copy, Debug, PartialEq, Eq, Structural)]
pub struct Wager {
    pub participant: u64,
    pub side: usize,
    pub stake: u32,
    pub amount: u32,
    pub placed_at: i64,
}

/// The non-refundable fee withheld from each stake: `percent` of it, rounded
/// down, and never more than `cap`. The default policy withholds nothing.
#[derive(Clone, Copy, Debug, PartialEq, Eq, Structural)]
pub struct FeePolicy {
    pub percent: u32,
    pub cap: u32,
}

impl FeePolicy {
    pub open spec fn wf(self) -> bool {
        self.percent <= 100
    }

    pub open spec fn fee_spec(self, stake: u32) -> nat {
        let f = (stake as nat * self.percent as nat) / 100;
        if f <= self.cap as nat {
            f
        } else {
            self.cap as nat
        }
    }

    /// The policy that withholds nothing.
    pub fn none() -> (r: FeePolicy)
        ensures
            r.wf(),
            r.percent == 0,
            r.cap == 0,
            forall|s: u32| #[trigger] r.fee_spec(s) == 0,
    {
        FeePolicy { percent: 0, cap: 0 }
    }

    /// Withholds a tenth of each stake, up to 100 units.
    pub fn tithe() -> (r: FeePolicy)
        ensures
            r.wf(),
            r.percent == 10,
            r.cap == 100,
    {
        FeePolicy { percent: 10, cap: 100 }
    }

    /// The fee withheld from `stake`.
    pub fn fee(&self, stake: u32) -> (r: u32)
        requires
            self.wf(),
        ensures
            r == self.fee_spec(stake),
            r <= stake,
    {
        proof {
            assert(stake as nat * self.percent as nat <= stake as nat * 100) by (nonlinear_arith)
                requires
                    self.percent <= 100,
            ;
        }
        let f: u64 = (stake as u64 * self.percent as u64) / 100;
        if f <= self.cap as u64 {
            f as u32
        } else {
            self.cap
        }
    }
}

impl Default for FeePolicy {
    fn default() -> (r: FeePolicy)
        ensures
            r.percent == 0,
            r.cap == 0,
    {
        FeePolicy::none()
    }
}

/// Why a wager was not recorded.
#[derive(Clone, Copy, Debug, PartialEq, Eq, Structural)]
pub enum WagerError {
    /// The round takes no new entrant (stopped or resolved), or, when placing,
    /// it is already resolved.
    RoundClosed,
    /// The chosen side is not one of the round's sides.
    UnknownSide,
    /// The amount is not a positive whole number.
    InvalidAmount,
    /// The participant, or one of their groups, is on the round's denylist.
    Ineligible,
    /// The participant already has a wager in this round.
    AlreadyWagered,
    /// The participant's balance is below the amount.
    InsufficientFunds,
}

/// Whether `participant`, or any of the groups they belong to, is denied.
pub open spec fn denied(denylist: Seq<u64>, participant: u64, groups: Seq<u64>) -> bool {
    denylist.contains(participant) || exists|g: int| 0 <= g < groups.len() && denylist.contains(#[trigger] groups[g])
}

fn list_contains(list: &Vec<u64>, x: u64) -> (r: bool)
    ensures
        r == list@.contains(x),
{
    let mut i: usize = 0;
    while i < list.len()
        invariant
            i <= list@.len(),
            forall|j: int| 0 <= j < i ==> list@[j] != x,
        decreases list@.len() - i,
    {
        if list[i] == x {
            return true;
        }
        i = i + 1;
    }
    false
}

/// Whether the denylist bars `participant`, directly or through one of the
/// groups they belong to.
pub fn is_denied(denylist: &Vec<u64>, participant: u64, groups: &Vec<u64>) -> (r: bool)
    ensures
        r == denied(denylist@, participant, groups@),
{
    if list_contains(denylist, participant) {
        return true;
    }
    let mut i: usize = 0;
    while i < groups.len()
        invariant
            i <= groups@.len(),
            forall|j: int| 0 <= j < i ==> !denylist@.contains(#[trigger] groups@[j]),
        decreases groups@.len() - i,
    {
        if list_contains(denylist, groups[i]) {
            return true;
        }
        i = i + 1;
    }
    false
}

} // verus!
