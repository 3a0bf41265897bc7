//! One betting round: its sides, denylist and lifecycle, the wagers placed
//! in it, and the checks that each placement passes in one critical step.

use vstd::prelude::*;
use crate::ledger::{Ledger, LedgerView};
use crate::odds::{SideOdds, compute_odds, odds_spec};
use crate::outcome::Outcome;
use crate::settlement::{Credit, apply_credits, credit_for, credits_applied, plan_settlement};
use crate::wager::{FeePolicy, Wager, WagerError, denied, is_denied};

verus! {

/// Where a round is in its life: it takes wagers while open, stops taking them
/// when stopped, and is resolved once its outcome is known.
#[derive(Clone, Copy, Debug, PartialEq, Eq, Structural)]
pub enum Stage {
    Open,
    Stopped,
    Resolved,
}

#[derive(Clone, Copy, Debug, PartialEq, Eq, Structural)]
pub enum OpenError {
    /// Another round is active in this process.
    AlreadyActive,
    /// A round needs at least two sides.
    TooFewSides,
    /// A fee of more than the whole stake.
    InvalidFee,
}

#[derive(Clone, Copy, Debug, PartialEq, Eq, Structural)]
pub enum ResolveError {
    /// The round already has its outcome; it is not applied twice.
    AlreadyResolved,
    /// The outcome names a side that the round does not have.
    UnknownSide,
}

#[derive(Clone, Copy, Debug, PartialEq, Eq, Structural)]
pub enum SettleError {
    /// The round has no outcome yet.
    NotResolved,
    /// The round was settled before; its credits are paid once.
    AlreadySettled,
}

pub struct RoundSession {
    id: u64,
    sides: Vec<String>,
    denylist: Vec<u64>,
    fee: FeePolicy,
    stage: Stage,
    outcome: Option<Outcome>,
    wagers: Vec<Wager>,
    started_at: i64,
    stopped_at: Option<i64>,
    ended_at: Option<i64>,
    settled: bool,
}

pub ghost struct RoundView {
    pub id: u64,
    pub sides: Seq<Seq<char>>,
    pub denylist: Seq<u64>,
    pub fee: FeePolicy,
    pub stage: Stage,
    pub outcome: Option<Outcome>,
    pub wagers: Seq<Wager>,
    pub started_at: i64,
    pub stopped_at: Option<i64>,
    pub ended_at: Option<i64>,
    pub settled: bool,
}

/// One attempt to place a wager.
pub ghost struct Attempt {
    pub participant: u64,
    pub groups: Seq<u64>,
    pub side: usize,
    pub amount: u32,
    pub at: i64,
}

/// Whether `p` has a wager among `ws`.
pub open spec fn has_wager(ws: Seq<Wager>, p: u64) -> bool {
    exists|i: int| 0 <= i < ws.len() && (#[trigger] ws[i]).participant == p
}

/// No participant has two wagers among `ws`.
pub open spec fn one_per_participant(ws: Seq<Wager>) -> bool {
    forall|i: int, j: int|
        0 <= i < ws.len() && 0 <= j < ws.len() && i != j ==> (#[trigger] ws[i]).participant
            != (#[trigger] ws[j]).participant
}

/// A round as it is when it opens.
pub open spec fn fresh_round(id: u64, sides: Seq<Seq<char>>, denylist: Seq<u64>, fee: FeePolicy, now: i64) -> RoundView {
    RoundView {
        id,
        sides,
        denylist,
        fee,
        stage: Stage::Open,
        outcome: None,
        wagers: Seq::empty(),
        started_at: now,
        stopped_at: None,
        ended_at: None,
        settled: false,
    }
}

impl RoundView {
    pub open spec fn wf(self) -> bool {
        &&& self.sides.len() >= 2
        &&& self.fee.wf()
        &&& one_per_participant(self.wagers)
        &&& forall|i: int| 0 <= i < self.wagers.len() ==> (#[trigger] self.wagers[i]).side < self.sides.len()
        &&& (self.stage == Stage::Resolved) == (self.outcome is Some)
        &&& self.outcome matches Some(o) ==> o.fits(self.sides.len())
        &&& self.settled ==> self.stage == Stage::Resolved
    }

    /// Why `participant`, who belongs to `groups`, is turned away on engaging
    /// the round, before an amount is asked for, or none.
    pub open spec fn entry_error(self, participant: u64, groups: Seq<u64>) -> Option<WagerError> {
        if self.stage != Stage::Open {
            Some(WagerError::RoundClosed)
        } else if denied(self.denylist, participant, groups) {
            Some(WagerError::Ineligible)
        } else if has_wager(self.wagers, participant) {
            Some(WagerError::AlreadyWagered)
        } else {
            None
        }
    }

    /// Why `a` is refused, checked in this order, or none. A stopped round
    /// admits no new entrant (see `entry_error`), but a participant who entered
    /// before the stop may still commit; once resolved, nothing is committed.
    pub open spec fn placement_error(self, l: LedgerView, a: Attempt) -> Option<WagerError> {
        if self.stage == Stage::Resolved {
            Some(WagerError::RoundClosed)
        } else if a.side >= self.sides.len() {
            Some(WagerError::UnknownSide)
        } else if a.amount == 0 {
            Some(WagerError::InvalidAmount)
        } else if denied(self.denylist, a.participant, a.groups) {
            Some(WagerError::Ineligible)
        } else if has_wager(self.wagers, a.participant) {
            Some(WagerError::AlreadyWagered)
        } else if l.balance_of(a.participant) < a.amount {
            Some(WagerError::InsufficientFunds)
        } else {
            None
        }
    }

    /// The wager that `a` records: the stake less the fee goes to the pool.
    pub open spec fn recorded(self, a: Attempt) -> Wager {
        Wager {
            participant: a.participant,
            side: a.side,
            stake: a.amount,
            amount: (a.amount - self.fee.fee_spec(a.amount)) as u32,
            placed_at: a.at,
        }
    }

    /// The round and ledger after `a`: both unchanged when it is refused;
    /// otherwise the stake is debited and the wager recorded together.
    pub open spec fn after_placement(self, l: LedgerView, a: Attempt) -> (RoundView, LedgerView) {
        if self.placement_error(l, a) is Some {
            (self, l)
        } else {
            (
                RoundView { wagers: self.wagers.push(self.recorded(a)), ..self },
                l.debited(a.participant, a.amount as nat),
            )
        }
    }

    /// The round after `stop`: an open round stops; any other is unchanged.
    pub open spec fn stopped(self, now: i64) -> RoundView {
        if self.stage == Stage::Open {
            RoundView { stage: Stage::Stopped, stopped_at: Some(now), ..self }
        } else {
            self
        }
    }

    /// The round after `resolve`, or why it is refused.
    pub open spec fn resolved(self, outcome: Outcome, now: i64) -> Result<RoundView, ResolveError> {
        if self.stage == Stage::Resolved {
            Err(ResolveError::AlreadyResolved)
        } else if !outcome.fits(self.sides.len()) {
            Err(ResolveError::UnknownSide)
        } else {
            Ok(
                RoundView {
                    stage: Stage::Resolved,
                    outcome: Some(outcome),
                    stopped_at: if self.stopped_at is Some {
                        self.stopped_at
                    } else {
                        Some(now)
                    },
                    ended_at: Some(now),
                    ..self
                },
            )
        }
    }

    /// Why settlement is refused, or none.
    pub open spec fn settle_error(self) -> Option<SettleError> {
        if self.stage != Stage::Resolved {
            Some(SettleError::NotResolved)
        } else if self.settled {
            Some(SettleError::AlreadySettled)
        } else {
            None
        }
    }

    /// The credits that settling the round pays, one per wager in order.
    pub open spec fn settlement(self) -> Seq<Credit> {
        Seq::new(self.wagers.len(), |i: int| credit_for(self.wagers[i], self.wagers, self.outcome.unwrap()))
    }
}

/// A placement keeps a round well formed.
pub proof fn lemma_placement_keeps_wf(v: RoundView, l: LedgerView, a: Attempt)
    requires
        v.wf(),
    ensures
        v.after_placement(l, a).0.wf(),
{
    if v.placement_error(l, a) is None {
        let w = v.recorded(a);
        let ws = v.wagers.push(w);
        assert forall|i: int, j: int|
            0 <= i < ws.len() && 0 <= j < ws.len() && i != j
            implies (#[trigger] ws[i]).participant != (#[trigger] ws[j]).participant by {
            if i == v.wagers.len() {
                assert(v.wagers[j] == ws[j]);
            } else if j == v.wagers.len() {
                assert(v.wagers[i] == ws[i]);
            } else {
                assert(v.wagers[i] == ws[i]);
                assert(v.wagers[j] == ws[j]);
            }
        }
        assert forall|i: int| 0 <= i < ws.len() implies (#[trigger] ws[i]).side < v.sides.len() by {
            if i < v.wagers.len() {
                assert(v.wagers[i] == ws[i]);
            }
        }
    }
}

impl View for RoundSession {
    type V = RoundView;

    closed spec fn view(&self) -> RoundView {
        RoundView {
            id: self.id,
            sides: self.sides@.map_values(|s: String| s@),
            denylist: self.denylist@,
            fee: self.fee,
            stage: self.stage,
            outcome: self.outcome,
            wagers: self.wagers@,
            started_at: self.started_at,
            stopped_at: self.stopped_at,
            ended_at: self.ended_at,
            settled: self.settled,
        }
    }
}

impl RoundSession {
    /// Opens a round with identity `id` on `sides`, barring the participants
    /// and groups in `denylist`, and withholding `fee` from each stake.
    pub fn new(id: u64, sides: Vec<String>, denylist: Vec<u64>, fee: FeePolicy, now: i64) -> (r: Result<RoundSession, OpenError>)
        ensures
            sides@.len() < 2 ==> r == Err::<RoundSession, OpenError>(OpenError::TooFewSides),
            sides@.len() >= 2 && !fee.wf() ==> r == Err::<RoundSession, OpenError>(OpenError::InvalidFee),
            sides@.len() >= 2 && fee.wf() ==> (r matches Ok(s) && s@ == fresh_round(
                id,
                sides@.map_values(|s: String| s@),
                denylist@,
                fee,
                now,
            ) && s@.wf()),
    {
        if sides.len() < 2 {
            return Err(OpenError::TooFewSides);
        }
        if fee.percent > 100 {
            return Err(OpenError::InvalidFee);
        }
        let s = RoundSession {
            id,
            sides,
            denylist,
            fee,
            stage: Stage::Open,
            outcome: None,
            wagers: Vec::new(),
            started_at: now,
            stopped_at: None,
            ended_at: None,
            settled: false,
        };
        Ok(s)
    }

    pub fn id(&self) -> (r: u64)
        ensures
            r == self@.id,
    {
        self.id
    }

    pub fn stage(&self) -> (r: Stage)
        ensures
            r == self@.stage,
    {
        self.stage
    }

    pub fn outcome(&self) -> (r: Option<Outcome>)
        ensures
            r == self@.outcome,
    {
        self.outcome
    }

    pub fn sides(&self) -> (r: &Vec<String>)
        ensures
            r@.map_values(|s: String| s@) == self@.sides,
    {
        &self.sides
    }

    pub fn n_sides(&self) -> (r: usize)
        ensures
            r == self@.sides.len(),
    {
        self.sides.len()
    }

    pub fn denylist(&self) -> (r: &Vec<u64>)
        ensures
            r@ == self@.denylist,
    {
        &self.denylist
    }

    pub fn wagers(&self) -> (r: &Vec<Wager>)
        ensures
            r@ == self@.wagers,
    {
        &self.wagers
    }

    pub fn started_at(&self) -> (r: i64)
        ensures
            r == self@.started_at,
    {
        self.started_at
    }

    pub fn stopped_at(&self) -> (r: Option<i64>)
        ensures
            r == self@.stopped_at,
    {
        self.stopped_at
    }

    pub fn ended_at(&self) -> (r: Option<i64>)
        ensures
            r == self@.ended_at,
    {
        self.ended_at
    }

    pub fn is_settled(&self) -> (r: bool)
        ensures
            r == self@.settled,
    {
        self.settled
    }

    fn find_wager(&self, p: u64) -> (r: bool)
        ensures
            r == has_wager(self@.wagers, p),
    {
        let mut i: usize = 0;
        while i < self.wagers.len()
            invariant
                i <= self.wagers@.len(),
                forall|j: int| 0 <= j < i ==> (#[trigger] self.wagers@[j]).participant != p,
            decreases self.wagers@.len() - i,
        {
            if self.wagers[i].participant == p {
                assert(self.wagers@[i as int].participant == p);
                return true;
            }
            i = i + 1;
        }
        false
    }

    /// The checks a participant meets on engaging the round, before they are
    /// asked for an amount. They are made again when the wager is placed.
    pub fn check_entry(&self, participant: u64, groups: &Vec<u64>) -> (r: Result<(), WagerError>)
        ensures
            r == match self@.entry_error(participant, groups@) {
                Some(e) => Err::<(), WagerError>(e),
                None => Ok(()),
            },
    {
        if self.stage != Stage::Open {
            return Err(WagerError::RoundClosed);
        }
        if is_denied(&self.denylist, participant, groups) {
            return Err(WagerError::Ineligible);
        }
        if self.find_wager(participant) {
            return Err(WagerError::AlreadyWagered);
        }
        Ok(())
    }

    /// Places the wager of `participant`, who belongs to `groups`, of `amount`
    /// on `side`, at time `now`. A stopped round still takes the wager of a
    /// handler that was in flight when it stopped; a resolved one takes none. The checks, the debit and the record happen in
    /// this one call: either all of it takes effect or none does. Returns the
    /// amount that entered the pool.
    pub fn place_wager(
        &mut self,
        ledger: &mut Ledger,
        participant: u64,
        groups: &Vec<u64>,
        side: usize,
        amount: u32,
        now: i64,
    ) -> (r: Result<u32, WagerError>)
        requires
            old(self)@.wf(),
        ensures
            final(self)@.wf(),
            (final(self)@, final(ledger)@) == old(self)@.after_placement(
                old(ledger)@,
                (Attempt { participant, groups: groups@, side, amount, at: now }),
            ),
            r == match old(self)@.placement_error(
                old(ledger)@,
                (Attempt { participant, groups: groups@, side, amount, at: now }),
            ) {
                Some(e) => Err::<u32, WagerError>(e),
                None => Ok(old(self)@.recorded((Attempt { participant, groups: groups@, side, amount, at: now })).amount),
            },
    {
        let ghost a = Attempt { participant, groups: groups@, side, amount, at: now };
        if self.stage == Stage::Resolved {
            return Err(WagerError::RoundClosed);
        }
        if side >= self.sides.len() {
            return Err(WagerError::UnknownSide);
        }
        if amount == 0 {
            return Err(WagerError::InvalidAmount);
        }
        if is_denied(&self.denylist, participant, groups) {
            return Err(WagerError::Ineligible);
        }
        if self.find_wager(participant) {
            return Err(WagerError::AlreadyWagered);
        }
        if !ledger.try_debit(participant, amount as u64) {
            return Err(WagerError::InsufficientFunds);
        }
        let fee = self.fee.fee(amount);
        let w = Wager { participant, side, stake: amount, amount: amount - fee, placed_at: now };
        self.wagers.push(w);
        proof {
            lemma_placement_keeps_wf(old(self)@, old(ledger)@, a);
            assert(self@ == old(self)@.after_placement(old(ledger)@, a).0);
        }
        Ok(amount - fee)
    }

    /// The odds of every side, from the wagers recorded so far. Any time,
    /// also after the round is resolved.
    pub fn current_odds(&self) -> (r: Vec<SideOdds>)
        ensures
            odds_spec(r@, self@.wagers, self@.sides.len()),
    {
        compute_odds(&self.wagers, self.sides.len())
    }

    /// Stops taking wagers. Tells whether the round was open; a second call,
    /// or one on a resolved round, changes nothing.
    pub fn stop(&mut self, now: i64) -> (r: bool)
        requires
            old(self)@.wf(),
        ensures
            r == (old(self)@.stage == Stage::Open),
            final(self)@ == old(self)@.stopped(now),
            final(self)@.wf(),
    {
        if self.stage == Stage::Open {
            self.stage = Stage::Stopped;
            self.stopped_at = Some(now);
            true
        } else {
            false
        }
    }

    /// Gives the round its outcome, once: a resolved round refuses another.
    pub fn resolve(&mut self, outcome: Outcome, now: i64) -> (r: Result<(), ResolveError>)
        requires
            old(self)@.wf(),
        ensures
            final(self)@.wf(),
            match old(self)@.resolved(outcome, now) {
                Ok(v) => r == Ok::<(), ResolveError>(()) && final(self)@ == v,
                Err(e) => r == Err::<(), ResolveError>(e) && final(self)@ == old(self)@,
            },
    {
        if self.stage == Stage::Resolved {
            return Err(ResolveError::AlreadyResolved);
        }
        match outcome {
            Outcome::Side(k) => {
                if k >= self.sides.len() {
                    return Err(ResolveError::UnknownSide);
                }
            },
            _ => {},
        }
        self.stage = Stage::Resolved;
        self.outcome = Some(outcome);
        if self.stopped_at.is_none() {
            self.stopped_at = Some(now);
        }
        self.ended_at = Some(now);
        Ok(())
    }

    /// Pays every wager of the resolved round what it earns, once, and
    /// returns the credits in the order of the wagers.
    pub fn settle(&mut self, ledger: &mut Ledger) -> (r: Result<Vec<Credit>, SettleError>)
        requires
            old(self)@.wf(),
        ensures
            final(self)@.wf(),
            match old(self)@.settle_error() {
                Some(e) => (r matches Err(e2) && e2 == e && final(self)@ == old(self)@ && final(ledger)@ == old(ledger)@),
                None => (r matches Ok(cs) && cs@ == old(self)@.settlement()
                    && final(ledger)@ == credits_applied(old(ledger)@, cs@)
                    && final(self)@ == (RoundView { settled: true, ..old(self)@ })),
            },
    {
        if self.stage != Stage::Resolved {
            return Err(SettleError::NotResolved);
        }
        if self.settled {
            return Err(SettleError::AlreadySettled);
        }
        let outcome = match self.outcome {
            Some(o) => o,
            None => Outcome::Cancelled,
        };
        let credits = plan_settlement(&self.wagers, outcome, self.sides.len());
        apply_credits(ledger, &credits);
        self.settled = true;
        proof {
            assert(credits@ =~= old(self)@.settlement());
        }
        Ok(credits)
    }
}

} // verus!
