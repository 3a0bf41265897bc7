//! The live state of the process: the ledger and at most one active round.
//! Operators' commands and participants' wagers reach the round through it,
//! one at a time, under whatever lock holds it.

use vstd::prelude::*;
use crate::ledger::{Ledger, LedgerView};
use crate::odds::{SideOdds, odds_spec};
use crate::outcome::Outcome;
use crate::parse::{amount_of, parse_amount};
use vstd::string::StringSliceAdditionalSpecFns;
use crate::round::{fresh_round, Attempt, OpenError, ResolveError, RoundSession, RoundView, SettleError, Stage};
use crate::settlement::{Credit, credits_applied};
use crate::wager::{FeePolicy, WagerError};

verus! {

/// Why an operator's stop or end was refused.
#[derive(Clone, Copy, Debug, PartialEq, Eq, Structural)]
pub enum ControlError {
    /// No active round has that identity.
    NoSuchRound,
    /// The round was already stopped.
    AlreadyStopped,
    /// The round already has its outcome.
    AlreadyEnded,
    /// The outcome names a side that the round does not have.
    UnknownSide,
}

pub struct Coordinator {
    ledger: Ledger,
    active: Option<RoundSession>,
}

pub ghost struct CoordinatorView {
    pub ledger: LedgerView,
    pub active: Option<RoundView>,
}

impl CoordinatorView {
    pub open spec fn wf(self) -> bool {
        self.active matches Some(r) ==> r.wf()
    }

    /// The active round, if it has identity `target`.
    pub open spec fn round_with(self, target: u64) -> Option<RoundView> {
        match self.active {
            Some(r) => if r.id == target {
                Some(r)
            } else {
                None
            },
            None => None,
        }
    }
}

impl View for Coordinator {
    type V = CoordinatorView;

    closed spec fn view(&self) -> CoordinatorView {
        CoordinatorView {
            ledger: self.ledger@,
            active: match self.active {
                Some(r) => Some(r@),
                None => None,
            },
        }
    }
}

impl Coordinator {
    /// No round is active yet.
    pub fn new(ledger: Ledger) -> (r: Coordinator)
        ensures
            r@.wf(),
            r@.ledger == ledger@,
            r@.active is None,
    {
        Coordinator { ledger, active: None }
    }

    pub fn ledger(&self) -> (r: &Ledger)
        ensures
            r@ == self@.ledger,
    {
        &self.ledger
    }

    pub fn round(&self) -> (r: Option<&RoundSession>)
        ensures
            match r {
                Some(s) => self@.active == Some(s@),
                None => self@.active is None,
            },
    {
        self.active.as_ref()
    }

    /// The identity of the active round, if any.
    pub fn active_id(&self) -> (r: Option<u64>)
        ensures
            match self@.active {
                Some(v) => r == Some(v.id),
                None => r is None,
            },
    {
        match &self.active {
            Some(s) => Some(s.id()),
            None => None,
        }
    }

    /// Opens the account of `p` on first contact and returns its balance.
    pub fn account(&mut self, p: u64) -> (r: u64)
        ensures
            r == old(self)@.ledger.balance_of(p),
            final(self)@.ledger.accounts == old(self)@.ledger.accounts.insert(p, r),
            final(self)@.ledger.grant == old(self)@.ledger.grant,
            final(self)@.active == old(self)@.active,
    {
        self.ledger.open_account(p)
    }

    /// Opens a round, unless one is active already; a refused open changes
    /// nothing.
    pub fn open(&mut self, id: u64, sides: Vec<String>, denylist: Vec<u64>, fee: FeePolicy, now: i64) -> (r: Result<(), OpenError>)
        requires
            old(self)@.wf(),
        ensures
            final(self)@.wf(),
            final(self)@.ledger == old(self)@.ledger,
            old(self)@.active is Some ==> r == Err::<(), OpenError>(OpenError::AlreadyActive) && final(self)@ == old(self)@,
            old(self)@.active is None && sides@.len() < 2 ==> r == Err::<(), OpenError>(OpenError::TooFewSides) && final(self)@ == old(self)@,
            old(self)@.active is None && sides@.len() >= 2 && !fee.wf() ==> r == Err::<(), OpenError>(OpenError::InvalidFee) && final(self)@ == old(self)@,
            old(self)@.active is None && sides@.len() >= 2 && fee.wf() ==> r is Ok && final(self)@.active == Some(
                fresh_round(id, sides@.map_values(|s: String| s@), denylist@, fee, now),
            ),
    {
        if self.active.is_some() {
            return Err(OpenError::AlreadyActive);
        }
        match RoundSession::new(id, sides, denylist, fee, now) {
            Ok(s) => {
                self.active = Some(s);
                Ok(())
            },
            Err(e) => Err(e),
        }
    }

    /// The operator stops entry to the round `target`.
    pub fn stop(&mut self, target: u64, now: i64) -> (r: Result<(), ControlError>)
        requires
            old(self)@.wf(),
        ensures
            final(self)@.wf(),
            final(self)@.ledger == old(self)@.ledger,
            match old(self)@.round_with(target) {
                None => r == Err::<(), ControlError>(ControlError::NoSuchRound) && final(self)@ == old(self)@,
                Some(v) => if v.stage == Stage::Open {
                    r is Ok && final(self)@.active == Some(v.stopped(now))
                } else if v.stage == Stage::Stopped {
                    r == Err::<(), ControlError>(ControlError::AlreadyStopped) && final(self)@ == old(self)@
                } else {
                    r == Err::<(), ControlError>(ControlError::AlreadyEnded) && final(self)@ == old(self)@
                },
            },
    {
        let mut s = match self.active.take() {
            Some(s) => s,
            None => return Err(ControlError::NoSuchRound),
        };
        if s.id() != target {
            self.active = Some(s);
            return Err(ControlError::NoSuchRound);
        }
        let r = match s.stage() {
            Stage::Open => {
                s.stop(now);
                Ok(())
            },
            Stage::Stopped => Err(ControlError::AlreadyStopped),
            Stage::Resolved => Err(ControlError::AlreadyEnded),
        };
        self.active = Some(s);
        r
    }

    /// The operator ends the round `target` with `outcome`. From here on the
    /// round takes no wager, so a handler that reaches its commit late
    /// changes nothing.
    pub fn end(&mut self, target: u64, outcome: Outcome, now: i64) -> (r: Result<(), ControlError>)
        requires
            old(self)@.wf(),
        ensures
            final(self)@.wf(),
            final(self)@.ledger == old(self)@.ledger,
            match old(self)@.round_with(target) {
                None => r == Err::<(), ControlError>(ControlError::NoSuchRound) && final(self)@ == old(self)@,
                Some(v) => match v.resolved(outcome, now) {
                    Ok(v2) => r is Ok && final(self)@.active == Some(v2),
                    Err(ResolveError::AlreadyResolved) => r == Err::<(), ControlError>(ControlError::AlreadyEnded)
                        && final(self)@ == old(self)@,
                    Err(ResolveError::UnknownSide) => r == Err::<(), ControlError>(ControlError::UnknownSide)
                        && final(self)@ == old(self)@,
                },
            },
    {
        let mut s = match self.active.take() {
            Some(s) => s,
            None => return Err(ControlError::NoSuchRound),
        };
        if s.id() != target {
            self.active = Some(s);
            return Err(ControlError::NoSuchRound);
        }
        let r = match s.resolve(outcome, now) {
            Ok(()) => Ok(()),
            Err(ResolveError::AlreadyResolved) => Err(ControlError::AlreadyEnded),
            Err(ResolveError::UnknownSide) => Err(ControlError::UnknownSide),
        };
        self.active = Some(s);
        r
    }

    /// The checks a participant meets on engaging the active round.
    pub fn check_entry(&self, participant: u64, groups: &Vec<u64>) -> (r: Result<(), WagerError>)
        ensures
            match self@.active {
                None => r == Err::<(), WagerError>(WagerError::RoundClosed),
                Some(v) => r == match v.entry_error(participant, groups@) {
                    Some(e) => Err::<(), WagerError>(e),
                    None => Ok(()),
                },
            },
    {
        match &self.active {
            Some(s) => s.check_entry(participant, groups),
            None => Err(WagerError::RoundClosed),
        }
    }

    /// Places a wager in the active round, debiting the ledger in the same
    /// step.
    pub fn place_wager(&mut self, participant: u64, groups: &Vec<u64>, side: usize, amount: u32, now: i64) -> (r: Result<u32, WagerError>)
        requires
            old(self)@.wf(),
        ensures
            final(self)@.wf(),
            match old(self)@.active {
                None => r == Err::<u32, WagerError>(WagerError::RoundClosed) && final(self)@ == old(self)@,
                Some(v) => {
                    let a = Attempt { participant, groups: groups@, side, amount, at: now };
                    &&& final(self)@.active == Some(v.after_placement(old(self)@.ledger, a).0)
                    &&& final(self)@.ledger == v.after_placement(old(self)@.ledger, a).1
                    &&& r == match v.placement_error(old(self)@.ledger, a) {
                        Some(e) => Err::<u32, WagerError>(e),
                        None => Ok(v.recorded(a).amount),
                    }
                },
            },
    {
        let mut s = match self.active.take() {
            Some(s) => s,
            None => return Err(WagerError::RoundClosed),
        };
        let r = s.place_wager(&mut self.ledger, participant, groups, side, amount, now);
        self.active = Some(s);
        r
    }

    /// Places a wager whose amount the participant typed as `text`. Text
    /// that is no positive whole number is refused before anything else.
    pub fn place_typed_wager(&mut self, participant: u64, groups: &Vec<u64>, side: usize, text: &str, now: i64) -> (r: Result<u32, WagerError>)
        requires
            old(self)@.wf(),
        ensures
            final(self)@.wf(),
            match amount_of(text.spec_bytes()) {
                None => r == Err::<u32, WagerError>(WagerError::InvalidAmount) && final(self)@ == old(self)@,
                Some(amount) => match old(self)@.active {
                    None => r == Err::<u32, WagerError>(WagerError::RoundClosed) && final(self)@ == old(self)@,
                    Some(v) => {
                        let a = Attempt { participant, groups: groups@, side, amount, at: now };
                        &&& final(self)@.active == Some(v.after_placement(old(self)@.ledger, a).0)
                        &&& final(self)@.ledger == v.after_placement(old(self)@.ledger, a).1
                        &&& r == match v.placement_error(old(self)@.ledger, a) {
                            Some(e) => Err::<u32, WagerError>(e),
                            None => Ok(v.recorded(a).amount),
                        }
                    },
                },
            },
    {
        match parse_amount(text) {
            Some(amount) => self.place_wager(participant, groups, side, amount, now),
            None => Err(WagerError::InvalidAmount),
        }
    }

    /// The odds of the active round.
    pub fn odds(&self) -> (r: Option<Vec<SideOdds>>)
        ensures
            match self@.active {
                None => r is None,
                Some(v) => r matches Some(o) && odds_spec(o@, v.wagers, v.sides.len()),
            },
    {
        match &self.active {
            Some(s) => Some(s.current_odds()),
            None => None,
        }
    }

    /// Settles the active round once it is resolved, paying each wager.
    pub fn settle(&mut self) -> (r: Result<Vec<Credit>, SettleError>)
        requires
            old(self)@.wf(),
        ensures
            final(self)@.wf(),
            match old(self)@.active {
                None => r == Err::<Vec<Credit>, SettleError>(SettleError::NotResolved) && final(self)@ == old(self)@,
                Some(v) => match v.settle_error() {
                    Some(e) => (r matches Err(e2) && e2 == e && final(self)@ == old(self)@),
                    None => (r matches Ok(cs) && cs@ == v.settlement()
                        && final(self)@.ledger == credits_applied(old(self)@.ledger, cs@)
                        && final(self)@.active == Some(RoundView { settled: true, ..v })),
                },
            },
    {
        let mut s = match self.active.take() {
            Some(s) => s,
            None => return Err(SettleError::NotResolved),
        };
        let r = s.settle(&mut self.ledger);
        self.active = Some(s);
        r
    }

    /// Tears down the active round once it is settled, and hands it back.
    /// A round that is not settled stays.
    pub fn finish(&mut self) -> (r: Option<RoundSession>)
        requires
            old(self)@.wf(),
        ensures
            final(self)@.wf(),
            final(self)@.ledger == old(self)@.ledger,
            match old(self)@.active {
                Some(v) => if v.settled {
                    (r matches Some(s) && s@ == v && final(self)@.active is None)
                } else {
                    r is None && final(self)@ == old(self)@
                },
                None => r is None && final(self)@ == old(self)@,
            },
    {
        let s = match self.active.take() {
            Some(s) => s,
            None => return None,
        };
        if s.is_settled() {
            Some(s)
        } else {
            self.active = Some(s);
            None
        }
    }
}

} // verus!
