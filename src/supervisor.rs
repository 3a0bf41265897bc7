//! The decisions of a round's supervisor. The supervisor races three
//! sources: interactions from participants, the operator's stop, and the
//! operator's end with an outcome. Whoever drives it hands each event to
//! [`Supervisor::on_event`] and performs the action that comes back.
//!
//! Policy for an end signal whose sender is gone before it fired: the round
//! ends as cancelled and every wager is refunded.

use vstd::prelude::*;
use crate::outcome::Outcome;

verus! {

#[derive(Clone, Copy, Debug, PartialEq, Eq, Structural)]
pub enum Phase {
    /// Entry is open: every interaction becomes a wager handler.
    Accepting,
    /// Entry is closed; the outcome is not known yet.
    Stopped,
    /// The outcome is known and settlement is under way.
    Settling(Outcome),
    /// Settlement is done and the round is torn down.
    Finished,
}

#[derive(Clone, Copy, Debug, PartialEq, Eq, Structural)]
pub enum Event {
    /// A participant engaged the round.
    Interaction,
    /// The stream of interactions ended.
    IntakeClosed,
    /// The operator stopped entry.
    Stop,
    /// The operator ended the round with an outcome.
    End(Outcome),
    /// The end signal can never fire: its sender is gone.
    EndLost,
    /// Settlement has completed.
    Settled,
}

#[derive(Clone, Copy, Debug, PartialEq, Eq, Structural)]
pub enum Action {
    /// Start a wager handler for the interaction.
    SpawnHandler,
    /// Nothing to do for this event.
    Ignore,
    /// Stop consuming interactions, show that entry is closed, let the
    /// handlers in flight finish, then wait for the end signal.
    CloseEntry,
    /// Resolve the round with `outcome` and settle it; when `abort_handlers`
    /// holds, first abort every handler still in flight.
    Settle { outcome: Outcome, abort_handlers: bool },
    /// Remove the round from live state and release its signals.
    TearDown,
}

/// The phase after `e` in phase `p`, and what to do about it.
pub open spec fn next(p: Phase, e: Event) -> (Phase, Action) {
    match p {
        Phase::Accepting => match e {
            Event::Interaction => (Phase::Accepting, Action::SpawnHandler),
            Event::IntakeClosed | Event::Stop => (Phase::Stopped, Action::CloseEntry),
            Event::End(o) => (Phase::Settling(o), Action::Settle { outcome: o, abort_handlers: true }),
            Event::EndLost => (
                Phase::Settling(Outcome::Cancelled),
                Action::Settle { outcome: Outcome::Cancelled, abort_handlers: true },
            ),
            Event::Settled => (p, Action::Ignore),
        },
        Phase::Stopped => match e {
            Event::End(o) => (Phase::Settling(o), Action::Settle { outcome: o, abort_handlers: false }),
            Event::EndLost => (
                Phase::Settling(Outcome::Cancelled),
                Action::Settle { outcome: Outcome::Cancelled, abort_handlers: false },
            ),
            _ => (p, Action::Ignore),
        },
        Phase::Settling(_) => match e {
            Event::Settled => (Phase::Finished, Action::TearDown),
            _ => (p, Action::Ignore),
        },
        Phase::Finished => (p, Action::Ignore),
    }
}

/// The phase after the events `es`, taken in order from `p`.
pub open spec fn phase_after(p: Phase, es: Seq<Event>) -> Phase
    decreases es.len(),
{
    if es.len() == 0 {
        p
    } else {
        phase_after(next(p, es[0]).0, es.subrange(1, es.len() as int))
    }
}

/// How many of the actions taken for `es` from `p` are `Settle`.
pub open spec fn settle_count(p: Phase, es: Seq<Event>) -> nat
    decreases es.len(),
{
    if es.len() == 0 {
        0
    } else {
        let (then_phase, a) = next(p, es[0]);
        (if a is Settle {
            1nat
        } else {
            0nat
        }) + settle_count(then_phase, es.subrange(1, es.len() as int))
    }
}

/// How many of the actions taken for `es` from `p` are `SpawnHandler`.
pub open spec fn spawn_count(p: Phase, es: Seq<Event>) -> nat
    decreases es.len(),
{
    if es.len() == 0 {
        0
    } else {
        let (then_phase, a) = next(p, es[0]);
        (if a is SpawnHandler {
            1nat
        } else {
            0nat
        }) + spawn_count(then_phase, es.subrange(1, es.len() as int))
    }
}

pub struct Supervisor {
    phase: Phase,
}

impl Supervisor {
    /// A supervisor of a round that has just opened.
    pub fn new() -> (r: Supervisor)
        ensures
            r.phase_spec() == Phase::Accepting,
    {
        Supervisor { phase: Phase::Accepting }
    }

    pub closed spec fn phase_spec(&self) -> Phase {
        self.phase
    }

    pub fn phase(&self) -> (r: Phase)
        ensures
            r == self.phase_spec(),
    {
        self.phase
    }

    /// Whether new interactions still become wagers.
    pub fn accepts_interactions(&self) -> (r: bool)
        ensures
            r == (self.phase_spec() == Phase::Accepting),
    {
        self.phase == Phase::Accepting
    }

    /// Whether the round is torn down.
    pub fn is_finished(&self) -> (r: bool)
        ensures
            r == (self.phase_spec() == Phase::Finished),
    {
        self.phase == Phase::Finished
    }

    /// Takes one event and says what to do about it.
    pub fn on_event(&mut self, e: Event) -> (r: Action)
        ensures
            (final(self).phase_spec(), r) == next(old(self).phase_spec(), e),
    {
        let (p, a) = match self.phase {
            Phase::Accepting => match e {
                Event::Interaction => (Phase::Accepting, Action::SpawnHandler),
                Event::IntakeClosed | Event::Stop => (Phase::Stopped, Action::CloseEntry),
                Event::End(o) => (Phase::Settling(o), Action::Settle { outcome: o, abort_handlers: true }),
                Event::EndLost => (
                    Phase::Settling(Outcome::Cancelled),
                    Action::Settle { outcome: Outcome::Cancelled, abort_handlers: true },
                ),
                Event::Settled => (Phase::Accepting, Action::Ignore),
            },
            Phase::Stopped => match e {
                Event::End(o) => (Phase::Settling(o), Action::Settle { outcome: o, abort_handlers: false }),
                Event::EndLost => (
                    Phase::Settling(Outcome::Cancelled),
                    Action::Settle { outcome: Outcome::Cancelled, abort_handlers: false },
                ),
                _ => (Phase::Stopped, Action::Ignore),
            },
            Phase::Settling(o) => match e {
                Event::Settled => (Phase::Finished, Action::TearDown),
                _ => (Phase::Settling(o), Action::Ignore),
            },
            Phase::Finished => (Phase::Finished, Action::Ignore),
        };
        self.phase = p;
        a
    }
}

proof fn lemma_settle_bound(p: Phase, es: Seq<Event>)
    ensures
        settle_count(p, es) <= if p is Accepting || p is Stopped {
            1nat
        } else {
            0nat
        },
    decreases es.len(),
{
    if es.len() > 0 {
        lemma_settle_bound(next(p, es[0]).0, es.subrange(1, es.len() as int));
    }
}

/// Settlement is started at most once, whatever events arrive and in
/// whatever order.
pub proof fn lemma_settles_at_most_once(es: Seq<Event>)
    ensures
        settle_count(Phase::Accepting, es) <= 1,
{
    lemma_settle_bound(Phase::Accepting, es);
}

/// Once entry is closed and before the end signal, interactions start no
/// handler, and the supervisor keeps waiting: it is neither settling nor torn
/// down.
pub proof fn lemma_stopped_ignores_interactions(es: Seq<Event>)
    requires
        forall|i: int| 0 <= i < es.len() ==> es[i] == Event::Interaction,
    ensures
        phase_after(Phase::Stopped, es) == Phase::Stopped,
        spawn_count(Phase::Stopped, es) == 0,
    decreases es.len(),
{
    if es.len() > 0 {
        let rest = es.subrange(1, es.len() as int);
        assert forall|i: int| 0 <= i < rest.len() implies rest[i] == Event::Interaction by {
            assert(rest[i] == es[i + 1]);
        }
        lemma_stopped_ignores_interactions(rest);
    }
}

} // verus!
