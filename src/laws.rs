//! Properties of rounds that span many calls: what holds however the
//! wager attempts of concurrent participants are ordered by the round's lock.

use vstd::prelude::*;
use crate::ledger::LedgerView;
use crate::odds::{odds_spec, other_pool, side_count, side_pool, SideOdds};
use crate::outcome::Outcome;
use crate::round::{Attempt, RoundView, lemma_placement_keeps_wf, ResolveError, SettleError, Stage, has_wager, one_per_participant};
use crate::wager::Wager;

verus! {

/// The round and the ledger after `attempts`, taken one at a time in order.
pub open spec fn after_attempts(v: RoundView, l: LedgerView, attempts: Seq<Attempt>) -> (RoundView, LedgerView)
    decreases attempts.len(),
{
    if attempts.len() == 0 {
        (v, l)
    } else {
        let (v1, l1) = after_attempts(v, l, attempts.drop_last());
        v1.after_placement(l1, attempts.last())
    }
}

/// What the wagers `ws` debited.
pub open spec fn stake_sum(ws: Seq<Wager>) -> nat
    decreases ws.len(),
{
    if ws.len() == 0 {
        0
    } else {
        stake_sum(ws.drop_last()) + ws.last().stake as nat
    }
}

/// What the participants of `ws` held in `l`, each counted once per wager.
pub open spec fn opening_sum(l: LedgerView, ws: Seq<Wager>) -> nat
    decreases ws.len(),
{
    if ws.len() == 0 {
        0
    } else {
        opening_sum(l, ws.drop_last()) + l.balance_of(ws.last().participant)
    }
}

/// Each wager's stake and its participant's balance now add up to what the
/// participant held at `l0`; a participant without a wager holds the same.
pub open spec fn debits_accounted(l0: LedgerView, v: RoundView, l: LedgerView) -> bool {
    &&& forall|i: int| 0 <= i < v.wagers.len() ==> (#[trigger] v.wagers[i]).stake as nat + l.balance_of(v.wagers[i].participant)
        == l0.balance_of(v.wagers[i].participant)
    &&& forall|p: u64| !has_wager(v.wagers, p) ==> #[trigger] l.balance_of(p) == l0.balance_of(p)
}

proof fn lemma_attempts_accounted(v: RoundView, l: LedgerView, attempts: Seq<Attempt>)
    requires
        v.wf(),
        v.wagers.len() == 0,
    ensures
        after_attempts(v, l, attempts).0.wf(),
        debits_accounted(l, after_attempts(v, l, attempts).0, after_attempts(v, l, attempts).1),
    decreases attempts.len(),
{
    if attempts.len() > 0 {
        let prev = attempts.drop_last();
        lemma_attempts_accounted(v, l, prev);
        let (v1, l1) = after_attempts(v, l, prev);
        let a = attempts.last();
        lemma_placement_keeps_wf(v1, l1, a);
        let (v2, l2) = v1.after_placement(l1, a);
        if v1.placement_error(l1, a) is None {
            let p = a.participant;
            assert(!has_wager(v1.wagers, p));
            assert forall|i: int| 0 <= i < v2.wagers.len() implies (#[trigger] v2.wagers[i]).stake as nat
                + l2.balance_of(v2.wagers[i].participant) == l.balance_of(v2.wagers[i].participant) by {
                if i < v1.wagers.len() {
                    assert(v2.wagers[i] == v1.wagers[i]);
                    assert(v1.wagers[i].participant != p);
                } else {
                    assert(l1.balance_of(p) == l.balance_of(p));
                }
            }
            assert forall|q: u64| !has_wager(v2.wagers, q) implies #[trigger] l2.balance_of(q) == l.balance_of(q) by {
                assert(v2.wagers[v1.wagers.len() as int].participant == p);
                if has_wager(v1.wagers, q) {
                    let i = choose|i: int| 0 <= i < v1.wagers.len() && (#[trigger] v1.wagers[i]).participant == q;
                    assert(v2.wagers[i] == v1.wagers[i]);
                }
                assert(q != p);
                assert(l1.balance_of(q) == l.balance_of(q));
            }
        }
    }
}

proof fn lemma_stakes_within(l0: LedgerView, v: RoundView, l: LedgerView, ws: Seq<Wager>)
    requires
        debits_accounted(l0, v, l),
        ws.len() <= v.wagers.len(),
        ws == v.wagers.take(ws.len() as int),
    ensures
        stake_sum(ws) <= opening_sum(l0, ws),
    decreases ws.len(),
{
    if ws.len() > 0 {
        let k = ws.len() - 1;
        assert(ws.drop_last() =~= v.wagers.take(k));
        assert(ws.last() == v.wagers[k]);
        lemma_stakes_within(l0, v, l, ws.drop_last());
    }
}

/// No money is created while wagers are placed: however many attempts
/// arrive, in whatever order, the stakes that a fresh round debits never add up
/// to more than what its participants held before the round.
pub proof fn lemma_debits_within_balances(v: RoundView, l: LedgerView, attempts: Seq<Attempt>)
    requires
        v.wf(),
        v.wagers.len() == 0,
    ensures
        stake_sum(after_attempts(v, l, attempts).0.wagers) <= opening_sum(
            l,
            after_attempts(v, l, attempts).0.wagers,
        ),
{
    lemma_attempts_accounted(v, l, attempts);
    let (v2, l2) = after_attempts(v, l, attempts);
    assert(v2.wagers.take(v2.wagers.len() as int) =~= v2.wagers);
    lemma_stakes_within(l, v2, l2, v2.wagers);
}

/// However many attempts race, each participant ends up with at most one
/// wager in the round.
pub proof fn lemma_one_wager_each(v: RoundView, l: LedgerView, attempts: Seq<Attempt>)
    requires
        v.wf(),
    ensures
        after_attempts(v, l, attempts).0.wf(),
        one_per_participant(after_attempts(v, l, attempts).0.wagers),
    decreases attempts.len(),
{
    if attempts.len() > 0 {
        lemma_one_wager_each(v, l, attempts.drop_last());
        let (v1, l1) = after_attempts(v, l, attempts.drop_last());
        lemma_placement_keeps_wf(v1, l1, attempts.last());
    }
}

/// A resolved round is not changed by any attempt, nor is the ledger: a
/// handler that reaches its commit after the end signal has no effect, and
/// settlement sees exactly the wagers committed before it.
pub proof fn lemma_resolved_round_unchanged(v: RoundView, l: LedgerView, attempts: Seq<Attempt>)
    requires
        v.stage == Stage::Resolved,
    ensures
        after_attempts(v, l, attempts) == (v, l),
    decreases attempts.len(),
{
    if attempts.len() > 0 {
        lemma_resolved_round_unchanged(v, l, attempts.drop_last());
    }
}

/// The odds are a function of the wagers alone: two computations over the
/// same wagers give the same odds.
pub proof fn lemma_odds_deterministic(ws: Seq<Wager>, n: nat, r1: Seq<SideOdds>, r2: Seq<SideOdds>)
    requires
        odds_spec(r1, ws, n),
        odds_spec(r2, ws, n),
    ensures
        r1 == r2,
{
    assert forall|i: int| 0 <= i < n implies r1[i] == r2[i] by {
        assert(r1[i].multiplier == r2[i].multiplier);
    }
    assert(r1 =~= r2);
}

proof fn lemma_pools_without(ws: Seq<Wager>, j: int, side: int)
    requires
        0 <= j < ws.len(),
    ensures
        side_pool(ws, side) == side_pool(ws.remove(j), side) + if ws[j].side == side {
            ws[j].amount as nat
        } else {
            0
        },
        other_pool(ws, side) == other_pool(ws.remove(j), side) + if ws[j].side != side {
            ws[j].amount as nat
        } else {
            0
        },
        side_count(ws, side) == side_count(ws.remove(j), side) + if ws[j].side == side {
            1nat
        } else {
            0
        },
    decreases ws.len(),
{
    if j == ws.len() - 1 {
        assert(ws.remove(j) =~= ws.drop_last());
    } else {
        let r = ws.remove(j);
        assert(r.drop_last() =~= ws.drop_last().remove(j));
        assert(r.last() == ws.last());
        lemma_pools_without(ws.drop_last(), j, side);
    }
}

/// Pools and counts depend on which wagers there are, not on their order.
pub proof fn lemma_pools_order_free(ws1: Seq<Wager>, ws2: Seq<Wager>, side: int)
    requires
        ws1.to_multiset() == ws2.to_multiset(),
    ensures
        side_pool(ws1, side) == side_pool(ws2, side),
        other_pool(ws1, side) == other_pool(ws2, side),
        side_count(ws1, side) == side_count(ws2, side),
    decreases ws1.len(),
{
    broadcast use vstd::seq_lib::group_to_multiset_ensures;

    if ws1.len() == 0 {
        assert(ws2.to_multiset().len() == 0);
        assert(ws2.len() == 0);
    } else {
        let rest = ws1.drop_last();
        let x = ws1.last();
        assert(ws1 =~= rest.push(x));
        assert(ws1.to_multiset() =~= rest.to_multiset().insert(x));
        assert(ws2.to_multiset().count(x) > 0);
        assert(ws2.contains(x));
        let j = choose|j: int| 0 <= j < ws2.len() && ws2[j] == x;
        assert(ws2.remove(j).to_multiset() =~= ws2.to_multiset().remove(x));
        assert(rest.to_multiset() =~= rest.to_multiset().insert(x).remove(x));
        lemma_pools_order_free(rest, ws2.remove(j), side);
        lemma_pools_without(ws2, j, side);
    }
}

/// The odds are a function of the wager set: the same wagers, placed in any
/// order, give the same odds.
pub proof fn lemma_odds_order_free(ws1: Seq<Wager>, ws2: Seq<Wager>, n: nat, r1: Seq<SideOdds>, r2: Seq<SideOdds>)
    requires
        ws1.to_multiset() == ws2.to_multiset(),
        odds_spec(r1, ws1, n),
        odds_spec(r2, ws2, n),
    ensures
        r1 == r2,
{
    assert forall|i: int| 0 <= i < n implies r1[i] == r2[i] by {
        lemma_pools_order_free(ws1, ws2, i);
        assert(r1[i].multiplier == r2[i].multiplier);
    }
    assert(r1 =~= r2);
}

/// A round is resolved once: after its outcome is applied, any further
/// resolution is refused.
pub proof fn lemma_resolve_once(v: RoundView, first: Outcome, t1: i64, second: Outcome, t2: i64)
    requires
        v.wf(),
        v.resolved(first, t1) is Ok,
    ensures
        v.resolved(first, t1).unwrap().resolved(second, t2) == Err::<RoundView, ResolveError>(
            ResolveError::AlreadyResolved,
        ),
{
}

/// Credits are paid once: a round that was settled refuses a second
/// settlement, and one that was never resolved cannot be settled at all.
pub proof fn lemma_settle_once(v: RoundView)
    requires
        v.wf(),
    ensures
        v.settle_error() is None ==> (RoundView { settled: true, ..v }).settle_error() == Some(
            SettleError::AlreadySettled,
        ),
        v.stage != Stage::Resolved ==> v.settle_error() == Some(SettleError::NotResolved),
{
}

} // verus!
