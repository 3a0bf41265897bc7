//! Settlement: what each wager of a resolved round earns, computed once from
//! the final wager set, and crediting it to the ledger.

use vstd::prelude::*;
use crate::ledger::{Ledger, LedgerView};
use crate::odds::{
    Multiplier, compute_odds, lemma_pools_split, multiplier_spec, other_pool, payout, side_pool,
    total_pool,
};
use crate::outcome::Outcome;
use crate::wager::Wager;

verus! {

#[derive(Clone, Copy, Debug, PartialEq, Eq, Structural)]
pub enum CreditKind {
    /// The wager backed the winning side and is paid at its multiplier.
    Won,
    /// The wager backed another side: its stake is already gone.
    Lost,
    /// Draw or cancellation: the pooled amount comes back.
    Refunded,
}

/// What settlement owes one participant for one wager.
#[derive(Clone, Copy, Debug, PartialEq, Eq, Structural)]
pub struct Credit {
    pub participant: u64,
    pub kind: CreditKind,
    pub amount: u128,
}

/// The credit that `w` earns when the round with wagers `ws` ends in `outcome`.
/// All winners share the multiplier of the final wager set.
pub open spec fn credit_for(w: Wager, ws: Seq<Wager>, outcome: Outcome) -> Credit {
    match outcome {
        Outcome::Side(k) => if w.side == k {
            let (num, den) = multiplier_spec(side_pool(ws, k as int), other_pool(ws, k as int));
            Credit {
                participant: w.participant,
                kind: CreditKind::Won,
                amount: ((w.amount as nat * num) / den) as u128,
            }
        } else {
            Credit { participant: w.participant, kind: CreditKind::Lost, amount: 0 }
        },
        _ => Credit { participant: w.participant, kind: CreditKind::Refunded, amount: w.amount as u128 },
    }
}

/// The ledger after `cs` is paid out in order; a lost wager moves nothing.
pub open spec fn credits_applied(l: LedgerView, cs: Seq<Credit>) -> LedgerView
    decreases cs.len(),
{
    if cs.len() == 0 {
        l
    } else {
        let before = credits_applied(l, cs.drop_last());
        if cs.last().kind == CreditKind::Lost {
            before
        } else {
            before.credited(cs.last().participant, cs.last().amount as nat)
        }
    }
}

/// Works out, for every wager of a round that ended in `outcome`, what it
/// earns, in the order of the wagers.
pub fn plan_settlement(wagers: &Vec<Wager>, outcome: Outcome, n_sides: usize) -> (r: Vec<Credit>)
    requires
        outcome.fits(n_sides as nat),
    ensures
        r@.len() == wagers@.len(),
        forall|i: int| 0 <= i < wagers@.len() ==> #[trigger] r@[i] == credit_for(wagers@[i], wagers@, outcome),
{
    let ghost ws = wagers@;
    let winner: Option<(usize, Multiplier)> = match outcome {
        Outcome::Side(k) => {
            let odds = compute_odds(wagers, n_sides);
            Some((k, odds[k].multiplier))
        },
        _ => None,
    };
    let mut out: Vec<Credit> = Vec::new();
    let mut i: usize = 0;
    while i < wagers.len()
        invariant
            ws == wagers@,
            i <= ws.len(),
            out@.len() == i,
            forall|j: int| 0 <= j < i ==> #[trigger] out@[j] == credit_for(ws[j], ws, outcome),
            match outcome {
                Outcome::Side(k) => winner matches Some((kk, m)) && kk == k && m.wf()
                    && (m.num as nat, m.den as nat) == multiplier_spec(side_pool(ws, k as int), other_pool(ws, k as int)),
                _ => winner is None,
            },
        decreases ws.len() - i,
    {
        let w = wagers[i];
        let c = match winner {
            Some((k, m)) => if w.side == k {
                Credit { participant: w.participant, kind: CreditKind::Won, amount: payout(w.amount, m) }
            } else {
                Credit { participant: w.participant, kind: CreditKind::Lost, amount: 0 }
            },
            None => Credit { participant: w.participant, kind: CreditKind::Refunded, amount: w.amount as u128 },
        };
        out.push(c);
        i = i + 1;
    }
    out
}

/// Pays out `credits` to the ledger, each exactly once, in order.
pub fn apply_credits(ledger: &mut Ledger, credits: &Vec<Credit>)
    ensures
        final(ledger)@ == credits_applied(old(ledger)@, credits@),
{
    let ghost cs = credits@;
    let mut i: usize = 0;
    while i < credits.len()
        invariant
            cs == credits@,
            i <= cs.len(),
            ledger@ == credits_applied(old(ledger)@, cs.take(i as int)),
        decreases cs.len() - i,
    {
        let c = credits[i];
        proof {
            assert(cs.take(i as int + 1).drop_last() =~= cs.take(i as int));
        }
        if c.kind != CreditKind::Lost {
            ledger.credit(c.participant, c.amount);
        }
        i = i + 1;
    }
    proof {
        assert(cs.take(i as int) =~= cs);
    }
}

/// What the wagers `part` earn when the round with wagers `ws` ends in
/// `outcome`.
pub open spec fn paid(part: Seq<Wager>, ws: Seq<Wager>, outcome: Outcome) -> nat
    decreases part.len(),
{
    if part.len() == 0 {
        0
    } else {
        paid(part.drop_last(), ws, outcome) + credit_for(part.last(), ws, outcome).amount as nat
    }
}

proof fn lemma_paid_bounded(part: Seq<Wager>, ws: Seq<Wager>, outcome: Outcome)
    requires
        ws.len() <= u64::MAX,
        part.len() <= ws.len(),
        part == ws.take(part.len() as int),
    ensures
        match outcome {
            Outcome::Side(k) => {
                let (num, den) = multiplier_spec(side_pool(ws, k as int), other_pool(ws, k as int));
                paid(part, ws, outcome) * den <= side_pool(part, k as int) * num
            },
            _ => paid(part, ws, outcome) == total_pool(part),
        },
    decreases part.len(),
{
    if part.len() > 0 {
        let prev = part.drop_last();
        let n = part.len() - 1;
        assert(prev =~= ws.take(n));
        assert(part.last() == ws[n]);
        lemma_paid_bounded(prev, ws, outcome);
        lemma_pools_split(ws, 0);
        assert(ws.len() * 0xFFFF_FFFF <= 0xFFFF_FFFF_FFFF_FFFF_FFFF_FFFF) by (nonlinear_arith)
            requires
                ws.len() <= 0xFFFF_FFFF_FFFF_FFFF,
        ;
        let w = part.last();
        match outcome {
            Outcome::Side(k) => {
                lemma_pools_split(ws, k as int);
                let (num, den) = multiplier_spec(side_pool(ws, k as int), other_pool(ws, k as int));
                let a = w.amount as nat;
                if w.side == k {
                    let c = (a * num) / den;
                    assert(c <= a * num);
                    assert(a * num <= 0xFFFF_FFFF * 0xFFFF_FFFF_FFFF_FFFF_FFFF_FFFF) by (nonlinear_arith)
                        requires
                            a <= 0xFFFF_FFFF,
                            num <= 0xFFFF_FFFF_FFFF_FFFF_FFFF_FFFF,
                    ;
                    assert(c * den <= a * num) by (nonlinear_arith)
                        requires
                            c == (a * num) / den,
                            den > 0,
                    ;
                    let pp = paid(prev, ws, outcome);
                    let sp = side_pool(prev, k as int);
                    assert((pp + c) * den <= (sp + a) * num) by (nonlinear_arith)
                        requires
                            pp * den <= sp * num,
                            c * den <= a * num,
                    ;
                }
            },
            _ => {
                assert(credit_for(w, ws, outcome).amount == w.amount as u128);
                assert(total_pool(part) == total_pool(prev) + w.amount as nat);
            },
        }
    }
}

/// Settlement creates no money: what all the wagers of a round earn together
/// never exceeds what was pooled, and a draw or cancellation returns exactly
/// the pool.
pub proof fn lemma_payouts_within_pool(ws: Seq<Wager>, outcome: Outcome)
    requires
        ws.len() <= u64::MAX,
    ensures
        paid(ws, ws, outcome) <= total_pool(ws),
        outcome.refunds() ==> paid(ws, ws, outcome) == total_pool(ws),
{
    assert(ws.take(ws.len() as int) =~= ws);
    lemma_paid_bounded(ws, ws, outcome);
    match outcome {
        Outcome::Side(k) => {
            lemma_pools_split(ws, k as int);
            let p = side_pool(ws, k as int);
            let t = total_pool(ws);
            let x = paid(ws, ws, outcome);
            let o = other_pool(ws, k as int);
            assert(x * multiplier_spec(p, o).1 <= p * multiplier_spec(p, o).0);
            if p > 0 {
                assert(multiplier_spec(p, o) == (t, p));
                assert(x <= t) by (nonlinear_arith)
                    requires
                        x * p <= p * t,
                        p > 0,
                ;
            } else {
                let (num, den) = multiplier_spec(p, o);
                assert(x <= t) by (nonlinear_arith)
                    requires
                        x * den <= p * num,
                        num == 1,
                        den == 1,
                        p == 0,
                ;
            }
        },
        _ => {},
    }
}

} // verus!
