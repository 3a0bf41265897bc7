//! Live odds, recomputed from the wagers themselves each time: per side, the
//! number of wagers, the pool, and the payout multiplier.
//!
//! A multiplier is kept as an exact fraction. For a side with pool `p` while
//! the other sides hold `o`, it is `1 + o / p`, that is `(p + o) / p`. A side
//! that nobody has backed has the flat multiplier 1: nothing is owed on it,
//! and a stake on it alone is returned as it was.

use vstd::prelude::*;
use crate::wager::Wager;

verus! {

/// An upper bound on any pool: fewer than 2^64 wagers of under 2^32 each.
pub const POOL_BOUND: u128 = 0xFFFF_FFFF_FFFF_FFFF_FFFF_FFFF;

/// The pool on `side`: the sum of the amounts of the wagers on it.
pub open spec fn side_pool(ws: Seq<Wager>, side: int) -> nat
    decreases ws.len(),
{
    if ws.len() == 0 {
        0
    } else {
        side_pool(ws.drop_last(), side) + if ws.last().side == side {
            ws.last().amount as nat
        } else {
            0
        }
    }
}

/// The pool on every side but `side`.
pub open spec fn other_pool(ws: Seq<Wager>, side: int) -> nat
    decreases ws.len(),
{
    if ws.len() == 0 {
        0
    } else {
        other_pool(ws.drop_last(), side) + if ws.last().side != side {
            ws.last().amount as nat
        } else {
            0
        }
    }
}

/// The number of wagers on `side`.
pub open spec fn side_count(ws: Seq<Wager>, side: int) -> nat
    decreases ws.len(),
{
    if ws.len() == 0 {
        0
    } else {
        side_count(ws.drop_last(), side) + if ws.last().side == side {
            1nat
        } else {
            0
        }
    }
}

/// Everything staked in the round.
pub open spec fn total_pool(ws: Seq<Wager>) -> nat
    decreases ws.len(),
{
    if ws.len() == 0 {
        0
    } else {
        total_pool(ws.drop_last()) + ws.last().amount as nat
    }
}

/// A payout multiplier `num / den`.
#[derive(Clone, Copy, Debug, PartialEq, Eq, Structural)]
pub struct Multiplier {
    pub num: u128,
    pub den: u128,
}

impl Multiplier {
    pub open spec fn wf(self) -> bool {
        0 < self.den && self.den <= POOL_BOUND && self.num <= POOL_BOUND
    }

    /// The multiplier in hundredths, rounded half up, for display.
    pub fn hundredths(&self) -> (r: u128)
        requires
            self.wf(),
        ensures
            r == (200 * self.num + self.den) / (2 * self.den),
    {
        (200 * self.num + self.den) / (2 * self.den)
    }
}

/// The multiplier of a side with pool `pool` against `other` on the rest.
pub open spec fn multiplier_spec(pool: nat, other: nat) -> (nat, nat) {
    if pool == 0 {
        (1, 1)
    } else {
        (pool + other, pool)
    }
}

/// What the odds of one side show.
#[derive(Clone, Copy, Debug, PartialEq, Eq, Structural)]
pub struct SideOdds {
    pub wagers: usize,
    pub pool: u128,
    pub multiplier: Multiplier,
}

/// `o` is what `side` shows given the wagers `ws`.
pub open spec fn odds_of(o: SideOdds, ws: Seq<Wager>, side: int) -> bool {
    &&& o.wagers as nat == side_count(ws, side)
    &&& o.pool as nat == side_pool(ws, side)
    &&& (o.multiplier.num as nat, o.multiplier.den as nat) == multiplier_spec(
        side_pool(ws, side),
        other_pool(ws, side),
    )
    &&& o.multiplier.wf()
}

/// The odds of sides `0 .. n`, each as the wagers show it.
pub open spec fn odds_spec(r: Seq<SideOdds>, ws: Seq<Wager>, n: nat) -> bool {
    &&& r.len() == n
    &&& forall|i: int| 0 <= i < n ==> odds_of(#[trigger] r[i], ws, i)
}

pub proof fn lemma_pools_split(ws: Seq<Wager>, side: int)
    ensures
        side_pool(ws, side) + other_pool(ws, side) == total_pool(ws),
        total_pool(ws) <= ws.len() * 0xFFFF_FFFF,
        side_count(ws, side) <= ws.len(),
    decreases ws.len(),
{
    if ws.len() > 0 {
        lemma_pools_split(ws.drop_last(), side);
    }
}

/// The payout of a winning wager of `amount` at multiplier `m`, rounded down.
pub open spec fn payout_spec(amount: u32, m: Multiplier) -> nat {
    (amount as nat * m.num as nat) / (m.den as nat)
}

/// The payout of a winning wager of `amount` at multiplier `m`, rounded down.
pub fn payout(amount: u32, m: Multiplier) -> (r: u128)
    requires
        m.wf(),
    ensures
        r == payout_spec(amount, m),
{
    proof {
        assert(amount as nat * m.num as nat <= 0xFFFF_FFFF * POOL_BOUND as nat) by (nonlinear_arith)
            requires
                m.num <= POOL_BOUND,
        ;
    }
    (amount as u128 * m.num) / m.den
}

/// Computes the odds of sides `0 .. n_sides` from the wagers placed so far.
/// Nothing is kept between calls: the same wagers always give the same odds.
pub fn compute_odds(wagers: &Vec<Wager>, n_sides: usize) -> (r: Vec<SideOdds>)
    ensures
        odds_spec(r@, wagers@, n_sides as nat),
{
    let ghost ws = wagers@;
    let mut pools: Vec<u128> = Vec::new();
    let mut counts: Vec<usize> = Vec::new();
    let mut k: usize = 0;
    while k < n_sides
        invariant
            k <= n_sides,
            pools@.len() == k,
            counts@.len() == k,
            forall|s: int| 0 <= s < k ==> pools@[s] == 0 && counts@[s] == 0,
        decreases n_sides - k,
    {
        pools.push(0);
        counts.push(0);
        k = k + 1;
    }
    let mut total: u128 = 0;
    let mut i: usize = 0;
    while i < wagers.len()
        invariant
            ws == wagers@,
            i <= ws.len(),
            pools@.len() == n_sides,
            counts@.len() == n_sides,
            total as nat == total_pool(ws.take(i as int)),
            forall|s: int| 0 <= s < n_sides ==> #[trigger] pools@[s] as nat == side_pool(ws.take(i as int), s),
            forall|s: int| 0 <= s < n_sides ==> #[trigger] counts@[s] as nat == side_count(ws.take(i as int), s),
        decreases ws.len() - i,
    {
        let w = wagers[i];
        let ghost t = ws.take(i as int + 1);
        proof {
            assert(t.drop_last() =~= ws.take(i as int));
            lemma_pools_split(ws.take(i as int), w.side as int);
            lemma_pools_split(t, w.side as int);
        }
        total = total + w.amount as u128;
        if w.side < n_sides {
            let p = pools[w.side] + w.amount as u128;
            pools.set(w.side, p);
            let c = counts[w.side] + 1;
            counts.set(w.side, c);
        }
        i = i + 1;
    }
    proof {
        assert(ws.take(i as int) =~= ws);
        lemma_pools_split(ws, 0);
        assert(ws.len() * 0xFFFF_FFFF <= POOL_BOUND) by (nonlinear_arith)
            requires
                ws.len() <= 0xFFFF_FFFF_FFFF_FFFF,
        ;
    }
    let mut out: Vec<SideOdds> = Vec::new();
    let mut s: usize = 0;
    while s < n_sides
        invariant
            ws == wagers@,
            s <= n_sides,
            pools@.len() == n_sides,
            counts@.len() == n_sides,
            total as nat == total_pool(ws),
            total <= POOL_BOUND,
            forall|j: int| 0 <= j < n_sides ==> #[trigger] pools@[j] as nat == side_pool(ws, j),
            forall|j: int| 0 <= j < n_sides ==> #[trigger] counts@[j] as nat == side_count(ws, j),
            out@.len() == s,
            forall|j: int| 0 <= j < s ==> odds_of(#[trigger] out@[j], ws, j),
        decreases n_sides - s,
    {
        let pool = pools[s];
        proof {
            lemma_pools_split(ws, s as int);
        }
        let multiplier = if pool == 0 {
            Multiplier { num: 1, den: 1 }
        } else {
            Multiplier { num: total, den: pool }
        };
        out.push(SideOdds { wagers: counts[s], pool, multiplier });
        s = s + 1;
    }
    out
}

} // verus!
