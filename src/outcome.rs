//! How a round ends: one side wins, or it is a draw, or it is cancelled.

use vstd::prelude::*;
use vstd::string::StringSliceAdditionalSpecFns;
use crate::parse::{bounded_value, is_digit, numeral_in};

verus! {

#[derive(Clone, Copy, Debug, PartialEq, Eq, Structural)]
pub enum Outcome {
    /// The side with this index wins.
    Side(usize),
    /// Nobody wins; every wager is refunded.
    Draw,
    /// The round is called off; every wager is refunded.
    Cancelled,
}

impl Outcome {
    /// The outcome names a side among `0 .. n_sides`, or none.
    pub open spec fn fits(self, n_sides: nat) -> bool {
        match self {
            Outcome::Side(k) => k < n_sides,
            _ => true,
        }
    }

    /// Whether every wager is returned as it was pooled.
    pub open spec fn refunds(self) -> bool {
        !(self is Side)
    }
}

/// Whether `s` is a plain decimal numeral: digits only, with no sign and no
/// leading zero (but `0` itself).
pub open spec fn plain_numeral(s: Seq<u8>) -> bool {
    s.len() > 0 && is_digit(s[0]) && (s.len() == 1 || s[0] != 48)
}

/// An operator's selection, written as a plain numeral: `0` cancels, `1` to
/// `n_sides` name a side in order, and `n_sides + 1` is a draw. With two sides
/// exactly the texts `0`, `1`, `2` and `3` select: cancelled, the first
/// side, the second, a draw. Any other text selects nothing.
pub open spec fn outcome_of(s: Seq<u8>, n_sides: nat) -> Option<Outcome> {
    if !plain_numeral(s) {
        None
    } else {
        match bounded_value(s, u64::MAX as nat) {
            Some(v) => if v == 0 {
                Some(Outcome::Cancelled)
            } else if v <= n_sides {
                Some(Outcome::Side((v - 1) as usize))
            } else if v == n_sides + 1 {
                Some(Outcome::Draw)
            } else {
                None
            },
            None => None,
        }
    }
}

/// Reads an operator's outcome selection for a round with `n_sides` sides.
pub fn parse_outcome(text: &str, n_sides: usize) -> (r: Option<Outcome>)
    ensures
        r == outcome_of(text.spec_bytes(), n_sides as nat),
        r matches Some(o) ==> o.fits(n_sides as nat),
{
    let b = text.as_bytes();
    assert(b@.subrange(0, b@.len() as int) =~= b@);
    if b.len() == 0 || b[0] < 48u8 || b[0] > 57u8 || (b.len() > 1 && b[0] == 48u8) {
        return None;
    }
    match numeral_in(b, 0, b.len(), u64::MAX) {
        Some(v) => if v == 0 {
            Some(Outcome::Cancelled)
        } else if v <= n_sides as u64 {
            Some(Outcome::Side((v - 1) as usize))
        } else if v - 1 == n_sides as u64 {
            Some(Outcome::Draw)
        } else {
            None
        },
        None => None,
    }
}

} // verus!
