//! Decimal numerals as typed by participants and operators: wager amounts,
//! lists of identifiers, outcome selections.

use vstd::prelude::*;
use vstd::string::StringSliceAdditionalSpecFns;

verus! {

pub open spec fn is_digit(b: u8) -> bool {
    48 <= b && b <= 57
}

pub open spec fn all_digits(s: Seq<u8>) -> bool {
    forall|i: int| 0 <= i < s.len() ==> is_digit(#[trigger] s[i])
}

/// The number that a string of ASCII digits denotes, most significant first.
pub open spec fn digits_value(s: Seq<u8>) -> nat
    decreases s.len(),
{
    if s.len() == 0 {
        0
    } else {
        digits_value(s.drop_last()) * 10 + (s.last() - 48) as nat
    }
}

/// The digits of a numeral: its bytes after an optional leading `+`.
pub open spec fn numeral_digits(s: Seq<u8>) -> Seq<u8> {
    if s.len() > 0 && s[0] == 43 {
        s.subrange(1, s.len() as int)
    } else {
        s
    }
}

/// What `s` denotes as an unsigned decimal numeral (an optional `+`, then one
/// or more ASCII digits), if it is one.
pub open spec fn numeral_value(s: Seq<u8>) -> Option<nat> {
    let d = numeral_digits(s);
    if d.len() > 0 && all_digits(d) {
        Some(digits_value(d))
    } else {
        None
    }
}

/// The value of the numeral `s` when it is one and does not exceed `max`.
pub open spec fn bounded_value(s: Seq<u8>, max: nat) -> Option<nat> {
    match numeral_value(s) {
        Some(v) => if v <= max {
            Some(v)
        } else {
            None
        },
        None => None,
    }
}

proof fn lemma_digits_value_grows(s: Seq<u8>, k: int)
    requires
        0 <= k <= s.len(),
        all_digits(s),
    ensures
        digits_value(s.take(k)) <= digits_value(s),
    decreases s.len(),
{
    if k < s.len() {
        assert(s.drop_last().take(k) =~= s.take(k));
        lemma_digits_value_grows(s.drop_last(), k);
    } else {
        assert(s.take(k) =~= s);
    }
}

/// Reads `b[start..end]` as a decimal numeral whose value is at most `max`.
pub fn numeral_in(b: &[u8], start: usize, end: usize, max: u64) -> (r: Option<u64>)
    requires
        start <= end <= b@.len(),
    ensures
        r matches Some(v) ==> bounded_value(b@.subrange(start as int, end as int), max as nat)
            == Some(v as nat),
        r is None ==> bounded_value(b@.subrange(start as int, end as int), max as nat) is None,
{
    let ghost s = b@.subrange(start as int, end as int);
    let mut first = start;
    if start < end && b[start] == 43u8 {
        first = start + 1;
    }
    let ghost d = b@.subrange(first as int, end as int);
    assert(d =~= numeral_digits(s));
    if first == end {
        return None;
    }
    let mut acc: u128 = 0;
    let mut i = first;
    while i < end
        invariant
            first <= i <= end <= b@.len(),
            d == b@.subrange(first as int, end as int),
            s == b@.subrange(start as int, end as int),
            d == numeral_digits(s),
            all_digits(d.take(i - first)),
            acc as nat == digits_value(d.take(i - first)),
            acc <= max,
        decreases end - i,
    {
        let c = b[i];
        if c < 48u8 || c > 57u8 {
            assert(d[i - first] == b@[i as int]);
            assert(!is_digit(d[i - first]));
            return None;
        }
        let ghost t = d.take(i - first + 1);
        assert(t.drop_last() =~= d.take(i - first));
        assert(t.last() == c);
        acc = acc * 10 + (c - 48u8) as u128;
        assert(all_digits(t)) by {
            assert forall|j: int| 0 <= j < t.len() implies is_digit(#[trigger] t[j]) by {
                if j < t.len() - 1 {
                    assert(t[j] == d.take(i - first)[j]);
                }
            }
        }
        if acc > max as u128 {
            proof {
                if all_digits(d) {
                    lemma_digits_value_grows(d, i - first + 1);
                }
            }
            return None;
        }
        i = i + 1;
    }
    assert(d.take(i - first) =~= d);
    Some(acc as u64)
}


/// A wager amount as typed: a numeral whose value is positive and fits in
/// `u32`. Anything else (not a number, zero, a sign other than `+`, a
/// fraction, a value that is too large) is no amount.
pub open spec fn amount_of(s: Seq<u8>) -> Option<u32> {
    match bounded_value(s, u32::MAX as nat) {
        Some(v) => if v > 0 {
            Some(v as u32)
        } else {
            None
        },
        None => None,
    }
}

/// Reads a wager amount typed by a participant.
pub fn parse_amount(text: &str) -> (r: Option<u32>)
    ensures
        r == amount_of(text.spec_bytes()),
{
    let b = text.as_bytes();
    assert(b@.subrange(0, b@.len() as int) =~= b@);
    match numeral_in(b, 0, b.len(), u32::MAX as u64) {
        Some(v) => if v > 0 {
            Some(v as u32)
        } else {
            None
        },
        None => None,
    }
}

/// `s` cut at each comma: one piece more than it has commas.
pub open spec fn comma_pieces(s: Seq<u8>) -> Seq<Seq<u8>>
    decreases s.len(),
{
    if s.len() == 0 {
        seq![Seq::empty()]
    } else {
        let before = comma_pieces(s.drop_last());
        if s.last() == 44 {
            before.push(Seq::empty())
        } else {
            before.update(before.len() - 1, before.last().push(s.last()))
        }
    }
}

proof fn lemma_comma_pieces_nonempty(s: Seq<u8>)
    ensures
        comma_pieces(s).len() >= 1,
    decreases s.len(),
{
    if s.len() > 0 {
        lemma_comma_pieces_nonempty(s.drop_last());
    }
}

/// A comma-separated list of `u64` identifiers, when every piece is one.
pub open spec fn id_list_of(s: Seq<u8>) -> Option<Seq<u64>> {
    let pieces = comma_pieces(s);
    if forall|i: int| 0 <= i < pieces.len() ==> (#[trigger] bounded_value(pieces[i], u64::MAX as nat)) is Some {
        Some(Seq::new(pieces.len(), |i: int| bounded_value(pieces[i], u64::MAX as nat).unwrap() as u64))
    } else {
        None
    }
}

/// Reads a comma-separated list of identifiers, such as a denylist. An empty
/// text is a list of one empty piece, which is no identifier.
pub fn parse_id_list(text: &str) -> (r: Option<Vec<u64>>)
    ensures
        r matches Some(v) ==> id_list_of(text.spec_bytes()) == Some(v@),
        r is None ==> id_list_of(text.spec_bytes()) is None,
{
    let b = text.as_bytes();
    let ghost bs = b@;
    let mut out: Vec<u64> = Vec::new();
    let ghost mut done: Seq<Seq<u8>> = Seq::empty();
    let mut start: usize = 0;
    let mut i: usize = 0;
    proof {
        assert(bs.take(0) =~= Seq::<u8>::empty());
        assert(bs.subrange(0, 0) =~= Seq::<u8>::empty());
        assert(seq![Seq::<u8>::empty()] =~= done.push(Seq::<u8>::empty()));
    }
    while i < b.len()
        invariant
            bs == b@,
            bs == text.spec_bytes(),
            start <= i <= b@.len(),
            comma_pieces(bs.take(i as int)) == done.push(bs.subrange(start as int, i as int)),
            out@.len() == done.len(),
            forall|j: int| 0 <= j < done.len() ==>
                (#[trigger] bounded_value(done[j], u64::MAX as nat)) == Some(out@[j] as nat),
        decreases b@.len() - i,
    {
        let ghost t = bs.take(i as int + 1);
        proof {
            assert(t.drop_last() =~= bs.take(i as int));
        }
        if b[i] == 44u8 {
            match numeral_in(b, start, i, u64::MAX) {
                Some(v) => {
                    proof {
                        done = done.push(bs.subrange(start as int, i as int));
                        assert(bs.subrange(i as int + 1, i as int + 1) =~= Seq::<u8>::empty());
                    }
                    out.push(v);
                    start = i + 1;
                },
                None => {
                    proof {
                        let p = bs.subrange(start as int, i as int);
                        assert(comma_pieces(t)[done.len() as int] == p);
                        lemma_pieces_prefix_kept(bs, i as int + 1, done.len() as int);
                        assert(comma_pieces(bs)[done.len() as int] == p);
                        assert(bounded_value(comma_pieces(bs)[done.len() as int], u64::MAX as nat) is None);
                    }
                    return None;
                },
            }
        } else {
            proof {
                assert(bs.subrange(start as int, i as int).push(bs[i as int]) =~= bs.subrange(start as int, i as int + 1));
                assert(done.push(bs.subrange(start as int, i as int)).update(done.len() as int, bs.subrange(start as int, i as int + 1))
                    =~= done.push(bs.subrange(start as int, i as int + 1)));
            }
        }
        i = i + 1;
    }
    proof {
        assert(bs.take(i as int) =~= bs);
    }
    match numeral_in(b, start, i, u64::MAX) {
        Some(v) => {
            proof {
                done = done.push(bs.subrange(start as int, i as int));
            }
            out.push(v);
            proof {
                let pieces = comma_pieces(bs);
                assert(pieces == done);
                assert(out@ =~= Seq::new(pieces.len(), |k: int| bounded_value(pieces[k], u64::MAX as nat).unwrap() as u64));
            }
            Some(out)
        },
        None => {
            proof {
                let pieces = comma_pieces(bs);
                assert(pieces[done.len() as int] == bs.subrange(start as int, i as int));
                assert(bounded_value(pieces[done.len() as int], u64::MAX as nat) is None);
            }
            None
        },
    }
}

/// The side that a wager button stands for: its identifier is `bet`
/// followed by the side's index as a numeral.
pub open spec fn button_side_of(s: Seq<u8>, n_sides: nat) -> Option<usize> {
    if s.len() >= 3 && s[0] == 98 && s[1] == 101 && s[2] == 116 {
        match bounded_value(s.subrange(3, s.len() as int), u64::MAX as nat) {
            Some(v) => if v < n_sides {
                Some(v as usize)
            } else {
                None
            },
            None => None,
        }
    } else {
        None
    }
}

/// Reads which of `n_sides` sides a wager button stands for.
pub fn button_side(custom_id: &str, n_sides: usize) -> (r: Option<usize>)
    ensures
        r == button_side_of(custom_id.spec_bytes(), n_sides as nat),
{
    let b = custom_id.as_bytes();
    if b.len() < 3 || b[0] != 98u8 || b[1] != 101u8 || b[2] != 116u8 {
        return None;
    }
    match numeral_in(b, 3, b.len(), u64::MAX) {
        Some(v) => if v < n_sides as u64 {
            Some(v as usize)
        } else {
            None
        },
        None => None,
    }
}

/// Pieces already closed by a comma stay as they are when more bytes follow.
proof fn lemma_pieces_prefix_kept(s: Seq<u8>, k: int, j: int)
    requires
        0 <= k <= s.len(),
        0 <= j < comma_pieces(s.take(k)).len() - 1,
    ensures
        j < comma_pieces(s).len() - 1,
        comma_pieces(s)[j] == comma_pieces(s.take(k))[j],
    decreases s.len() - k,
{
    if k < s.len() {
        let t = s.take(k + 1);
        assert(t.drop_last() =~= s.take(k));
        lemma_comma_pieces_nonempty(s.take(k));
        lemma_pieces_prefix_kept(s, k + 1, j);
    } else {
        assert(s.take(k) =~= s);
    }
}

} // verus!
