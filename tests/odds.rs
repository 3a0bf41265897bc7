use wager_rounds::odds::{compute_odds, payout, Multiplier};
use wager_rounds::wager::Wager;

fn wager(participant: u64, side: usize, amount: u32) -> Wager {
    Wager { participant, side, stake: amount, amount, placed_at: 0 }
}

#[test]
fn red_blue_odds() {
    let ws = vec![wager(1, 0, 100), wager(2, 1, 300)];
    let odds = compute_odds(&ws, 2);
    assert_eq!(odds.len(), 2);
    assert_eq!(odds[0].wagers, 1);
    assert_eq!(odds[0].pool, 100);
    assert_eq!(odds[0].multiplier, Multiplier { num: 400, den: 100 });
    assert_eq!(odds[0].multiplier.hundredths(), 400);
    assert_eq!(odds[1].wagers, 1);
    assert_eq!(odds[1].pool, 300);
    assert_eq!(odds[1].multiplier, Multiplier { num: 400, den: 300 });
    assert_eq!(odds[1].multiplier.hundredths(), 133);
}

#[test]
fn unbacked_side_has_flat_multiplier() {
    let ws = vec![wager(1, 0, 100), wager(2, 0, 50)];
    let odds = compute_odds(&ws, 2);
    assert_eq!(odds[0].wagers, 2);
    assert_eq!(odds[0].pool, 150);
    assert_eq!(odds[0].multiplier, Multiplier { num: 150, den: 150 });
    assert_eq!(odds[1].wagers, 0);
    assert_eq!(odds[1].pool, 0);
    assert_eq!(odds[1].multiplier, Multiplier { num: 1, den: 1 });
}

#[test]
fn no_wagers_yet() {
    let odds = compute_odds(&vec![], 3);
    assert_eq!(odds.len(), 3);
    for o in odds.iter() {
        assert_eq!(o.wagers, 0);
        assert_eq!(o.pool, 0);
        assert_eq!(o.multiplier.hundredths(), 100);
    }
}

#[test]
fn odds_are_recomputed_identically() {
    let ws = vec![wager(1, 0, 10), wager(2, 1, 25), wager(3, 1, 5)];
    assert_eq!(compute_odds(&ws, 2), compute_odds(&ws, 2));
}

#[test]
fn payouts_round_down() {
    assert_eq!(payout(100, Multiplier { num: 400, den: 100 }), 400);
    assert_eq!(payout(300, Multiplier { num: 400, den: 300 }), 400);
    assert_eq!(payout(7, Multiplier { num: 10, den: 3 }), 23);
}

#[test]
fn largest_amounts_do_not_overflow() {
    let ws = vec![wager(1, 0, u32::MAX), wager(2, 1, u32::MAX), wager(3, 1, u32::MAX)];
    let odds = compute_odds(&ws, 2);
    assert_eq!(odds[0].pool, u32::MAX as u128);
    assert_eq!(odds[1].pool, 2 * u32::MAX as u128);
    assert_eq!(payout(u32::MAX, odds[0].multiplier), 3 * u32::MAX as u128);
}

#[test]
fn odds_ignore_the_order_of_wagers() {
    let ws = vec![wager(1, 0, 10), wager(2, 1, 25), wager(3, 1, 5), wager(4, 0, 7)];
    let reordered = vec![ws[3], ws[1], ws[0], ws[2]];
    assert_eq!(compute_odds(&ws, 2), compute_odds(&reordered, 2));
}
