use wager_rounds::coordinator::{ControlError, Coordinator};
use wager_rounds::ledger::{Ledger, STARTING_GRANT};
use wager_rounds::outcome::Outcome;
use wager_rounds::round::{OpenError, RoundSession, SettleError, Stage};
use wager_rounds::settlement::{plan_settlement, Credit, CreditKind};
use wager_rounds::wager::{FeePolicy, Wager, WagerError};

const ROUND: u64 = 777;
const A: u64 = 1;
const B: u64 = 2;

fn red_blue() -> Vec<String> {
    vec!["Red".to_string(), "Blue".to_string()]
}

fn open_round() -> Coordinator {
    let mut c = Coordinator::new(Ledger::with_starting_grant());
    assert_eq!(c.open(ROUND, red_blue(), vec![], FeePolicy::none(), 10), Ok(()));
    c
}

#[test]
fn winner_is_paid_at_the_multiplier() {
    let mut c = open_round();
    assert_eq!(c.place_wager(A, &vec![], 0, 100, 11), Ok(100));
    assert_eq!(c.place_wager(B, &vec![], 1, 300, 12), Ok(300));
    let odds = c.odds().unwrap();
    assert_eq!(odds[0].multiplier.hundredths(), 400);
    assert_eq!(odds[1].multiplier.hundredths(), 133);
    assert_eq!(c.ledger().balance(A), 900);
    assert_eq!(c.ledger().balance(B), 700);
    assert_eq!(c.end(ROUND, Outcome::Side(0), 20), Ok(()));
    let credits = c.settle().unwrap();
    assert_eq!(
        credits,
        vec![
            Credit { participant: A, kind: CreditKind::Won, amount: 400 },
            Credit { participant: B, kind: CreditKind::Lost, amount: 0 },
        ]
    );
    assert_eq!(c.ledger().balance(A), 1300);
    assert_eq!(c.ledger().balance(B), 700);
}

#[test]
fn cancelled_round_refunds_everyone() {
    let mut c = open_round();
    assert_eq!(c.place_wager(A, &vec![], 0, 100, 11), Ok(100));
    assert_eq!(c.place_wager(B, &vec![], 1, 50, 12), Ok(50));
    assert_eq!(c.end(ROUND, Outcome::Cancelled, 20), Ok(()));
    let credits = c.settle().unwrap();
    assert_eq!(credits[0], Credit { participant: A, kind: CreditKind::Refunded, amount: 100 });
    assert_eq!(credits[1], Credit { participant: B, kind: CreditKind::Refunded, amount: 50 });
    assert_eq!(c.ledger().balance(A), STARTING_GRANT);
    assert_eq!(c.ledger().balance(B), STARTING_GRANT);
}

#[test]
fn draw_refunds_everyone() {
    let mut c = open_round();
    assert_eq!(c.place_wager(A, &vec![], 0, 10, 11), Ok(10));
    assert_eq!(c.place_wager(B, &vec![], 0, 20, 12), Ok(20));
    assert_eq!(c.end(ROUND, Outcome::Draw, 20), Ok(()));
    c.settle().unwrap();
    assert_eq!(c.ledger().balance(A), 1000);
    assert_eq!(c.ledger().balance(B), 1000);
}

#[test]
fn insufficient_balance_leaves_it_unchanged() {
    let mut ledger = Ledger::with_starting_grant();
    ledger.restore(A, 50);
    let mut c = Coordinator::new(ledger);
    assert_eq!(c.open(ROUND, red_blue(), vec![], FeePolicy::none(), 10), Ok(()));
    assert_eq!(c.place_wager(A, &vec![], 0, 100, 11), Err(WagerError::InsufficientFunds));
    assert_eq!(c.ledger().balance(A), 50);
    assert_eq!(c.round().unwrap().wagers().len(), 0);
}

#[test]
fn second_wager_of_a_participant_is_refused() {
    let mut c = open_round();
    assert_eq!(c.place_wager(A, &vec![], 0, 100, 11), Ok(100));
    assert_eq!(c.place_wager(A, &vec![], 1, 100, 12), Err(WagerError::AlreadyWagered));
    assert_eq!(c.check_entry(A, &vec![]), Err(WagerError::AlreadyWagered));
    assert_eq!(c.ledger().balance(A), 900);
    assert_eq!(c.round().unwrap().wagers().len(), 1);
}

#[test]
fn second_resolution_and_settlement_are_refused() {
    let mut c = open_round();
    assert_eq!(c.place_wager(A, &vec![], 0, 100, 11), Ok(100));
    assert_eq!(c.end(ROUND, Outcome::Side(0), 20), Ok(()));
    assert_eq!(c.end(ROUND, Outcome::Side(1), 21), Err(ControlError::AlreadyEnded));
    assert_eq!(c.round().unwrap().outcome(), Some(Outcome::Side(0)));
    assert!(c.settle().is_ok());
    let after_first = c.ledger().balance(A);
    assert_eq!(c.settle(), Err(SettleError::AlreadySettled));
    assert_eq!(c.ledger().balance(A), after_first);
}

#[test]
fn end_while_handlers_in_flight_discards_their_commits() {
    let mut c = open_round();
    assert_eq!(c.place_wager(A, &vec![], 0, 100, 11), Ok(100));
    for p in 10..13u64 {
        assert_eq!(c.check_entry(p, &vec![]), Ok(()));
    }
    assert_eq!(c.end(ROUND, Outcome::Side(0), 20), Ok(()));
    for p in 10..13u64 {
        assert_eq!(c.place_wager(p, &vec![], 1, 100, 21), Err(WagerError::RoundClosed));
        assert_eq!(c.ledger().balance(p), STARTING_GRANT);
    }
    let credits = c.settle().unwrap();
    assert_eq!(credits.len(), 1);
    assert_eq!(credits[0].participant, A);
}

#[test]
fn stopped_round_takes_no_new_entrant() {
    let mut c = open_round();
    assert_eq!(c.stop(ROUND, 15), Ok(()));
    assert_eq!(c.round().unwrap().stage(), Stage::Stopped);
    assert_eq!(c.round().unwrap().stopped_at(), Some(15));
    for p in 20..25u64 {
        assert_eq!(c.check_entry(p, &vec![]), Err(WagerError::RoundClosed));
    }
    assert_eq!(c.round().unwrap().wagers().len(), 0);
    assert_eq!(c.stop(ROUND, 17), Err(ControlError::AlreadyStopped));
    assert_eq!(c.end(ROUND, Outcome::Cancelled, 30), Ok(()));
    assert_eq!(c.round().unwrap().stopped_at(), Some(15));
    assert_eq!(c.round().unwrap().ended_at(), Some(30));
    assert_eq!(c.stop(ROUND, 31), Err(ControlError::AlreadyEnded));
}

#[test]
fn end_without_stop_sets_both_times() {
    let mut c = open_round();
    assert_eq!(c.end(ROUND, Outcome::Draw, 40), Ok(()));
    assert_eq!(c.round().unwrap().stopped_at(), Some(40));
    assert_eq!(c.round().unwrap().ended_at(), Some(40));
    assert_eq!(c.round().unwrap().started_at(), 10);
}

#[test]
fn commands_for_another_round_are_refused() {
    let mut c = open_round();
    assert_eq!(c.stop(ROUND + 1, 15), Err(ControlError::NoSuchRound));
    assert_eq!(c.end(ROUND + 1, Outcome::Draw, 15), Err(ControlError::NoSuchRound));
    assert_eq!(c.end(ROUND, Outcome::Side(2), 15), Err(ControlError::UnknownSide));
    let mut idle = Coordinator::new(Ledger::with_starting_grant());
    assert_eq!(idle.stop(ROUND, 1), Err(ControlError::NoSuchRound));
    assert_eq!(idle.place_wager(A, &vec![], 0, 1, 1), Err(WagerError::RoundClosed));
    assert_eq!(idle.settle(), Err(SettleError::NotResolved));
}

#[test]
fn only_one_round_at_a_time() {
    let mut c = open_round();
    assert_eq!(
        c.open(ROUND + 1, red_blue(), vec![], FeePolicy::none(), 11),
        Err(OpenError::AlreadyActive)
    );
    assert_eq!(c.active_id(), Some(ROUND));
    assert!(c.finish().is_none());
    assert_eq!(c.end(ROUND, Outcome::Cancelled, 12), Ok(()));
    assert!(c.finish().is_none());
    c.settle().unwrap();
    let done = c.finish().unwrap();
    assert_eq!(done.id(), ROUND);
    assert_eq!(c.active_id(), None);
    assert_eq!(c.open(ROUND + 1, red_blue(), vec![], FeePolicy::none(), 13), Ok(()));
}

#[test]
fn open_needs_two_sides_and_a_sane_fee() {
    let mut c = Coordinator::new(Ledger::with_starting_grant());
    assert_eq!(
        c.open(ROUND, vec!["Solo".to_string()], vec![], FeePolicy::none(), 1),
        Err(OpenError::TooFewSides)
    );
    assert_eq!(
        c.open(ROUND, red_blue(), vec![], FeePolicy { percent: 101, cap: 5 }, 1),
        Err(OpenError::InvalidFee)
    );
    assert_eq!(c.active_id(), None);
    assert!(RoundSession::new(ROUND, red_blue(), vec![], FeePolicy::none(), 1).is_ok());
}

#[test]
fn denied_participants_and_groups() {
    let mut c = Coordinator::new(Ledger::with_starting_grant());
    assert_eq!(c.open(ROUND, red_blue(), vec![A, 900], FeePolicy::none(), 1), Ok(()));
    assert_eq!(c.check_entry(A, &vec![]), Err(WagerError::Ineligible));
    assert_eq!(c.place_wager(A, &vec![], 0, 10, 2), Err(WagerError::Ineligible));
    assert_eq!(c.place_wager(B, &vec![3, 900], 0, 10, 2), Err(WagerError::Ineligible));
    assert_eq!(c.place_wager(B, &vec![3], 0, 10, 2), Ok(10));
}

#[test]
fn invalid_amounts_and_sides() {
    let mut c = open_round();
    assert_eq!(c.place_wager(A, &vec![], 0, 0, 2), Err(WagerError::InvalidAmount));
    assert_eq!(c.place_wager(A, &vec![], 2, 10, 2), Err(WagerError::UnknownSide));
    assert_eq!(c.place_typed_wager(A, &vec![], 0, "ten", 2), Err(WagerError::InvalidAmount));
    assert_eq!(c.place_typed_wager(A, &vec![], 0, "-10", 2), Err(WagerError::InvalidAmount));
    assert_eq!(c.place_typed_wager(A, &vec![], 0, "25", 2), Ok(25));
    assert_eq!(c.ledger().balance(A), 975);
}

#[test]
fn fee_is_withheld_from_the_pool() {
    let mut c = Coordinator::new(Ledger::with_starting_grant());
    assert_eq!(c.open(ROUND, red_blue(), vec![], FeePolicy::tithe(), 1), Ok(()));
    assert_eq!(c.place_wager(A, &vec![], 0, 200, 2), Ok(180));
    assert_eq!(c.ledger().balance(A), 800);
    let w = c.round().unwrap().wagers()[0];
    assert_eq!(w, Wager { participant: A, side: 0, stake: 200, amount: 180, placed_at: 2 });
    assert_eq!(c.end(ROUND, Outcome::Cancelled, 3), Ok(()));
    c.settle().unwrap();
    assert_eq!(c.ledger().balance(A), 980);
}

#[test]
fn winners_share_one_multiplier() {
    let ws = vec![
        Wager { participant: 1, side: 0, stake: 100, amount: 100, placed_at: 0 },
        Wager { participant: 2, side: 0, stake: 200, amount: 200, placed_at: 0 },
        Wager { participant: 3, side: 1, stake: 600, amount: 600, placed_at: 0 },
    ];
    let credits = plan_settlement(&ws, Outcome::Side(0), 2);
    assert_eq!(credits[0].amount, 300);
    assert_eq!(credits[1].amount, 600);
    assert_eq!(credits[2], Credit { participant: 3, kind: CreditKind::Lost, amount: 0 });
}

#[test]
fn ledger_accounts_open_on_first_contact() {
    let mut ledger = Ledger::new(250);
    assert_eq!(ledger.balance(9), 250);
    assert_eq!(ledger.open_account(9), 250);
    assert!(ledger.try_debit(9, 200));
    assert!(!ledger.try_debit(9, 51));
    assert_eq!(ledger.balance(9), 50);
    ledger.credit(9, 5);
    assert_eq!(ledger.balance(9), 55);
    ledger.credit(9, u128::MAX);
    assert_eq!(ledger.balance(9), u64::MAX);
    let mut c = Coordinator::new(Ledger::with_starting_grant());
    assert_eq!(c.account(4), 1000);
}

#[test]
fn debits_never_exceed_opening_balances() {
    let mut ledger = Ledger::with_starting_grant();
    ledger.restore(A, 60);
    ledger.restore(B, 500);
    let mut c = Coordinator::new(ledger);
    assert_eq!(c.open(ROUND, red_blue(), vec![], FeePolicy::none(), 1), Ok(()));
    let attempts: [(u64, usize, u32); 7] =
        [(A, 0, 100), (A, 0, 60), (A, 1, 1), (B, 1, 499), (B, 0, 1), (3, 0, 1001), (3, 0, 1000)];
    for (p, side, amount) in attempts {
        let _ = c.place_wager(p, &vec![], side, amount, 2);
    }
    let debited: u64 = c.round().unwrap().wagers().iter().map(|w| w.stake as u64).sum();
    assert_eq!(debited, 60 + 499 + 1000);
    assert!(debited <= 60 + 500 + 1000);
    assert_eq!(c.ledger().balance(A), 0);
    assert_eq!(c.ledger().balance(B), 1);
    assert_eq!(c.ledger().balance(3), 0);
}

#[test]
fn payouts_stay_within_the_pool() {
    let ws: Vec<Wager> = (1..=3u64)
        .map(|p| Wager { participant: p, side: 0, stake: 1, amount: 1, placed_at: 0 })
        .chain(std::iter::once(Wager { participant: 4, side: 1, stake: 1, amount: 1, placed_at: 0 }))
        .collect();
    let credits = plan_settlement(&ws, Outcome::Side(0), 2);
    let paid: u128 = credits.iter().map(|c| c.amount).sum();
    assert_eq!(paid, 3);
    assert!(paid <= 4);
    let refunds = plan_settlement(&ws, Outcome::Draw, 2);
    assert_eq!(refunds.iter().map(|c| c.amount).sum::<u128>(), 4);
}

#[test]
fn handler_in_flight_at_stop_still_commits() {
    let mut c = open_round();
    assert_eq!(c.check_entry(A, &vec![]), Ok(()));
    assert_eq!(c.stop(ROUND, 15), Ok(()));
    assert_eq!(c.check_entry(B, &vec![]), Err(WagerError::RoundClosed));
    assert_eq!(c.place_wager(A, &vec![], 0, 100, 16), Ok(100));
    assert_eq!(c.ledger().balance(A), 900);
    assert_eq!(c.place_wager(A, &vec![], 0, 100, 17), Err(WagerError::AlreadyWagered));
    assert_eq!(c.end(ROUND, Outcome::Side(0), 20), Ok(()));
    assert_eq!(c.place_wager(B, &vec![], 1, 100, 21), Err(WagerError::RoundClosed));
    assert_eq!(c.settle().unwrap().len(), 1);
}
