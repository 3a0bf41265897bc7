use wager_rounds::outcome::{parse_outcome, Outcome};
use wager_rounds::parse::{button_side, parse_amount, parse_id_list};
use wager_rounds::wager::{is_denied, FeePolicy};

#[test]
fn amount_plain_numbers() {
    assert_eq!(parse_amount("100"), Some(100));
    assert_eq!(parse_amount("1"), Some(1));
    assert_eq!(parse_amount("+7"), Some(7));
    assert_eq!(parse_amount("4294967295"), Some(4294967295));
}

#[test]
fn amount_rejects_non_positive_and_garbage() {
    assert_eq!(parse_amount("0"), None);
    assert_eq!(parse_amount("-5"), None);
    assert_eq!(parse_amount("abc"), None);
    assert_eq!(parse_amount(""), None);
    assert_eq!(parse_amount("+"), None);
    assert_eq!(parse_amount("1.5"), None);
    assert_eq!(parse_amount(" 10"), None);
    assert_eq!(parse_amount("4294967296"), None);
    assert_eq!(parse_amount("99999999999999999999999"), None);
}

#[test]
fn id_list_reads_each_piece() {
    assert_eq!(parse_id_list("1,2,3"), Some(vec![1, 2, 3]));
    assert_eq!(parse_id_list("42"), Some(vec![42]));
    assert_eq!(
        parse_id_list("18446744073709551615"),
        Some(vec![18446744073709551615])
    );
}

#[test]
fn id_list_rejects_bad_pieces() {
    assert_eq!(parse_id_list(""), None);
    assert_eq!(parse_id_list("1,,2"), None);
    assert_eq!(parse_id_list("1,2,"), None);
    assert_eq!(parse_id_list("12, 3"), None);
    assert_eq!(parse_id_list("18446744073709551616"), None);
}

#[test]
fn outcome_selection_for_two_sides() {
    assert_eq!(parse_outcome("0", 2), Some(Outcome::Cancelled));
    assert_eq!(parse_outcome("1", 2), Some(Outcome::Side(0)));
    assert_eq!(parse_outcome("2", 2), Some(Outcome::Side(1)));
    assert_eq!(parse_outcome("3", 2), Some(Outcome::Draw));
    assert_eq!(parse_outcome("4", 2), None);
    assert_eq!(parse_outcome("red", 2), None);
}

#[test]
fn outcome_selection_takes_only_plain_numerals() {
    assert_eq!(parse_outcome("01", 2), None);
    assert_eq!(parse_outcome("00", 2), None);
    assert_eq!(parse_outcome("+3", 2), None);
    assert_eq!(parse_outcome("003", 2), None);
    assert_eq!(parse_outcome(" 1", 2), None);
    assert_eq!(parse_outcome("", 2), None);
    assert_eq!(parse_outcome("18446744073709551616", 2), None);
}

#[test]
fn outcome_selection_for_three_sides() {
    assert_eq!(parse_outcome("3", 3), Some(Outcome::Side(2)));
    assert_eq!(parse_outcome("4", 3), Some(Outcome::Draw));
}

#[test]
fn button_identifiers() {
    assert_eq!(button_side("bet0", 2), Some(0));
    assert_eq!(button_side("bet1", 2), Some(1));
    assert_eq!(button_side("bet2", 2), None);
    assert_eq!(button_side("bat0", 2), None);
    assert_eq!(button_side("bet", 2), None);
}

#[test]
fn fee_policies() {
    assert_eq!(FeePolicy::none().fee(1000), 0);
    assert_eq!(FeePolicy::default().fee(77), 0);
    assert_eq!(FeePolicy::tithe().fee(50), 5);
    assert_eq!(FeePolicy::tithe().fee(5000), 100);
    assert_eq!(FeePolicy::tithe().fee(9), 0);
}

#[test]
fn denylist_by_member_or_group() {
    let deny = vec![5, 900];
    assert!(is_denied(&deny, 5, &vec![]));
    assert!(is_denied(&deny, 6, &vec![1, 900]));
    assert!(!is_denied(&deny, 6, &vec![1, 2]));
    assert!(!is_denied(&vec![], 5, &vec![5]));
}
