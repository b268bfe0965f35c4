use cch_rooms::decimal::{parse_i64, parse_u64};
use cch_rooms::recalibrate::{recalibrate, recalibrate_ids, RecalibrateError};
use cch_rooms::reindeer::{reindeer_cheer, Deer};
use cch_rooms::unpaired::find_no_pair;

#[test]
fn signed_decimals_are_read() {
    assert_eq!(parse_i64("42"), Some(42));
    assert_eq!(parse_i64("+5"), Some(5));
    assert_eq!(parse_i64("-17"), Some(-17));
    assert_eq!(parse_i64("007"), Some(7));
    assert_eq!(parse_i64("-9223372036854775808"), Some(i64::MIN));
    assert_eq!(parse_i64("9223372036854775807"), Some(i64::MAX));
}

#[test]
fn bad_signed_decimals_are_refused() {
    assert_eq!(parse_i64(""), None);
    assert_eq!(parse_i64("-"), None);
    assert_eq!(parse_i64("+"), None);
    assert_eq!(parse_i64("1_0"), None);
    assert_eq!(parse_i64(" 1"), None);
    assert_eq!(parse_i64("9223372036854775808"), None);
    assert_eq!(parse_i64("-9223372036854775809"), None);
}

#[test]
fn unsigned_decimals_are_read() {
    assert_eq!(parse_u64("18446744073709551615"), Some(u64::MAX));
    assert_eq!(parse_u64("+3"), Some(3));
    assert_eq!(parse_u64("18446744073709551616"), None);
    assert_eq!(parse_u64("-0"), None);
}

#[test]
fn recalibrate_cubes_the_xor() {
    assert_eq!(recalibrate_ids("4/8"), Ok(1728));
    assert_eq!(recalibrate_ids("10"), Ok(1000));
    assert_eq!(recalibrate_ids("4/5/8/10"), Ok(27));
    assert_eq!(recalibrate_ids("-3"), Ok(-27));
    assert_eq!(recalibrate(&vec![2, 3]), Ok(1));
}

#[test]
fn recalibrate_refuses_non_numbers() {
    assert_eq!(recalibrate_ids(""), Err(RecalibrateError::NotANumber));
    assert_eq!(recalibrate_ids("a/2"), Err(RecalibrateError::NotANumber));
    assert_eq!(recalibrate_ids("2//3"), Err(RecalibrateError::NotANumber));
    assert_eq!(recalibrate_ids("2/3/"), Err(RecalibrateError::NotANumber));
}

#[test]
fn recalibrate_reports_overflow() {
    assert_eq!(recalibrate_ids("2097152"), Err(RecalibrateError::TooLarge));
    assert_eq!(recalibrate_ids("3037000500"), Err(RecalibrateError::TooLarge));
    assert_eq!(recalibrate_ids("-2097152"), Ok(i64::MIN));
}

#[test]
fn recalibrate_of_nothing_fails() {
    assert_eq!(recalibrate(&Vec::new()), Err(RecalibrateError::NoNumbers));
}

#[test]
fn unpaired_number_is_found() {
    assert_eq!(find_no_pair("1\n2\n1\n"), Some(2));
    assert_eq!(find_no_pair("1\r\n2\r\n1"), Some(2));
    assert_eq!(find_no_pair("5\nfoo\n5\n7"), Some(7));
    assert_eq!(find_no_pair("3\n3"), Some(0));
}

#[test]
fn text_without_numbers_has_no_unpaired_number() {
    assert_eq!(find_no_pair(""), None);
    assert_eq!(find_no_pair("x\ny\n"), None);
}

fn deer(name: &str, strength: u32) -> Deer {
    Deer { name: name.to_string(), strength }
}

#[test]
fn strengths_add_up() {
    let team = vec![deer("Dasher", 8), deer("Dancer", 6), deer("Prancer", 4), deer("Vixen", 7)];
    assert_eq!(reindeer_cheer(&team), Some(25));
    assert_eq!(reindeer_cheer(&Vec::new()), Some(0));
}

#[test]
fn strength_sum_beyond_u32_is_refused() {
    assert_eq!(reindeer_cheer(&vec![deer("a", u32::MAX), deer("b", 1)]), None);
    assert_eq!(reindeer_cheer(&vec![deer("a", u32::MAX), deer("b", 0)]), Some(u32::MAX));
}
