use cch_rooms::password::{game, nice, GameError, Naughty};

#[test]
fn nice_text_passes() {
    assert_eq!(nice("hello there"), Ok(()));
}

#[test]
fn forbidden_pair_is_naughty() {
    assert_eq!(nice("hello there ab"), Err(Naughty));
    assert_eq!(nice("aaeexy"), Err(Naughty));
}

#[test]
fn text_without_double_letter_is_naughty() {
    assert_eq!(nice("EzEzEz"), Err(Naughty));
}

#[test]
fn text_with_two_vowels_is_naughty() {
    assert_eq!(nice("hello"), Err(Naughty));
}

#[test]
fn game_wants_eight_bytes() {
    assert_eq!(game("mario"), Err(GameError::AtLeast8Long));
    assert_eq!(game("\u{e9}\u{e9}\u{e9}\u{e9}"), Err(GameError::ContainUpLowerDigits));
}

#[test]
fn game_wants_mixed_case_and_digit() {
    assert_eq!(game("mariobro"), Err(GameError::ContainUpLowerDigits));
    assert_eq!(game("MARIOBRO1"), Err(GameError::ContainUpLowerDigits));
}

#[test]
fn game_wants_five_digits() {
    assert_eq!(game("EE6378bb"), Err(GameError::Contain5Digits));
}

#[test]
fn game_wants_sum_2023() {
    assert_eq!(game("Password12345"), Err(GameError::AddTo2023));
    assert_eq!(game("Pass99999999999999999999word"), Err(GameError::AddTo2023));
}

#[test]
fn game_wants_joy() {
    assert_eq!(game("Pa2000ss20w1ord2"), Err(GameError::ContainJoyInOrder));
}

#[test]
fn game_wants_sandwich() {
    assert_eq!(game("Pa2000ss20w1ord2 j-o-y"), Err(GameError::HasSandwich));
}

#[test]
fn game_wants_band_character() {
    assert_eq!(game("Pa2000ss20w1ord2 j-o-y AxA"), Err(GameError::InRange));
}

#[test]
fn game_wants_emoji() {
    assert_eq!(game("Pa2000ss20w1ord2 j-o-y AxA \u{2980}"), Err(GameError::ContainEmoji));
}

#[test]
fn game_wants_digest_ending_in_a() {
    assert_eq!(game("Pa2000ss20w1ord2 j-o-y AxA \u{2980} \u{1F600} "), Err(GameError::HashEndsWithA));
}

#[test]
fn game_accepts_nice_password() {
    assert_eq!(game("Pa2000ss20w1ord2 j-o-y AxA \u{2980} \u{1F600} ai"), Ok(()));
}

#[test]
fn game_errors_carry_reason_and_status() {
    assert_eq!(GameError::AtLeast8Long.reason(), "8 chars");
    assert_eq!(GameError::AtLeast8Long.status(), 400);
    assert_eq!(GameError::ContainEmoji.reason(), "\u{1F633}");
    assert_eq!(GameError::ContainEmoji.status(), 426);
    assert_eq!(GameError::HashEndsWithA.status(), 418);
    assert_eq!(GameError::HasSandwich.status(), 451);
}
