//! Password and "nice string" rules: each rule decides on its own, and the
//! game applies them in a fixed order and reports the first that fails.
use vstd::prelude::*;
use crate::text::{contains_text, occurs_in};

verus! {

/// The text of a request to one of the rule checks.
pub struct NiceInput {
    pub input: String,
}

/// The answer to a text that breaks one of the "nice" rules.
#[derive(Clone, Copy, Debug, PartialEq, Eq, Structural)]
pub struct Naughty;

/// The first password rule that a text breaks.
#[derive(Clone, Copy, Debug, PartialEq, Eq, Structural)]
pub enum GameError {
    AtLeast8Long,
    ContainUpLowerDigits,
    Contain5Digits,
    AddTo2023,
    ContainJoyInOrder,
    HasSandwich,
    InRange,
    ContainEmoji,
    HashEndsWithA,
}

/// The reason given to the client for each broken rule.
pub open spec fn reason_of(e: GameError) -> Seq<char> {
    match e {
        GameError::AtLeast8Long => "8 chars"@,
        GameError::ContainUpLowerDigits => "more types of chars"@,
        GameError::Contain5Digits => "55555"@,
        GameError::AddTo2023 => "math is hard"@,
        GameError::ContainJoyInOrder => "not joyful enough"@,
        GameError::HasSandwich => "illegal: no sandwich"@,
        GameError::InRange => "outranged"@,
        GameError::ContainEmoji => "\u{1F633}"@,
        GameError::HashEndsWithA => "not a coffee brewer"@,
    }
}

/// The HTTP status sent for each broken rule.
pub open spec fn status_of(e: GameError) -> u16 {
    match e {
        GameError::AtLeast8Long => 400,
        GameError::ContainUpLowerDigits => 400,
        GameError::Contain5Digits => 400,
        GameError::AddTo2023 => 400,
        GameError::ContainJoyInOrder => 406,
        GameError::HasSandwich => 451,
        GameError::InRange => 416,
        GameError::ContainEmoji => 426,
        GameError::HashEndsWithA => 418,
    }
}

impl GameError {
    /// The reason given to the client.
    pub fn reason(&self) -> (r: &'static str)
        ensures
            r@ == reason_of(*self),
    {
        match self {
            GameError::AtLeast8Long => "8 chars",
            GameError::ContainUpLowerDigits => "more types of chars",
            GameError::Contain5Digits => "55555",
            GameError::AddTo2023 => "math is hard",
            GameError::ContainJoyInOrder => "not joyful enough",
            GameError::HasSandwich => "illegal: no sandwich",
            GameError::InRange => "outranged",
            GameError::ContainEmoji => "\u{1F633}",
            GameError::HashEndsWithA => "not a coffee brewer",
        }
    }

    /// The HTTP status code sent to the client.
    pub fn status(&self) -> (r: u16)
        ensures
            r == status_of(*self),
    {
        match self {
            GameError::AtLeast8Long => 400,
            GameError::ContainUpLowerDigits => 400,
            GameError::Contain5Digits => 400,
            GameError::AddTo2023 => 400,
            GameError::ContainJoyInOrder => 406,
            GameError::HasSandwich => 451,
            GameError::InRange => 416,
            GameError::ContainEmoji => 426,
            GameError::HashEndsWithA => 418,
        }
    }
}

/// Whether a regular expression matches somewhere in a text: `None` where
/// the pattern does not compile or the matcher gives up.
pub uninterp spec fn regex_match_of(pattern: Seq<char>, text: Seq<char>) -> Option<bool>;

/// Whether a character is uppercase in the Unicode sense.
pub uninterp spec fn uppercase_of(c: char) -> bool;

/// Whether a character is lowercase in the Unicode sense.
pub uninterp spec fn lowercase_of(c: char) -> bool;

/// The entry at position `i` of the Unicode emoji list (default skin
/// tone), `None` past its end.
pub uninterp spec fn emoji_at_of(i: usize) -> Option<Seq<char>>;

/// The list has an entry at every position before `i`.
pub open spec fn listed_before(i: usize) -> bool {
    forall|j: usize| j < i ==> #[trigger] emoji_at_of(j) is Some
}

/// Entry `i` of the emoji list exists and occurs in `text`.
pub open spec fn emoji_found_at(text: Seq<char>, i: usize) -> bool {
    &&& emoji_at_of(i) is Some
    &&& occurs_in(text, emoji_at_of(i)->Some_0)
}

/// A text holds one of the emoji of the list.
pub open spec fn contains_emoji(text: Seq<char>) -> bool {
    exists|i: usize| i < usize::MAX && listed_before(i) && #[trigger] emoji_found_at(text, i)
}

/// The SHA-256 digest of a text's UTF-8 bytes, in lowercase hexadecimal.
pub uninterp spec fn sha256_hex_of(text: Seq<char>) -> Seq<char>;

/// Relies on `fancy_regex::Regex::new` to compile `pattern` and on
/// `fancy_regex::Regex::is_match` to search `text`; both depend on their
/// arguments alone.
#[verifier::external_body]
fn regex_is_match(pattern: &str, text: &str) -> (r: Option<bool>)
    ensures
        r == regex_match_of(pattern@, text@),
{
    match fancy_regex::Regex::new(pattern) {
        Ok(re) => re.is_match(text).ok(),
        Err(_) => None,
    }
}

/// Relies on `char::is_uppercase`.
#[verifier::external_body]
fn is_upper(c: char) -> (r: bool)
    ensures
        r == uppercase_of(c),
{
    c.is_uppercase()
}

/// Relies on `char::is_lowercase`.
#[verifier::external_body]
fn is_lower(c: char) -> (r: bool)
    ensures
        r == lowercase_of(c),
{
    c.is_lowercase()
}

/// Relies on `emojis::iter` for the emoji list (default skin tone) and on
/// `emojis::Emoji::as_str` for the text of its entry at `i`.
#[verifier::external_body]
fn emoji_at(i: usize) -> (r: Option<String>)
    ensures
        match r {
            Some(e) => emoji_at_of(i) == Some(e@),
            None => emoji_at_of(i) is None,
        },
{
    match emojis::iter().nth(i) {
        Some(e) => Some(e.as_str().to_string()),
        None => None,
    }
}

/// Relies on `sha256::digest` for a `&str`: the hex digest of its bytes.
#[verifier::external_body]
fn sha256_hex(text: &str) -> (r: String)
    ensures
        r@ == sha256_hex_of(text@),
{
    sha256::digest(text)
}

/// An ASCII decimal digit.
pub open spec fn is_digit(c: char) -> bool {
    '0' <= c && c <= '9'
}

/// A character of the band from U+2980 to U+2BFF.
pub open spec fn in_band(c: char) -> bool {
    '\u{2980}' <= c && c <= '\u{2bff}'
}

/// The number of ASCII digits in a text.
pub open spec fn digit_count(s: Seq<char>) -> nat
    decreases s.len(),
{
    if s.len() == 0 {
        0
    } else {
        digit_count(s.drop_last()) + if is_digit(s.last()) {
            1nat
        } else {
            0nat
        }
    }
}

/// The sum of the numbers that the maximal runs of digits in `s` spell, when
/// the run being read so far spells `run` and the runs before it add up to
/// `total`.
pub open spec fn runs_total(s: Seq<char>, run: int, total: int) -> int
    decreases s.len(),
{
    if s.len() == 0 {
        total + run
    } else if is_digit(s[0]) {
        runs_total(s.drop_first(), run * 10 + (s[0] as int - '0' as int), total)
    } else {
        runs_total(s.drop_first(), 0, total + run)
    }
}

/// The sum of the numbers that the maximal runs of digits in a text spell.
pub open spec fn digit_runs_sum(s: Seq<char>) -> int {
    runs_total(s, 0, 0)
}

/// The regular expression that finds `j`, `o` and `y` in that order, each
/// apart from the next.
pub open spec fn joy_pattern() -> Seq<char> {
    "j.+?o.+?y"@
}

/// The regular expression that finds a letter, another character, and the
/// same letter again.
pub open spec fn sandwich_pattern() -> Seq<char> {
    "([a-zA-Z])(?!\\1).\\1"@
}

/// The regular expression that finds three vowels.
pub open spec fn vowels_pattern() -> Seq<char> {
    "[aeiouyAEIOUY].*[aeiouyAEIOUY].*[aeiouyAEIOUY]"@
}

/// The regular expression that finds a letter written twice in a row.
pub open spec fn double_pattern() -> Seq<char> {
    "([a-zA-Z])\\1"@
}

/// The outcome of the password game on a text: the first rule broken, in the
/// order the rules are checked.
pub open spec fn game_outcome(input: &str) -> Result<(), GameError> {
    let s = input@;
    if input.len() < 8 {
        Err(GameError::AtLeast8Long)
    } else if !mixed_case_and_digit(s) {
        Err(GameError::ContainUpLowerDigits)
    } else if digit_count(s) <= 4 {
        Err(GameError::Contain5Digits)
    } else if digit_runs_sum(s) != 2023 {
        Err(GameError::AddTo2023)
    } else if regex_match_of(joy_pattern(), s) != Some(true) {
        Err(GameError::ContainJoyInOrder)
    } else if regex_match_of(sandwich_pattern(), s) != Some(true) {
        Err(GameError::HasSandwich)
    } else if !(exists|i: int| 0 <= i < s.len() && in_band(s[i])) {
        Err(GameError::InRange)
    } else if !contains_emoji(s) {
        Err(GameError::ContainEmoji)
    } else if !digest_ends_in_a(s) {
        Err(GameError::HashEndsWithA)
    } else {
        Ok(())
    }
}

/// A nice text has three vowels, a letter twice in a row, and none of `ab`,
/// `cd`, `pq` and `xy`.
pub open spec fn is_nice(s: Seq<char>) -> bool {
    &&& regex_match_of(vowels_pattern(), s) == Some(true)
    &&& regex_match_of(double_pattern(), s) == Some(true)
    &&& regex_match_of("ab"@, s) == Some(false)
    &&& regex_match_of("cd"@, s) == Some(false)
    &&& regex_match_of("pq"@, s) == Some(false)
    &&& regex_match_of("xy"@, s) == Some(false)
}

/// The text has an uppercase letter, a lowercase letter and a digit.
pub open spec fn mixed_case_and_digit(s: Seq<char>) -> bool {
    &&& exists|i: int| 0 <= i < s.len() && uppercase_of(s[i])
    &&& exists|i: int| 0 <= i < s.len() && lowercase_of(s[i])
    &&& exists|i: int| 0 <= i < s.len() && is_digit(s[i])
}

/// The text's digest ends in the hex digit `a`.
pub open spec fn digest_ends_in_a(s: Seq<char>) -> bool {
    sha256_hex_of(s).len() > 0 && sha256_hex_of(s).last() == 'a'
}

/// One password rule: passes when the condition is met, else fails with its error.
pub open spec fn rule(holds: bool, e: GameError) -> Result<(), GameError> {
    if holds {
        Ok(())
    } else {
        Err(e)
    }
}

/// The password must be at least eight bytes long.
fn length_test(input: &str) -> (r: Result<(), GameError>)
    ensures
        r == rule(input.len() >= 8, GameError::AtLeast8Long),
{
    if input.len() < 8 {
        Err(GameError::AtLeast8Long)
    } else {
        Ok(())
    }
}

/// The password must hold an uppercase letter, a lowercase letter and a digit.
fn case_test(input: &str) -> (r: Result<(), GameError>)
    ensures
        r == rule(mixed_case_and_digit(input@), GameError::ContainUpLowerDigits),
{
    let n = input.unicode_len();
    let mut upper = false;
    let mut lower = false;
    let mut digit = false;
    let mut i: usize = 0;
    while i < n
        invariant
            n == input@.len(),
            i <= n,
            upper == exists|j: int| 0 <= j < i && uppercase_of(input@[j]),
            lower == exists|j: int| 0 <= j < i && lowercase_of(input@[j]),
            digit == exists|j: int| 0 <= j < i && is_digit(input@[j]),
        decreases n - i,
    {
        let c = input.get_char(i);
        if is_upper(c) {
            upper = true;
        }
        if is_lower(c) {
            lower = true;
        }
        if '0' <= c && c <= '9' {
            digit = true;
        }
        proof {
            if upper {
                if !uppercase_of(c) {
                    let j = choose|j: int| 0 <= j < i && uppercase_of(input@[j]);
                    assert(0 <= j < i + 1);
                }
            }
            if lower {
                if !lowercase_of(c) {
                    let j = choose|j: int| 0 <= j < i && lowercase_of(input@[j]);
                    assert(0 <= j < i + 1);
                }
            }
            if digit {
                if !is_digit(c) {
                    let j = choose|j: int| 0 <= j < i && is_digit(input@[j]);
                    assert(0 <= j < i + 1);
                }
            }
        }
        i = i + 1;
    }
    if upper && lower && digit {
        Ok(())
    } else {
        Err(GameError::ContainUpLowerDigits)
    }
}

/// The password must hold at least five digits.
fn contain_five_digits(input: &str) -> (r: Result<(), GameError>)
    ensures
        r == rule(digit_count(input@) > 4, GameError::Contain5Digits),
{
    let n = input.unicode_len();
    let mut count: usize = 0;
    let mut i: usize = 0;
    while i < n
        invariant
            n == input@.len(),
            i <= n,
            count == digit_count(input@.subrange(0, i as int)),
            count <= i,
        decreases n - i,
    {
        let c = input.get_char(i);
        assert(input@.subrange(0, i + 1).drop_last() =~= input@.subrange(0, i as int));
        if '0' <= c && c <= '9' {
            count = count + 1;
        }
        i = i + 1;
    }
    assert(input@.subrange(0, n as int) =~= input@);
    if count > 4 {
        Ok(())
    } else {
        Err(GameError::Contain5Digits)
    }
}

/// Reading on from a run and a running total never lowers the sum.
proof fn lemma_runs_total_grows(s: Seq<char>, run: int, total: int)
    requires
        run >= 0,
        total >= 0,
    ensures
        runs_total(s, run, total) >= run + total,
    decreases s.len(),
{
    if s.len() > 0 {
        if is_digit(s[0]) {
            lemma_runs_total_grows(s.drop_first(), run * 10 + (s[0] as int - '0' as int), total);
        } else {
            lemma_runs_total_grows(s.drop_first(), 0, total + run);
        }
    }
}

/// The numbers in the password must add up to 2023.
fn adds_up(input: &str) -> (r: Result<(), GameError>)
    ensures
        r == rule(digit_runs_sum(input@) == 2023, GameError::AddTo2023),
{
    let n = input.unicode_len();
    let mut run: u64 = 0;
    let mut total: u64 = 0;
    let mut i: usize = 0;
    assert(input@.subrange(0, n as int) =~= input@);
    while i < n
        invariant
            n == input@.len(),
            i <= n,
            run <= 2023,
            total <= 2023,
            digit_runs_sum(input@) == runs_total(input@.subrange(i as int, n as int), run as int, total as int),
        decreases n - i,
    {
        let c = input.get_char(i);
        let ghost rest = input@.subrange(i as int, n as int);
        assert(rest.drop_first() =~= input@.subrange(i + 1, n as int));
        assert(rest[0] == c);
        if '0' <= c && c <= '9' {
            let next = run * 10 + ((c as u32) - ('0' as u32)) as u64;
            if next > 2023 {
                proof {
                    lemma_runs_total_grows(input@.subrange(i + 1, n as int), next as int, total as int);
                }
                return Err(GameError::AddTo2023);
            }
            run = next;
        } else {
            if total + run > 2023 {
                proof {
                    lemma_runs_total_grows(input@.subrange(i + 1, n as int), 0, (total + run) as int);
                }
                return Err(GameError::AddTo2023);
            }
            total = total + run;
            run = 0;
        }
        i = i + 1;
    }
    if total + run == 2023 {
        Ok(())
    } else {
        Err(GameError::AddTo2023)
    }
}

/// The password must hold `j`, `o` and `y` in that order, apart.
fn is_joyful(input: &str) -> (r: Result<(), GameError>)
    ensures
        r == rule(regex_match_of(joy_pattern(), input@) == Some(true), GameError::ContainJoyInOrder),
{
    if regex_is_match("j.+?o.+?y", input) == Some(true) {
        Ok(())
    } else {
        Err(GameError::ContainJoyInOrder)
    }
}

/// The password must hold a letter, another character, and the letter again.
fn has_sandwich(input: &str) -> (r: Result<(), GameError>)
    ensures
        r == rule(regex_match_of(sandwich_pattern(), input@) == Some(true), GameError::HasSandwich),
{
    if regex_is_match("([a-zA-Z])(?!\\1).\\1", input) == Some(true) {
        Ok(())
    } else {
        Err(GameError::HasSandwich)
    }
}

/// The password must hold a character from U+2980 to U+2BFF.
fn in_range(input: &str) -> (r: Result<(), GameError>)
    ensures
        r == rule(exists|i: int| 0 <= i < input@.len() && in_band(input@[i]), GameError::InRange),
{
    let n = input.unicode_len();
    let mut i: usize = 0;
    while i < n
        invariant
            n == input@.len(),
            i <= n,
            forall|j: int| 0 <= j < i ==> !in_band(input@[j]),
        decreases n - i,
    {
        let c = input.get_char(i);
        if '\u{2980}' <= c && c <= '\u{2bff}' {
            return Ok(());
        }
        i = i + 1;
    }
    Err(GameError::InRange)
}

/// The password must hold an emoji.
fn has_emoji(input: &str) -> (r: Result<(), GameError>)
    ensures
        r == rule(contains_emoji(input@), GameError::ContainEmoji),
{
    let mut i: usize = 0;
    while i < usize::MAX
        invariant
            listed_before(i),
            forall|j: usize| j < i ==> !#[trigger] emoji_found_at(input@, j),
        decreases usize::MAX - i,
    {
        match emoji_at(i) {
            Some(e) => {
                if contains_text(input, e.as_str()) {
                    assert(emoji_found_at(input@, i));
                    return Ok(());
                }
                assert(!emoji_found_at(input@, i));
            },
            None => {
                proof {
                    assert forall|k: usize| k < usize::MAX && listed_before(k) implies !#[trigger] emoji_found_at(
                        input@,
                        k,
                    ) by {
                        if k > i {
                            assert(emoji_at_of(i) is Some);
                        }
                    }
                }
                return Err(GameError::ContainEmoji);
            },
        }
        i = i + 1;
    }
    Err(GameError::ContainEmoji)
}

/// The password's SHA-256 digest must end in `a`.
fn check_hash(input: &str) -> (r: Result<(), GameError>)
    ensures
        r == rule(digest_ends_in_a(input@), GameError::HashEndsWithA),
{
    let digest = sha256_hex(input);
    let n = digest.as_str().unicode_len();
    if n > 0 && digest.as_str().get_char(n - 1) == 'a' {
        Ok(())
    } else {
        Err(GameError::HashEndsWithA)
    }
}

/// Applies the password rules in order and reports the first one broken.
pub fn game(input: &str) -> (r: Result<(), GameError>)
    ensures
        r == game_outcome(input),
{
    if let Err(e) = length_test(input) {
        return Err(e);
    }
    if let Err(e) = case_test(input) {
        return Err(e);
    }
    if let Err(e) = contain_five_digits(input) {
        return Err(e);
    }
    if let Err(e) = adds_up(input) {
        return Err(e);
    }
    if let Err(e) = is_joyful(input) {
        return Err(e);
    }
    if let Err(e) = has_sandwich(input) {
        return Err(e);
    }
    if let Err(e) = in_range(input) {
        return Err(e);
    }
    if let Err(e) = has_emoji(input) {
        return Err(e);
    }
    check_hash(input)
}

/// Decides whether a text is nice.
pub fn nice(input: &str) -> (r: Result<(), Naughty>)
    ensures
        r is Ok <==> is_nice(input@),
{
    let ok = regex_is_match("[aeiouyAEIOUY].*[aeiouyAEIOUY].*[aeiouyAEIOUY]", input) == Some(true)
        && regex_is_match("([a-zA-Z])\\1", input) == Some(true)
        && regex_is_match("ab", input) == Some(false)
        && regex_is_match("cd", input) == Some(false)
        && regex_is_match("pq", input) == Some(false)
        && regex_is_match("xy", input) == Some(false);
    if ok {
        Ok(())
    } else {
        Err(Naughty)
    }
}

} // verus!
