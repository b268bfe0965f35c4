//! ULIDs: turning them into UUIDs, and reporting on the moments they were
//! made.
use vstd::prelude::*;
use chrono::Datelike;
use crate::message::hex_digit;

verus! {

/// The 128 bits of a ULID text; `None` where it is not one.
pub uninterp spec fn ulid_bits_of(text: Seq<char>) -> Option<u128>;

/// Hexadecimal digit `i` of `bits`, counting from the most significant (0)
/// to the least (31).
pub open spec fn nibble(bits: u128, i: int) -> u32 {
    ((bits >> ((124 - 4 * i) as u128)) & 0xf) as u32
}

/// Hexadecimal digits `from` to `to` (not included) of `bits`, in lowercase.
pub open spec fn hex_run(bits: u128, from: int, to: int) -> Seq<char> {
    Seq::new((to - from) as nat, |k: int| hex_digit(nibble(bits, from + k)))
}

/// The hyphenated lowercase text of the UUID with these 128 bits: its 32
/// hexadecimal digits in groups of 8, 4, 4, 4 and 12.
pub open spec fn uuid_text_of(bits: u128) -> Seq<char> {
    hex_run(bits, 0, 8) + seq!['-'] + hex_run(bits, 8, 12) + seq!['-'] + hex_run(bits, 12, 16)
        + seq!['-'] + hex_run(bits, 16, 20) + seq!['-'] + hex_run(bits, 20, 32)
}

/// The UTC month (1 to 12), day of the month (1 to 31) and weekday (0 for
/// Monday to 6 for Sunday) of a moment given in milliseconds since the Unix
/// epoch; `None` out of the calendar's range.
pub uninterp spec fn calendar_of(millis: u64) -> Option<(u32, u32, u32)>;

/// Relies on `ulid::Ulid::from_string`, which reads the 26 characters of
/// Crockford's base 32.
#[verifier::external_body]
fn ulid_bits(text: &str) -> (r: Option<u128>)
    ensures
        r == ulid_bits_of(text@),
{
    match ulid::Ulid::from_string(text) {
        Ok(u) => Some(u.0),
        Err(_) => None,
    }
}

/// Relies on `uuid::Uuid::from_u128`, which keeps the bytes of `bits` in
/// big-endian order, and on the `Display` of `uuid::Uuid`, which writes them
/// hyphenated in lowercase hexadecimal.
#[verifier::external_body]
fn uuid_text(bits: u128) -> (r: String)
    ensures
        r@ == uuid_text_of(bits),
{
    uuid::Uuid::from_u128(bits).to_string()
}

/// Relies on `chrono::DateTime::from_timestamp_millis` and on the `month`,
/// `day` and `weekday` of `chrono::Datelike`.
#[verifier::external_body]
fn utc_calendar(millis: u64) -> (r: Option<(u32, u32, u32)>)
    requires
        millis <= i64::MAX,
    ensures
        r == calendar_of(millis),
{
    match chrono::DateTime::from_timestamp_millis(millis as i64) {
        Some(d) => Some((d.month(), d.day(), d.weekday().num_days_from_monday())),
        None => None,
    }
}

/// The bits of the texts that are ULIDs, in order.
pub open spec fn valid_ulids(texts: Seq<Seq<char>>) -> Seq<u128>
    decreases texts.len(),
{
    if texts.len() == 0 {
        Seq::empty()
    } else {
        let rest = valid_ulids(texts.drop_last());
        match ulid_bits_of(texts.last()) {
            Some(b) => rest.push(b),
            None => rest,
        }
    }
}

/// The moment a ULID was made, in milliseconds since the Unix epoch: its
/// top 48 bits.
pub open spec fn made_at(bits: u128) -> u64 {
    (bits / 0x1_0000_0000_0000_0000_0000u128) as u64
}

/// The UUIDs of the valid ULIDs among `texts`, last first.
pub open spec fn converted(texts: Seq<Seq<char>>) -> Seq<Seq<char>> {
    let v = valid_ulids(texts);
    Seq::new(v.len(), |i: int| uuid_text_of(v[v.len() - 1 - i]))
}

/// Turns the valid ULIDs among `texts` into UUIDs, in reverse order.
pub fn convert_ulids(texts: &Vec<String>) -> (r: Vec<String>)
    ensures
        r@.map_values(|s: String| s@) == converted(texts@.map_values(|s: String| s@)),
{
    let bits = collect_valid(texts);
    let mut out: Vec<String> = Vec::new();
    let mut i: usize = bits.len();
    while i > 0
        invariant
            i <= bits@.len(),
            out@.len() == bits@.len() - i,
            forall|k: int|
                0 <= k < out@.len() ==> #[trigger] out@[k]@ == uuid_text_of(bits@[bits@.len() - 1 - k]),
        decreases i,
    {
        i = i - 1;
        out.push(uuid_text(bits[i]));
    }
    assert(out@.map_values(|s: String| s@) =~= converted(texts@.map_values(|s: String| s@)));
    out
}

/// The bits of the valid ULIDs among `texts`, in order.
fn collect_valid(texts: &Vec<String>) -> (r: Vec<u128>)
    ensures
        r@ == valid_ulids(texts@.map_values(|s: String| s@)),
{
    let ghost views = texts@.map_values(|s: String| s@);
    let mut bits: Vec<u128> = Vec::new();
    let mut i: usize = 0;
    while i < texts.len()
        invariant
            i <= texts@.len(),
            views == texts@.map_values(|s: String| s@),
            bits@ == valid_ulids(views.subrange(0, i as int)),
        decreases texts@.len() - i,
    {
        assert(views.subrange(0, i + 1).drop_last() =~= views.subrange(0, i as int));
        assert(views.subrange(0, i + 1).last() == texts@[i as int]@);
        match ulid_bits(texts[i].as_str()) {
            Some(b) => bits.push(b),
            None => {},
        }
        i = i + 1;
    }
    assert(views.subrange(0, texts@.len() as int) =~= views);
    bits
}

/// What a report counts about a set of ULIDs.
#[derive(Clone, Copy, Debug, PartialEq, Eq, Structural)]
pub struct UlidReport {
    /// Made on a 24 December.
    pub christmas_eve: usize,
    /// Made on the weekday asked for.
    pub weekday: usize,
    /// Made after the present moment.
    pub in_the_future: usize,
    /// Whose least significant bit is 1.
    pub lsb_is_one: usize,
}

/// Why a report could not be made.
#[derive(Clone, Copy, Debug, PartialEq, Eq, Structural)]
pub enum UlidError {
    /// The weekday is not from 0 (Monday) to 6 (Sunday).
    BadWeekday,
}

/// The counts of a report on `bits`, for weekday `day` and the present
/// moment `now` (in milliseconds since the Unix epoch).
pub open spec fn report_of(bits: Seq<u128>, day: u8, now: u64) -> (nat, nat, nat, nat)
    decreases bits.len(),
{
    if bits.len() == 0 {
        (0, 0, 0, 0)
    } else {
        let (e, w, f, l) = report_of(bits.drop_last(), day, now);
        let b = bits.last();
        let cal = calendar_of(made_at(b));
        (
            e + if cal matches Some((12, 24, _)) {
                1nat
            } else {
                0
            },
            w + if cal is Some && cal->Some_0.2 == day as u32 {
                1nat
            } else {
                0
            },
            f + if made_at(b) > now {
                1nat
            } else {
                0
            },
            l + if b % 2 == 1 {
                1nat
            } else {
                0
            },
        )
    }
}

/// The counts never exceed the number of ULIDs.
proof fn lemma_report_bounded(bits: Seq<u128>, day: u8, now: u64)
    ensures
        report_of(bits, day, now).0 <= bits.len(),
        report_of(bits, day, now).1 <= bits.len(),
        report_of(bits, day, now).2 <= bits.len(),
        report_of(bits, day, now).3 <= bits.len(),
    decreases bits.len(),
{
    if bits.len() > 0 {
        lemma_report_bounded(bits.drop_last(), day, now);
    }
}

/// Reports on the valid ULIDs among `texts`: how many were made on a
/// Christmas Eve, on weekday `day`, after `now`, and how many end in a 1 bit.
pub fn ulid_info(day: u8, texts: &Vec<String>, now: u64) -> (r: Result<UlidReport, UlidError>)
    ensures
        day > 6 ==> r == Err::<UlidReport, UlidError>(UlidError::BadWeekday),
        day <= 6 ==> r is Ok && {
            let counts = report_of(valid_ulids(texts@.map_values(|s: String| s@)), day, now);
            let rep = r->Ok_0;
            &&& rep.christmas_eve == counts.0
            &&& rep.weekday == counts.1
            &&& rep.in_the_future == counts.2
            &&& rep.lsb_is_one == counts.3
        },
{
    if day > 6 {
        return Err(UlidError::BadWeekday);
    }
    let bits = collect_valid(texts);
    let mut rep = UlidReport { christmas_eve: 0, weekday: 0, in_the_future: 0, lsb_is_one: 0 };
    let mut i: usize = 0;
    while i < bits.len()
        invariant
            i <= bits@.len(),
            ({
                let counts = report_of(bits@.subrange(0, i as int), day, now);
                &&& rep.christmas_eve == counts.0
                &&& rep.weekday == counts.1
                &&& rep.in_the_future == counts.2
                &&& rep.lsb_is_one == counts.3
            }),
        decreases bits@.len() - i,
    {
        let ghost done = bits@.subrange(0, i + 1);
        assert(done.drop_last() =~= bits@.subrange(0, i as int));
        proof {
            lemma_report_bounded(bits@.subrange(0, i as int), day, now);
        }
        let b = bits[i];
        let stamp = (b / 0x1_0000_0000_0000_0000_0000u128) as u64;
        assert(stamp <= i64::MAX) by {
            assert(b / 0x1_0000_0000_0000_0000_0000u128 < 0x1_0000_0000_0000u128);
        }
        let cal = utc_calendar(stamp);
        match cal {
            Some((month, mday, wday)) => {
                if month == 12 && mday == 24 {
                    rep.christmas_eve = rep.christmas_eve + 1;
                }
                if wday == day as u32 {
                    rep.weekday = rep.weekday + 1;
                }
            },
            None => {},
        }
        if stamp > now {
            rep.in_the_future = rep.in_the_future + 1;
        }
        if b % 2 == 1 {
            rep.lsb_is_one = rep.lsb_is_one + 1;
        }
        i = i + 1;
    }
    assert(bits@.subrange(0, bits@.len() as int) =~= bits@);
    Ok(rep)
}

} // verus!
