//! Decimal integers written as text, read the way Rust's `FromStr` for the
//! integer types reads them: an optional sign, then one or more ASCII digits.
use vstd::prelude::*;

verus! {

/// An ASCII decimal digit.
pub open spec fn is_decimal_digit(c: char) -> bool {
    '0' <= c && c <= '9'
}

/// Every character is a digit, and there is at least one.
pub open spec fn all_digits(d: Seq<char>) -> bool {
    d.len() > 0 && forall|i: int| 0 <= i < d.len() ==> is_decimal_digit(#[trigger] d[i])
}

/// The number that a run of digits spells.
pub open spec fn digits_value(d: Seq<char>) -> int
    decreases d.len(),
{
    if d.len() == 0 {
        0
    } else {
        digits_value(d.drop_last()) * 10 + (d.last() as int - '0' as int)
    }
}

/// The value of a signed decimal text (`-12`, `+7`, `42`), if it is one.
pub open spec fn signed_decimal(s: Seq<char>) -> Option<int> {
    if s.len() > 0 && s[0] == '-' {
        if all_digits(s.drop_first()) {
            Some(-digits_value(s.drop_first()))
        } else {
            None
        }
    } else if s.len() > 0 && s[0] == '+' {
        if all_digits(s.drop_first()) {
            Some(digits_value(s.drop_first()))
        } else {
            None
        }
    } else if all_digits(s) {
        Some(digits_value(s))
    } else {
        None
    }
}

/// The value of an unsigned decimal text (`+7`, `42`), if it is one.
pub open spec fn unsigned_decimal(s: Seq<char>) -> Option<int> {
    if s.len() > 0 && s[0] == '+' {
        if all_digits(s.drop_first()) {
            Some(digits_value(s.drop_first()))
        } else {
            None
        }
    } else if all_digits(s) {
        Some(digits_value(s))
    } else {
        None
    }
}

/// The `i64` that a text spells; `None` where it spells no integer or one
/// out of range.
pub open spec fn i64_of(s: Seq<char>) -> Option<i64> {
    match signed_decimal(s) {
        Some(v) => if i64::MIN <= v <= i64::MAX {
            Some(v as i64)
        } else {
            None
        },
        None => None,
    }
}

/// The `u64` that a text spells; `None` where it spells no integer or one
/// out of range.
pub open spec fn u64_of(s: Seq<char>) -> Option<u64> {
    match unsigned_decimal(s) {
        Some(v) => if v <= u64::MAX {
            Some(v as u64)
        } else {
            None
        },
        None => None,
    }
}

proof fn lemma_digits_value_nonneg(d: Seq<char>)
    requires
        forall|i: int| 0 <= i < d.len() ==> is_decimal_digit(#[trigger] d[i]),
    ensures
        digits_value(d) >= 0,
    decreases d.len(),
{
    if d.len() > 0 {
        lemma_digits_value_nonneg(d.drop_last());
    }
}

proof fn lemma_digits_value_grows(d: Seq<char>, c: char)
    requires
        forall|i: int| 0 <= i < d.len() ==> is_decimal_digit(#[trigger] d[i]),
        is_decimal_digit(c),
    ensures
        digits_value(d.push(c)) >= digits_value(d),
        digits_value(d.push(c)) == digits_value(d) * 10 + (c as int - '0' as int),
{
    assert(d.push(c).drop_last() =~= d);
    lemma_digits_value_nonneg(d);
}

/// The value of the digits from `from` to the end of `s`: `None` where one
/// is not a digit, there is none, or the value exceeds `u64::MAX`.
fn digits_u64(s: &str, from: usize) -> (r: Option<u64>)
    requires
        from <= s@.len(),
    ensures
        match r {
            Some(v) => all_digits(s@.subrange(from as int, s@.len() as int))
                && v as int == digits_value(s@.subrange(from as int, s@.len() as int)),
            None => !all_digits(s@.subrange(from as int, s@.len() as int)) || digits_value(
                s@.subrange(from as int, s@.len() as int),
            ) > u64::MAX,
        },
{
    let n = s.unicode_len();
    if from == n {
        return None;
    }
    let mut value: u64 = 0;
    let mut i: usize = from;
    let ghost tail = s@.subrange(from as int, n as int);
    while i < n
        invariant
            n == s@.len(),
            from < n,
            from <= i <= n,
            tail == s@.subrange(from as int, n as int),
            forall|k: int| from <= k < i ==> is_decimal_digit(#[trigger] s@[k]),
            value as int == digits_value(s@.subrange(from as int, i as int)),
        decreases n - i,
    {
        let c = s.get_char(i);
        let ghost done = s@.subrange(from as int, i as int);
        assert(s@.subrange(from as int, i + 1) =~= done.push(c));
        if !('0' <= c && c <= '9') {
            assert(tail[i - from] == c);
            return None;
        }
        proof {
            lemma_digits_value_grows(done, c);
        }
        let d = ((c as u32) - ('0' as u32)) as u64;
        if value > (u64::MAX - d) / 10 {
            proof {
                assert(value * 10 + d > u64::MAX) by (nonlinear_arith)
                    requires
                        value > (u64::MAX - d) / 10,
                        d <= 9,
                ;
                lemma_prefix_bounds(s@, from as int, i + 1, n as int);
            }
            return None;
        }
        assert(value * 10 + d <= u64::MAX) by (nonlinear_arith)
            requires
                value <= (u64::MAX - d) / 10,
                d <= 9,
        ;
        value = value * 10 + d;
        i = i + 1;
    }
    assert(s@.subrange(from as int, n as int) =~= tail);
    Some(value)
}

/// A longer run of digits spells at least as much as its prefix, and a
/// non-digit anywhere spoils the whole run.
proof fn lemma_prefix_bounds(s: Seq<char>, from: int, mid: int, n: int)
    requires
        0 <= from < mid <= n == s.len(),
        forall|k: int| from <= k < mid ==> is_decimal_digit(#[trigger] s[k]),
    ensures
        all_digits(s.subrange(from, n)) ==> digits_value(s.subrange(from, n)) >= digits_value(
            s.subrange(from, mid),
        ),
    decreases n - mid,
{
    if mid < n && all_digits(s.subrange(from, n)) {
        assert(is_decimal_digit(s.subrange(from, n)[mid - from]));
        lemma_prefix_bounds(s, from, mid + 1, n);
        assert(s.subrange(from, mid + 1) =~= s.subrange(from, mid).push(s[mid]));
        lemma_digits_value_grows(s.subrange(from, mid), s[mid]);
    }
}

/// Reads a signed decimal `i64`.
pub fn parse_i64(s: &str) -> (r: Option<i64>)
    ensures
        r == i64_of(s@),
{
    let n = s.unicode_len();
    if n == 0 {
        return None;
    }
    let first = s.get_char(0);
    if first == '-' || first == '+' {
        assert(s@.subrange(1, n as int) =~= s@.drop_first());
        match digits_u64(s, 1) {
            Some(v) => {
                if first == '-' {
                    if v <= 9223372036854775808u64 {
                        if v == 9223372036854775808u64 {
                            Some(i64::MIN)
                        } else {
                            Some(-(v as i64))
                        }
                    } else {
                        None
                    }
                } else if v <= 9223372036854775807u64 {
                    Some(v as i64)
                } else {
                    None
                }
            },
            None => None,
        }
    } else {
        assert(s@.subrange(0, n as int) =~= s@);
        match digits_u64(s, 0) {
            Some(v) => if v <= 9223372036854775807u64 {
                Some(v as i64)
            } else {
                None
            },
            None => None,
        }
    }
}

/// Reads an unsigned decimal `u64`.
pub fn parse_u64(s: &str) -> (r: Option<u64>)
    ensures
        r == u64_of(s@),
{
    let n = s.unicode_len();
    if n == 0 {
        return None;
    }
    let first = s.get_char(0);
    if first == '+' {
        assert(s@.subrange(1, n as int) =~= s@.drop_first());
        digits_u64(s, 1)
    } else {
        assert(s@.subrange(0, n as int) =~= s@);
        digits_u64(s, 0)
    }
}

} // verus!
