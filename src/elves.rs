//! Counting elves and shelves in a text.
use vstd::prelude::*;
use crate::text::starts_with_at;

verus! {

/// How many times `pattern` occurs in `text`, read from the left, each
/// occurrence starting after the previous one ends.
pub open spec fn occurrences(text: Seq<char>, pattern: Seq<char>) -> nat
    decreases text.len(),
{
    if pattern.len() == 0 || text.len() < pattern.len() {
        0
    } else if text.subrange(0, pattern.len() as int) == pattern {
        1 + occurrences(text.subrange(pattern.len() as int, text.len() as int), pattern)
    } else {
        occurrences(text.drop_first(), pattern)
    }
}

/// The number of matches that a regular expression finds in a text, one
/// after another; `None` where the pattern does not compile or a search
/// gives up (past the matcher's backtracking limit).
pub uninterp spec fn regex_count_of(pattern: Seq<char>, text: Seq<char>) -> Option<usize>;

/// Relies on `fancy_regex::Regex::new` to compile `pattern` and on
/// `fancy_regex::Regex::find_iter` for the matches in `text`, counted; the
/// first search error ends the count.
#[verifier::external_body]
fn regex_count(pattern: &str, text: &str) -> (r: Option<usize>)
    ensures
        r == regex_count_of(pattern@, text@),
{
    match fancy_regex::Regex::new(pattern) {
        Ok(re) => re.find_iter(text).collect::<Result<Vec<_>, _>>().ok().map(|found| found.len()),
        Err(_) => None,
    }
}

/// The counts reported for a text.
#[derive(Clone, Copy, Debug, PartialEq, Eq, Structural)]
pub struct ElfCounts {
    /// Occurrences of `elf`.
    pub elf: usize,
    /// Places where `elf on a shelf` starts.
    pub elf_on_a_shelf: usize,
    /// Occurrences of `shelf` beyond those with an elf on them.
    pub shelf_with_no_elf: usize,
}

/// The regular expression that finds each start of `elf on a shelf`, even
/// where two of them overlap.
pub open spec fn shelf_pattern() -> Seq<char> {
    "(?=(elf on a shelf))"@
}

/// Counts the occurrences of `pattern` in `text` as `occurrences` does.
fn count_occurrences(text: &str, pattern: &str) -> (r: usize)
    ensures
        r == occurrences(text@, pattern@),
{
    let n = text.unicode_len();
    let m = pattern.unicode_len();
    if m == 0 {
        return 0;
    }
    let mut count: usize = 0;
    let mut i: usize = 0;
    assert(text@.subrange(0, n as int) =~= text@);
    while m <= n - i
        invariant
            n == text@.len(),
            m == pattern@.len(),
            m > 0,
            i <= n,
            count <= i,
            occurrences(text@, pattern@) == count + occurrences(text@.subrange(i as int, n as int), pattern@),
        decreases n - i,
    {
        let ghost rest = text@.subrange(i as int, n as int);
        let here = starts_with_at(text, pattern, i);
        if here {
            assert(rest.subrange(0, m as int) =~= text@.subrange(i as int, i + m));
            assert(rest.subrange(m as int, rest.len() as int) =~= text@.subrange(i + m, n as int));
            count = count + 1;
            i = i + m;
        } else {
            assert(rest.subrange(0, m as int) =~= text@.subrange(i as int, i + m));
            assert(rest.drop_first() =~= text@.subrange(i + 1, n as int));
            i = i + 1;
        }
    }
    count
}

/// The counts of `elf`, of `elf on a shelf`, and of shelves with no elf on
/// them, in a text.
pub open spec fn elf_counts_of(text: Seq<char>, on_shelf: usize) -> ElfCounts {
    let shelves = occurrences(text, "shelf"@);
    ElfCounts {
        elf: occurrences(text, "elf"@) as usize,
        elf_on_a_shelf: on_shelf,
        shelf_with_no_elf: if shelves >= on_shelf {
            (shelves - on_shelf) as usize
        } else {
            0
        },
    }
}

/// Counts elves, elves on shelves, and bare shelves in a text. Where the
/// shelf search cannot be run to the end, no elf is taken to sit on a shelf.
pub fn count_elves(body: &str) -> (r: ElfCounts)
    ensures
        r == elf_counts_of(
            body@,
            match regex_count_of(shelf_pattern(), body@) {
                Some(c) => c,
                None => 0,
            },
        ),
{
    let elf = count_occurrences(body, "elf");
    let on_shelf = match regex_count(body_pattern(), body) {
        Some(c) => c,
        None => 0,
    };
    let shelves = count_occurrences(body, "shelf");
    let bare = if shelves >= on_shelf {
        shelves - on_shelf
    } else {
        0
    };
    ElfCounts { elf, elf_on_a_shelf: on_shelf, shelf_with_no_elf: bare }
}

/// The pattern text of `shelf_pattern`.
fn body_pattern() -> (r: &'static str)
    ensures
        r@ == shelf_pattern(),
{
    "(?=(elf on a shelf))"
}

} // verus!
