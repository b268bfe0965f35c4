//! The present that has no pair: the numbers of a text, one per line, are
//! combined with XOR, so that every number given twice cancels out.
use vstd::prelude::*;
use crate::decimal::{parse_u64, u64_of};

verus! {

/// The lines of a text, as `str::lines` splits it.
pub uninterp spec fn lines_of(text: Seq<char>) -> Seq<Seq<char>>;

/// Relies on `str::lines`: the text split at each `\n` or `\r\n`, with no
/// empty piece after a final line ending.
#[verifier::external_body]
fn text_lines(text: &str) -> (r: Vec<String>)
    ensures
        r@.map_values(|l: String| l@) == lines_of(text@),
{
    text.lines().map(String::from).collect()
}

/// The numbers of the lines that hold a `u64`, in order; other lines are
/// passed over.
pub open spec fn kept_numbers(lines: Seq<Seq<char>>) -> Seq<u64>
    decreases lines.len(),
{
    if lines.len() == 0 {
        Seq::empty()
    } else {
        let rest = kept_numbers(lines.drop_last());
        match u64_of(lines.last()) {
            Some(v) => rest.push(v),
            None => rest,
        }
    }
}

/// All numbers combined with XOR (zero for none).
pub open spec fn xor_u64(s: Seq<u64>) -> u64
    decreases s.len(),
{
    if s.len() == 0 {
        0
    } else {
        xor_u64(s.drop_last()) ^ s.last()
    }
}

/// The unpaired number of a text: the XOR of the numbers on its lines, or
/// `None` where no line holds one.
pub open spec fn unpaired_of(text: Seq<char>) -> Option<u64> {
    let kept = kept_numbers(lines_of(text));
    if kept.len() == 0 {
        None
    } else {
        Some(xor_u64(kept))
    }
}

/// Combines the numbers of a text's lines with XOR.
pub fn find_no_pair(body: &str) -> (r: Option<u64>)
    ensures
        r == unpaired_of(body@),
{
    let lines = text_lines(body);
    let ghost views = lines@.map_values(|l: String| l@);
    let n = lines.len();
    let mut found: bool = false;
    let mut acc: u64 = 0;
    let mut i: usize = 0;
    while i < n
        invariant
            n == lines@.len(),
            views == lines@.map_values(|l: String| l@),
            i <= n,
            found == (kept_numbers(views.subrange(0, i as int)).len() > 0),
            acc == xor_u64(kept_numbers(views.subrange(0, i as int))),
        decreases n - i,
    {
        assert(views.subrange(0, i + 1).drop_last() =~= views.subrange(0, i as int));
        assert(views.subrange(0, i + 1).last() == lines@[i as int]@);
        match parse_u64(lines[i].as_str()) {
            Some(v) => {
                let ghost before = kept_numbers(views.subrange(0, i as int));
                assert(before.push(v).drop_last() =~= before);
                acc = acc ^ v;
                found = true;
            },
            None => {},
        }
        i = i + 1;
    }
    assert(views.subrange(0, n as int) =~= views);
    if found {
        Some(acc)
    } else {
        None
    }
}

} // verus!
