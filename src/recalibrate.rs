//! Sled-id recalibration: the numbers of a path are combined with XOR and the
//! result is cubed.
use vstd::prelude::*;
use crate::decimal::{i64_of, parse_i64};

verus! {

/// Why a path could not be recalibrated.
#[derive(Clone, Copy, Debug, PartialEq, Eq, Structural)]
pub enum RecalibrateError {
    /// There is no number to combine.
    NoNumbers,
    /// A path segment is not an integer.
    NotANumber,
    /// The cube does not fit in an `i64`.
    TooLarge,
}

/// All numbers combined with XOR (zero for none).
pub open spec fn xor_all(s: Seq<i64>) -> i64
    decreases s.len(),
{
    if s.len() == 0 {
        0
    } else {
        xor_all(s.drop_last()) ^ s.last()
    }
}

/// The cube of `x`.
pub open spec fn cube(x: i64) -> int {
    x as int * x as int * x as int
}

/// The recalibrated id of a list of numbers.
pub open spec fn recalibrated(nums: Seq<i64>) -> Result<i64, RecalibrateError> {
    if nums.len() == 0 {
        Err(RecalibrateError::NoNumbers)
    } else if i64::MIN <= cube(xor_all(nums)) <= i64::MAX {
        Ok(cube(xor_all(nums)) as i64)
    } else {
        Err(RecalibrateError::TooLarge)
    }
}

/// The pieces of `s` between the occurrences of `sep` (one piece more than
/// there are separators).
pub open spec fn split_on(s: Seq<char>, sep: char) -> Seq<Seq<char>>
    decreases s.len(),
{
    if s.len() == 0 {
        seq![Seq::<char>::empty()]
    } else {
        let rest = split_on(s.drop_last(), sep);
        if s.last() == sep {
            rest.push(Seq::<char>::empty())
        } else {
            rest.update(rest.len() - 1, rest.last().push(s.last()))
        }
    }
}

/// The recalibrated id of a path of `/`-separated integers.
pub open spec fn recalibrated_path(path: Seq<char>) -> Result<i64, RecalibrateError> {
    let pieces = split_on(path, '/');
    if exists|k: int| 0 <= k < pieces.len() && i64_of(#[trigger] pieces[k]) is None {
        Err(RecalibrateError::NotANumber)
    } else {
        recalibrated(pieces.map_values(|p: Seq<char>| i64_of(p)->Some_0))
    }
}

proof fn lemma_split_nonempty(s: Seq<char>, sep: char)
    ensures
        split_on(s, sep).len() >= 1,
    decreases s.len(),
{
    if s.len() > 0 {
        lemma_split_nonempty(s.drop_last(), sep);
    }
}

/// A square beyond `i64::MAX` makes a cube beyond the `i64` range.
proof fn lemma_cube_out_of_range(x: i64)
    requires
        x as int * x as int > i64::MAX,
    ensures
        !(i64::MIN <= cube(x) <= i64::MAX),
{
    let xi = x as int;
    if xi >= 0 {
        assert(xi >= 2) by (nonlinear_arith)
            requires
                xi * xi > 9223372036854775807,
                xi >= 0,
        ;
        assert(xi * xi * xi >= 2 * (xi * xi)) by (nonlinear_arith)
            requires
                xi >= 2,
        ;
    } else {
        assert(xi <= -2) by (nonlinear_arith)
            requires
                xi * xi > 9223372036854775807,
                xi < 0,
        ;
        assert(xi * xi * xi <= -2 * (xi * xi)) by (nonlinear_arith)
            requires
                xi <= -2,
        ;
    }
}

/// Combines the numbers with XOR and cubes the result.
pub fn recalibrate(nums: &Vec<i64>) -> (r: Result<i64, RecalibrateError>)
    ensures
        r == recalibrated(nums@),
{
    let n = nums.len();
    if n == 0 {
        return Err(RecalibrateError::NoNumbers);
    }
    let mut acc: i64 = 0;
    let mut i: usize = 0;
    while i < n
        invariant
            n == nums@.len(),
            i <= n,
            acc == xor_all(nums@.subrange(0, i as int)),
        decreases n - i,
    {
        assert(nums@.subrange(0, i + 1).drop_last() =~= nums@.subrange(0, i as int));
        acc = acc ^ nums[i];
        i = i + 1;
    }
    assert(nums@.subrange(0, n as int) =~= nums@);
    match acc.checked_mul(acc) {
        Some(square) => match square.checked_mul(acc) {
            Some(c) => Ok(c),
            None => Err(RecalibrateError::TooLarge),
        },
        None => {
            proof {
                assert(acc as int * acc as int >= 0) by (nonlinear_arith);
                lemma_cube_out_of_range(acc);
            }
            Err(RecalibrateError::TooLarge)
        },
    }
}

/// Reads the `/`-separated integers of a path and recalibrates them.
pub fn recalibrate_ids(path: &str) -> (r: Result<i64, RecalibrateError>)
    ensures
        r == recalibrated_path(path@),
{
    let n = path.unicode_len();
    let mut nums: Vec<i64> = Vec::new();
    let mut start: usize = 0;
    let mut i: usize = 0;
    let ghost mut done: Seq<Seq<char>> = Seq::empty();
    assert(path@.subrange(0, 0) =~= Seq::<char>::empty());
    assert(done.push(path@.subrange(0, 0)) =~= seq![Seq::<char>::empty()]);
    while i < n
        invariant
            n == path@.len(),
            start <= i <= n,
            split_on(path@.subrange(0, i as int), '/') == done.push(path@.subrange(start as int, i as int)),
            nums@.len() == done.len(),
            forall|k: int| 0 <= k < done.len() ==> i64_of(#[trigger] done[k]) == Some(nums@[k]),
        decreases n - i,
    {
        let c = path.get_char(i);
        let ghost before = path@.subrange(0, i as int);
        assert(path@.subrange(0, i + 1).drop_last() =~= before);
        assert(path@.subrange(0, i + 1).last() == c);
        if c == '/' {
            let piece = path.substring_char(start, i);
            match parse_i64(piece) {
                Some(v) => {
                    nums.push(v);
                    proof {
                        let d0 = done;
                        done = done.push(path@.subrange(start as int, i as int));
                        lemma_split_step(path@, i as int);
                        assert(path@.subrange(i + 1, i + 1) =~= Seq::<char>::empty());
                        assert(split_on(path@.subrange(0, i + 1), '/') =~= done.push(
                            path@.subrange(i + 1, i + 1),
                        ));
                        assert forall|k: int| 0 <= k < done.len() implies i64_of(#[trigger] done[k])
                            == Some(nums@[k]) by {
                            if k < d0.len() {
                                assert(done[k] == d0[k]);
                            }
                        }
                    }
                    start = i + 1;
                },
                None => {
                    proof {
                        lemma_split_prefix_kept(path@, i + 1, done.push(path@.subrange(start as int, i as int)));
                        let pieces = split_on(path@, '/');
                        assert(pieces[done.len() as int] == path@.subrange(start as int, i as int));
                        assert(i64_of(pieces[done.len() as int]) is None);
                    }
                    return Err(RecalibrateError::NotANumber);
                },
            }
        } else {
            proof {
                lemma_split_step(path@, i as int);
                let cur = path@.subrange(start as int, i as int);
                assert(path@.subrange(start as int, i + 1) =~= cur.push(c));
                assert(done.push(cur).update(done.len() as int, cur.push(c)) =~= done.push(cur.push(c)));
            }
        }
        i = i + 1;
    }
    let piece = path.substring_char(start, n);
    assert(path@.subrange(0, n as int) =~= path@);
    let ghost pieces = split_on(path@, '/');
    match parse_i64(piece) {
        Some(v) => {
            nums.push(v);
            proof {
                assert(pieces =~= done.push(piece@));
                assert forall|k: int| 0 <= k < pieces.len() implies i64_of(#[trigger] pieces[k]) == Some(
                    nums@[k],
                ) by {
                    if k < done.len() {
                        assert(pieces[k] == done[k]);
                    }
                }
                assert(pieces.map_values(|p: Seq<char>| i64_of(p)->Some_0) =~= nums@);
            }
            recalibrate(&nums)
        },
        None => {
            assert(pieces[done.len() as int] == piece@);
            Err(RecalibrateError::NotANumber)
        },
    }
}

/// Splitting one character more: a separator opens a new, empty piece;
/// any other character joins the last piece.
proof fn lemma_split_step(s: Seq<char>, i: int)
    requires
        0 <= i < s.len(),
    ensures
        split_on(s.subrange(0, i + 1), '/') == if s[i] == '/' {
            split_on(s.subrange(0, i), '/').push(Seq::<char>::empty())
        } else {
            split_on(s.subrange(0, i), '/').update(
                split_on(s.subrange(0, i), '/').len() - 1,
                split_on(s.subrange(0, i), '/').last().push(s[i]),
            )
        },
{
    assert(s.subrange(0, i + 1).drop_last() =~= s.subrange(0, i));
    assert(s.subrange(0, i + 1).last() == s[i]);
}

/// The pieces of a prefix stay pieces of the whole text, all but the last
/// one unchanged, once a separator closes them.
proof fn lemma_split_prefix_kept(s: Seq<char>, m: int, pre: Seq<Seq<char>>)
    requires
        1 <= m <= s.len(),
        s[m - 1] == '/',
        split_on(s.subrange(0, m - 1), '/') == pre,
    ensures
        split_on(s, '/').len() > pre.len(),
        forall|k: int| 0 <= k < pre.len() ==> #[trigger] split_on(s, '/')[k] == pre[k],
{
    lemma_split_step(s, m - 1);
    let at_m = pre.push(Seq::<char>::empty());
    assert(split_on(s.subrange(0, m), '/') == at_m);
    lemma_split_grows(s, m, s.len() as int, at_m);
    assert(s.subrange(0, s.len() as int) =~= s);
    assert forall|k: int| 0 <= k < pre.len() implies #[trigger] split_on(s, '/')[k] == pre[k] by {
        assert(at_m[k] == pre[k]);
    }
}

/// Appending characters to a text keeps every piece but the last of its
/// split, and never shortens the split.
proof fn lemma_split_grows(s: Seq<char>, m: int, e: int, at_m: Seq<Seq<char>>)
    requires
        1 <= m <= e <= s.len(),
        split_on(s.subrange(0, m), '/') == at_m,
        at_m.len() >= 1,
    ensures
        split_on(s.subrange(0, e), '/').len() >= at_m.len(),
        forall|k: int| 0 <= k < at_m.len() - 1 ==> #[trigger] split_on(s.subrange(0, e), '/')[k] == at_m[k],
    decreases e - m,
{
    if e > m {
        lemma_split_grows(s, m, e - 1, at_m);
        lemma_split_step(s, e - 1);
        lemma_split_nonempty(s.subrange(0, e - 1), '/');
        let prev = split_on(s.subrange(0, e - 1), '/');
        assert forall|k: int| 0 <= k < at_m.len() - 1 implies #[trigger] split_on(
            s.subrange(0, e),
            '/',
        )[k] == at_m[k] by {
            assert(prev[k] == at_m[k]);
        }
    }
}

} // verus!
