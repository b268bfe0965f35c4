//! Reindeer strength: the strengths of a team added up.
use vstd::prelude::*;

verus! {

/// A reindeer and its strength.
pub struct Deer {
    pub name: String,
    pub strength: u32,
}

/// The sum of the strengths of a team.
pub open spec fn total_strength(deers: Seq<Deer>) -> int
    decreases deers.len(),
{
    if deers.len() == 0 {
        0
    } else {
        total_strength(deers.drop_last()) + deers.last().strength
    }
}

/// Adds up the strengths of a team; `None` where the sum does not fit in a
/// `u32`.
pub fn reindeer_cheer(deers: &Vec<Deer>) -> (r: Option<u32>)
    ensures
        r == if total_strength(deers@) <= u32::MAX {
            Some(total_strength(deers@) as u32)
        } else {
            None::<u32>
        },
{
    let n = deers.len();
    let mut total: u32 = 0;
    let mut i: usize = 0;
    while i < n
        invariant
            n == deers@.len(),
            i <= n,
            total == total_strength(deers@.subrange(0, i as int)),
        decreases n - i,
    {
        assert(deers@.subrange(0, i + 1).drop_last() =~= deers@.subrange(0, i as int));
        match total.checked_add(deers[i].strength) {
            Some(t) => total = t,
            None => {
                proof {
                    lemma_total_grows(deers@, i + 1);
                }
                return None;
            },
        }
        i = i + 1;
    }
    assert(deers@.subrange(0, n as int) =~= deers@);
    Some(total)
}

/// A team's total is at least that of any leading part of it.
proof fn lemma_total_grows(deers: Seq<Deer>, k: int)
    requires
        0 <= k <= deers.len(),
    ensures
        total_strength(deers) >= total_strength(deers.subrange(0, k)),
    decreases deers.len() - k,
{
    if k < deers.len() {
        lemma_total_grows(deers, k + 1);
        assert(deers.subrange(0, k + 1).drop_last() =~= deers.subrange(0, k));
    } else {
        assert(deers.subrange(0, k) =~= deers);
    }
}

} // verus!
