//! The top gifts of each region: ranked rows grouped by region, each group
//! in rank order, and the regions in name order.
use vstd::prelude::*;

verus! {

/// One ranked gift of a region.
pub struct RankRow {
    pub region_name: String,
    pub gift_name: String,
    pub rank: i64,
}

/// A region with its gifts, best ranked first.
pub struct TopGift {
    pub region: String,
    pub top_gifts: Vec<String>,
}

/// `a` comes no later than `b` in the order of `String`: character by
/// character, a prefix first.
pub open spec fn text_le(a: Seq<char>, b: Seq<char>) -> bool
    decreases a.len(),
{
    if a.len() == 0 {
        true
    } else if b.len() == 0 {
        false
    } else if a[0] != b[0] {
        (a[0] as u32) < (b[0] as u32)
    } else {
        text_le(a.drop_first(), b.drop_first())
    }
}

/// Puts `x` into `s` after the last entry whose rank is not above its own.
pub open spec fn insert_by_rank(s: Seq<(i64, String)>, x: (i64, String)) -> Seq<(i64, String)>
    decreases s.len(),
{
    if s.len() == 0 || s.last().0 <= x.0 {
        s.push(x)
    } else {
        insert_by_rank(s.drop_last(), x).push(s.last())
    }
}

/// The ranks and gifts of `region` among `rows`, in rank order; rows of
/// equal rank keep their order.
pub open spec fn ranked_gifts(rows: Seq<RankRow>, region: Seq<char>) -> Seq<(i64, String)>
    decreases rows.len(),
{
    if rows.len() == 0 {
        Seq::empty()
    } else {
        let s = ranked_gifts(rows.drop_last(), region);
        let r = rows.last();
        if r.region_name@ == region {
            insert_by_rank(s, (r.rank, r.gift_name))
        } else {
            s
        }
    }
}

/// A region and its gifts, as text.
pub open spec fn entry_view(t: TopGift) -> (Seq<char>, Seq<Seq<char>>) {
    (t.region@, t.top_gifts@.map_values(|g: String| g@))
}

/// Puts `x` into `s` after the last entry whose region name is not after its
/// own.
pub open spec fn insert_by_region(
    s: Seq<(Seq<char>, Seq<Seq<char>>)>,
    x: (Seq<char>, Seq<Seq<char>>),
) -> Seq<(Seq<char>, Seq<Seq<char>>)>
    decreases s.len(),
{
    if s.len() == 0 || text_le(s.last().0, x.0) {
        s.push(x)
    } else {
        insert_by_region(s.drop_last(), x).push(s.last())
    }
}

/// The entries of `regions`, each with its gifts from `rows`, in region name
/// order; regions of equal name keep their order.
pub open spec fn top_list_of(rows: Seq<RankRow>, regions: Seq<String>) -> Seq<
    (Seq<char>, Seq<Seq<char>>),
>
    decreases regions.len(),
{
    if regions.len() == 0 {
        Seq::empty()
    } else {
        let name = regions.last()@;
        insert_by_region(
            top_list_of(rows, regions.drop_last()),
            (name, ranked_gifts(rows, name).map_values(|g: (i64, String)| g.1@)),
        )
    }
}

/// Inserting at the place found by walking back over the entries of higher
/// rank is inserting by rank.
proof fn lemma_rank_place(s: Seq<(i64, String)>, x: (i64, String), p: int)
    requires
        0 <= p <= s.len(),
        p == 0 || s[p - 1].0 <= x.0,
        forall|k: int| p <= k < s.len() ==> s[k].0 > x.0,
    ensures
        insert_by_rank(s, x) == s.insert(p, x),
    decreases s.len() - p,
{
    if p == s.len() {
        assert(s.push(x) =~= s.insert(p, x));
    } else {
        lemma_rank_place(s.drop_last(), x, p);
        assert(s.drop_last().insert(p, x).push(s.last()) =~= s.insert(p, x));
    }
}

/// Inserting at the place found by walking back over the entries of later
/// name is inserting by region.
proof fn lemma_region_place(
    s: Seq<(Seq<char>, Seq<Seq<char>>)>,
    x: (Seq<char>, Seq<Seq<char>>),
    p: int,
)
    requires
        0 <= p <= s.len(),
        p == 0 || text_le(s[p - 1].0, x.0),
        forall|k: int| p <= k < s.len() ==> !text_le(#[trigger] s[k].0, x.0),
    ensures
        insert_by_region(s, x) == s.insert(p, x),
    decreases s.len() - p,
{
    if p == s.len() {
        assert(s.push(x) =~= s.insert(p, x));
    } else {
        lemma_region_place(s.drop_last(), x, p);
        assert(s.drop_last().insert(p, x).push(s.last()) =~= s.insert(p, x));
    }
}

/// Whether `a` comes no later than `b` in the order of `String`.
fn text_le_exec(a: &str, b: &str) -> (r: bool)
    ensures
        r == text_le(a@, b@),
{
    let n = a.unicode_len();
    let m = b.unicode_len();
    let mut i: usize = 0;
    assert(a@.subrange(0, n as int) =~= a@);
    assert(b@.subrange(0, m as int) =~= b@);
    while i < n && i < m
        invariant
            n == a@.len(),
            m == b@.len(),
            i <= n,
            i <= m,
            text_le(a@, b@) == text_le(a@.subrange(i as int, n as int), b@.subrange(i as int, m as int)),
        decreases n - i,
    {
        let ghost ra = a@.subrange(i as int, n as int);
        let ghost rb = b@.subrange(i as int, m as int);
        assert(ra.drop_first() =~= a@.subrange(i + 1, n as int));
        assert(rb.drop_first() =~= b@.subrange(i + 1, m as int));
        let x = a.get_char(i);
        let y = b.get_char(i);
        assert(ra[0] == x && rb[0] == y);
        if x != y {
            return (x as u32) < (y as u32);
        }
        i = i + 1;
    }
    i == n
}

/// The gifts of `region` among `rows`, best ranked first.
fn gifts_of(rows: &Vec<RankRow>, region: &String) -> (r: Vec<String>)
    ensures
        r@.map_values(|g: String| g@) == ranked_gifts(rows@, region@).map_values(
            |g: (i64, String)| g.1@,
        ),
{
    let mut ranked: Vec<(i64, String)> = Vec::new();
    let mut i: usize = 0;
    while i < rows.len()
        invariant
            i <= rows@.len(),
            ranked@ == ranked_gifts(rows@.subrange(0, i as int), region@),
        decreases rows@.len() - i,
    {
        assert(rows@.subrange(0, i + 1).drop_last() =~= rows@.subrange(0, i as int));
        assert(rows@.subrange(0, i + 1).last() == rows@[i as int]);
        if rows[i].region_name == *region {
            let x = (rows[i].rank, rows[i].gift_name.clone());
            let mut p = ranked.len();
            while p > 0 && ranked[p - 1].0 > x.0
                invariant
                    p <= ranked@.len(),
                    forall|k: int| p <= k < ranked@.len() ==> ranked@[k].0 > x.0,
                decreases p,
            {
                p = p - 1;
            }
            proof {
                lemma_rank_place(ranked@, x, p as int);
            }
            ranked.insert(p, x);
        }
        i = i + 1;
    }
    assert(rows@.subrange(0, rows@.len() as int) =~= rows@);
    let mut names: Vec<String> = Vec::new();
    let mut j: usize = 0;
    while j < ranked.len()
        invariant
            j <= ranked@.len(),
            names@.len() == j,
            forall|k: int| 0 <= k < j ==> #[trigger] names@[k]@ == ranked@[k].1@,
        decreases ranked@.len() - j,
    {
        names.push(ranked[j].1.clone());
        j = j + 1;
    }
    assert(names@.map_values(|g: String| g@) =~= ranked@.map_values(|g: (i64, String)| g.1@));
    names
}

/// Lists each region with its gifts, best ranked first, the regions in name
/// order (regions of equal name in their given order).
pub fn top_list(rows: &Vec<RankRow>, regions: &Vec<String>) -> (r: Vec<TopGift>)
    ensures
        r@.map_values(|t: TopGift| entry_view(t)) == top_list_of(rows@, regions@),
{
    let mut out: Vec<TopGift> = Vec::new();
    let mut i: usize = 0;
    assert(out@.map_values(|t: TopGift| entry_view(t)) =~= top_list_of(rows@, regions@.subrange(0, 0)));
    while i < regions.len()
        invariant
            i <= regions@.len(),
            out@.map_values(|t: TopGift| entry_view(t)) == top_list_of(rows@, regions@.subrange(0, i as int)),
        decreases regions@.len() - i,
    {
        assert(regions@.subrange(0, i + 1).drop_last() =~= regions@.subrange(0, i as int));
        assert(regions@.subrange(0, i + 1).last() == regions@[i as int]);
        let gifts = gifts_of(rows, &regions[i]);
        let entry = TopGift { region: regions[i].clone(), top_gifts: gifts };
        let ghost view = out@.map_values(|t: TopGift| entry_view(t));
        let mut p = out.len();
        while p > 0 && !text_le_exec(out[p - 1].region.as_str(), entry.region.as_str())
            invariant
                p <= out@.len(),
                view == out@.map_values(|t: TopGift| entry_view(t)),
                forall|k: int| p <= k < out@.len() ==> !text_le(#[trigger] view[k].0, entry.region@),
            decreases p,
        {
            p = p - 1;
        }
        proof {
            lemma_region_place(view, entry_view(entry), p as int);
        }
        out.insert(p, entry);
        assert(out@.map_values(|t: TopGift| entry_view(t)) =~= view.insert(p as int, entry_view(entry)));
        i = i + 1;
    }
    assert(regions@.subrange(0, regions@.len() as int) =~= regions@);
    out
}

} // verus!
