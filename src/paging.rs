//! Pagination of a list: an offset, a limit, and an optional split of the
//! page into chunks.
use vstd::prelude::*;

verus! {

/// The query of a page request; each part is optional.
#[derive(Clone, Copy, Debug, PartialEq, Eq, Structural)]
pub struct Pagination {
    pub offset: Option<usize>,
    pub limit: Option<usize>,
    pub split: Option<usize>,
}

/// A page: the items in one list, or cut into chunks.
pub enum Page<T> {
    Flat(Vec<T>),
    Split(Vec<Vec<T>>),
}

/// Why a page could not be cut.
#[derive(Clone, Copy, Debug, PartialEq, Eq, Structural)]
pub enum PageError {
    /// The offset and limit reach past the end of the list.
    OutOfRange,
    /// The chunk size is zero.
    ZeroSplit,
}

/// The items of `s` cut into chunks of `k`, the last one possibly shorter.
pub open spec fn chunks_of<T>(s: Seq<T>, k: nat) -> Seq<Seq<T>>
    decreases s.len(),
{
    if s.len() == 0 || k == 0 {
        Seq::empty()
    } else if s.len() <= k {
        seq![s]
    } else {
        seq![s.subrange(0, k as int)] + chunks_of(s.subrange(k as int, s.len() as int), k)
    }
}

/// The contents of a page: `Ok(Err(items))` for a flat page,
/// `Ok(Ok(chunks))` for a split one.
pub open spec fn page_view<T>(p: Page<T>) -> Result<Seq<Seq<T>>, Seq<T>> {
    match p {
        Page::Flat(v) => Err(v@),
        Page::Split(c) => Ok(c@.map_values(|v: Vec<T>| v@)),
    }
}

/// The page that a query asks of `items`, as `page_view` shows pages.
pub open spec fn paged<T>(items: Seq<T>, q: Pagination) -> Result<
    Result<Seq<Seq<T>>, Seq<T>>,
    PageError,
> {
    let len = items.len();
    let offset: int = match q.offset {
        Some(o) => o as int,
        None => 0,
    };
    let limit: int = match q.limit {
        Some(l) => l as int,
        None => len - offset,
    };
    if len == 0 {
        Ok(Err(items))
    } else if offset > len || offset + limit > len {
        Err(PageError::OutOfRange)
    } else {
        let page = items.subrange(offset, offset + limit);
        match q.split {
            Some(k) => if k == 0 {
                Err(PageError::ZeroSplit)
            } else {
                Ok(Ok(chunks_of(page, k as nat)))
            },
            None => Ok(Err(page)),
        }
    }
}

/// Cuts the page that `q` asks for out of `items`. An empty list gives an
/// empty flat page whatever the query.
pub fn paginate_list<T>(items: Vec<T>, q: &Pagination) -> (r: Result<Page<T>, PageError>)
    ensures
        match r {
            Ok(p) => paged(items@, *q) == Ok::<Result<Seq<Seq<T>>, Seq<T>>, PageError>(page_view(p)),
            Err(e) => paged(items@, *q) == Err::<Result<Seq<Seq<T>>, Seq<T>>, PageError>(e),
        },
{
    let len = items.len();
    if len == 0 {
        return Ok(Page::Flat(items));
    }
    let offset = match q.offset {
        Some(o) => o,
        None => 0,
    };
    if offset > len {
        return Err(PageError::OutOfRange);
    }
    let limit = match q.limit {
        Some(l) => l,
        None => len - offset,
    };
    if limit > len - offset {
        return Err(PageError::OutOfRange);
    }
    let mut head = items;
    let ghost all = head@;
    let mut page = head.split_off(offset);
    page.truncate(limit);
    assert(page@ =~= all.subrange(offset as int, offset + limit));
    match q.split {
        None => Ok(Page::Flat(page)),
        Some(k) => {
            if k == 0 {
                return Err(PageError::ZeroSplit);
            }
            let chunks = cut_chunks(page, k);
            Ok(Page::Split(chunks))
        },
    }
}

/// Cuts `items` into chunks of `k`.
fn cut_chunks<T>(items: Vec<T>, k: usize) -> (r: Vec<Vec<T>>)
    requires
        k > 0,
    ensures
        r@.map_values(|v: Vec<T>| v@) == chunks_of(items@, k as nat),
{
    let mut out: Vec<Vec<T>> = Vec::new();
    let mut rest = items;
    let ghost all = rest@;
    while rest.len() > 0
        invariant
            k > 0,
            out@.map_values(|v: Vec<T>| v@) + chunks_of(rest@, k as nat) == chunks_of(all, k as nat),
        decreases rest@.len(),
    {
        let ghost before = rest@;
        let ghost done = out@.map_values(|v: Vec<T>| v@);
        if rest.len() <= k {
            let last = rest;
            rest = Vec::new();
            out.push(last);
            proof {
                assert(out@.map_values(|v: Vec<T>| v@) =~= done.push(before));
                assert(chunks_of(before, k as nat) == seq![before]);
                assert(chunks_of(rest@, k as nat) =~= Seq::<Seq<T>>::empty());
                assert(done + seq![before] =~= done.push(before) + Seq::<Seq<T>>::empty());
            }
        } else {
            let tail = rest.split_off(k);
            out.push(rest);
            rest = tail;
            proof {
                let head = before.subrange(0, k as int);
                assert(out@.map_values(|v: Vec<T>| v@) =~= done.push(head));
                assert(chunks_of(before, k as nat) == seq![head] + chunks_of(rest@, k as nat));
                assert(done + (seq![head] + chunks_of(rest@, k as nat)) =~= done.push(head) + chunks_of(
                    rest@,
                    k as nat,
                ));
            }
        }
    }
    assert(chunks_of(rest@, k as nat) =~= Seq::<Seq<T>>::empty());
    assert(out@.map_values(|v: Vec<T>| v@) + Seq::<Seq<T>>::empty() =~= out@.map_values(|v: Vec<T>| v@));
    out
}

} // verus!
