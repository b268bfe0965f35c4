//! Counting the regular files of a tar archive, and adding up their sizes.
use vstd::prelude::*;

verus! {

/// The entries of a tar archive held in `bytes`, in order: for each, whether
/// it is a regular file and its size, or `None` where the entry cannot be
/// read; `None` for the whole where the archive cannot be opened.
pub uninterp spec fn tar_listing_of(bytes: Seq<u8>) -> Option<Seq<Option<(bool, u64)>>>;

/// Relies on `tar::Archive::new` and `tar::Archive::entries` to walk the
/// archive, and on `tar::Header::entry_type` with `tar::EntryType::is_file`
/// and `tar::Entry::size` to describe each entry.
#[verifier::external_body]
fn tar_listing(bytes: &[u8]) -> (r: Option<Vec<Option<(bool, u64)>>>)
    ensures
        match r {
            Some(v) => tar_listing_of(bytes@) == Some(v@),
            None => tar_listing_of(bytes@) is None,
        },
{
    let mut archive = tar::Archive::new(bytes);
    match archive.entries() {
        Ok(entries) => Some(
            entries.map(|e| e.ok().map(|en| (en.header().entry_type().is_file(), en.size()))).collect(),
        ),
        Err(_) => None,
    }
}

/// Why an archive could not be summed up.
#[derive(Clone, Copy, Debug, PartialEq, Eq, Structural)]
pub enum ArchiveError {
    /// The archive cannot be opened.
    Unreadable,
    /// The total size does not fit in a `u64`.
    TooLarge,
}

/// The number of readable regular files among the entries.
pub open spec fn files_in(entries: Seq<Option<(bool, u64)>>) -> nat
    decreases entries.len(),
{
    if entries.len() == 0 {
        0
    } else {
        files_in(entries.drop_last()) + if entries.last() matches Some((true, _)) {
            1nat
        } else {
            0nat
        }
    }
}

/// The total size of the readable regular files among the entries.
pub open spec fn size_in(entries: Seq<Option<(bool, u64)>>) -> int
    decreases entries.len(),
{
    if entries.len() == 0 {
        0
    } else {
        size_in(entries.drop_last()) + match entries.last() {
            Some((true, s)) => s as int,
            _ => 0int,
        }
    }
}

proof fn lemma_size_grows(entries: Seq<Option<(bool, u64)>>, k: int)
    requires
        0 <= k <= entries.len(),
    ensures
        size_in(entries) >= size_in(entries.subrange(0, k)),
    decreases entries.len() - k,
{
    if k < entries.len() {
        lemma_size_grows(entries, k + 1);
        assert(entries.subrange(0, k + 1).drop_last() =~= entries.subrange(0, k));
    } else {
        assert(entries.subrange(0, k) =~= entries);
    }
}

/// The number of regular files in a tar archive.
pub fn num_files(bytes: &[u8]) -> (r: Result<usize, ArchiveError>)
    ensures
        match tar_listing_of(bytes@) {
            Some(entries) => r == Ok::<usize, ArchiveError>(files_in(entries) as usize),
            None => r == Err::<usize, ArchiveError>(ArchiveError::Unreadable),
        },
{
    let entries = match tar_listing(bytes) {
        Some(v) => v,
        None => return Err(ArchiveError::Unreadable),
    };
    let mut count: usize = 0;
    let mut i: usize = 0;
    while i < entries.len()
        invariant
            i <= entries@.len(),
            count == files_in(entries@.subrange(0, i as int)),
            count <= i,
        decreases entries@.len() - i,
    {
        assert(entries@.subrange(0, i + 1).drop_last() =~= entries@.subrange(0, i as int));
        match entries[i] {
            Some((true, _)) => count = count + 1,
            _ => {},
        }
        i = i + 1;
    }
    assert(entries@.subrange(0, entries@.len() as int) =~= entries@);
    Ok(count)
}

/// The total size of the regular files in a tar archive.
pub fn size_files(bytes: &[u8]) -> (r: Result<u64, ArchiveError>)
    ensures
        match tar_listing_of(bytes@) {
            Some(entries) => if size_in(entries) <= u64::MAX {
                r == Ok::<u64, ArchiveError>(size_in(entries) as u64)
            } else {
                r == Err::<u64, ArchiveError>(ArchiveError::TooLarge)
            },
            None => r == Err::<u64, ArchiveError>(ArchiveError::Unreadable),
        },
{
    let entries = match tar_listing(bytes) {
        Some(v) => v,
        None => return Err(ArchiveError::Unreadable),
    };
    let mut total: u64 = 0;
    let mut i: usize = 0;
    while i < entries.len()
        invariant
            tar_listing_of(bytes@) == Some(entries@),
            i <= entries@.len(),
            total == size_in(entries@.subrange(0, i as int)),
        decreases entries@.len() - i,
    {
        assert(entries@.subrange(0, i + 1).drop_last() =~= entries@.subrange(0, i as int));
        assert(entries@.subrange(0, i + 1).last() == entries@[i as int]);
        match entries[i] {
            Some((true, s)) => match total.checked_add(s) {
                Some(t) => total = t,
                None => {
                    proof {
                        lemma_size_grows(entries@, i + 1);
                        assert(size_in(entries@.subrange(0, i + 1)) == total + s);
                        assert(entries@.subrange(0, entries@.len() as int) =~= entries@);
                    }
                    return Err(ArchiveError::TooLarge);
                },
            },
            _ => {},
        }
        i = i + 1;
    }
    assert(entries@.subrange(0, entries@.len() as int) =~= entries@);
    Ok(total)
}

} // verus!
