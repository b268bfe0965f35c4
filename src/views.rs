//! The count of messages written to clients.
use vstd::prelude::*;

verus! {

/// The count after one more delivery: it wraps to zero past `usize::MAX`,
/// as an atomic `fetch_add` does.
pub open spec fn bumped(count: usize) -> usize {
    if count == usize::MAX {
        0
    } else {
        (count + 1) as usize
    }
}

/// The count after one write attempt: one more where the write went through.
pub open spec fn after_write(count: usize, written: bool) -> usize {
    if written {
        bumped(count)
    } else {
        count
    }
}

/// How many of `writes` went through.
pub open spec fn successes(writes: Seq<bool>) -> nat
    decreases writes.len(),
{
    if writes.len() == 0 {
        0
    } else {
        successes(writes.drop_last()) + if writes.last() {
            1nat
        } else {
            0nat
        }
    }
}

/// The count after a run of write attempts, one after another.
pub open spec fn after_writes(count: usize, writes: Seq<bool>) -> usize
    decreases writes.len(),
{
    if writes.len() == 0 {
        count
    } else {
        after_write(after_writes(count, writes.drop_last()), writes.last())
    }
}

/// Counts the messages that were written to a client socket.
#[derive(Debug)]
pub struct ViewCounter {
    count: usize,
}

impl ViewCounter {
    /// The current count.
    pub closed spec fn value(&self) -> usize {
        self.count
    }

    /// A counter at zero.
    pub fn new() -> (r: ViewCounter)
        ensures
            r.value() == 0,
    {
        ViewCounter { count: 0 }
    }

    /// Records one message written to a client.
    pub fn increment(&mut self)
        ensures
            final(self).value() == bumped(old(self).value()),
    {
        if self.count == usize::MAX {
            self.count = 0;
        } else {
            self.count = self.count + 1;
        }
    }

    /// Sets the count back to zero.
    pub fn reset(&mut self)
        ensures
            final(self).value() == 0,
    {
        self.count = 0;
    }

    /// Reads the count.
    pub fn read(&self) -> (r: usize)
        ensures
            r == self.value(),
    {
        self.count
    }

    /// The outbound relay's step after it tried to write one message: a write
    /// that went through is counted and the relay goes on; a failed one ends it.
    pub fn record_write(&mut self, written: bool) -> (keep_going: bool)
        ensures
            keep_going == written,
            final(self).value() == after_write(old(self).value(), written),
    {
        if written {
            self.increment();
        }
        written
    }
}

/// Without wrap-around, a run of write attempts raises the count by exactly
/// the number of attempts that went through.
pub proof fn law_count_matches_deliveries(count: usize, writes: Seq<bool>)
    requires
        count + writes.len() <= usize::MAX,
    ensures
        after_writes(count, writes) == count + successes(writes),
    decreases writes.len(),
{
    if writes.len() > 0 {
        law_count_matches_deliveries(count, writes.drop_last());
        lemma_successes_bounded(writes.drop_last());
    }
}

/// No more attempts go through than were made.
pub proof fn lemma_successes_bounded(writes: Seq<bool>)
    ensures
        successes(writes) <= writes.len(),
    decreases writes.len(),
{
    if writes.len() > 0 {
        lemma_successes_bounded(writes.drop_last());
    }
}

} // verus!
