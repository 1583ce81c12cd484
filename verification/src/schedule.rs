//! Event schedules: the times at which a module is to be attempted.

use std::collections::VecDeque;
use vstd::prelude::*;

verus! {

/// The due-timestamps of one module, in the order in which they were appended. Only the
/// front entry is ever looked at: it counts as the earliest.
pub struct EventSchedule {
    due: VecDeque<usize>,
}

/// A schedule with these entries is due at `clock`: it has an entry, and the front one is
/// not later than `clock`.
pub open spec fn is_due(entries: Seq<usize>, clock: usize) -> bool {
    entries.len() > 0 && entries[0] <= clock
}

/// The entries without the front one; nothing changes where there is none.
pub open spec fn consumed(entries: Seq<usize>) -> Seq<usize> {
    if entries.len() > 0 {
        entries.drop_first()
    } else {
        entries
    }
}

/// No entry is earlier than one before it.
pub open spec fn non_decreasing(entries: Seq<usize>) -> bool {
    forall|i: int, j: int| 0 <= i <= j < entries.len() ==> entries[i] <= entries[j]
}

/// In a schedule that was filled in non-decreasing order the front entry is the least, so
/// the schedule is due exactly when some entry has been reached.
pub proof fn lemma_front_is_earliest(entries: Seq<usize>, clock: usize)
    requires
        non_decreasing(entries),
    ensures
        is_due(entries, clock) <==> exists|i: int| 0 <= i < entries.len() && entries[i] <= clock,
{
    if exists|i: int| 0 <= i < entries.len() && entries[i] <= clock {
        let i = choose|i: int| 0 <= i < entries.len() && entries[i] <= clock;
        assert(entries[0] <= entries[i]);
    }
}

impl View for EventSchedule {
    type V = Seq<usize>;

    closed spec fn view(&self) -> Seq<usize> {
        self.due@
    }
}

impl EventSchedule {
    /// A schedule without entries.
    pub fn new() -> (schedule: Self)
        ensures
            schedule@ == Seq::<usize>::empty(),
    {
        EventSchedule { due: VecDeque::new() }
    }

    /// The number of entries.
    pub fn len(&self) -> (n: usize)
        ensures
            n == self@.len(),
    {
        self.due.len()
    }

    /// The front entry, if there is one.
    pub fn earliest(&self) -> (stamp: Option<usize>)
        ensures
            stamp == (if self@.len() > 0 {
                Some(self@[0])
            } else {
                None
            }),
    {
        if self.due.len() > 0 {
            Some(self.due[0])
        } else {
            None
        }
    }

    /// Whether the module is to be attempted when the clock is at `clock`.
    pub fn is_due(&self, clock: usize) -> (due: bool)
        ensures
            due == is_due(self@, clock),
    {
        self.due.len() > 0 && self.due[0] <= clock
    }

    /// Removes the front entry. The kernel calls this after the module has fired.
    pub fn consume_due(&mut self)
        ensures
            final(self)@ == consumed(old(self)@),
    {
        let _ = self.due.pop_front();
    }

    /// Appends `stamp` as a new due-timestamp. Appending a timestamp that is not earlier
    /// than the last entry keeps a non-decreasing schedule non-decreasing.
    pub fn push_future(&mut self, stamp: usize)
        ensures
            final(self)@ == old(self)@.push(stamp),
            non_decreasing(old(self)@) && (old(self)@.len() == 0 || old(self)@.last() <= stamp)
                ==> non_decreasing(final(self)@),
    {
        self.due.push_back(stamp);
    }
}

} // verus!
