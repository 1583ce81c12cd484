//! Timed queues: FIFO channels whose pushes and pops wait for their time.

use crate::filters::{lemma_filter_all, lemma_filter_none};
use std::collections::VecDeque;
use vstd::prelude::*;

verus! {

/// A push waiting in a queue: `value` joins the back once the clock has reached `stamp`.
pub struct PendingPush<T> {
    pub stamp: usize,
    pub value: T,
}

/// A FIFO channel: the committed values, oldest first, and the pushes and pops that were
/// issued and have not been committed yet, each list in the order of issue.
pub struct TimedQueue<T> {
    items: VecDeque<T>,
    pushes: Vec<PendingPush<T>>,
    pops: Vec<usize>,
}

/// The mathematical content of a timed queue.
pub struct TimedQueueView<T> {
    /// The committed values, front first.
    pub items: Seq<T>,
    /// The pending pushes, oldest first.
    pub pushes: Seq<PendingPush<T>>,
    /// The timestamps of the pending pops, oldest first.
    pub pops: Seq<usize>,
}

/// One thing that happens to a queue in the course of a run.
pub enum QueueEvent<T> {
    /// A push of `value` is buffered for `stamp`.
    Push { stamp: usize, value: T },
    /// A pop is buffered for `stamp`.
    Pop { stamp: usize },
    /// The queue commits at `clock`.
    Commit { clock: usize },
}

/// Holds of the pushes that are due when the clock is at `clock`.
pub open spec fn push_due<T>(clock: usize) -> spec_fn(PendingPush<T>) -> bool {
    |p: PendingPush<T>| p.stamp <= clock
}

/// Holds of the pushes that stay pending when the clock is at `clock`.
pub open spec fn push_after<T>(clock: usize) -> spec_fn(PendingPush<T>) -> bool {
    |p: PendingPush<T>| p.stamp > clock
}

/// The value that a push carries.
pub open spec fn pushed_value<T>() -> spec_fn(PendingPush<T>) -> T {
    |p: PendingPush<T>| p.value
}

/// Holds of the timestamps that are due when the clock is at `clock`.
pub open spec fn stamp_due(clock: usize) -> spec_fn(usize) -> bool {
    |stamp: usize| stamp <= clock
}

/// Holds of the timestamps that are still ahead when the clock is at `clock`.
pub open spec fn stamp_after(clock: usize) -> spec_fn(usize) -> bool {
    |stamp: usize| stamp > clock
}

impl<T> TimedQueueView<T> {
    /// No value is committed.
    pub open spec fn is_empty(self) -> bool {
        self.items.len() == 0
    }

    /// The oldest committed value, if there is one.
    pub open spec fn front(self) -> Option<T> {
        if self.items.len() > 0 {
            Some(self.items[0])
        } else {
            None
        }
    }

    /// The queue with one more pending push.
    pub open spec fn buffer_push(self, stamp: usize, value: T) -> Self {
        TimedQueueView {
            items: self.items,
            pushes: self.pushes.push(PendingPush { stamp, value }),
            pops: self.pops,
        }
    }

    /// The queue with one more pending pop.
    pub open spec fn buffer_pop(self, stamp: usize) -> Self {
        TimedQueueView { items: self.items, pushes: self.pushes, pops: self.pops.push(stamp) }
    }

    /// The queue with its committed values and nothing pending.
    pub open spec fn committed_only(self) -> Self {
        TimedQueueView { items: self.items, pushes: Seq::empty(), pops: Seq::empty() }
    }

    /// The values of the pushes that are due at `clock`, in the order of issue.
    pub open spec fn arrivals(self, clock: usize) -> Seq<T> {
        self.pushes.filter(push_due(clock)).map_values(pushed_value())
    }

    /// The number of pops that are due at `clock`.
    pub open spec fn departures(self, clock: usize) -> nat {
        self.pops.filter(stamp_due(clock)).len()
    }

    /// The committed values once the pushes due at `clock` have joined the back.
    pub open spec fn arrived(self, clock: usize) -> Seq<T> {
        self.items + self.arrivals(clock)
    }

    /// The number of values that a commit at `clock` removes from the front: one for each
    /// due pop, as long as there is a value left to remove.
    pub open spec fn removed(self, clock: usize) -> int {
        if self.departures(clock) <= self.arrived(clock).len() {
            self.departures(clock) as int
        } else {
            self.arrived(clock).len() as int
        }
    }

    /// The queue after a commit at `clock`: the due pushes have joined the back in the order
    /// of issue, after that the due pops have removed values from the front, and what was
    /// due is no longer pending.
    pub open spec fn commit(self, clock: usize) -> Self {
        TimedQueueView {
            items: self.arrived(clock).skip(self.removed(clock)),
            pushes: self.pushes.filter(push_after(clock)),
            pops: self.pops.filter(stamp_after(clock)),
        }
    }

    /// No pending push or pop is due at `clock`.
    pub open spec fn nothing_due(self, clock: usize) -> bool {
        &&& forall|i: int| 0 <= i < self.pushes.len() ==> (#[trigger] self.pushes[i]).stamp > clock
        &&& forall|i: int| 0 <= i < self.pops.len() ==> #[trigger] self.pops[i] > clock
    }

    /// A commit at a time when nothing is due changes nothing, however often it is made.
    pub proof fn lemma_commit_without_due_is_noop(self, clock: usize)
        requires
            self.nothing_due(clock),
        ensures
            self.commit(clock) == self,
            self.commit(clock).commit(clock) == self,
    {
        lemma_filter_all(self.pushes, push_after(clock));
        lemma_filter_all(self.pops, stamp_after(clock));
        lemma_filter_none(self.pushes, push_due(clock));
        lemma_filter_none(self.pops, stamp_due(clock));
        assert(self.arrivals(clock) =~= Seq::<T>::empty());
        assert(self.arrived(clock) =~= self.items);
        assert(self.commit(clock).items =~= self.items);
    }

    /// A push is not visible before its time: buffering it leaves the committed values as
    /// they are, and so does, compared with a queue that never got the push, every commit
    /// at a clock before its timestamp, after which the push is still pending.
    pub proof fn lemma_push_waits_for_its_time(self, stamp: usize, value: T, clock: usize)
        requires
            clock < stamp,
        ensures
            self.buffer_push(stamp, value).items == self.items,
            self.buffer_push(stamp, value).commit(clock).items == self.commit(clock).items,
            self.buffer_push(stamp, value).commit(clock).pushes == self.commit(clock).pushes.push(
                PendingPush { stamp, value },
            ),
            self.buffer_push(stamp, value).commit(clock).pops == self.commit(clock).pops,
    {
        self.pushes.lemma_filter_push(PendingPush { stamp, value }, push_due(clock));
        self.pushes.lemma_filter_push(PendingPush { stamp, value }, push_after(clock));
    }

    /// A push arrives at its time: at a commit whose clock has reached its timestamp the
    /// value joins the queue behind everything that arrives with it.
    pub proof fn lemma_push_arrives_at_its_time(self, stamp: usize, value: T, clock: usize)
        requires
            stamp <= clock,
        ensures
            self.buffer_push(stamp, value).arrived(clock) == self.arrived(clock).push(value),
            self.buffer_push(stamp, value).commit(clock).pushes == self.commit(clock).pushes,
            self.buffer_push(stamp, value).commit(clock).pops == self.commit(clock).pops,
    {
        let push = PendingPush { stamp, value };
        self.pushes.lemma_filter_push(push, push_due(clock));
        self.pushes.lemma_filter_push(push, push_after(clock));
        let due = self.pushes.filter(push_due(clock));
        assert(due.push(push).map_values(pushed_value()) =~= due.map_values(
            pushed_value(),
        ).push(value));
        assert(self.buffer_push(stamp, value).arrived(clock) =~= self.arrived(clock).push(value));
    }

    /// A pop does not remove anything before its time.
    pub proof fn lemma_pop_waits_for_its_time(self, stamp: usize, clock: usize)
        requires
            clock < stamp,
        ensures
            self.buffer_pop(stamp).items == self.items,
            self.buffer_pop(stamp).commit(clock).items == self.commit(clock).items,
            self.buffer_pop(stamp).commit(clock).pushes == self.commit(clock).pushes,
            self.buffer_pop(stamp).commit(clock).pops == self.commit(clock).pops.push(stamp),
    {
        self.pops.lemma_filter_push(stamp, stamp_due(clock));
        self.pops.lemma_filter_push(stamp, stamp_after(clock));
    }

    /// A pop takes effect at its time: at a commit whose clock has reached its timestamp it
    /// removes the value that would else be at the front, and nothing where the queue
    /// would else be empty.
    pub proof fn lemma_pop_removes_front_at_its_time(self, stamp: usize, clock: usize)
        requires
            stamp <= clock,
        ensures
            self.buffer_pop(stamp).commit(clock).items == (if self.commit(clock).items.len() > 0 {
                self.commit(clock).items.drop_first()
            } else {
                self.commit(clock).items
            }),
            self.buffer_pop(stamp).commit(clock).pushes == self.commit(clock).pushes,
            self.buffer_pop(stamp).commit(clock).pops == self.commit(clock).pops,
    {
        self.pops.lemma_filter_push(stamp, stamp_due(clock));
        self.pops.lemma_filter_push(stamp, stamp_after(clock));
        let with = self.buffer_pop(stamp);
        assert(with.departures(clock) == self.departures(clock) + 1);
        assert(with.arrived(clock) == self.arrived(clock));
        if self.commit(clock).items.len() > 0 {
            assert(with.commit(clock).items =~= self.commit(clock).items.drop_first());
        } else {
            assert(with.commit(clock).items =~= self.commit(clock).items);
        }
    }

    /// A commit keeps the order of arrival: what is committed afterwards is what was
    /// committed before followed by the arrivals, less a number of values at the front that
    /// is the number of due pops wherever that many values are there.
    pub proof fn lemma_commit_is_fifo(self, clock: usize)
        ensures
            0 <= self.removed(clock) <= self.arrived(clock).len(),
            self.arrived(clock).len() >= self.departures(clock) ==> self.removed(clock)
                == self.departures(clock),
            self.commit(clock).items.len() == self.arrived(clock).len() - self.removed(clock),
            forall|i: int|
                0 <= i < self.commit(clock).items.len() ==> (#[trigger] self.commit(
                    clock,
                ).items[i]) == self.arrived(clock)[i + self.removed(clock)],
            forall|i: int|
                0 <= i < self.items.len() ==> (#[trigger] self.arrived(clock)[i])
                    == self.items[i],
    {
    }

    /// The queue after `event`.
    pub open spec fn apply(self, event: QueueEvent<T>) -> Self {
        match event {
            QueueEvent::Push { stamp, value } => self.buffer_push(stamp, value),
            QueueEvent::Pop { stamp } => self.buffer_pop(stamp),
            QueueEvent::Commit { clock } => self.commit(clock),
        }
    }

    /// The queue after `events`, the first of them first.
    pub open spec fn replay(self, events: Seq<QueueEvent<T>>) -> Self
        decreases events.len(),
    {
        if events.len() == 0 {
            self
        } else {
            self.replay(events.drop_last()).apply(events.last())
        }
    }

    /// Every value that was committed at the start or has arrived in the course of
    /// `events`, in the order of arrival.
    pub open spec fn history(self, events: Seq<QueueEvent<T>>) -> Seq<T>
        decreases events.len(),
    {
        if events.len() == 0 {
            self.items
        } else {
            let past = self.history(events.drop_last());
            match events.last() {
                QueueEvent::Commit { clock } => past + self.replay(events.drop_last()).arrivals(
                    clock,
                ),
                _ => past,
            }
        }
    }

    /// The number of values that the commits among `events` have removed.
    pub open spec fn taken(self, events: Seq<QueueEvent<T>>) -> int
        decreases events.len(),
    {
        if events.len() == 0 {
            0
        } else {
            let past = self.taken(events.drop_last());
            match events.last() {
                QueueEvent::Commit { clock } => past + self.replay(events.drop_last()).removed(
                    clock,
                ),
                _ => past,
            }
        }
    }

    /// Throughout a run the queue holds the values that have arrived, in the order of
    /// arrival, less those at the front that pops have removed: the values seen at the
    /// front follow each other in the order in which they arrived, and none is skipped.
    pub proof fn lemma_replay_is_fifo(self, events: Seq<QueueEvent<T>>)
        ensures
            0 <= self.taken(events) <= self.history(events).len(),
            self.replay(events).items == self.history(events).skip(self.taken(events)),
        decreases events.len(),
    {
        if events.len() == 0 {
            assert(self.items.skip(0) =~= self.items);
        } else {
            let earlier = events.drop_last();
            self.lemma_replay_is_fifo(earlier);
            let before = self.replay(earlier);
            match events.last() {
                QueueEvent::Commit { clock } => {
                    let past = self.history(earlier);
                    let gone = self.taken(earlier);
                    assert(before.arrived(clock) =~= (past + before.arrivals(clock)).skip(gone));
                    assert(before.commit(clock).items =~= (past + before.arrivals(clock)).skip(
                        gone + before.removed(clock),
                    ));
                },
                _ => {},
            }
        }
    }
}

impl<T> View for TimedQueue<T> {
    type V = TimedQueueView<T>;

    closed spec fn view(&self) -> TimedQueueView<T> {
        TimedQueueView { items: self.items@, pushes: self.pushes@, pops: self.pops@ }
    }
}

impl<T: Copy> TimedQueue<T> {
    /// An empty queue with nothing pending.
    pub fn new() -> (queue: Self)
        ensures
            queue@.items == Seq::<T>::empty(),
            queue@.pushes == Seq::<PendingPush<T>>::empty(),
            queue@.pops == Seq::<usize>::empty(),
    {
        TimedQueue { items: VecDeque::new(), pushes: Vec::new(), pops: Vec::new() }
    }

    /// Whether no value is committed.
    pub fn is_empty(&self) -> (empty: bool)
        ensures
            empty == self@.is_empty(),
    {
        self.items.len() == 0
    }

    /// The number of committed values.
    pub fn len(&self) -> (n: usize)
        ensures
            n == self@.items.len(),
    {
        self.items.len()
    }

    /// The oldest committed value, which stays in the queue.
    pub fn front(&self) -> (value: Option<T>)
        ensures
            value == self@.front(),
    {
        if self.items.len() > 0 {
            Some(self.items[0])
        } else {
            None
        }
    }

    /// The number of pending pushes.
    pub fn pending_pushes(&self) -> (n: usize)
        ensures
            n == self@.pushes.len(),
    {
        self.pushes.len()
    }

    /// The number of pending pops.
    pub fn pending_pops(&self) -> (n: usize)
        ensures
            n == self@.pops.len(),
    {
        self.pops.len()
    }

    /// Records a push of `value` that takes effect at the first commit whose clock has
    /// reached `stamp`. The committed values stay as they are.
    pub fn buffer_push(&mut self, stamp: usize, value: T)
        ensures
            final(self)@ == old(self)@.buffer_push(stamp, value),
    {
        self.pushes.push(PendingPush { stamp, value });
    }

    /// Records a pop that takes effect at the first commit whose clock has reached `stamp`.
    /// The committed values stay as they are.
    pub fn buffer_pop(&mut self, stamp: usize)
        ensures
            final(self)@ == old(self)@.buffer_pop(stamp),
    {
        self.pops.push(stamp);
    }

    /// Applies what is due at `clock`: first every due push appends its value, in the order
    /// of issue, then every due pop removes the front value. A pop that finds the queue
    /// empty removes nothing and is forgotten like the others.
    pub fn commit(&mut self, clock: usize)
        ensures
            final(self)@ == old(self)@.commit(clock),
    {
        let ghost before = self@;
        let pushes: usize = self.pushes.len();
        let mut kept: Vec<PendingPush<T>> = Vec::new();
        let mut i: usize = 0;
        while i < pushes
            invariant
                i <= pushes,
                pushes == before.pushes.len(),
                self.pushes@ == before.pushes,
                self.pops@ == before.pops,
                self.items@ == before.items + before.pushes.take(i as int).filter(
                    push_due(clock),
                ).map_values(pushed_value()),
                kept@ == before.pushes.take(i as int).filter(push_after(clock)),
            decreases pushes - i,
        {
            let stamp: usize = self.pushes[i].stamp;
            let value: T = self.pushes[i].value;
            proof {
                let seen = before.pushes.take(i as int);
                let next = before.pushes[i as int];
                assert(before.pushes.take(i + 1) =~= seen.push(next));
                seen.lemma_filter_push(next, push_due(clock));
                seen.lemma_filter_push(next, push_after(clock));
                assert(seen.filter(push_due(clock)).push(next).map_values(pushed_value())
                    =~= seen.filter(push_due(clock)).map_values(pushed_value()).push(next.value));
                assert((before.items + seen.filter(push_due(clock)).map_values(
                    pushed_value(),
                )).push(next.value) =~= before.items + seen.filter(push_due(clock)).map_values(
                    pushed_value(),
                ).push(next.value));
            }
            if stamp <= clock {
                self.items.push_back(value);
            } else {
                kept.push(PendingPush { stamp, value });
            }
            i += 1;
        }
        self.pushes = kept;
        assert(before.pushes.take(pushes as int) =~= before.pushes);
        let ghost arrived = before.arrived(clock);
        let pops: usize = self.pops.len();
        let mut ahead: Vec<usize> = Vec::new();
        let mut j: usize = 0;
        while j < pops
            invariant
                j <= pops,
                pops == before.pops.len(),
                self.pops@ == before.pops,
                self.pushes@ == before.pushes.filter(push_after(clock)),
                arrived == before.arrived(clock),
                ({
                    let due = before.pops.take(j as int).filter(stamp_due(clock)).len();
                    self.items@ == arrived.skip(
                        if due <= arrived.len() {
                            due as int
                        } else {
                            arrived.len() as int
                        },
                    )
                }),
                ahead@ == before.pops.take(j as int).filter(stamp_after(clock)),
            decreases pops - j,
        {
            let stamp: usize = self.pops[j];
            proof {
                let seen = before.pops.take(j as int);
                assert(before.pops.take(j + 1) =~= seen.push(stamp));
                seen.lemma_filter_push(stamp, stamp_due(clock));
                seen.lemma_filter_push(stamp, stamp_after(clock));
            }
            if stamp <= clock {
                let ghost held = self.items@;
                let _ = self.items.pop_front();
                proof {
                    let due = before.pops.take(j as int).filter(stamp_due(clock)).len();
                    if held.len() > 0 {
                        assert(held.subrange(1, held.len() as int) =~= arrived.skip(
                            due as int + 1,
                        ));
                    } else {
                        assert(arrived.skip(arrived.len() as int) =~= held);
                    }
                }
            } else {
                ahead.push(stamp);
            }
            j += 1;
        }
        self.pops = ahead;
        assert(before.pops.take(pops as int) =~= before.pops);
    }
}

} // verus!
