//! Timed register files: committed values per port, and writes that wait for their time.

use crate::filters::lemma_filter_all;
use vstd::prelude::*;

verus! {

/// A write waiting in a register file: `value` replaces the committed value of `port` once
/// the clock has reached `stamp`.
pub struct PendingWrite<T> {
    pub stamp: usize,
    pub port: usize,
    pub value: T,
}

/// A register file with one committed value per port and a list of pending writes, kept in
/// the order in which they were buffered.
pub struct RegisterFile<T> {
    cells: Vec<T>,
    pending: Vec<PendingWrite<T>>,
}

/// The mathematical content of a register file.
pub struct RegisterFileView<T> {
    /// The committed value of each port.
    pub committed: Seq<T>,
    /// The pending writes, oldest first.
    pub pending: Seq<PendingWrite<T>>,
}

/// The predicate that holds of the writes that stay pending when the clock is at `clock`.
pub open spec fn write_after<T>(clock: usize) -> spec_fn(PendingWrite<T>) -> bool {
    |w: PendingWrite<T>| w.stamp > clock
}

impl<T> RegisterFileView<T> {
    /// The number of ports.
    pub open spec fn ports(self) -> nat {
        self.committed.len()
    }

    /// The register file with one more pending write.
    pub open spec fn buffer_write(self, port: usize, stamp: usize, value: T) -> Self {
        RegisterFileView {
            committed: self.committed,
            pending: self.pending.push(PendingWrite { stamp, port, value }),
        }
    }

    /// The register file with its committed values and no pending write.
    pub open spec fn committed_only(self) -> Self {
        RegisterFileView { committed: self.committed, pending: Seq::empty() }
    }

    /// Pending write `k` addresses `port` and is due when the clock is at `clock`.
    pub open spec fn due(self, k: int, port: int, clock: usize) -> bool {
        &&& 0 <= k < self.pending.len()
        &&& self.pending[k].port == port
        &&& self.pending[k].stamp <= clock
    }

    /// Pending write `j` gives way to pending write `k`: its timestamp is smaller, or it is
    /// the same and `j` was not buffered after `k`.
    pub open spec fn gives_way(self, j: int, k: int) -> bool {
        ||| self.pending[j].stamp < self.pending[k].stamp
        ||| self.pending[j].stamp == self.pending[k].stamp && j <= k
    }

    /// Pending write `k` is the one that `port` holds after a commit at `clock`: it is due,
    /// no due write for the port has a larger timestamp, and among the due writes with its
    /// timestamp it was buffered last.
    pub open spec fn prevails(self, k: int, port: int, clock: usize) -> bool {
        &&& self.due(k, port, clock)
        &&& forall|j: int| #[trigger] self.due(j, port, clock) ==> self.gives_way(j, k)
    }

    /// The value that `port` holds after a commit at `clock`.
    pub open spec fn settled(self, port: int, clock: usize) -> T {
        if exists|k: int| self.prevails(k, port, clock) {
            self.pending[choose|k: int| self.prevails(k, port, clock)].value
        } else {
            self.committed[port]
        }
    }

    /// The register file after a commit at `clock`: every port holds its settled value, and
    /// the writes that were due are gone.
    pub open spec fn commit(self, clock: usize) -> Self {
        RegisterFileView {
            committed: Seq::new(self.committed.len(), |p: int| self.settled(p, clock)),
            pending: self.pending.filter(write_after(clock)),
        }
    }

    /// Among the first `upto` pending writes, the index of the one that prevails for `port`,
    /// or -1 if none of them is due.
    spec fn latest(self, upto: int, port: int, clock: usize) -> int
        decreases upto,
    {
        if upto <= 0 {
            -1
        } else {
            let before = self.latest(upto - 1, port, clock);
            if self.due(upto - 1, port, clock) && (before < 0 || self.pending[before].stamp
                <= self.pending[upto - 1].stamp) {
                upto - 1
            } else {
                before
            }
        }
    }

    proof fn lemma_latest(self, upto: int, port: int, clock: usize)
        requires
            0 <= upto <= self.pending.len(),
        ensures
            -1 <= self.latest(upto, port, clock) < upto,
            self.latest(upto, port, clock) >= 0 ==> self.due(
                self.latest(upto, port, clock),
                port,
                clock,
            ),
            forall|j: int|
                0 <= j < upto && #[trigger] self.due(j, port, clock) ==> {
                    let k = self.latest(upto, port, clock);
                    k >= 0 && self.gives_way(j, k)
                },
        decreases upto,
    {
        if upto > 0 {
            self.lemma_latest(upto - 1, port, clock);
        }
    }

    proof fn lemma_settled_is_latest(self, port: int, clock: usize)
        ensures
            self.settled(port, clock) == {
                let k = self.latest(self.pending.len() as int, port, clock);
                if k >= 0 {
                    self.pending[k].value
                } else {
                    self.committed[port]
                }
            },
    {
        let n = self.pending.len() as int;
        let k = self.latest(n, port, clock);
        self.lemma_latest(n, port, clock);
        if k >= 0 {
            assert(self.prevails(k, port, clock));
            let c = choose|c: int| self.prevails(c, port, clock);
            assert(self.due(c, port, clock));
            assert(self.due(k, port, clock));
            assert(c == k);
        } else {
            assert forall|c: int| !self.prevails(c, port, clock) by {
                if self.prevails(c, port, clock) {
                    assert(self.due(c, port, clock));
                }
            }
        }
    }

    /// At most one pending write prevails for a port.
    pub proof fn lemma_prevails_unique(self, j: int, k: int, port: int, clock: usize)
        requires
            self.prevails(j, port, clock),
            self.prevails(k, port, clock),
        ensures
            j == k,
    {
        assert(self.due(j, port, clock));
        assert(self.due(k, port, clock));
    }

    /// What a port reads after a commit: the value of the due write with the largest
    /// timestamp, the one buffered last where several share it, or the value committed
    /// before where no write for the port is due.
    pub proof fn lemma_commit_reads_latest_due(self, port: int, clock: usize)
        requires
            0 <= port < self.ports(),
        ensures
            self.commit(clock).ports() == self.ports(),
            (forall|k: int| !self.due(k, port, clock)) ==> self.commit(clock).committed[port]
                == self.committed[port],
            (exists|k: int| self.due(k, port, clock)) ==> exists|k: int|
                self.prevails(k, port, clock),
            forall|k: int| #[trigger]
                self.prevails(k, port, clock) ==> self.commit(clock).committed[port]
                    == self.pending[k].value,
    {
        let n = self.pending.len() as int;
        self.lemma_latest(n, port, clock);
        self.lemma_settled_is_latest(port, clock);
        let r = self.latest(n, port, clock);
        if exists|k: int| self.due(k, port, clock) {
            let k = choose|k: int| self.due(k, port, clock);
            assert(self.due(k, port, clock));
            assert(self.prevails(r, port, clock));
        }
        assert forall|k: int| #[trigger] self.prevails(k, port, clock) implies self.commit(
            clock,
        ).committed[port] == self.pending[k].value by {
            assert(self.due(k, port, clock));
            assert(self.prevails(r, port, clock));
            self.lemma_prevails_unique(k, r, port, clock);
        }
        if forall|k: int| !self.due(k, port, clock) {
            if r >= 0 {
                assert(self.due(r, port, clock));
            }
        }
    }

    /// A write is not visible before its time: buffering it leaves the committed values as
    /// they are, and so does, compared with a file that never got the write, every commit
    /// at a clock before its timestamp, after which the write is still pending.
    pub proof fn lemma_write_waits_for_its_time(
        self,
        port: usize,
        stamp: usize,
        value: T,
        clock: usize,
    )
        requires
            clock < stamp,
        ensures
            self.buffer_write(port, stamp, value).committed == self.committed,
            self.buffer_write(port, stamp, value).commit(clock).committed == self.commit(
                clock,
            ).committed,
            self.buffer_write(port, stamp, value).commit(clock).pending == self.commit(
                clock,
            ).pending.push(PendingWrite { stamp, port, value }),
    {
        let with = self.buffer_write(port, stamp, value);
        self.pending.lemma_filter_push(PendingWrite { stamp, port, value }, write_after(clock));
        assert forall|p: int| 0 <= p < self.committed.len() implies with.settled(p, clock)
            == self.settled(p, clock) by {
            assert forall|k: int| with.due(k, p, clock) == self.due(k, p, clock) by {}
            assert forall|k: int| with.prevails(k, p, clock) == self.prevails(k, p, clock) by {
                if with.prevails(k, p, clock) {
                    assert(with.due(k, p, clock));
                    assert forall|j: int| #[trigger]
                        self.due(j, p, clock) implies self.gives_way(j, k) by {
                        assert(with.due(j, p, clock));
                        assert(with.gives_way(j, k));
                    }
                }
                if self.prevails(k, p, clock) {
                    assert(self.due(k, p, clock));
                    assert forall|j: int| #[trigger]
                        with.due(j, p, clock) implies with.gives_way(j, k) by {
                        assert(self.due(j, p, clock));
                        assert(self.gives_way(j, k));
                    }
                }
            }
            if exists|k: int| self.prevails(k, p, clock) {
                let a = choose|k: int| self.prevails(k, p, clock);
                let b = choose|k: int| with.prevails(k, p, clock);
                assert(with.prevails(a, p, clock));
                assert(self.prevails(b, p, clock));
                self.lemma_prevails_unique(a, b, p, clock);
                assert(self.due(a, p, clock));
            }
        }
        assert(with.commit(clock).committed =~= self.commit(clock).committed);
    }

    /// A write takes effect at its time: once the clock has reached its timestamp, a commit
    /// makes its value the committed one, provided that no write to the port that was
    /// pending before it has a later timestamp.
    pub proof fn lemma_write_lands_at_its_time(
        self,
        port: usize,
        stamp: usize,
        value: T,
        clock: usize,
    )
        requires
            port < self.ports(),
            stamp <= clock,
            forall|k: int|
                0 <= k < self.pending.len() && (#[trigger] self.pending[k]).port == port
                    ==> self.pending[k].stamp <= stamp,
        ensures
            self.buffer_write(port, stamp, value).commit(clock).committed[port as int] == value,
    {
        let with = self.buffer_write(port, stamp, value);
        let n = self.pending.len() as int;
        assert(with.due(n, port as int, clock));
        assert(with.prevails(n, port as int, clock)) by {
            assert forall|j: int| #[trigger]
                with.due(j, port as int, clock) implies with.gives_way(j, n) by {
                if j < n {
                    assert(self.pending[j].port == port);
                }
            }
        }
        with.lemma_commit_reads_latest_due(port as int, clock);
    }

    /// A commit at a time when no pending write is due changes nothing.
    pub proof fn lemma_commit_without_due_is_noop(self, clock: usize)
        requires
            forall|k: int| 0 <= k < self.pending.len() ==> (#[trigger] self.pending[k]).stamp
                > clock,
        ensures
            self.commit(clock) == self,
    {
        lemma_filter_all(self.pending, write_after(clock));
        assert forall|p: int| 0 <= p < self.committed.len() implies self.settled(p, clock)
            == self.committed[p] by {
            assert forall|c: int| !self.prevails(c, p, clock) by {
                if self.prevails(c, p, clock) {
                    assert(self.due(c, p, clock));
                }
            }
        }
        assert(self.commit(clock).committed =~= self.committed);
    }
}

impl<T> View for RegisterFile<T> {
    type V = RegisterFileView<T>;

    closed spec fn view(&self) -> RegisterFileView<T> {
        RegisterFileView { committed: self.cells@, pending: self.pending@ }
    }
}

impl<T: Copy> RegisterFile<T> {
    /// A register file of `ports` ports that all hold `initial`, with no pending write.
    pub fn new(ports: usize, initial: T) -> (file: Self)
        ensures
            file@.committed == Seq::new(ports as nat, |p: int| initial),
            file@.pending == Seq::<PendingWrite<T>>::empty(),
    {
        let mut cells: Vec<T> = Vec::new();
        let mut p: usize = 0;
        while p < ports
            invariant
                p <= ports,
                cells@ == Seq::new(p as nat, |q: int| initial),
            decreases ports - p,
        {
            cells.push(initial);
            p += 1;
        }
        RegisterFile { cells, pending: Vec::new() }
    }

    /// The number of ports.
    pub fn ports(&self) -> (n: usize)
        ensures
            n == self@.ports(),
    {
        self.cells.len()
    }

    /// The number of pending writes.
    pub fn pending_writes(&self) -> (n: usize)
        ensures
            n == self@.pending.len(),
    {
        self.pending.len()
    }

    /// The committed value of `port`.
    pub fn read(&self, port: usize) -> (value: T)
        requires
            port < self@.ports(),
        ensures
            value == self@.committed[port as int],
    {
        self.cells[port]
    }

    /// Records a write of `value` to `port` that takes effect at the first commit whose
    /// clock has reached `stamp`. The committed values stay as they are.
    pub fn buffer_write(&mut self, port: usize, stamp: usize, value: T)
        ensures
            final(self)@ == old(self)@.buffer_write(port, stamp, value),
    {
        self.pending.push(PendingWrite { stamp, port, value });
    }

    /// Applies every pending write whose timestamp is at most `clock` and forgets it: writes
    /// to one port take effect in the order of their timestamps, and in the order in which
    /// they were buffered where the timestamps are equal. A due write to a port that the
    /// file does not have is forgotten without effect.
    pub fn commit(&mut self, clock: usize)
        ensures
            final(self)@ == old(self)@.commit(clock),
            final(self)@.ports() == old(self)@.ports(),
            forall|p: int|
                0 <= p < old(self)@.ports() && (forall|k: int| !old(self)@.due(k, p, clock))
                    ==> (#[trigger] final(self)@.committed[p]) == old(self)@.committed[p],
            forall|p: int, k: int|
                0 <= p < old(self)@.ports() && #[trigger] old(self)@.prevails(k, p, clock)
                    ==> final(self)@.committed[p] == old(self)@.pending[k].value,
    {
        let ghost before = self@;
        let ports: usize = self.cells.len();
        let n: usize = self.pending.len();
        let mut applied: Vec<Option<usize>> = Vec::new();
        let mut p: usize = 0;
        while p < ports
            invariant
                p <= ports,
                applied@ == Seq::new(p as nat, |q: int| None::<usize>),
            decreases ports - p,
        {
            applied.push(None);
            p += 1;
        }
        let mut kept: Vec<PendingWrite<T>> = Vec::new();
        let mut i: usize = 0;
        while i < n
            invariant
                i <= n,
                n == before.pending.len(),
                ports == before.committed.len(),
                self.pending@ == before.pending,
                self.cells@.len() == ports,
                applied@.len() == ports,
                kept@ == before.pending.take(i as int).filter(write_after(clock)),
                forall|q: int|
                    0 <= q < ports ==> (#[trigger] applied@[q]) == {
                        let r = before.latest(i as int, q, clock);
                        if r >= 0 {
                            Some(before.pending[r].stamp)
                        } else {
                            None
                        }
                    },
                forall|q: int|
                    0 <= q < ports ==> (#[trigger] self.cells@[q]) == {
                        let r = before.latest(i as int, q, clock);
                        if r >= 0 {
                            before.pending[r].value
                        } else {
                            before.committed[q]
                        }
                    },
            decreases n - i,
        {
            let stamp: usize = self.pending[i].stamp;
            let port: usize = self.pending[i].port;
            let value: T = self.pending[i].value;
            proof {
                assert(before.pending.take(i + 1) =~= before.pending.take(i as int).push(
                    before.pending[i as int],
                ));
                before.pending.take(i as int).lemma_filter_push(
                    before.pending[i as int],
                    write_after(clock),
                );
                assert forall|q: int| 0 <= q < ports implies -1 <= #[trigger] before.latest(
                    i as int,
                    q,
                    clock,
                ) < i by {
                    before.lemma_latest(i as int, q, clock);
                }
            }
            if stamp <= clock {
                if port < ports {
                    let later: bool = match applied[port] {
                        Some(s) => s <= stamp,
                        None => true,
                    };
                    if later {
                        self.cells.set(port, value);
                        applied.set(port, Some(stamp));
                    }
                }
            } else {
                kept.push(PendingWrite { stamp, port, value });
            }
            i += 1;
        }
        self.pending = kept;
        proof {
            assert(before.pending.take(n as int) =~= before.pending);
            assert forall|q: int| 0 <= q < ports implies self.cells@[q] == before.settled(
                q,
                clock,
            ) by {
                before.lemma_settled_is_latest(q, clock);
            }
            assert(self@.committed =~= before.commit(clock).committed);
            assert forall|q: int| 0 <= q < ports implies {
                &&& (forall|k: int| !before.due(k, q, clock)) ==> self@.committed[q]
                    == before.committed[q]
                &&& forall|k: int| #[trigger]
                    before.prevails(k, q, clock) ==> self@.committed[q]
                        == before.pending[k].value
            } by {
                before.lemma_commit_reads_latest_due(q, clock);
            }
        }
    }
}

} // verus!
