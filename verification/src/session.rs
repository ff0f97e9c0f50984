//! The scan session: bounded-concurrency dispatch and result collection.
//!
//! A `ScanSession` is the single piece of shared state of a scan. The driver
//! admits ports in ascending order, never holding more than the concurrency
//! limit in flight, performs each connection attempt outside this library,
//! and hands every ending back through `complete`. The session counts every
//! completion (the progress signal), collects the ports found open exactly
//! once each, and knows when the whole range has been admitted and finished —
//! the completion barrier after which `finish` sorts and releases the report.
//!
//! Completion order is unconstrained: a probe admitted later may complete
//! first, and nothing below assumes otherwise.

use vstd::prelude::*;

use crate::outcome::ProbeOutcome;
use crate::sort::sort_ports;
use crate::sort::sorted_ascending;

verus! {

/// The state of one scan over an inclusive port range `[start, end]` with a
/// concurrency limit. Tracks, in ghost state, which admitted probes are still
/// in flight, which have finished, and which ports were reported open.
pub struct ScanSession {
    start: u16,
    end: u16,
    limit: usize,
    next_port: u32,
    in_flight: usize,
    completed: usize,
    open_ports: Vec<u16>,
    outstanding: Ghost<Set<u16>>,
    finished: Ghost<Set<u16>>,
    opened: Ghost<Set<u16>>,
}

impl ScanSession {
    /// First port of the range.
    pub closed spec fn start_port(self) -> u16 {
        self.start
    }

    /// Last port of the range; a range with `end_port < start_port` is empty.
    pub closed spec fn end_port(self) -> u16 {
        self.end
    }

    /// The concurrency limit: the most probes that may be in flight at once.
    pub closed spec fn concurrency_limit(self) -> int {
        self.limit as int
    }

    /// How many probes the whole scan makes.
    pub open spec fn total(self) -> int {
        if self.start_port() <= self.end_port() {
            self.end_port() - self.start_port() + 1
        } else {
            0
        }
    }

    /// How many ports have been admitted so far.
    pub closed spec fn admitted_count(self) -> int {
        self.next_port - self.start
    }

    /// Whether `p` has been admitted: admission runs in ascending order, so
    /// the admitted ports are exactly an initial stretch of the range.
    pub open spec fn is_admitted(self, p: u16) -> bool {
        self.start_port() <= p < self.start_port() + self.admitted_count()
    }

    /// How many admitted probes have not yet completed.
    pub closed spec fn in_flight(self) -> int {
        self.in_flight as int
    }

    /// How many probes have completed, whatever their outcome. This is the
    /// count the progress reporter has been told.
    pub closed spec fn completed(self) -> int {
        self.completed as int
    }

    /// The admitted ports whose probes are still in flight.
    pub closed spec fn outstanding(self) -> Set<u16> {
        self.outstanding@
    }

    /// The ports whose probes have completed.
    pub closed spec fn finished(self) -> Set<u16> {
        self.finished@
    }

    /// The ports reported open so far.
    pub closed spec fn opened(self) -> Set<u16> {
        self.opened@
    }

    /// Whether every port of the range has been admitted and every admitted
    /// probe has completed: the completion barrier.
    pub open spec fn done(self) -> bool {
        self.admitted_count() == self.total() && self.in_flight() == 0
    }

    /// The session's invariant, established by `new` and preserved by every
    /// step. Among its clauses: at most `concurrency_limit` probes are in
    /// flight at any state; every admitted port is either outstanding or
    /// finished, never both; the progress count plus the in-flight count is
    /// exactly the admission count; and the collected vector holds the opened
    /// ports exactly once each.
    pub closed spec fn inv(self) -> bool {
        &&& 1 <= self.limit <= 100
        &&& 1 <= self.start
        &&& if self.start <= self.end {
            self.start <= self.next_port <= self.end + 1
        } else {
            self.next_port == self.start
        }
        &&& self.in_flight <= self.limit
        &&& self.in_flight + self.completed == self.next_port - self.start
        &&& self.outstanding@.finite()
        &&& self.outstanding@.len() == self.in_flight
        &&& self.finished@.finite()
        &&& self.outstanding@.disjoint(self.finished@)
        &&& forall|p: u16| self.outstanding@.contains(p) ==> self.is_admitted(p)
        &&& forall|p: u16| self.finished@.contains(p) ==> self.is_admitted(p)
        &&& forall|p: u16|
            self.is_admitted(p) ==> (self.outstanding@.contains(p) || self.finished@.contains(p))
        &&& self.opened@.subset_of(self.finished@)
        &&& self.open_ports@.no_duplicates()
        &&& self.open_ports@.to_set() == self.opened@
    }

    /// Start a scan over `[start, end]` under concurrency limit `limit`.
    /// Nothing is admitted yet; an empty range (`start > end`) is already at
    /// the barrier, so a driver loop on `is_done` finishes at once.
    pub fn new(start: u16, end: u16, limit: usize) -> (s: Self)
        requires
            1 <= start,
            1 <= limit <= 100,
        ensures
            s.inv(),
            s.start_port() == start,
            s.end_port() == end,
            s.concurrency_limit() == limit,
            s.admitted_count() == 0,
            s.in_flight() == 0,
            s.completed() == 0,
            s.outstanding() == Set::<u16>::empty(),
            s.finished() == Set::<u16>::empty(),
            s.opened() == Set::<u16>::empty(),
            s.done() <==> s.total() == 0,
    {
        let s = ScanSession {
            start,
            end,
            limit,
            next_port: start as u32,
            in_flight: 0,
            completed: 0,
            open_ports: Vec::new(),
            outstanding: Ghost(Set::empty()),
            finished: Ghost(Set::empty()),
            opened: Ghost(Set::empty()),
        };
        proof {
            assert(s.open_ports@.to_set() =~= Set::<u16>::empty());
        }
        s
    }

    /// Whether a further probe may be admitted now: some port of the range is
    /// still unadmitted and a permit is free.
    pub fn can_admit(&self) -> (r: bool)
        requires
            self.inv(),
        ensures
            r == (self.admitted_count() < self.total() && self.in_flight()
                < self.concurrency_limit()),
    {
        self.start <= self.end && self.next_port <= self.end as u32 && self.in_flight < self.limit
    }

    /// Admit the next probe. Ports are admitted in ascending order, exactly
    /// once each; the returned port is the one to attempt. The admission
    /// takes one permit: it is only allowed while a permit is free, so the
    /// in-flight count stays within the limit.
    pub fn admit_next(&mut self) -> (port: u16)
        requires
            old(self).inv(),
            old(self).admitted_count() < old(self).total(),
            old(self).in_flight() < old(self).concurrency_limit(),
        ensures
            final(self).inv(),
            port == old(self).start_port() + old(self).admitted_count(),
            old(self).start_port() <= port <= old(self).end_port(),
            !old(self).is_admitted(port),
            final(self).start_port() == old(self).start_port(),
            final(self).end_port() == old(self).end_port(),
            final(self).concurrency_limit() == old(self).concurrency_limit(),
            final(self).admitted_count() == old(self).admitted_count() + 1,
            final(self).in_flight() == old(self).in_flight() + 1,
            final(self).completed() == old(self).completed(),
            final(self).outstanding() == old(self).outstanding().insert(port),
            final(self).finished() == old(self).finished(),
            final(self).opened() == old(self).opened(),
    {
        let port = self.next_port as u16;
        self.next_port = self.next_port + 1;
        self.in_flight = self.in_flight + 1;
        proof {
            assert(port == old(self).next_port);
            assert(!old(self).outstanding@.contains(port)) by {
                if old(self).outstanding@.contains(port) {
                    assert(old(self).is_admitted(port));
                }
            }
            assert(!old(self).finished@.contains(port)) by {
                if old(self).finished@.contains(port) {
                    assert(old(self).is_admitted(port));
                }
            }
            self.outstanding@ = self.outstanding@.insert(port);
            assert(self.outstanding@.len() == old(self).outstanding@.len() + 1);
            assert forall|p: u16| self.outstanding@.contains(p) implies self.is_admitted(p) by {
                if p != port {
                    assert(old(self).outstanding@.contains(p));
                    assert(old(self).is_admitted(p));
                }
            }
            assert forall|p: u16| self.outstanding@.contains(p) implies !self.finished@.contains(
                p,
            ) by {
                if p != port {
                    assert(old(self).outstanding@.contains(p));
                }
            }
            assert forall|p: u16| self.is_admitted(p) implies (self.outstanding@.contains(p)
                || self.finished@.contains(p)) by {
                if p != port {
                    assert(old(self).is_admitted(p));
                }
            }
            assert forall|p: u16| self.finished@.contains(p) implies self.is_admitted(p) by {
                assert(old(self).is_admitted(p));
            }
        }
        port
    }

    /// Record the ending of the probe of `port`, which must be in flight.
    /// This returns the probe's permit: the in-flight count drops by one and
    /// the progress count rises by one, whatever the outcome. Exactly when
    /// the outcome is `Open`, the port joins the collected set.
    pub fn complete(&mut self, port: u16, outcome: ProbeOutcome)
        requires
            old(self).inv(),
            old(self).outstanding().contains(port),
        ensures
            final(self).inv(),
            final(self).start_port() == old(self).start_port(),
            final(self).end_port() == old(self).end_port(),
            final(self).concurrency_limit() == old(self).concurrency_limit(),
            final(self).admitted_count() == old(self).admitted_count(),
            final(self).in_flight() == old(self).in_flight() - 1,
            final(self).completed() == old(self).completed() + 1,
            final(self).outstanding() == old(self).outstanding().remove(port),
            final(self).finished() == old(self).finished().insert(port),
            final(self).opened() == if outcome.spec_is_open() {
                old(self).opened().insert(port)
            } else {
                old(self).opened()
            },
    {
        proof {
            assert(self.outstanding@.len() > 0) by {
                if self.outstanding@.len() == 0 {
                    self.outstanding@.lemma_len0_is_empty();
                }
            }
        }
        self.in_flight = self.in_flight - 1;
        self.completed = self.completed + 1;
        proof {
            assert(!old(self).finished@.contains(port));
            self.outstanding@ = self.outstanding@.remove(port);
            self.finished@ = self.finished@.insert(port);
        }
        if outcome.is_open() {
            let ghost before = self.open_ports@;
            self.open_ports.push(port);
            proof {
                self.opened@ = self.opened@.insert(port);
                assert(!before.contains(port));
                before.lemma_push_to_set_commute(port);
                assert(self.open_ports@.no_duplicates()) by {
                    assert(forall|i: int| 0 <= i < before.len() ==> before.push(port)[i]
                        == before[i]);
                    assert(before.push(port)[before.len() as int] == port);
                }
            }
        }
        proof {
            assert(self.outstanding@ == old(self).outstanding@.remove(port));
            assert(self.finished@ == old(self).finished@.insert(port));
            assert(self.outstanding@.len() == old(self).outstanding@.len() - 1);
            assert(self.finished@.len() == old(self).finished@.len() + 1);
            assert forall|p: u16| self.outstanding@.contains(p) implies self.is_admitted(p) by {
                assert(old(self).outstanding@.contains(p));
                assert(old(self).is_admitted(p));
            }
            assert forall|p: u16| self.finished@.contains(p) implies self.is_admitted(p) by {
                if p != port {
                    assert(old(self).finished@.contains(p));
                }
                assert(old(self).is_admitted(p));
            }
            assert forall|p: u16| self.outstanding@.contains(p) implies !self.finished@.contains(
                p,
            ) by {
                assert(old(self).outstanding@.contains(p));
                if p != port {
                    assert(!old(self).finished@.contains(p));
                }
            }
            assert forall|p: u16| self.is_admitted(p) implies (self.outstanding@.contains(p)
                || self.finished@.contains(p)) by {
                assert(old(self).is_admitted(p));
                if p != port {
                    assert(old(self).outstanding@.contains(p) || old(self).finished@.contains(p));
                }
            }
            assert forall|p: u16| self.opened@.contains(p) implies self.finished@.contains(p) by {
                if p != port {
                    assert(old(self).opened@.contains(p));
                    assert(old(self).finished@.contains(p));
                }
            }
        }
    }

    /// Whether the completion barrier has been reached: every port admitted
    /// and every admitted probe completed.
    pub fn is_done(&self) -> (r: bool)
        requires
            self.inv(),
        ensures
            r == self.done(),
    {
        let all_admitted = if self.start <= self.end {
            self.next_port > self.end as u32
        } else {
            true
        };
        all_admitted && self.in_flight == 0
    }

    /// The progress count: completed probes so far, each counted once.
    pub fn completed_count(&self) -> (n: usize)
        requires
            self.inv(),
        ensures
            n == self.completed(),
    {
        self.completed
    }

    /// How many admitted probes are in flight right now.
    pub fn in_flight_count(&self) -> (n: usize)
        requires
            self.inv(),
        ensures
            n == self.in_flight(),
    {
        self.in_flight
    }

    /// How many ports have been reported open so far.
    pub fn open_count(&self) -> (n: usize)
        requires
            self.inv(),
        ensures
            n == self.opened().len(),
    {
        proof {
            self.open_ports@.unique_seq_to_set();
        }
        self.open_ports.len()
    }

    /// Cross the barrier and hand out the report: the collected open ports,
    /// sorted ascending, each exactly once, and nothing else. Requires the
    /// scan to be done, so the collection can no longer change.
    pub fn finish(self) -> (r: Vec<u16>)
        requires
            self.inv(),
            self.done(),
        ensures
            sorted_ascending(r@),
            r@.no_duplicates(),
            r@.to_set() == self.opened(),
            forall|p: u16|
                r@.contains(p) ==> self.start_port() <= p <= self.end_port(),
            forall|p: u16| r@.contains(p) <==> self.opened().contains(p),
    {
        let ScanSession { mut open_ports, .. } = self;
        let ghost before = open_ports@;
        sort_ports(&mut open_ports);
        proof {
            before.to_multiset_ensures();
            open_ports@.to_multiset_ensures();
            before.lemma_multiset_has_no_duplicates();
            open_ports@.lemma_multiset_has_no_duplicates_conv();
            assert(open_ports@.to_set() =~= before.to_set()) by {
                assert forall|q: u16| open_ports@.contains(q) implies before.contains(q) by {
                    assert(open_ports@.to_multiset().count(q) > 0);
                }
                assert forall|q: u16| before.contains(q) implies open_ports@.contains(q) by {
                    assert(before.to_multiset().count(q) > 0);
                }
            }
            assert forall|p: u16| open_ports@.contains(p) implies self.start_port() <= p
                <= self.end_port() by {
                assert(self.opened().contains(p));
                assert(self.finished().contains(p));
                assert(self.is_admitted(p));
            }
        }
        open_ports
    }
}

/// The bookkeeping that holds of every session state: counts are consistent
/// (in flight plus completed is exactly what was admitted, which never exceeds
/// the range), the outstanding set is the in-flight probes, every outstanding
/// or opened port lies in the range, and opened ports have finished.
pub proof fn lemma_session_counts(s: ScanSession)
    requires
        s.inv(),
    ensures
        0 <= s.in_flight() <= s.concurrency_limit(),
        0 <= s.completed(),
        s.in_flight() + s.completed() == s.admitted_count(),
        0 <= s.admitted_count() <= s.total(),
        s.outstanding().finite(),
        s.outstanding().len() == s.in_flight(),
        forall|p: u16| s.outstanding().contains(p) ==> s.is_admitted(p),
        forall|p: u16| s.outstanding().contains(p) ==> s.start_port() <= p <= s.end_port(),
        forall|p: u16| s.opened().contains(p) ==> s.finished().contains(p),
{
    assert forall|p: u16| s.outstanding().contains(p) implies s.start_port() <= p
        <= s.end_port() by {
        assert(s.is_admitted(p));
    }
}

/// The concurrency bound holds at every reachable state, not only at chosen
/// instants: any session satisfying the invariant — and every session the
/// library hands out does — has at most `concurrency_limit` admitted,
/// not-yet-completed probes.
pub proof fn lemma_bounded_in_flight(s: ScanSession)
    requires
        s.inv(),
    ensures
        0 <= s.in_flight() <= s.concurrency_limit(),
{
}

/// At the completion barrier the range has been covered exactly: the number
/// of completed probes equals the size of the range, every port of the range
/// has finished its one probe, and no other port was ever touched.
pub proof fn lemma_full_coverage(s: ScanSession)
    requires
        s.inv(),
        s.done(),
    ensures
        s.completed() == s.total(),
        forall|p: u16| s.finished().contains(p) <==> s.start_port() <= p <= s.end_port(),
        forall|p: u16| s.opened().contains(p) ==> s.start_port() <= p <= s.end_port(),
{
    assert(s.outstanding().len() == 0);
    s.outstanding().lemma_len0_is_empty();
    assert forall|p: u16| s.finished().contains(p) implies s.start_port() <= p
        <= s.end_port() by {
        assert(s.is_admitted(p));
    }
    assert forall|p: u16| s.start_port() <= p <= s.end_port() implies s.finished().contains(
        p,
    ) by {
        assert(s.is_admitted(p));
        assert(!s.outstanding().contains(p));
    }
    assert forall|p: u16| s.opened().contains(p) implies s.start_port() <= p <= s.end_port() by {
        assert(s.finished().contains(p));
    }
}

} // verus!
