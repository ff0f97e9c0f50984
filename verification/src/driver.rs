//! A verified drive of the whole dispatch loop against a given prober.
//!
//! The real scan probes the network, so its loop lives outside the library
//! and feeds endings back through `ScanSession::complete`. This module runs
//! the same loop shape against a table of endings — one `ProbeOutcome` per
//! port of the range, the test double standing in for the network — and
//! proves what the loop guarantees: every port probed exactly once, waves of
//! admissions never wider than the limit, and a final report that holds
//! exactly the ports whose probe ended `Open`, ascending, once each.
//!
//! Probes are completed in the reverse of their admission order, so the proof
//! covers completions arriving out of order; and the report is pinned to the
//! endings table alone, so it is the same for every concurrency limit — the
//! limit `1` sequential run included — and the same on every repetition.

use vstd::prelude::*;

use crate::outcome::ProbeOutcome;
use crate::session::lemma_full_coverage;
use crate::session::lemma_session_counts;
use crate::session::ScanSession;
use crate::sort::lemma_sorted_unique_seqs_equal;
use crate::sort::sorted_ascending;

verus! {

/// How many ports the inclusive range `[start, end]` holds; zero when
/// `start > end`.
pub open spec fn range_len(start: u16, end: u16) -> int {
    if start <= end {
        end - start + 1
    } else {
        0
    }
}

/// What the collected set looks like mid-scan: a port is held open exactly
/// when its probe has finished, it lies in the range, and its ending is
/// `Open`.
spec fn opened_matches_endings(s: ScanSession, start: u16, end: u16, endings: Seq<
    ProbeOutcome,
>) -> bool {
    forall|p: u16|
        s.opened().contains(p) <==> (s.finished().contains(p) && start <= p <= end && endings[p
            - start].spec_is_open())
}

/// Run a whole scan against a simulated target: `endings[p - start]` is how
/// the probe of port `p` ends. The report holds exactly the ports of the
/// range whose probe ended `Open`, each once, in ascending order — whatever
/// the concurrency limit, so a run at limit `1` matches a run at any other.
pub fn run_simulated_scan(start: u16, end: u16, limit: usize, endings: &Vec<ProbeOutcome>) -> (r:
    Vec<u16>)
    requires
        1 <= start,
        1 <= limit <= 100,
        endings@.len() == range_len(start, end),
    ensures
        sorted_ascending(r@),
        r@.no_duplicates(),
        forall|p: u16|
            r@.contains(p) <==> (start <= p <= end && endings@[p - start].spec_is_open()),
{
    let mut session = ScanSession::new(start, end, limit);
    while !session.is_done()
        invariant
            session.inv(),
            session.start_port() == start,
            session.end_port() == end,
            session.concurrency_limit() == limit,
            1 <= limit <= 100,
            endings@.len() == session.total(),
            session.in_flight() == 0,
            opened_matches_endings(session, start, end, endings@),
        decreases session.total() - session.completed(),
    {
        let ghost c0 = session.completed();
        let ghost a0 = session.admitted_count();
        proof {
            lemma_session_counts(session);
            assert(a0 < session.total());
        }
        let mut wave: Vec<u16> = Vec::new();
        proof {
            assert(wave@.to_set() =~= session.outstanding()) by {
                lemma_session_counts(session);
                session.outstanding().lemma_len0_is_empty();
            }
        }
        while session.can_admit()
            invariant
                session.inv(),
                session.start_port() == start,
                session.end_port() == end,
                session.concurrency_limit() == limit,
                endings@.len() == session.total(),
                a0 < session.total(),
                session.admitted_count() == a0 + wave@.len(),
                session.completed() == c0,
                wave@.no_duplicates(),
                wave@.to_set() == session.outstanding(),
                forall|p: u16| wave@.contains(p) ==> start <= p <= end,
                opened_matches_endings(session, start, end, endings@),
            decreases session.total() - session.admitted_count(),
        {
            let ghost wave0 = wave@;
            let ghost pre = session;
            let port = session.admit_next();
            wave.push(port);
            proof {
                assert(!pre.outstanding().contains(port)) by {
                    lemma_session_counts(pre);
                    if pre.outstanding().contains(port) {
                        assert(pre.is_admitted(port));
                    }
                }
                assert(!wave0.contains(port)) by {
                    assert(wave0.to_set() == pre.outstanding());
                }
                wave0.lemma_push_to_set_commute(port);
                assert(wave@.no_duplicates()) by {
                    assert(forall|i: int| 0 <= i < wave0.len() ==> wave@[i] == wave0[i]);
                    assert(wave@[wave0.len() as int] == port);
                }
                assert forall|p: u16| wave@.contains(p) implies start <= p <= end by {
                    let i = choose|i: int| 0 <= i < wave@.len() && wave@[i] == p;
                    if i < wave0.len() {
                        assert(wave0[i] == p);
                        assert(wave0.contains(p));
                    } else {
                        assert(p == port);
                    }
                }
            }
        }
        proof {
            assert(wave@.len() > 0) by {
                if wave@.len() == 0 {
                    lemma_session_counts(session);
                    assert(wave@.to_set() =~= Set::<u16>::empty());
                    assert(session.outstanding().len() == 0);
                    assert(session.in_flight() == 0);
                    assert(session.admitted_count() == a0);
                }
            }
        }
        let ghost b0 = wave@.len();
        while wave.len() > 0
            invariant
                session.inv(),
                session.start_port() == start,
                session.end_port() == end,
                session.concurrency_limit() == limit,
                endings@.len() == session.total(),
                session.completed() == c0 + b0 - wave@.len(),
                wave@.no_duplicates(),
                wave@.to_set() == session.outstanding(),
                forall|p: u16| wave@.contains(p) ==> start <= p <= end,
                opened_matches_endings(session, start, end, endings@),
            decreases wave@.len(),
        {
            let ghost wave0 = wave@;
            let ghost pre = session;
            let port_opt = wave.pop();
            let port = port_opt.unwrap();
            proof {
                assert(wave0[wave0.len() - 1] == port);
                assert(wave0.contains(port));
                assert(wave0.to_set().contains(port));
                assert(pre.outstanding().contains(port));
                assert(start <= port <= end);
                assert(port - start < endings@.len());
            }
            session.complete(port, endings[(port - start) as usize]);
            proof {
                assert(wave@.to_set() =~= session.outstanding()) by {
                    assert forall|q: u16| wave@.to_set().contains(q) implies session.outstanding()
                        .contains(q) by {
                        assert(wave@.contains(q));
                        let i = choose|i: int| 0 <= i < wave@.len() && wave@[i] == q;
                        assert(wave0[i] == q);
                        assert(wave0.contains(q));
                        assert(q != port) by {
                            if q == port {
                                assert(wave0[i] == wave0[wave0.len() - 1]);
                                assert(i != wave0.len() - 1);
                            }
                        }
                        assert(pre.outstanding().contains(q));
                    }
                    assert forall|q: u16|
                        session.outstanding().contains(q) implies wave@.to_set().contains(q) by {
                        assert(pre.outstanding().contains(q));
                        assert(q != port);
                        assert(wave0.to_set().contains(q));
                        assert(wave0.contains(q));
                        let i = choose|i: int| 0 <= i < wave0.len() && wave0[i] == q;
                        assert(i < wave0.len() - 1) by {
                            assert(wave0[wave0.len() - 1] == port);
                        }
                        assert(wave@[i] == q);
                        assert(wave@.contains(q));
                    }
                }
                assert forall|p: u16| wave@.contains(p) implies start <= p <= end by {
                    let i = choose|i: int| 0 <= i < wave@.len() && wave@[i] == p;
                    assert(wave0[i] == p);
                    assert(wave0.contains(p));
                }
            }
        }
        proof {
            lemma_session_counts(session);
            assert(session.in_flight() == 0) by {
                assert(wave@.to_set() =~= Set::<u16>::empty());
                assert(session.outstanding().len() == 0);
            }
            assert(session.completed() == c0 + b0);
            assert(session.completed() <= session.total());
        }
    }
    proof {
        lemma_full_coverage(session);
    }
    let ghost s = session;
    let r = session.finish();
    proof {
        assert forall|p: u16|
            r@.contains(p) <==> (start <= p <= end && endings@[p - start].spec_is_open()) by {
            assert(r@.contains(p) <==> s.opened().contains(p));
            assert(s.finished().contains(p) <==> start <= p <= end);
        }
    }
    r
}

/// Scanning is idempotent and limit-independent: any two reports whose
/// entries are pinned to the same endings table over the same range — as
/// every report of `run_simulated_scan` is, whatever its concurrency limit
/// and however its completions interleaved — are the same sequence.
pub proof fn lemma_scan_idempotent(
    r1: Seq<u16>,
    r2: Seq<u16>,
    start: u16,
    end: u16,
    endings: Seq<ProbeOutcome>,
)
    requires
        sorted_ascending(r1),
        r1.no_duplicates(),
        forall|p: u16|
            r1.contains(p) <==> (start <= p <= end && endings[p - start].spec_is_open()),
        sorted_ascending(r2),
        r2.no_duplicates(),
        forall|p: u16|
            r2.contains(p) <==> (start <= p <= end && endings[p - start].spec_is_open()),
    ensures
        r1 == r2,
{
    lemma_sorted_unique_seqs_equal(r1, r2);
}

} // verus!
