use port_sniffer::ProbeOutcome;
use port_sniffer::ScanSession;

/// Drive a session by hand over `[1, 5]` with limit 2, completing probes out
/// of admission order, and check the counts at every step.
#[test]
fn bounded_window_and_out_of_order_completion() {
    let mut s = ScanSession::new(1, 5, 2);
    assert!(!s.is_done());
    assert_eq!(s.completed_count(), 0);
    assert_eq!(s.in_flight_count(), 0);

    assert!(s.can_admit());
    let p1 = s.admit_next();
    assert_eq!(p1, 1);
    assert!(s.can_admit());
    let p2 = s.admit_next();
    assert_eq!(p2, 2);
    // The window is full: both permits are taken.
    assert!(!s.can_admit());
    assert_eq!(s.in_flight_count(), 2);

    // The later-admitted probe completes first.
    s.complete(p2, ProbeOutcome::Open);
    assert_eq!(s.completed_count(), 1);
    assert_eq!(s.in_flight_count(), 1);
    assert!(s.can_admit());

    s.complete(p1, ProbeOutcome::ClosedOrUnreachable);
    assert_eq!(s.completed_count(), 2);
    assert_eq!(s.in_flight_count(), 0);

    let p3 = s.admit_next();
    let p4 = s.admit_next();
    assert_eq!((p3, p4), (3, 4));
    assert!(!s.can_admit());
    s.complete(p4, ProbeOutcome::Open);
    s.complete(p3, ProbeOutcome::TimedOut);

    let p5 = s.admit_next();
    assert_eq!(p5, 5);
    assert!(!s.is_done());
    s.complete(p5, ProbeOutcome::Open);

    // Every port probed exactly once: five completions for five ports.
    assert!(s.is_done());
    assert_eq!(s.completed_count(), 5);
    assert_eq!(s.open_count(), 3);
    assert_eq!(s.finish(), vec![2, 4, 5]);
}

#[test]
fn empty_range_is_done_at_once() {
    // start > end: nothing to admit; the barrier is already reached.
    let s = ScanSession::new(10, 9, 5);
    assert!(s.is_done());
    assert_eq!(s.completed_count(), 0);
    assert_eq!(s.finish(), Vec::<u16>::new());
}

#[test]
fn single_port_range_takes_one_probe() {
    let mut s = ScanSession::new(443, 443, 10);
    assert!(s.can_admit());
    let p = s.admit_next();
    assert_eq!(p, 443);
    assert!(!s.can_admit());
    s.complete(p, ProbeOutcome::Open);
    assert!(s.is_done());
    assert_eq!(s.completed_count(), 1);
    assert_eq!(s.finish(), vec![443]);
}

#[test]
fn single_port_range_can_come_back_empty() {
    let mut s = ScanSession::new(443, 443, 10);
    let p = s.admit_next();
    s.complete(p, ProbeOutcome::TimedOut);
    assert!(s.is_done());
    assert_eq!(s.completed_count(), 1);
    assert_eq!(s.finish(), Vec::<u16>::new());
}

#[test]
fn timed_out_probe_counts_toward_progress_but_not_report() {
    // One probe neither refuses nor accepts within the timeout: it still
    // completes, and contributes nothing to the open set.
    let mut s = ScanSession::new(1, 3, 3);
    let p1 = s.admit_next();
    let p2 = s.admit_next();
    let p3 = s.admit_next();
    s.complete(p2, ProbeOutcome::TimedOut);
    assert_eq!(s.completed_count(), 1);
    s.complete(p1, ProbeOutcome::Open);
    s.complete(p3, ProbeOutcome::Open);
    assert!(s.is_done());
    assert_eq!(s.completed_count(), 3);
    assert_eq!(s.finish(), vec![1, 3]);
}

#[test]
fn progress_rises_once_per_completion_whatever_the_outcome() {
    let mut s = ScanSession::new(20, 24, 5);
    let outcomes = [
        ProbeOutcome::Open,
        ProbeOutcome::ClosedOrUnreachable,
        ProbeOutcome::TimedOut,
        ProbeOutcome::ClosedOrUnreachable,
        ProbeOutcome::Open,
    ];
    let mut expected: usize = 0;
    for outcome in outcomes {
        let p = s.admit_next();
        s.complete(p, outcome);
        expected += 1;
        assert_eq!(s.completed_count(), expected);
    }
    assert!(s.is_done());
    assert_eq!(s.finish(), vec![20, 24]);
}

#[test]
fn window_never_exceeds_limit_of_one() {
    // Limit 1 degenerates to strictly sequential probing.
    let mut s = ScanSession::new(1, 4, 1);
    let mut seen: Vec<u16> = Vec::new();
    while !s.is_done() {
        assert!(s.can_admit());
        let p = s.admit_next();
        assert!(!s.can_admit());
        assert_eq!(s.in_flight_count(), 1);
        seen.push(p);
        s.complete(p, ProbeOutcome::ClosedOrUnreachable);
    }
    assert_eq!(seen, vec![1, 2, 3, 4]);
}
