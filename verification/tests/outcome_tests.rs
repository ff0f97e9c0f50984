use port_sniffer::classify_attempt;
use port_sniffer::ProbeOutcome;

#[test]
fn timeout_wins_over_everything() {
    assert_eq!(classify_attempt(true, false), ProbeOutcome::TimedOut);
    // A timeout that fired first means no handshake completed.
    assert_eq!(classify_attempt(true, true), ProbeOutcome::TimedOut);
}

#[test]
fn connected_before_timeout_is_open() {
    assert_eq!(classify_attempt(false, true), ProbeOutcome::Open);
}

#[test]
fn refused_before_timeout_is_closed() {
    assert_eq!(classify_attempt(false, false), ProbeOutcome::ClosedOrUnreachable);
}

#[test]
fn only_open_is_open() {
    assert!(ProbeOutcome::Open.is_open());
    assert!(!ProbeOutcome::ClosedOrUnreachable.is_open());
    assert!(!ProbeOutcome::TimedOut.is_open());
}
