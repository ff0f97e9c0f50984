use port_sniffer::run_simulated_scan;
use port_sniffer::sort_ports;
use port_sniffer::ProbeOutcome;

/// Endings for the range `[start, end]` where exactly the ports in `open`
/// accept the connection and every other probe is refused.
fn endings_with_open(start: u16, end: u16, open: &[u16]) -> Vec<ProbeOutcome> {
    let mut v: Vec<ProbeOutcome> = Vec::new();
    for p in start..=end {
        if open.contains(&p) {
            v.push(ProbeOutcome::Open);
        } else {
            v.push(ProbeOutcome::ClosedOrUnreachable);
        }
    }
    v
}

#[test]
fn two_open_ports_out_of_a_hundred() {
    // Ports 22 and 80 open in [1, 100] at limit 10: the report is [22, 80].
    let endings = endings_with_open(1, 100, &[22, 80]);
    let r = run_simulated_scan(1, 100, 10, &endings);
    assert_eq!(r, vec![22, 80]);
}

#[test]
fn no_open_ports_gives_empty_report() {
    // No port open in [1, 10] at limit 5: the report is empty.
    let endings = endings_with_open(1, 10, &[]);
    let r = run_simulated_scan(1, 10, 5, &endings);
    assert!(r.is_empty());
}

#[test]
fn repeated_runs_report_the_same_list() {
    // A target whose open set does not change gives the same sorted report
    // on every run.
    let endings = endings_with_open(1, 200, &[25, 110, 3]);
    let first = run_simulated_scan(1, 200, 16, &endings);
    let second = run_simulated_scan(1, 200, 16, &endings);
    assert_eq!(first, second);
    assert_eq!(first, vec![3, 25, 110]);
}

#[test]
fn sequential_scan_matches_concurrent_scan() {
    // Limit 1 probes fully sequentially; the report matches any wider limit.
    let endings = endings_with_open(10, 60, &[13, 42, 60]);
    let sequential = run_simulated_scan(10, 60, 1, &endings);
    let concurrent = run_simulated_scan(10, 60, 37, &endings);
    let full_width = run_simulated_scan(10, 60, 100, &endings);
    assert_eq!(sequential, vec![13, 42, 60]);
    assert_eq!(sequential, concurrent);
    assert_eq!(sequential, full_width);
}

#[test]
fn single_port_open() {
    let endings = endings_with_open(8080, 8080, &[8080]);
    let r = run_simulated_scan(8080, 8080, 1, &endings);
    assert_eq!(r, vec![8080]);
}

#[test]
fn single_port_closed() {
    let endings = endings_with_open(8080, 8080, &[]);
    let r = run_simulated_scan(8080, 8080, 100, &endings);
    assert!(r.is_empty());
}

#[test]
fn timeouts_are_not_reported_open() {
    // Port 2 times out, port 3 is open, port 1 is refused.
    let endings = vec![
        ProbeOutcome::ClosedOrUnreachable,
        ProbeOutcome::TimedOut,
        ProbeOutcome::Open,
    ];
    let r = run_simulated_scan(1, 3, 2, &endings);
    assert_eq!(r, vec![3]);
}

#[test]
fn all_ports_open_come_back_ascending() {
    let endings = endings_with_open(990, 1005, &(990..=1005).collect::<Vec<u16>>());
    let r = run_simulated_scan(990, 1005, 4, &endings);
    assert_eq!(r, (990..=1005).collect::<Vec<u16>>());
}

#[test]
fn sort_orders_ascending_and_keeps_entries() {
    let mut v: Vec<u16> = vec![8080, 22, 443, 22, 1];
    sort_ports(&mut v);
    assert_eq!(v, vec![1, 22, 22, 443, 8080]);
}

#[test]
fn sort_of_empty_is_empty() {
    let mut v: Vec<u16> = Vec::new();
    sort_ports(&mut v);
    assert!(v.is_empty());
}
