use port_sniffer::validate_concurrency;
use port_sniffer::validate_port;
use port_sniffer::ConfigError;
use port_sniffer::ScanConfig;

#[test]
fn validate_port_accepts_bounds() {
    assert_eq!(validate_port(1), Ok(1));
    assert_eq!(validate_port(22), Ok(22));
    assert_eq!(validate_port(65535), Ok(65535));
}

#[test]
fn validate_port_rejects_zero() {
    assert_eq!(validate_port(0), Err(ConfigError::PortOutOfRange));
}

#[test]
fn validate_concurrency_accepts_bounds() {
    assert_eq!(validate_concurrency(1), Ok(1));
    assert_eq!(validate_concurrency(50), Ok(50));
    assert_eq!(validate_concurrency(100), Ok(100));
}

#[test]
fn validate_concurrency_rejects_outside() {
    assert_eq!(validate_concurrency(0), Err(ConfigError::ConcurrencyOutOfRange));
    assert_eq!(validate_concurrency(101), Err(ConfigError::ConcurrencyOutOfRange));
}

#[test]
fn config_accepts_valid_values() {
    let c = ScanConfig::new(1, 1024, 50).unwrap();
    assert_eq!(c.start, 1);
    assert_eq!(c.end, 1024);
    assert_eq!(c.concurrency, 50);
    assert_eq!(c.total_ports(), 1024);
}

#[test]
fn config_rejects_start_after_end() {
    assert_eq!(ScanConfig::new(100, 1, 10), Err(ConfigError::StartAfterEnd));
}

#[test]
fn config_rejects_port_zero() {
    assert_eq!(ScanConfig::new(0, 10, 10), Err(ConfigError::PortOutOfRange));
    assert_eq!(ScanConfig::new(1, 0, 10), Err(ConfigError::PortOutOfRange));
}

#[test]
fn config_checks_concurrency_first() {
    // Both the concurrency and the range are bad: the concurrency bound is
    // the first check, as it is the first argument the original parses.
    assert_eq!(ScanConfig::new(0, 0, 0), Err(ConfigError::ConcurrencyOutOfRange));
}

#[test]
fn config_single_port_range() {
    let c = ScanConfig::new(443, 443, 1).unwrap();
    assert_eq!(c.total_ports(), 1);
}

#[test]
fn config_full_range_total() {
    let c = ScanConfig::new(1, 65535, 100).unwrap();
    assert_eq!(c.total_ports(), 65535);
}
