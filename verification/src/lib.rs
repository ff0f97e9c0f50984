//! A verified model of a bounded-concurrency TCP port scan.
//!
//! The library holds the scan's logic: validating the operator's input,
//! classifying how a single connection attempt ended, the dispatcher /
//! collector state machine that admits at most a fixed number of probes at a
//! time and accumulates the ports found open, and the final ascending sort of
//! the report. The network itself — attempting the TCP connections — is left
//! to the surrounding program, which feeds each probe's ending back into the
//! state machine as a plain value.

mod config;
mod driver;
mod outcome;
mod session;
mod sort;

pub use config::validate_concurrency;
pub use config::validate_port;
pub use config::ConfigError;
pub use config::ScanConfig;
pub use config::MAX_CONCURRENCY;
pub use config::MAX_PORT;
pub use config::MIN_CONCURRENCY;
pub use config::MIN_PORT;
pub use driver::lemma_scan_idempotent;
pub use driver::range_len;
pub use driver::run_simulated_scan;
pub use config::PROBE_TIMEOUT_SECS;
pub use outcome::classify_attempt;
pub use outcome::ProbeOutcome;
pub use session::lemma_bounded_in_flight;
pub use session::lemma_full_coverage;
pub use session::ScanSession;
pub use sort::lemma_sorted_unique_seqs_equal;
pub use sort::sort_ports;
pub use sort::sorted_ascending;
