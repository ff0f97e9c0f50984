//! Validated scan parameters.
//!
//! The operator supplies a target port range and a concurrency limit. The
//! range is inclusive, both ends in `[1, 65535]` with start not past end, and
//! the limit lies in `[1, 100]`. A `ScanConfig` can only be built from values
//! that pass those checks; everything downstream relies on its validity.

use vstd::prelude::*;

verus! {

/// Smallest valid TCP port.
pub const MIN_PORT: u16 = 1;

/// Largest valid TCP port.
pub const MAX_PORT: u16 = 65535;

/// Smallest accepted concurrency limit.
pub const MIN_CONCURRENCY: usize = 1;

/// Largest accepted concurrency limit.
pub const MAX_CONCURRENCY: usize = 100;

/// Seconds a single connection attempt may take before it counts as timed out.
pub const PROBE_TIMEOUT_SECS: u64 = 3;

/// Why a set of scan parameters was rejected.
#[derive(Clone, Copy, Debug, PartialEq, Eq, Structural)]
pub enum ConfigError {
    /// A port lies outside `[MIN_PORT, MAX_PORT]` (for a 16-bit value, only 0).
    PortOutOfRange,
    /// The start port is greater than the end port.
    StartAfterEnd,
    /// The concurrency limit lies outside `[MIN_CONCURRENCY, MAX_CONCURRENCY]`.
    ConcurrencyOutOfRange,
}

/// Whether `p` is a usable TCP port number.
pub open spec fn valid_port(p: u16) -> bool {
    MIN_PORT <= p <= MAX_PORT
}

/// Whether `c` is an accepted concurrency limit.
pub open spec fn valid_concurrency(c: usize) -> bool {
    MIN_CONCURRENCY <= c <= MAX_CONCURRENCY
}

/// Check one port value, as the argument layer does for each end of the range.
pub fn validate_port(p: u16) -> (r: Result<u16, ConfigError>)
    ensures
        r is Ok <==> valid_port(p),
        r is Ok ==> r->Ok_0 == p,
        r is Err ==> r->Err_0 == ConfigError::PortOutOfRange,
{
    if p < MIN_PORT || p > MAX_PORT {
        Err(ConfigError::PortOutOfRange)
    } else {
        Ok(p)
    }
}

/// Check one concurrency value, as the argument layer does.
pub fn validate_concurrency(c: usize) -> (r: Result<usize, ConfigError>)
    ensures
        r is Ok <==> valid_concurrency(c),
        r is Ok ==> r->Ok_0 == c,
        r is Err ==> r->Err_0 == ConfigError::ConcurrencyOutOfRange,
{
    if c < MIN_CONCURRENCY || c > MAX_CONCURRENCY {
        Err(ConfigError::ConcurrencyOutOfRange)
    } else {
        Ok(c)
    }
}

/// The validated parameters of one scan: an inclusive port range and a
/// concurrency limit. The target address never enters the scan's logic and is
/// kept by the caller.
#[derive(Clone, Copy, Debug, PartialEq, Eq, Structural)]
pub struct ScanConfig {
    /// First port of the inclusive range.
    pub start: u16,
    /// Last port of the inclusive range.
    pub end: u16,
    /// Most probes that may be in flight at one instant.
    pub concurrency: usize,
}

impl ScanConfig {
    /// What every built `ScanConfig` satisfies.
    pub open spec fn valid(self) -> bool {
        &&& valid_port(self.start)
        &&& valid_port(self.end)
        &&& self.start <= self.end
        &&& valid_concurrency(self.concurrency)
    }

    /// How many ports the range holds.
    pub open spec fn spec_total(self) -> int {
        self.end - self.start + 1
    }

    /// Build a config, rejecting each invalid value with the error the
    /// argument layer reports for it: the concurrency bound is checked first,
    /// then each port, then the order of the range.
    pub fn new(start: u16, end: u16, concurrency: usize) -> (r: Result<ScanConfig, ConfigError>)
        ensures
            r is Ok <==> (valid_port(start) && valid_port(end) && start <= end
                && valid_concurrency(concurrency)),
            r is Ok ==> r->Ok_0 == (ScanConfig { start, end, concurrency }),
            r is Ok ==> r->Ok_0.valid(),
            !valid_concurrency(concurrency) ==> r == Result::<ScanConfig, ConfigError>::Err(
                ConfigError::ConcurrencyOutOfRange,
            ),
            valid_concurrency(concurrency) && (!valid_port(start) || !valid_port(end)) ==> r
                == Result::<ScanConfig, ConfigError>::Err(ConfigError::PortOutOfRange),
            valid_concurrency(concurrency) && valid_port(start) && valid_port(end) && start > end
                ==> r == Result::<ScanConfig, ConfigError>::Err(ConfigError::StartAfterEnd),
    {
        if concurrency < MIN_CONCURRENCY || concurrency > MAX_CONCURRENCY {
            Err(ConfigError::ConcurrencyOutOfRange)
        } else if start < MIN_PORT || start > MAX_PORT || end < MIN_PORT || end > MAX_PORT {
            Err(ConfigError::PortOutOfRange)
        } else if start > end {
            Err(ConfigError::StartAfterEnd)
        } else {
            Ok(ScanConfig { start, end, concurrency })
        }
    }

    /// How many probes the scan will make; this is the total the progress
    /// reporter is told at scan start.
    pub fn total_ports(&self) -> (n: u64)
        requires
            self.valid(),
        ensures
            n == self.spec_total(),
    {
        (self.end - self.start) as u64 + 1
    }
}

} // verus!
