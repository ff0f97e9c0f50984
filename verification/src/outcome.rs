//! The ending of a single connection attempt.

use vstd::prelude::*;

verus! {

/// The three ways one probe of a port can end: the handshake completed before
/// the timeout, the transport reported an error (refused, unreachable) before
/// the timeout, or the timeout elapsed first. Only `Open` makes the port part
/// of the final report; the other two are equivalent normal outcomes.
#[derive(Clone, Copy, Debug, PartialEq, Eq, Structural)]
pub enum ProbeOutcome {
    Open,
    ClosedOrUnreachable,
    TimedOut,
}

impl ProbeOutcome {
    /// Whether this outcome puts its port into the report.
    pub open spec fn spec_is_open(self) -> bool {
        self is Open
    }

    /// Executable test of `spec_is_open`.
    pub fn is_open(&self) -> (r: bool)
        ensures
            r == self.spec_is_open(),
    {
        match self {
            ProbeOutcome::Open => true,
            _ => false,
        }
    }
}

/// How a raw attempt ending maps to an outcome: a timeout that fired first
/// wins; otherwise the transport either connected or reported an error.
pub open spec fn spec_classify(timed_out: bool, connected: bool) -> ProbeOutcome {
    if timed_out {
        ProbeOutcome::TimedOut
    } else if connected {
        ProbeOutcome::Open
    } else {
        ProbeOutcome::ClosedOrUnreachable
    }
}

/// Turn the two facts the transport layer hands back — did the timeout elapse
/// first, and if not, did the handshake complete — into a probe outcome.
pub fn classify_attempt(timed_out: bool, connected: bool) -> (r: ProbeOutcome)
    ensures
        r == spec_classify(timed_out, connected),
{
    if timed_out {
        ProbeOutcome::TimedOut
    } else if connected {
        ProbeOutcome::Open
    } else {
        ProbeOutcome::ClosedOrUnreachable
    }
}

} // verus!
