//! The outcome of a run: verdict status, finding counts and the fail-on policy.
use vstd::prelude::*;

verus! {

/// Overall status of a run.
#[derive(Clone, Copy, Debug, PartialEq, Eq, Hash, Structural)]
pub enum VerdictStatus {
    /// No blocking finding.
    Pass,
    /// Findings below the fail threshold.
    Warn,
    /// Findings at or above the fail threshold.
    Fail,
    /// Nothing was checked.
    Skip,
}

/// Finding counts by canonical severity.
#[derive(Clone, Copy, Debug, PartialEq, Eq, Structural)]
pub struct Counts {
    /// Informational findings.
    pub info: u32,
    /// Warnings.
    pub warn: u32,
    /// Errors.
    pub error: u32,
}

impl Default for Counts {
    fn default() -> (r: Self)
        ensures
            r == (Counts { info: 0, warn: 0, error: 0 }),
    {
        Counts { info: 0, warn: 0, error: 0 }
    }
}

/// The severity at which a run fails.
#[derive(Clone, Copy, Debug, PartialEq, Eq, Hash, Structural)]
pub enum FailOn {
    /// Fail on errors.
    Error,
    /// Fail on warnings and errors.
    Warn,
    /// Never fail.
    Never,
}

/// The verdict of a run.
#[derive(Clone, Debug, PartialEq, Eq)]
pub struct Verdict {
    /// Overall status.
    pub status: VerdictStatus,
    /// Finding counts.
    pub counts: Counts,
    /// Human-readable reasons for the status.
    pub reasons: Vec<String>,
}

} // verus!
