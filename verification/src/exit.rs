//! Process exit codes derived from a verdict.
use vstd::prelude::*;
use crate::verdict::{FailOn, Verdict, VerdictStatus};

verus! {

/// Exit codes for the command line: 0 success, 1 tool error, 2 policy failure.
#[derive(Clone, Copy, Debug, PartialEq, Eq, Structural)]
pub enum ExitCode {
    /// Success (pass, warn or skip verdict).
    Success,
    /// Tool/runtime error (invalid input, parse error).
    ToolError,
    /// Policy failure (fail verdict).
    PolicyFailure,
}

impl ExitCode {
    /// The process exit status of this code.
    pub open spec fn code(self) -> i32 {
        match self {
            ExitCode::Success => 0,
            ExitCode::ToolError => 1,
            ExitCode::PolicyFailure => 2,
        }
    }

    /// Maps a verdict to an exit code: a failing status gives a policy
    /// failure, any other status success. The status already accounts for
    /// the fail-on policy, so the policy argument changes nothing.
    pub fn from_verdict(verdict: &Verdict, _fail_on: FailOn) -> (r: Self)
        ensures
            r == (if verdict.status == VerdictStatus::Fail {
                ExitCode::PolicyFailure
            } else {
                ExitCode::Success
            }),
    {
        match verdict.status {
            VerdictStatus::Pass | VerdictStatus::Warn | VerdictStatus::Skip => ExitCode::Success,
            VerdictStatus::Fail => ExitCode::PolicyFailure,
        }
    }

    /// Convert to process exit code.
    pub fn as_i32(self) -> (r: i32)
        ensures
            r == self.code(),
    {
        match self {
            ExitCode::Success => 0,
            ExitCode::ToolError => 1,
            ExitCode::PolicyFailure => 2,
        }
    }
}

impl From<ExitCode> for i32 {
    fn from(code: ExitCode) -> (r: i32) {
        code.as_i32()
    }
}

impl vstd::std_specs::convert::FromSpecImpl<ExitCode> for i32 {
    open spec fn obeys_from_spec() -> bool {
        true
    }

    open spec fn from_spec(code: ExitCode) -> i32 {
        code.code()
    }
}

/// The exit code is non-zero exactly for a failing verdict, whatever the fail-on policy.
pub proof fn law_exit_nonzero_iff_fail(status: VerdictStatus)
    ensures
        (if status == VerdictStatus::Fail {
            ExitCode::PolicyFailure
        } else {
            ExitCode::Success
        }).code() != 0 <==> status == VerdictStatus::Fail,
{
}

} // verus!
