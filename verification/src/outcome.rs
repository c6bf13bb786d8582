//! How a run ends, and the status that the process leaves with.

use vstd::prelude::*;

verus! {

/// How a run ended. Every end but the first is fatal: nothing is retried and
/// no later step is taken.
#[derive(Clone, Copy, Debug, PartialEq, Eq, Structural)]
pub enum RunEnd {
    /// Every tier was built, audited and installed.
    Completed,
    /// The registry could not be reached or answered with what cannot be read.
    ResolutionFailure,
    /// Needed targets are unknown upstream; nothing was built.
    PackagesNotFound,
    /// The recipe's build failed.
    BuildFailure,
    /// An artifact could not be audited, so it must not be installed.
    AuditRefused,
    /// The operator aborted an audit.
    AuditAborted,
    /// A working directory could not be made, emptied or filled, or the
    /// package manager refused an install.
    Failed,
}

/// The status that the process exits with.
pub open spec fn spec_exit_status(end: RunEnd) -> int {
    match end {
        RunEnd::Completed => 0,
        RunEnd::ResolutionFailure => 101,
        RunEnd::PackagesNotFound => 1,
        RunEnd::BuildFailure => 101,
        RunEnd::AuditRefused => 1,
        RunEnd::AuditAborted => -1,
        RunEnd::Failed => 101,
    }
}

/// The exit status for the end of a run: zero for a completed run alone, 1
/// for unknown targets, and a status of its own for an abort by the operator.
pub fn exit_status(end: RunEnd) -> (r: i32)
    ensures
        r == spec_exit_status(end),
        r == 0 <==> end == RunEnd::Completed,
        end == RunEnd::PackagesNotFound ==> r == 1,
        r == -1 <==> end == RunEnd::AuditAborted,
{
    match end {
        RunEnd::Completed => 0,
        RunEnd::ResolutionFailure => 101,
        RunEnd::PackagesNotFound => 1,
        RunEnd::BuildFailure => 101,
        RunEnd::AuditRefused => 1,
        RunEnd::AuditAborted => -1,
        RunEnd::Failed => 101,
    }
}

} // verus!
