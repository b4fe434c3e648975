//! Decision logic of the subprocess mediator.
//!
//! A mediation call spawns a helper process with both its input and output
//! streams piped, hands the request payload to a dedicated worker that
//! writes the input stream, drains the output stream on the calling side,
//! waits for the child to exit and joins the worker back.  Writing from a
//! separate worker while the caller drains the output is what keeps a
//! payload larger than a pipe buffer from deadlocking.  The plumbing —
//! spawning, the worker, the blocking reads and writes — is the caller's;
//! this module holds the decision: how the reports of the two concurrent
//! sides and the exit status combine into the collected output or a typed
//! failure.  The result is the logical AND of both sides
//! succeeding: a write-side failure is reported even when the read side
//! collected output, and nothing is retried or downgraded to an empty
//! default.

use vstd::prelude::*;

verus! {

/// Why a mediation call failed.
#[derive(Debug, PartialEq, Eq, Structural, Clone, Copy)]
pub enum MediateError {
    /// The helper executable could not be started at all.
    SpawnFailed,
    /// The worker writing the request payload could not complete the write.
    WriteFailed,
    /// The writer worker could not be joined back.
    JoinFailed,
    /// The helper exited with this nonzero status, and the caller's
    /// contract treats a nonzero exit as failure.
    NonZeroExit(i32),
}

/// What one mediation attempt reported, gathered by the caller at the
/// point where both concurrent sides have come back together.
pub enum MediateReport {
    /// The child could not be spawned; nothing was written or read.
    SpawnError,
    /// The child ran to exit.  `write_ok` says whether the worker wrote
    /// the whole payload (meaningful only when `join_ok` holds),
    /// `join_ok` whether the worker was joined back, `exit_code` how the
    /// child exited, and `output` everything it wrote to its output
    /// stream before exiting.
    Ran { write_ok: bool, join_ok: bool, exit_code: i32, output: Vec<u8> },
}

/// The failure a report maps to, `None` when it counts as success.
pub open spec fn failure_of(report: MediateReport, nonzero_exit_is_failure: bool) -> Option<
    MediateError,
> {
    match report {
        MediateReport::SpawnError => Some(MediateError::SpawnFailed),
        MediateReport::Ran { write_ok, join_ok, exit_code, output } => {
            if !join_ok {
                Some(MediateError::JoinFailed)
            } else if !write_ok {
                Some(MediateError::WriteFailed)
            } else if nonzero_exit_is_failure && exit_code != 0 {
                Some(MediateError::NonZeroExit(exit_code))
            } else {
                None
            }
        },
    }
}

/// Turns the gathered report of one mediation attempt into its result:
/// the collected output bytes only when the child was spawned, the whole
/// payload was written, the worker was joined and the exit status passes
/// the caller's contract; otherwise the typed failure, never a truncated
/// output dressed up as success.
pub fn conclude(report: MediateReport, nonzero_exit_is_failure: bool) -> (r: Result<
    Vec<u8>,
    MediateError,
>)
    ensures
        r is Ok <==> failure_of(report, nonzero_exit_is_failure) is None,
        r matches Err(e) ==> failure_of(report, nonzero_exit_is_failure) == Some(e),
        r matches Ok(out) ==> report matches MediateReport::Ran {
            write_ok,
            join_ok,
            exit_code,
            output,
        } && out == output,
{
    match report {
        MediateReport::SpawnError => Err(MediateError::SpawnFailed),
        MediateReport::Ran { write_ok, join_ok, exit_code, output } => {
            if !join_ok {
                Err(MediateError::JoinFailed)
            } else if !write_ok {
                Err(MediateError::WriteFailed)
            } else if nonzero_exit_is_failure && exit_code != 0 {
                Err(MediateError::NonZeroExit(exit_code))
            } else {
                Ok(output)
            }
        },
    }
}

/// The result is the conjunction of both concurrent sides: output comes
/// back as success only when the write side and the join both succeeded
/// and the exit status passes; a broken write surfaces even though the
/// read side ran to completion on its own.
pub proof fn lemma_conclude_joins_both_sides(
    write_ok: bool,
    join_ok: bool,
    exit_code: i32,
    output: Vec<u8>,
    nonzero_exit_is_failure: bool,
)
    ensures
        failure_of(
            MediateReport::Ran { write_ok, join_ok, exit_code, output },
            nonzero_exit_is_failure,
        ) is None <==> (join_ok && write_ok && (exit_code == 0 || !nonzero_exit_is_failure)),
{
}

/// A spawn failure is surfaced as exactly `SpawnFailed`, never retried and
/// never softened to an empty output.
pub proof fn lemma_spawn_failure_surfaces(nonzero_exit_is_failure: bool)
    ensures
        failure_of(MediateReport::SpawnError, nonzero_exit_is_failure) == Some(
            MediateError::SpawnFailed,
        ),
{
}

} // verus!
