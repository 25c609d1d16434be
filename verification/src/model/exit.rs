//! Wrapper exit codes for CLI callers, so a shell can distinguish "the
//! command failed" from "the command was stopped". The precise reason is
//! always in the JSON form.

use crate::model::run::RunOutcome;
use vstd::prelude::*;

verus! {

pub const TIMED_OUT: i32 = 124;

pub const CANCELLED: i32 = 130;

pub const SPAWN_FAILED: i32 = 125;

/// A resource limit stopped the run. Distinct from the others on purpose:
/// a caller must not mistake "stopped for memory" for a spawn failure or a
/// timeout.
pub const RESOURCE_LIMIT: i32 = 137;

/// The exit code that a finished run is reported with: the command's own, or
/// the one that says how the run was stopped.
pub open spec fn code(
    outcome: Option<RunOutcome>,
    exit_code: Option<i32>,
    signal: Option<i32>,
) -> int {
    match outcome {
        Some(RunOutcome::Exited) => match exit_code {
            Some(c) => c as int,
            None => 0,
        },
        Some(RunOutcome::Signaled) => {
            let n = 128 + match signal {
                Some(s) => s as int,
                None => 0,
            };
            if n <= i32::MAX {
                n
            } else {
                i32::MAX as int
            }
        },
        Some(RunOutcome::TimedOut) => TIMED_OUT as int,
        Some(RunOutcome::Cancelled) => CANCELLED as int,
        Some(RunOutcome::ResourceLimit) => RESOURCE_LIMIT as int,
        _ => SPAWN_FAILED as int,
    }
}

/// The exit code for callers.
pub fn exit_code_of(
    outcome: Option<RunOutcome>,
    exit_code: Option<i32>,
    signal: Option<i32>,
) -> (r: i32)
    ensures
        r == code(outcome, exit_code, signal),
{
    match outcome {
        Some(RunOutcome::Exited) => match exit_code {
            Some(c) => c,
            None => 0,
        },
        Some(RunOutcome::Signaled) => {
            let s: i32 = match signal {
                Some(s) => s,
                None => 0,
            };
            if s <= i32::MAX - 128 {
                128 + s
            } else {
                i32::MAX
            }
        },
        Some(RunOutcome::TimedOut) => TIMED_OUT,
        Some(RunOutcome::Cancelled) => CANCELLED,
        Some(RunOutcome::ResourceLimit) => RESOURCE_LIMIT,
        _ => SPAWN_FAILED,
    }
}

/// A caller can tell how a run was stopped: the codes for a timeout, a
/// cancel, a failure to spawn and a resource limit all differ.
pub proof fn stop_codes_differ(exit_code: Option<i32>, signal: Option<i32>)
    ensures
        code(Some(RunOutcome::TimedOut), exit_code, signal) != code(
            Some(RunOutcome::Cancelled),
            exit_code,
            signal,
        ),
        code(Some(RunOutcome::TimedOut), exit_code, signal) != code(
            Some(RunOutcome::SpawnFailed),
            exit_code,
            signal,
        ),
        code(Some(RunOutcome::TimedOut), exit_code, signal) != code(
            Some(RunOutcome::ResourceLimit),
            exit_code,
            signal,
        ),
        code(Some(RunOutcome::Cancelled), exit_code, signal) != code(
            Some(RunOutcome::SpawnFailed),
            exit_code,
            signal,
        ),
        code(Some(RunOutcome::Cancelled), exit_code, signal) != code(
            Some(RunOutcome::ResourceLimit),
            exit_code,
            signal,
        ),
        code(Some(RunOutcome::SpawnFailed), exit_code, signal) != code(
            Some(RunOutcome::ResourceLimit),
            exit_code,
            signal,
        ),
{
}

/// The code that a shell sees: the command's own where it ended by itself, 128
/// and the signal where a signal ended it, 124 after a timeout, 130 after a
/// cancel, 137 for a resource limit, and 125 for everything that never ran
/// to an end.
pub proof fn a_shell_sees_how_it_ended(
    outcome: Option<RunOutcome>,
    exit_code: Option<i32>,
    signal: Option<i32>,
)
    ensures
        outcome == Some(RunOutcome::Exited) && exit_code is Some ==> code(
            outcome,
            exit_code,
            signal,
        ) == exit_code->0,
        outcome == Some(RunOutcome::Exited) && exit_code is None ==> code(
            outcome,
            exit_code,
            signal,
        ) == 0,
        outcome == Some(RunOutcome::Signaled) && signal is Some && signal->0 <= i32::MAX - 128
            ==> code(outcome, exit_code, signal) == 128 + signal->0,
        outcome == Some(RunOutcome::Signaled) && signal is Some && signal->0 > i32::MAX - 128
            ==> code(outcome, exit_code, signal) == i32::MAX,
        outcome == Some(RunOutcome::Signaled) && signal is None ==> code(
            outcome,
            exit_code,
            signal,
        ) == 128,
        outcome == Some(RunOutcome::TimedOut) ==> code(outcome, exit_code, signal) == 124,
        outcome == Some(RunOutcome::Cancelled) ==> code(outcome, exit_code, signal) == 130,
        outcome == Some(RunOutcome::ResourceLimit) ==> code(outcome, exit_code, signal) == 137,
        outcome is None ==> code(outcome, exit_code, signal) == 125,
        outcome is Some && outcome->0 !is Exited && outcome->0 !is Signaled && outcome->0
            !is TimedOut && outcome->0 !is Cancelled && outcome->0 !is ResourceLimit ==> code(
            outcome,
            exit_code,
            signal,
        ) == 125,
{
}

} // verus!
