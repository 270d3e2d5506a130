//! Decisions of the scan-worker run: when progress is reported, and
//! whether the worker's exit code agrees with its stream's terminal record.

use crate::graph::DirectoryGraph;
use crate::model::RunOutcome;
use vstd::prelude::*;

verus! {

/// The exit code a worker ends with for a run outcome.
pub open spec fn expected_exit_code(o: RunOutcome) -> u32 {
    match o {
        RunOutcome::Finished => 0,
        RunOutcome::Cancelled => 3,
        RunOutcome::Failed => 1,
    }
}

/// The exit code a worker ends with for a run outcome (see `expected_exit_code`).
pub fn expected_worker_exit_code(o: RunOutcome) -> (r: u32)
    ensures
        r == expected_exit_code(o),
{
    match o {
        RunOutcome::Finished => 0,
        RunOutcome::Cancelled => 3,
        RunOutcome::Failed => 1,
    }
}

/// A worker whose exit code disagrees with its terminal record.
#[derive(Debug, Clone, Copy, PartialEq, Eq)]
pub struct WorkerExitInconsistent {
    pub exit_code: u32,
    pub terminal_outcome: Option<RunOutcome>,
}

/// Accepts the graph of a worker only when the worker's exit code is the
/// one its terminal record's outcome calls for.
pub fn check_worker_exit(graph: DirectoryGraph, exit_code: u32) -> (r: Result<
    DirectoryGraph,
    WorkerExitInconsistent,
>)
    ensures
        exit_code == expected_exit_code(graph@.terminal.outcome) ==> (r matches Ok(g) && g@ == graph@),
        exit_code != expected_exit_code(graph@.terminal.outcome) ==> r == Err::<DirectoryGraph, WorkerExitInconsistent>(
            WorkerExitInconsistent { exit_code, terminal_outcome: Some(graph@.terminal.outcome) },
        ),
{
    let outcome = graph.terminal().outcome;
    if exit_code != expected_worker_exit_code(outcome) {
        return Err(WorkerExitInconsistent { exit_code, terminal_outcome: Some(outcome) });
    }
    Ok(graph)
}

/// Progress is reported for the first record, for every coverage gap, and
/// otherwise at most every 50 milliseconds.
pub fn should_emit_progress(is_first: bool, is_gap: bool, elapsed_ms: u64) -> (r: bool)
    ensures
        r == (is_first || is_gap || elapsed_ms >= 50),
{
    is_first || is_gap || elapsed_ms >= 50
}

} // verus!
