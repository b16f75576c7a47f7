//! Why a task, or a pass over the graph, failed.

use vstd::prelude::*;

verus! {

/// The failure kinds of a run. The engine treats them alike (the pass fails
/// and restarts from the entry node); they differ only in what is reported.
#[derive(Copy, Clone, PartialEq, Eq, Structural, Debug)]
pub enum TaskError {
    /// An operation that needs the session ran before it was created.
    SessionUnavailable,
    /// The readiness check itself did not return within the check budget.
    PreconditionTimeout,
    /// The check kept reporting not-ready until the check budget elapsed.
    PreconditionFailed,
    /// The check could not be performed.
    PreconditionError,
    /// A non-repeatable action exceeded its execution budget.
    ActionTimeout,
    /// The action ran and reported a failure.
    ActionFailed,
    /// No successor became ready within the advance budget.
    SearchExhausted,
    /// A repeatable task exceeded its failure budget.
    BackoffExhausted,
    /// The session lock was poisoned by an earlier panic.
    Poisoned,
}

} // verus!
