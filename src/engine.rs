//! The execution engine as a state machine. The caller performs each action it
//! is handed (call a readiness check, sleep, run a task's action) and reports
//! what came back, with the milliseconds elapsed since the step began; the
//! functions here decide what happens next.

use crate::error::TaskError;
use crate::graph::{lemma_outgoing_targets_are_nodes, outgoing_targets, TaskGraph};
use vstd::prelude::*;

verus! {

/// Budget for a task's readiness check to report ready.
pub const PRECONDITION_TIMEOUT_MS: u64 = 5_000;

/// Pause between two readiness checks that reported not-ready.
pub const PRECONDITION_POLL_MS: u64 = 100;

/// Budget for a non-repeatable task's action.
pub const TASK_TIMEOUT_MS: u64 = 20_000;

/// Budget for finding a ready successor after a task succeeded.
pub const SEARCH_TIMEOUT_MS: u64 = 20_000;

/// Pause between two sweeps over the candidate successors.
pub const SEARCH_POLL_MS: u64 = 10;

/// What a readiness check gave back.
#[derive(Copy, Clone, PartialEq, Eq, Structural, Debug)]
pub enum CheckOutcome {
    Ready,
    NotReady,
    /// The check could not be performed, for the reason given.
    Errored(TaskError),
    /// The check did not return within the budget it was given.
    TimedOut,
}

/// What an action gave back.
#[derive(Copy, Clone, PartialEq, Eq, Structural, Debug)]
pub enum ActionOutcome {
    Completed,
    /// The action reported a failure of the kind given.
    Failed(TaskError),
    /// The action did not return within the budget it was given.
    TimedOut,
}

/// The next thing to do while executing a task.
#[derive(Copy, Clone, PartialEq, Eq, Structural, Debug)]
pub enum TaskAction {
    /// Call the readiness check, abandoning it after `budget_ms`.
    Check { budget_ms: u64 },
    /// Sleep, then report back.
    Sleep { ms: u64 },
    /// Run the action: under `timeout_ms` if given, else to its end.
    Run { timeout_ms: Option<u64> },
    /// The task failed.
    Fail(TaskError),
}

pub open spec fn spec_min(a: int, b: int) -> int {
    if a <= b {
        a
    } else {
        b
    }
}

/// The decision after a readiness check returned at `elapsed_ms` into the task.
pub open spec fn decide_after_check(repeatable: bool, elapsed_ms: int, outcome: CheckOutcome) -> TaskAction {
    match outcome {
        CheckOutcome::Ready => TaskAction::Run {
            timeout_ms: if repeatable {
                None
            } else {
                Some(TASK_TIMEOUT_MS)
            },
        },
        CheckOutcome::NotReady => if elapsed_ms >= PRECONDITION_TIMEOUT_MS {
            TaskAction::Fail(TaskError::PreconditionFailed)
        } else {
            TaskAction::Sleep {
                ms: spec_min(PRECONDITION_POLL_MS as int, PRECONDITION_TIMEOUT_MS - elapsed_ms) as u64,
            }
        },
        CheckOutcome::Errored(e) => TaskAction::Fail(e),
        CheckOutcome::TimedOut => TaskAction::Fail(TaskError::PreconditionTimeout),
    }
}

/// The decision after a pause between checks ended at `elapsed_ms` into the task.
pub open spec fn decide_after_sleep(elapsed_ms: int) -> TaskAction {
    if elapsed_ms >= PRECONDITION_TIMEOUT_MS {
        TaskAction::Fail(TaskError::PreconditionFailed)
    } else {
        TaskAction::Check { budget_ms: (PRECONDITION_TIMEOUT_MS - elapsed_ms) as u64 }
    }
}

/// The result of a task from what its action gave back.
pub open spec fn task_result(outcome: ActionOutcome) -> Result<(), TaskError> {
    match outcome {
        ActionOutcome::Completed => Ok(()),
        ActionOutcome::Failed(e) => Err(e),
        ActionOutcome::TimedOut => Err(TaskError::ActionTimeout),
    }
}

/// The first step of executing a task: check readiness within the whole budget.
pub fn begin_task() -> (r: TaskAction)
    ensures
        r == (TaskAction::Check { budget_ms: PRECONDITION_TIMEOUT_MS }),
{
    TaskAction::Check { budget_ms: PRECONDITION_TIMEOUT_MS }
}

/// Decides what follows a readiness check. Ready: run the action, under
/// `TASK_TIMEOUT_MS` unless the task is repeatable. Not ready: pause for
/// `PRECONDITION_POLL_MS`, cut short at the check budget's end, or fail with
/// `PreconditionFailed` once the budget is spent. An error or a check that
/// overran its budget fails the task.
pub fn after_check(repeatable: bool, elapsed_ms: u64, outcome: CheckOutcome) -> (r: TaskAction)
    ensures
        r == decide_after_check(repeatable, elapsed_ms as int, outcome),
{
    match outcome {
        CheckOutcome::Ready => {
            if repeatable {
                TaskAction::Run { timeout_ms: None }
            } else {
                TaskAction::Run { timeout_ms: Some(TASK_TIMEOUT_MS) }
            }
        },
        CheckOutcome::NotReady => {
            if elapsed_ms >= PRECONDITION_TIMEOUT_MS {
                TaskAction::Fail(TaskError::PreconditionFailed)
            } else if PRECONDITION_TIMEOUT_MS - elapsed_ms < PRECONDITION_POLL_MS {
                TaskAction::Sleep { ms: PRECONDITION_TIMEOUT_MS - elapsed_ms }
            } else {
                TaskAction::Sleep { ms: PRECONDITION_POLL_MS }
            }
        },
        CheckOutcome::Errored(e) => TaskAction::Fail(e),
        CheckOutcome::TimedOut => TaskAction::Fail(TaskError::PreconditionTimeout),
    }
}

/// Decides what follows a pause between checks: check again within what is
/// left of the budget, or fail with `PreconditionFailed` once it is spent.
pub fn after_sleep(elapsed_ms: u64) -> (r: TaskAction)
    ensures
        r == decide_after_sleep(elapsed_ms as int),
{
    if elapsed_ms >= PRECONDITION_TIMEOUT_MS {
        TaskAction::Fail(TaskError::PreconditionFailed)
    } else {
        TaskAction::Check { budget_ms: PRECONDITION_TIMEOUT_MS - elapsed_ms }
    }
}

/// The task's result from its action's outcome; an overrun is `ActionTimeout`.
pub fn after_action(outcome: ActionOutcome) -> (r: Result<(), TaskError>)
    ensures
        r == task_result(outcome),
{
    match outcome {
        ActionOutcome::Completed => Ok(()),
        ActionOutcome::Failed(e) => Err(e),
        ActionOutcome::TimedOut => Err(TaskError::ActionTimeout),
    }
}

/// The course of a task when every check reports not-ready: a check issued
/// `elapsed_ms` into the task, the `round`-th, takes `check_ms(round)` unless
/// abandoned at its budget's end. Gives the time at which the task stops and
/// the action it stops with.
pub open spec fn never_ready_course(
    check_ms: spec_fn(nat) -> nat,
    elapsed_ms: int,
    round: nat,
) -> (int, TaskAction)
    decreases PRECONDITION_TIMEOUT_MS - elapsed_ms,
{
    if elapsed_ms >= PRECONDITION_TIMEOUT_MS {
        (elapsed_ms, decide_after_sleep(elapsed_ms))
    } else if check_ms(round) >= PRECONDITION_TIMEOUT_MS - elapsed_ms {
        (
            PRECONDITION_TIMEOUT_MS as int,
            decide_after_check(false, PRECONDITION_TIMEOUT_MS as int, CheckOutcome::TimedOut),
        )
    } else {
        let back = elapsed_ms + check_ms(round);
        match decide_after_check(false, back, CheckOutcome::NotReady) {
            TaskAction::Sleep { ms } => {
                let woke = back + ms;
                match decide_after_sleep(woke) {
                    TaskAction::Check { .. } => never_ready_course(check_ms, woke, round + 1),
                    other => (woke, other),
                }
            },
            other => (back, other),
        }
    }
}

proof fn lemma_never_ready_course(check_ms: spec_fn(nat) -> nat, elapsed_ms: int, round: nat)
    requires
        0 <= elapsed_ms <= PRECONDITION_TIMEOUT_MS,
    ensures
        never_ready_course(check_ms, elapsed_ms, round).0 <= PRECONDITION_TIMEOUT_MS,
        never_ready_course(check_ms, elapsed_ms, round).1 is Fail,
    decreases PRECONDITION_TIMEOUT_MS - elapsed_ms,
{
    if elapsed_ms < PRECONDITION_TIMEOUT_MS && check_ms(round) < PRECONDITION_TIMEOUT_MS - elapsed_ms {
        let back = elapsed_ms + check_ms(round);
        if let TaskAction::Sleep { ms } = decide_after_check(false, back, CheckOutcome::NotReady) {
            let woke = back + ms;
            if let TaskAction::Check { .. } = decide_after_sleep(woke) {
                lemma_never_ready_course(check_ms, woke, round + 1);
            }
        }
    }
}

/// A task whose readiness check never reports ready fails, however long each
/// check call takes, no later than `PRECONDITION_TIMEOUT_MS` after it began.
pub proof fn lemma_never_ready_fails_in_time(check_ms: spec_fn(nat) -> nat)
    ensures
        never_ready_course(check_ms, 0, 0).0 <= PRECONDITION_TIMEOUT_MS,
        never_ready_course(check_ms, 0, 0).1 is Fail,
{
    lemma_never_ready_course(check_ms, 0, 0);
}

/// A non-repeatable task that became ready runs its action under
/// `TASK_TIMEOUT_MS`, and an action still unresolved then fails the task with
/// `ActionTimeout`; a repeatable one runs to its own end.
pub proof fn lemma_unresolved_action_times_out(elapsed_ms: int)
    ensures
        decide_after_check(false, elapsed_ms, CheckOutcome::Ready) == (TaskAction::Run {
            timeout_ms: Some(TASK_TIMEOUT_MS),
        }),
        decide_after_check(true, elapsed_ms, CheckOutcome::Ready) == (TaskAction::Run {
            timeout_ms: None,
        }),
        task_result(ActionOutcome::TimedOut) == Err::<(), TaskError>(TaskError::ActionTimeout),
{
}

/// The next thing to do while looking for a ready successor.
#[derive(Copy, Clone, PartialEq, Eq, Structural, Debug)]
pub enum SearchStep {
    /// Call this node's readiness check, abandoning it after `budget_ms`.
    Check { node: usize, budget_ms: u64 },
    /// Sleep, then report back.
    Sleep { ms: u64 },
    /// This successor is ready: execute it next.
    Advance(usize),
    /// No successor became ready within the budget.
    Exhausted,
}

/// The decision when a sweep over `candidates` begins at `elapsed_ms` into the search.
pub open spec fn sweep_decision(candidates: Seq<usize>, elapsed_ms: int) -> SearchStep {
    if elapsed_ms >= SEARCH_TIMEOUT_MS {
        SearchStep::Exhausted
    } else if candidates.len() == 0 {
        SearchStep::Sleep { ms: spec_min(SEARCH_POLL_MS as int, SEARCH_TIMEOUT_MS - elapsed_ms) as u64 }
    } else {
        SearchStep::Check { node: candidates[0], budget_ms: (SEARCH_TIMEOUT_MS - elapsed_ms) as u64 }
    }
}

/// The next position and decision after the check of `candidates[position]`
/// returned at `elapsed_ms` into the search. Ready: advance to it. Otherwise,
/// past the budget give up; else check the next candidate, or after the last
/// one pause before the next sweep.
pub open spec fn check_decision(candidates: Seq<usize>, position: int, elapsed_ms: int, ready: bool) -> (
    int,
    SearchStep,
) {
    if ready {
        (position, SearchStep::Advance(candidates[position]))
    } else if elapsed_ms >= SEARCH_TIMEOUT_MS {
        (position, SearchStep::Exhausted)
    } else if position + 1 < candidates.len() {
        (
            position + 1,
            SearchStep::Check {
                node: candidates[position + 1],
                budget_ms: (SEARCH_TIMEOUT_MS - elapsed_ms) as u64,
            },
        )
    } else {
        (0, SearchStep::Sleep { ms: spec_min(SEARCH_POLL_MS as int, SEARCH_TIMEOUT_MS - elapsed_ms) as u64 })
    }
}

/// The course of the search from a sweep begun at `elapsed_ms`, for a node
/// whose only successor is `successor`, when checks answer at once and report
/// ready from `ready_at_ms` on. Gives the time and the step it ends with.
pub open spec fn single_successor_course(successor: usize, ready_at_ms: int, elapsed_ms: int) -> (
    int,
    SearchStep,
)
    decreases SEARCH_TIMEOUT_MS - elapsed_ms,
{
    match sweep_decision(seq![successor], elapsed_ms) {
        SearchStep::Check { .. } => {
            let (_, step) = check_decision(seq![successor], 0, elapsed_ms, elapsed_ms >= ready_at_ms);
            match step {
                SearchStep::Sleep { ms } => if ms > 0 {
                    single_successor_course(successor, ready_at_ms, elapsed_ms + ms)
                } else {
                    (elapsed_ms, step)
                },
                other => (elapsed_ms, other),
            }
        },
        other => (elapsed_ms, other),
    }
}

proof fn lemma_single_successor_course(successor: usize, ready_at_ms: int, elapsed_ms: int)
    requires
        0 <= ready_at_ms,
        ready_at_ms + SEARCH_POLL_MS <= SEARCH_TIMEOUT_MS,
        0 <= elapsed_ms,
        elapsed_ms % (SEARCH_POLL_MS as int) == 0,
        elapsed_ms < ready_at_ms + SEARCH_POLL_MS,
    ensures
        single_successor_course(successor, ready_at_ms, elapsed_ms).1 == SearchStep::Advance(successor),
        ready_at_ms <= single_successor_course(successor, ready_at_ms, elapsed_ms).0
            < SEARCH_TIMEOUT_MS,
    decreases SEARCH_TIMEOUT_MS - elapsed_ms,
{
    if elapsed_ms < ready_at_ms {
        let next = elapsed_ms + SEARCH_POLL_MS;
        assert(next % (SEARCH_POLL_MS as int) == 0);
        lemma_single_successor_course(successor, ready_at_ms, next);
    }
}

/// A search from a node whose only successor becomes ready `ready_at_ms` into
/// the search, at least one pause before the budget ends, advances to that
/// successor once it is ready and before the budget ends; it never gives up.
pub proof fn lemma_successor_found_in_time(successor: usize, ready_at_ms: int)
    requires
        0 <= ready_at_ms,
        ready_at_ms + SEARCH_POLL_MS <= SEARCH_TIMEOUT_MS,
    ensures
        single_successor_course(successor, ready_at_ms, 0).1 == SearchStep::Advance(successor),
        ready_at_ms <= single_successor_course(successor, ready_at_ms, 0).0 < SEARCH_TIMEOUT_MS,
{
    lemma_single_successor_course(successor, ready_at_ms, 0);
}

/// The search for the first ready successor of a task that succeeded: sweeps
/// over the candidates in edge order, pausing between sweeps.
pub struct SuccessorSearch {
    candidates: Vec<usize>,
    position: usize,
}

impl SuccessorSearch {
    pub closed spec fn candidates(&self) -> Seq<usize> {
        self.candidates@
    }

    /// The candidate whose check comes next, or was made last.
    pub closed spec fn position(&self) -> int {
        self.position as int
    }

    pub open spec fn wf(&self) -> bool {
        &&& 0 <= self.position()
        &&& self.position() < self.candidates().len() || self.position() == 0
    }

    /// The decision when a sweep begins at `elapsed_ms` into the search.
    pub open spec fn sweep_step(&self, elapsed_ms: int) -> SearchStep {
        sweep_decision(self.candidates(), elapsed_ms)
    }

    /// A search over the `Outgoing` successors of `node`, in edge order.
    pub fn new(graph: &TaskGraph, node: usize) -> (r: SuccessorSearch)
        requires
            graph.wf(),
        ensures
            r.wf(),
            r.candidates() == outgoing_targets(graph.edges(), node, graph.edges().len()),
            r.position() == 0,
            forall|j: int|
                0 <= j < r.candidates().len() ==> #[trigger] r.candidates()[j] < graph.nodes().len(),
    {
        proof {
            lemma_outgoing_targets_are_nodes(*graph, node, graph.edges().len());
        }
        SuccessorSearch { candidates: graph.successors(node), position: 0 }
    }

    /// Begins a sweep at `elapsed_ms` into the search: check the first
    /// candidate, or with none, pause; past the budget, give up.
    pub fn begin_sweep(&mut self, elapsed_ms: u64) -> (r: SearchStep)
        requires
            old(self).wf(),
        ensures
            final(self).wf(),
            final(self).candidates() == old(self).candidates(),
            final(self).position() == 0,
            r == old(self).sweep_step(elapsed_ms as int),
    {
        self.position = 0;
        if elapsed_ms >= SEARCH_TIMEOUT_MS {
            SearchStep::Exhausted
        } else if self.candidates.len() == 0 {
            if SEARCH_TIMEOUT_MS - elapsed_ms < SEARCH_POLL_MS {
                SearchStep::Sleep { ms: SEARCH_TIMEOUT_MS - elapsed_ms }
            } else {
                SearchStep::Sleep { ms: SEARCH_POLL_MS }
            }
        } else {
            SearchStep::Check { node: self.candidates[0], budget_ms: SEARCH_TIMEOUT_MS - elapsed_ms }
        }
    }

    /// Decides what follows the check of the current candidate, which returned
    /// at `elapsed_ms` into the search. Ready: advance to it. Otherwise, past
    /// the budget give up; else check the next candidate, or after the last one
    /// pause before the next sweep.
    pub fn after_check(&mut self, elapsed_ms: u64, ready: bool) -> (r: SearchStep)
        requires
            old(self).wf(),
            old(self).candidates().len() > 0,
        ensures
            final(self).wf(),
            final(self).candidates() == old(self).candidates(),
            (final(self).position(), r) == check_decision(
                old(self).candidates(),
                old(self).position(),
                elapsed_ms as int,
                ready,
            ),
    {
        if ready {
            return SearchStep::Advance(self.candidates[self.position]);
        }
        if elapsed_ms >= SEARCH_TIMEOUT_MS {
            return SearchStep::Exhausted;
        }
        assert(self.position < self.candidates.len());
        if self.position + 1 < self.candidates.len() {
            self.position = self.position + 1;
            SearchStep::Check {
                node: self.candidates[self.position],
                budget_ms: SEARCH_TIMEOUT_MS - elapsed_ms,
            }
        } else {
            self.position = 0;
            if SEARCH_TIMEOUT_MS - elapsed_ms < SEARCH_POLL_MS {
                SearchStep::Sleep { ms: SEARCH_TIMEOUT_MS - elapsed_ms }
            } else {
                SearchStep::Sleep { ms: SEARCH_POLL_MS }
            }
        }
    }
}

/// The run over the graph: which node executes next, and how often the run
/// has restarted from the entry node or advanced to a successor.
pub struct Engine {
    pub entry: usize,
    pub current: usize,
    pub node_count: usize,
    pub restarts: u64,
    pub advances: u64,
}

impl Engine {
    pub open spec fn wf(&self) -> bool {
        &&& self.entry < self.node_count
        &&& self.current < self.node_count
    }

    /// A run over `graph` that begins at `entry`.
    pub fn new(graph: &TaskGraph, entry: usize) -> (r: Engine)
        requires
            entry < graph.nodes().len(),
        ensures
            r.wf(),
            r.entry == entry,
            r.current == entry,
            r.node_count == graph.nodes().len(),
            r.restarts == 0,
            r.advances == 0,
    {
        Engine { entry, current: entry, node_count: graph.node_count(), restarts: 0, advances: 0 }
    }

    /// The node to execute next.
    pub fn current_node(&self) -> (r: usize)
        ensures
            r == self.current,
    {
        self.current
    }

    /// Records the result of executing the current node. Success keeps the run
    /// where it is and asks for a successor search (returns `true`); failure
    /// restarts the run from the entry node (returns `false`).
    pub fn task_finished(&mut self, result: Result<(), TaskError>) -> (search: bool)
        requires
            old(self).wf(),
        ensures
            final(self).wf(),
            search == result is Ok,
            search ==> *final(self) == *old(self),
            !search ==> final(self).current == old(self).entry && final(self).restarts
                == spec_saturating_inc(old(self).restarts) && final(self).advances
                == old(self).advances && final(self).entry == old(self).entry
                && final(self).node_count == old(self).node_count,
    {
        match result {
            Ok(()) => true,
            Err(_) => {
                self.restart();
                false
            },
        }
    }

    /// Records how the successor search ended: on `Advance` the run moves to
    /// that successor; on anything else it restarts from the entry node.
    pub fn search_finished(&mut self, step: SearchStep)
        requires
            old(self).wf(),
            step matches SearchStep::Advance(n) ==> n < old(self).node_count,
        ensures
            final(self).wf(),
            final(self).entry == old(self).entry,
            final(self).node_count == old(self).node_count,
            step matches SearchStep::Advance(n) ==> final(self).current == n && final(self).advances
                == spec_saturating_inc(old(self).advances) && final(self).restarts
                == old(self).restarts,
            !(step is Advance) ==> final(self).current == old(self).entry && final(self).restarts
                == spec_saturating_inc(old(self).restarts) && final(self).advances
                == old(self).advances,
    {
        match step {
            SearchStep::Advance(n) => {
                self.current = n;
                if self.advances < u64::MAX {
                    self.advances = self.advances + 1;
                }
            },
            _ => self.restart(),
        }
    }

    fn restart(&mut self)
        requires
            old(self).wf(),
        ensures
            final(self).wf(),
            final(self).current == old(self).entry,
            final(self).restarts == spec_saturating_inc(old(self).restarts),
            final(self).advances == old(self).advances,
            final(self).entry == old(self).entry,
            final(self).node_count == old(self).node_count,
    {
        self.current = self.entry;
        if self.restarts < u64::MAX {
            self.restarts = self.restarts + 1;
        }
    }
}

pub open spec fn spec_saturating_inc(x: u64) -> u64 {
    if x == u64::MAX {
        x
    } else {
        (x + 1) as u64
    }
}

} // verus!
