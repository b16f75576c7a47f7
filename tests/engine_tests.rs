use taskgraph::engine::{
    after_action, after_check, after_sleep, begin_task, ActionOutcome, CheckOutcome, Engine,
    TaskAction, SearchStep, SuccessorSearch, PRECONDITION_TIMEOUT_MS, SEARCH_TIMEOUT_MS,
    TASK_TIMEOUT_MS,
};
use taskgraph::error::TaskError;
use taskgraph::graph::{TaskEdge, TaskGraph};

fn two_step_graph() -> (TaskGraph, usize, usize) {
    let mut g = TaskGraph::new();
    let entry = g.add_node(false);
    let next = g.add_node(false);
    g.add_edge(entry, next, TaskEdge::Outgoing);
    g.normalize();
    (g, entry, next)
}

/// Drives one task whose check always answers `outcome` at once,
/// each check taking `check_ms`; returns the final action and the time it came.
fn run_task_checks(outcome: CheckOutcome, check_ms: u64) -> (TaskAction, u64) {
    let mut elapsed = 0;
    let mut action = begin_task();
    loop {
        match action {
            TaskAction::Check { budget_ms } => {
                if check_ms >= budget_ms {
                    elapsed += budget_ms;
                    action = after_check(false, elapsed, CheckOutcome::TimedOut);
                } else {
                    elapsed += check_ms;
                    action = after_check(false, elapsed, outcome);
                }
            }
            TaskAction::Sleep { ms } => {
                elapsed += ms;
                action = after_sleep(elapsed);
            }
            other => return (other, elapsed),
        }
    }
}

#[test]
fn never_ready_check_fails_by_the_precondition_timeout() {
    let (action, elapsed) = run_task_checks(CheckOutcome::NotReady, 0);
    assert_eq!(action, TaskAction::Fail(TaskError::PreconditionFailed));
    assert_eq!(elapsed, PRECONDITION_TIMEOUT_MS);
    let (action, elapsed) = run_task_checks(CheckOutcome::NotReady, 37);
    assert_eq!(action, TaskAction::Fail(TaskError::PreconditionFailed));
    assert!(elapsed <= PRECONDITION_TIMEOUT_MS);
}

#[test]
fn hanging_check_fails_with_precondition_timeout() {
    let (action, elapsed) = run_task_checks(CheckOutcome::NotReady, 60_000);
    assert_eq!(action, TaskAction::Fail(TaskError::PreconditionTimeout));
    assert_eq!(elapsed, PRECONDITION_TIMEOUT_MS);
}

#[test]
fn check_error_fails_at_once() {
    let (action, elapsed) = run_task_checks(CheckOutcome::Errored(TaskError::SessionUnavailable), 3);
    assert_eq!(action, TaskAction::Fail(TaskError::SessionUnavailable));
    assert_eq!(elapsed, 3);
}

#[test]
fn not_ready_sleeps_for_the_poll_interval_then_rechecks() {
    assert_eq!(after_check(false, 0, CheckOutcome::NotReady), TaskAction::Sleep { ms: 100 });
    assert_eq!(after_check(false, 4_950, CheckOutcome::NotReady), TaskAction::Sleep { ms: 50 });
    assert_eq!(after_sleep(100), TaskAction::Check { budget_ms: 4_900 });
    assert_eq!(after_sleep(5_000), TaskAction::Fail(TaskError::PreconditionFailed));
}

#[test]
fn ready_task_runs_under_the_task_timeout_unless_repeatable() {
    assert_eq!(
        after_check(false, 10, CheckOutcome::Ready),
        TaskAction::Run { timeout_ms: Some(TASK_TIMEOUT_MS) }
    );
    assert_eq!(after_check(true, 10, CheckOutcome::Ready), TaskAction::Run { timeout_ms: None });
}

#[test]
fn unresolved_action_fails_with_action_timeout() {
    assert_eq!(after_action(ActionOutcome::TimedOut), Err(TaskError::ActionTimeout));
    assert_eq!(after_action(ActionOutcome::Completed), Ok(()));
    assert_eq!(
        after_action(ActionOutcome::Failed(TaskError::BackoffExhausted)),
        Err(TaskError::BackoffExhausted)
    );
}

#[test]
fn engine_advances_once_when_successor_becomes_ready() {
    let (g, entry, next) = two_step_graph();
    let mut engine = Engine::new(&g, entry);
    assert_eq!(engine.current_node(), entry);
    assert_eq!(after_check(false, 0, CheckOutcome::Ready), TaskAction::Run { timeout_ms: Some(TASK_TIMEOUT_MS) });
    assert!(engine.task_finished(after_action(ActionOutcome::Completed)));

    let mut search = SuccessorSearch::new(&g, entry);
    let mut elapsed = 0;
    let mut step = search.begin_sweep(elapsed);
    let ready_at = 1_500;
    let mut checks = 0;
    let outcome = loop {
        match step {
            SearchStep::Check { node, .. } => {
                assert_eq!(node, next);
                checks += 1;
                step = search.after_check(elapsed, elapsed >= ready_at);
            }
            SearchStep::Sleep { ms } => {
                elapsed += ms;
                step = search.begin_sweep(elapsed);
            }
            other => break other,
        }
    };
    assert_eq!(outcome, SearchStep::Advance(next));
    assert!(checks > 1);
    engine.search_finished(outcome);
    assert_eq!(engine.current_node(), next);
    assert_eq!(engine.advances, 1);
    assert_eq!(engine.restarts, 0);
}

#[test]
fn engine_restarts_from_entry_when_no_successor_becomes_ready() {
    let (g, entry, _) = two_step_graph();
    let mut engine = Engine::new(&g, entry);
    let mut entry_runs = 1;
    assert!(engine.task_finished(Ok(())));
    let mut search = SuccessorSearch::new(&g, entry);
    let mut elapsed = 0;
    let mut step = search.begin_sweep(elapsed);
    let outcome = loop {
        match step {
            SearchStep::Check { .. } => step = search.after_check(elapsed, false),
            SearchStep::Sleep { ms } => {
                elapsed += ms;
                step = search.begin_sweep(elapsed);
            }
            other => break other,
        }
    };
    assert_eq!(outcome, SearchStep::Exhausted);
    assert_eq!(elapsed, SEARCH_TIMEOUT_MS);
    engine.search_finished(outcome);
    assert_eq!(engine.restarts, 1);
    if engine.current_node() == entry {
        entry_runs += 1;
    }
    assert_eq!(entry_runs, 2);
}

#[test]
fn failed_task_restarts_from_entry() {
    let (g, entry, next) = two_step_graph();
    let mut engine = Engine::new(&g, entry);
    engine.search_finished(SearchStep::Advance(next));
    assert_eq!(engine.current_node(), next);
    assert!(!engine.task_finished(Err(TaskError::ActionFailed)));
    assert_eq!(engine.current_node(), entry);
    assert_eq!(engine.restarts, 1);
}

#[test]
fn search_with_no_candidates_waits_out_the_budget() {
    let (g, _, next) = two_step_graph();
    let mut search = SuccessorSearch::new(&g, next);
    assert_eq!(search.begin_sweep(0), SearchStep::Sleep { ms: 10 });
    assert_eq!(search.begin_sweep(19_995), SearchStep::Sleep { ms: 5 });
    assert_eq!(search.begin_sweep(20_000), SearchStep::Exhausted);
}
