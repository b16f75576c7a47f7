//! Adaptive backoff for a repeatable, contended action. Times are whole
//! milliseconds. The bisection controller is the one the engine's repeatable
//! task runs; the moving-average controller is the alternative policy.

use crate::error::TaskError;
use vstd::arithmetic::div_mod::{
    lemma_div_is_ordered, lemma_hoist_over_denominator,
};
use vstd::prelude::*;

verus! {

/// The shortest wait between attempts.
pub const MIN_WAIT_MS: u64 = 100;

/// The longest wait between attempts.
pub const MAX_WAIT_MS: u64 = 10_000;

/// Consecutive successes that shrink the interval.
pub const SUCCESS_THRESHOLD: u64 = 5;

/// Consecutive failures that grow the interval.
pub const FAILURE_THRESHOLD: u64 = 3;

/// Failures (since the last shrink) after which the task gives up.
pub const MAX_TOTAL_FAILS: u64 = 10;

/// Bisection over `[lower_ms, upper_ms]`, waiting at the midpoint.
#[derive(Copy, Clone, Debug)]
pub struct BisectionBackoff {
    pub lower_ms: u64,
    pub upper_ms: u64,
    pub wait_ms: u64,
    /// Successes recorded over the controller's life.
    pub success_count: u64,
    /// The current run of failures, reset when the interval grows.
    pub failure_count: u64,
    /// The current run of successes, reset when the interval shrinks.
    pub consecutive_successes: u64,
    /// Failures since the interval last shrank.
    pub total_fails: u64,
}

impl BisectionBackoff {
    pub open spec fn wf(&self) -> bool {
        &&& MIN_WAIT_MS <= self.lower_ms <= self.wait_ms <= self.upper_ms <= MAX_WAIT_MS
        &&& self.wait_ms == (self.lower_ms + self.upper_ms) / 2
        &&& self.failure_count < FAILURE_THRESHOLD
        &&& self.consecutive_successes < SUCCESS_THRESHOLD
        &&& self.total_fails < MAX_TOTAL_FAILS
    }

    pub open spec fn width(&self) -> int {
        self.upper_ms - self.lower_ms
    }

    /// The state after a success.
    pub open spec fn succeeded(self) -> BisectionBackoff {
        let streak = self.consecutive_successes + 1;
        let count = if self.success_count == u64::MAX {
            self.success_count
        } else {
            (self.success_count + 1) as u64
        };
        if streak >= SUCCESS_THRESHOLD {
            BisectionBackoff {
                lower_ms: self.lower_ms,
                upper_ms: self.wait_ms,
                wait_ms: ((self.lower_ms + self.wait_ms) / 2) as u64,
                success_count: count,
                failure_count: 0,
                consecutive_successes: 0,
                total_fails: 0,
            }
        } else {
            BisectionBackoff {
                success_count: count,
                failure_count: 0,
                consecutive_successes: streak as u64,
                ..self
            }
        }
    }

    /// A failure now exhausts the failure budget.
    pub open spec fn exhausts(self) -> bool {
        self.total_fails + 1 >= MAX_TOTAL_FAILS
    }

    /// The state after a failure that does not exhaust the budget.
    pub open spec fn failed(self) -> BisectionBackoff {
        let run = self.failure_count + 1;
        if run >= FAILURE_THRESHOLD {
            BisectionBackoff {
                lower_ms: self.wait_ms,
                upper_ms: self.upper_ms,
                wait_ms: ((self.wait_ms + self.upper_ms) / 2) as u64,
                failure_count: 0,
                consecutive_successes: 0,
                total_fails: (self.total_fails + 1) as u64,
                ..self
            }
        } else {
            BisectionBackoff {
                failure_count: run as u64,
                consecutive_successes: 0,
                total_fails: (self.total_fails + 1) as u64,
                ..self
            }
        }
    }

    /// A fresh controller over the whole range, waiting at its midpoint.
    pub open spec fn fresh() -> BisectionBackoff {
        BisectionBackoff {
            lower_ms: MIN_WAIT_MS,
            upper_ms: MAX_WAIT_MS,
            wait_ms: ((MIN_WAIT_MS + MAX_WAIT_MS) / 2) as u64,
            success_count: 0,
            failure_count: 0,
            consecutive_successes: 0,
            total_fails: 0,
        }
    }

    /// A fresh controller over the whole range, waiting at its midpoint.
    pub fn new() -> (r: BisectionBackoff)
        ensures
            r == BisectionBackoff::fresh(),
            r.wf(),
            r.lower_ms == MIN_WAIT_MS,
            r.upper_ms == MAX_WAIT_MS,
            r.wait_ms == (MIN_WAIT_MS + MAX_WAIT_MS) / 2,
            r.success_count == 0,
            r.failure_count == 0,
            r.consecutive_successes == 0,
            r.total_fails == 0,
    {
        BisectionBackoff {
            lower_ms: MIN_WAIT_MS,
            upper_ms: MAX_WAIT_MS,
            wait_ms: (MIN_WAIT_MS + MAX_WAIT_MS) / 2,
            success_count: 0,
            failure_count: 0,
            consecutive_successes: 0,
            total_fails: 0,
        }
    }

    /// Records a success. A run of `SUCCESS_THRESHOLD` successes moves the upper
    /// bound down to the current wait and clears the failure budget.
    pub fn record_success(&mut self)
        requires
            old(self).wf(),
        ensures
            final(self).wf(),
            *final(self) == old(self).succeeded(),
    {
        if self.success_count < u64::MAX {
            self.success_count = self.success_count + 1;
        }
        self.consecutive_successes = self.consecutive_successes + 1;
        self.failure_count = 0;
        if self.consecutive_successes >= SUCCESS_THRESHOLD {
            self.upper_ms = self.wait_ms;
            self.wait_ms = (self.lower_ms + self.upper_ms) / 2;
            self.consecutive_successes = 0;
            self.total_fails = 0;
        }
    }

    /// Records a failure. Fails with `BackoffExhausted` when this failure brings
    /// the failures since the last shrink to `MAX_TOTAL_FAILS`, leaving the
    /// controller as it was. Otherwise a run of `FAILURE_THRESHOLD` failures moves
    /// the lower bound up to the current wait.
    pub fn record_failure(&mut self) -> (r: Result<(), TaskError>)
        requires
            old(self).wf(),
        ensures
            final(self).wf(),
            r is Err <==> old(self).exhausts(),
            r is Err ==> r == Err::<(), TaskError>(TaskError::BackoffExhausted) && *final(self) == *old(self),
            r is Ok ==> *final(self) == old(self).failed(),
    {
        if self.total_fails + 1 >= MAX_TOTAL_FAILS {
            return Err(TaskError::BackoffExhausted);
        }
        self.failure_count = self.failure_count + 1;
        self.total_fails = self.total_fails + 1;
        self.consecutive_successes = 0;
        if self.failure_count >= FAILURE_THRESHOLD {
            self.lower_ms = self.wait_ms;
            self.wait_ms = (self.lower_ms + self.upper_ms) / 2;
            self.failure_count = 0;
        }
        Ok(())
    }

    /// The wait before the next attempt, within `[MIN_WAIT_MS, MAX_WAIT_MS]`.
    pub fn wait_time_ms(&self) -> (r: u64)
        requires
            self.wf(),
        ensures
            r == self.wait_ms,
            MIN_WAIT_MS <= r <= MAX_WAIT_MS,
    {
        self.wait_ms
    }
}

/// The controller after `k` successes in a row.
pub open spec fn after_successes(s: BisectionBackoff, k: nat) -> BisectionBackoff
    decreases k,
{
    if k == 0 {
        s
    } else {
        after_successes(s, (k - 1) as nat).succeeded()
    }
}

/// The controller after `k` failures in a row; it stops at the failure that
/// exhausts its budget.
pub open spec fn after_failures(s: BisectionBackoff, k: nat) -> BisectionBackoff
    decreases k,
{
    if k == 0 {
        s
    } else {
        let p = after_failures(s, (k - 1) as nat);
        if p.exhausts() {
            p
        } else {
            p.failed()
        }
    }
}

proof fn lemma_success_step(s: BisectionBackoff)
    requires
        s.wf(),
    ensures
        s.succeeded().wf(),
        s.succeeded().wait_ms <= s.wait_ms,
        s.succeeded().width() <= s.width(),
        s.consecutive_successes + 1 >= SUCCESS_THRESHOLD && s.width() > 0 ==> s.succeeded().width()
            < s.width(),
        s.consecutive_successes + 1 < SUCCESS_THRESHOLD ==> s.succeeded().consecutive_successes
            == s.consecutive_successes + 1 && s.succeeded().width() == s.width(),
{
}

proof fn lemma_successes_run(s: BisectionBackoff, k: nat)
    requires
        s.wf(),
    ensures
        after_successes(s, k).wf(),
        after_successes(s, k).wait_ms <= s.wait_ms,
        after_successes(s, k).width() <= s.width(),
        s.width() > 0 ==> after_successes(s, k).width() < s.width()
            || after_successes(s, k).consecutive_successes == s.consecutive_successes + k,
    decreases k,
{
    if k > 0 {
        lemma_successes_run(s, (k - 1) as nat);
        lemma_success_step(after_successes(s, (k - 1) as nat));
    }
}

/// Along a run of successes the wait never grows, and once the run reaches
/// `SUCCESS_THRESHOLD` the interval is strictly narrower than at its start
/// (unless it had already shrunk to a single point).
pub proof fn lemma_successes_narrow(s: BisectionBackoff, k: nat)
    requires
        s.wf(),
    ensures
        forall|j: nat|
            j < k ==> #[trigger] after_successes(s, j + 1).wait_ms <= after_successes(s, j).wait_ms,
        after_successes(s, k).wait_ms <= s.wait_ms,
        k >= SUCCESS_THRESHOLD && s.width() > 0 ==> after_successes(s, k).width() < s.width(),
{
    assert forall|j: nat| j < k implies #[trigger] after_successes(s, j + 1).wait_ms
        <= after_successes(s, j).wait_ms by {
        lemma_successes_run(s, j);
        lemma_success_step(after_successes(s, j));
    }
    lemma_successes_run(s, k);
}

proof fn lemma_failures_run(s: BisectionBackoff, k: nat)
    requires
        s.wf(),
    ensures
        after_failures(s, k).wf(),
    decreases k,
{
    if k > 0 {
        lemma_failures_run(s, (k - 1) as nat);
    }
}

/// Along a run of failures the wait never shrinks.
pub proof fn lemma_failures_never_lower_wait(s: BisectionBackoff, k: nat)
    requires
        s.wf(),
    ensures
        forall|j: nat|
            j < k ==> #[trigger] after_failures(s, j + 1).wait_ms >= after_failures(s, j).wait_ms,
        after_failures(s, k).wait_ms >= s.wait_ms,
    decreases k,
{
    assert forall|j: nat| j < k implies #[trigger] after_failures(s, j + 1).wait_ms
        >= after_failures(s, j).wait_ms by {
        lemma_failures_run(s, j);
    }
    if k > 0 {
        let j = (k - 1) as nat;
        lemma_failures_never_lower_wait(s, j);
        assert(after_failures(s, j + 1).wait_ms >= after_failures(s, j).wait_ms);
        assert(j + 1 == k);
    }
}

/// The controller after a sequence of attempts (`true` for a success): `Ok`
/// of its state, or `Err(i)` when attempt `i` exhausted the failure budget and
/// the task gave up there.
pub open spec fn after_attempts(s: BisectionBackoff, outcomes: Seq<bool>) -> Result<BisectionBackoff, nat>
    decreases outcomes.len(),
{
    if outcomes.len() == 0 {
        Ok(s)
    } else {
        match after_attempts(s, outcomes.drop_last()) {
            Err(i) => Err(i),
            Ok(p) => if outcomes.last() {
                Ok(p.succeeded())
            } else if p.exhausts() {
                Err((outcomes.len() - 1) as nat)
            } else {
                Ok(p.failed())
            },
        }
    }
}

/// The current run of successes, counted from the last completed streak of
/// `SUCCESS_THRESHOLD`.
pub open spec fn success_streak(outcomes: Seq<bool>) -> nat
    decreases outcomes.len(),
{
    if outcomes.len() == 0 {
        0
    } else if outcomes.last() {
        let k = success_streak(outcomes.drop_last()) + 1;
        if k >= SUCCESS_THRESHOLD {
            0
        } else {
            k
        }
    } else {
        0
    }
}

/// Failures since the start or since the last completed streak of
/// `SUCCESS_THRESHOLD` successes.
pub open spec fn failures_since_streak(outcomes: Seq<bool>) -> nat
    decreases outcomes.len(),
{
    if outcomes.len() == 0 {
        0
    } else if outcomes.last() {
        if success_streak(outcomes.drop_last()) + 1 >= SUCCESS_THRESHOLD {
            0
        } else {
            failures_since_streak(outcomes.drop_last())
        }
    } else {
        failures_since_streak(outcomes.drop_last()) + 1
    }
}

proof fn lemma_attempts_count(outcomes: Seq<bool>)
    ensures
        after_attempts(BisectionBackoff::fresh(), outcomes) matches Ok(p) ==> p.wf() && p.total_fails
            == failures_since_streak(outcomes) && p.consecutive_successes == success_streak(outcomes),
        after_attempts(BisectionBackoff::fresh(), outcomes) matches Err(i) ==> i < outcomes.len(),
    decreases outcomes.len(),
{
    if outcomes.len() > 0 {
        lemma_attempts_count(outcomes.drop_last());
    }
}

/// A fresh controller gives up at an attempt exactly when that attempt fails
/// and is the `MAX_TOTAL_FAILS`-th failure since the start or since the last
/// completed streak of `SUCCESS_THRESHOLD` successes; never earlier.
pub proof fn lemma_failure_budget(outcomes: Seq<bool>)
    requires
        outcomes.len() > 0,
        after_attempts(BisectionBackoff::fresh(), outcomes.drop_last()) is Ok,
    ensures
        after_attempts(BisectionBackoff::fresh(), outcomes) is Err <==> !outcomes.last()
            && failures_since_streak(outcomes) == MAX_TOTAL_FAILS,
{
    lemma_attempts_count(outcomes.drop_last());
}

/// Weights of the moving average are in thousandths.
pub const WEIGHT_SCALE: u64 = 1000;

/// How far a success pulls the estimate toward its sample.
pub const EMA_SUCCESS_WEIGHT: u64 = 100;

/// How far a failure pulls the estimate toward its sample.
pub const EMA_FAILURE_WEIGHT: u64 = 500;

/// `x` brought into `[MIN_WAIT_MS, MAX_WAIT_MS]`.
pub open spec fn clamp_wait(x: int) -> int {
    if x < MIN_WAIT_MS {
        MIN_WAIT_MS as int
    } else if x > MAX_WAIT_MS {
        MAX_WAIT_MS as int
    } else {
        x
    }
}

/// `weight` thousandths of `gap`, rounded down.
pub open spec fn share_down(weight: int, gap: int) -> int {
    (weight * gap) / WEIGHT_SCALE as int
}

/// `weight` thousandths of `gap`, rounded up.
pub open spec fn share_up(weight: int, gap: int) -> int {
    (weight * gap + WEIGHT_SCALE - 1) / WEIGHT_SCALE as int
}

/// `estimate` moved by `amount` toward `sample`.
pub open spec fn step_toward(estimate: int, sample: int, amount: int) -> int {
    if sample >= estimate {
        estimate + amount
    } else {
        estimate - amount
    }
}

/// The estimate after a success at `sample`: it moves toward the sample by the
/// success weight's share of the gap, rounded down.
pub open spec fn after_ema_success(estimate: int, sample: int) -> int {
    step_toward(estimate, sample, share_down(EMA_SUCCESS_WEIGHT as int, distance(estimate, sample)))
}

/// The estimate after a failure at `sample`: it moves toward the sample by the
/// failure weight's share of the gap, rounded up, so any gap moves it.
pub open spec fn after_ema_failure(estimate: int, sample: int) -> int {
    step_toward(estimate, sample, share_up(EMA_FAILURE_WEIGHT as int, distance(estimate, sample)))
}

pub open spec fn distance(a: int, b: int) -> int {
    if a >= b {
        a - b
    } else {
        b - a
    }
}

/// A single moving-average estimate of the wait, smoothed more strongly on
/// success than on failure.
#[derive(Copy, Clone, Debug)]
pub struct EmaBackoff {
    pub estimate_ms: u64,
    /// The current run of failures.
    pub failures: u64,
}

impl EmaBackoff {
    pub open spec fn wf(&self) -> bool {
        &&& MIN_WAIT_MS <= self.estimate_ms <= MAX_WAIT_MS
        &&& self.failures < MAX_TOTAL_FAILS
    }

    /// A fresh controller at the middle of the range.
    pub fn new() -> (r: EmaBackoff)
        ensures
            r.wf(),
            r.estimate_ms == (MIN_WAIT_MS + MAX_WAIT_MS) / 2,
            r.failures == 0,
    {
        EmaBackoff { estimate_ms: (MIN_WAIT_MS + MAX_WAIT_MS) / 2, failures: 0 }
    }

    /// Records a success after waiting `sample_ms` (taken within the range):
    /// the estimate moves toward it by the success weight.
    pub fn record_success(&mut self, sample_ms: u64)
        requires
            old(self).wf(),
        ensures
            final(self).wf(),
            final(self).estimate_ms == after_ema_success(
                old(self).estimate_ms as int,
                clamp_wait(sample_ms as int),
            ),
            final(self).failures == 0,
    {
        let e = move_toward(self.estimate_ms, clamp_exec(sample_ms), EMA_SUCCESS_WEIGHT, false);
        self.estimate_ms = e;
        self.failures = 0;
    }

    /// Records a failure after waiting `sample_ms` (taken within the range). Fails
    /// with `BackoffExhausted`, leaving the controller as it was, when this makes
    /// `MAX_TOTAL_FAILS` failures in a row; otherwise the estimate moves toward
    /// the sample by the failure weight.
    pub fn record_failure(&mut self, sample_ms: u64) -> (r: Result<(), TaskError>)
        requires
            old(self).wf(),
        ensures
            final(self).wf(),
            r is Err <==> old(self).failures + 1 >= MAX_TOTAL_FAILS,
            r is Err ==> r == Err::<(), TaskError>(TaskError::BackoffExhausted) && *final(self) == *old(self),
            r is Ok ==> final(self).estimate_ms == after_ema_failure(
                old(self).estimate_ms as int,
                clamp_wait(sample_ms as int),
            ) && final(self).failures == old(self).failures + 1,
    {
        if self.failures + 1 >= MAX_TOTAL_FAILS {
            return Err(TaskError::BackoffExhausted);
        }
        let e = move_toward(self.estimate_ms, clamp_exec(sample_ms), EMA_FAILURE_WEIGHT, true);
        self.estimate_ms = e;
        self.failures = self.failures + 1;
        Ok(())
    }

    /// The wait before the next attempt.
    pub fn wait_time_ms(&self) -> (r: u64)
        requires
            self.wf(),
        ensures
            r == self.estimate_ms,
            MIN_WAIT_MS <= r <= MAX_WAIT_MS,
    {
        self.estimate_ms
    }
}

fn clamp_exec(x: u64) -> (r: u64)
    ensures
        r == clamp_wait(x as int),
{
    if x < MIN_WAIT_MS {
        MIN_WAIT_MS
    } else if x > MAX_WAIT_MS {
        MAX_WAIT_MS
    } else {
        x
    }
}

proof fn lemma_shares(weight: int, gap: int)
    requires
        0 <= weight <= WEIGHT_SCALE,
        gap >= 0,
    ensures
        0 <= share_down(weight, gap) <= share_up(weight, gap) <= gap,
{
    let d = WEIGHT_SCALE as int;
    assert(0 <= weight * gap <= d * gap) by (nonlinear_arith)
        requires
            0 <= weight <= d,
            gap >= 0,
    ;
    lemma_div_is_ordered(0, weight * gap, d);
    lemma_div_is_ordered(weight * gap, weight * gap + d - 1, d);
    lemma_div_is_ordered(weight * gap + d - 1, d * gap + d - 1, d);
    lemma_hoist_over_denominator(d - 1, gap, WEIGHT_SCALE as nat);
    assert((d - 1) / d == 0);
    assert(gap * d == d * gap) by (nonlinear_arith);
}

/// Moves `estimate` toward `sample` by `weight` thousandths of the gap,
/// rounded up when `round_up`, else down.
fn move_toward(estimate: u64, sample: u64, weight: u64, round_up: bool) -> (r: u64)
    requires
        MIN_WAIT_MS <= estimate <= MAX_WAIT_MS,
        MIN_WAIT_MS <= sample <= MAX_WAIT_MS,
        weight <= WEIGHT_SCALE,
    ensures
        r == step_toward(
            estimate as int,
            sample as int,
            if round_up {
                share_up(weight as int, distance(estimate as int, sample as int))
            } else {
                share_down(weight as int, distance(estimate as int, sample as int))
            },
        ),
        MIN_WAIT_MS <= r <= MAX_WAIT_MS,
{
    let gap = if sample >= estimate {
        sample - estimate
    } else {
        estimate - sample
    };
    proof {
        lemma_shares(weight as int, gap as int);
    }
    assert(weight * gap <= 1000 * 10_000) by (nonlinear_arith)
        requires
            weight <= 1000,
            gap <= 10_000,
    ;
    let amount = if round_up {
        (weight * gap + WEIGHT_SCALE - 1) / WEIGHT_SCALE
    } else {
        (weight * gap) / WEIGHT_SCALE
    };
    if sample >= estimate {
        estimate + amount
    } else {
        estimate - amount
    }
}

/// A failure moves the estimate strictly further toward its sample than a
/// success moves it toward a sample at the same nonzero gap, and so leaves it
/// strictly closer; at no gap does either overshoot.
pub proof fn lemma_failure_reacts_faster(estimate: int, sample: int)
    requires
        MIN_WAIT_MS <= estimate <= MAX_WAIT_MS,
        MIN_WAIT_MS <= sample <= MAX_WAIT_MS,
    ensures
        distance(after_ema_failure(estimate, sample), sample) <= distance(
            after_ema_success(estimate, sample),
            sample,
        ),
        estimate != sample ==> distance(after_ema_failure(estimate, sample), estimate) > distance(
            after_ema_success(estimate, sample),
            estimate,
        ),
        estimate != sample ==> distance(after_ema_failure(estimate, sample), sample) < distance(
            after_ema_success(estimate, sample),
            sample,
        ),
{
    let d = WEIGHT_SCALE as int;
    let wf = EMA_FAILURE_WEIGHT as int;
    let ws = EMA_SUCCESS_WEIGHT as int;
    let g = distance(estimate, sample);
    lemma_shares(wf, g);
    lemma_shares(ws, g);
    if g > 0 {
        assert(ws * g + 1 <= wf * g) by (nonlinear_arith)
            requires
                ws + 1 <= wf,
                g > 0,
        ;
        lemma_div_is_ordered(ws * g + d, wf * g + d - 1, d);
        lemma_hoist_over_denominator(ws * g, 1, WEIGHT_SCALE as nat);
    }
}

} // verus!
