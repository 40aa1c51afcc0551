//! Per-batch state and the accounting model of a batch.
//!
//! `Executor` owns everything one batch mutates: the latency registry,
//! the in-flight count and the in-flight limit. An asynchronous driver
//! steps it — `job_started` when a job is admitted, `job_finished` when
//! its future resolves, `controller_tick` when the controller inspects
//! the window — and reads `totals` once the batch has drained.
//! `run_batch` and `run_batch_with_controller` are sequential reference
//! executions over a list of job outcomes; they pin down the totals and
//! the window that any schedule of the same outcomes reports.

use vstd::prelude::*;

use crate::INITIAL_LIMIT;
use crate::MIN_LIMIT;
use crate::controller::adjustment_for;
use crate::controller::applied_limit;
use crate::controller::controller_step;
use crate::controller::delta_exceeds;
use crate::controller::lemma_flat_window_holds;
use crate::controller::Adjustment;
use crate::registry::LatencyRegistry;
use crate::registry::cumulative_avg;
use crate::registry::lemma_trailing_append;
use crate::registry::trailing;
use crate::registry::window_after_append;

verus! {

/// What one job's future resolved to, as the core sees it: the failure
/// payload never reaches the core, and a success carries only the
/// elapsed time observed around the await.
#[derive(Clone, Copy, Debug, PartialEq, Eq, Structural)]
pub enum JobOutcome {
    /// The job succeeded after the given number of milliseconds.
    Success { elapsed_ms: u128 },
    /// The job failed; it leaves no trace in the statistics.
    Failure,
}

/// How many of the outcomes are successes.
pub open spec fn success_count(outcomes: Seq<JobOutcome>) -> int
    decreases outcomes.len(),
{
    if outcomes.len() == 0 {
        0
    } else {
        success_count(outcomes.drop_last()) + if outcomes.last() is Success {
            1int
        } else {
            0int
        }
    }
}

/// The sum of the observed elapsed times of the successful outcomes.
pub open spec fn success_total(outcomes: Seq<JobOutcome>) -> int
    decreases outcomes.len(),
{
    if outcomes.len() == 0 {
        0
    } else {
        success_total(outcomes.drop_last()) + match outcomes.last() {
            JobOutcome::Success { elapsed_ms } => elapsed_ms as int,
            JobOutcome::Failure => 0int,
        }
    }
}

/// There are never more successes than jobs, and never fewer than none.
pub proof fn lemma_success_count_bounds(outcomes: Seq<JobOutcome>)
    ensures
        0 <= success_count(outcomes) <= outcomes.len(),
    decreases outcomes.len(),
{
    if outcomes.len() > 0 {
        lemma_success_count_bounds(outcomes.drop_last());
    }
}

/// The elapsed total of a batch is never negative.
pub proof fn lemma_success_total_nonneg(outcomes: Seq<JobOutcome>)
    ensures
        success_total(outcomes) >= 0,
    decreases outcomes.len(),
{
    if outcomes.len() > 0 {
        lemma_success_total_nonneg(outcomes.drop_last());
    }
}

/// Counting and summing a prefix never overshoots the whole batch.
pub proof fn lemma_prefix_totals_le(outcomes: Seq<JobOutcome>, i: int)
    requires
        0 <= i <= outcomes.len(),
    ensures
        success_count(outcomes.subrange(0, i)) <= success_count(outcomes),
        success_total(outcomes.subrange(0, i)) <= success_total(outcomes),
    decreases outcomes.len() - i,
{
    if i == outcomes.len() {
        assert(outcomes.subrange(0, i) =~= outcomes);
    } else {
        let longer = outcomes.subrange(0, i + 1);
        assert(longer.drop_last() =~= outcomes.subrange(0, i));
        lemma_prefix_totals_le(outcomes, i + 1);
    }
}

/// In a batch where every job succeeds, every job is recorded: the
/// success count equals the batch size.
pub proof fn lemma_all_success_counted(outcomes: Seq<JobOutcome>)
    requires
        forall|i: int| 0 <= i < outcomes.len() ==> outcomes[i] is Success,
    ensures
        success_count(outcomes) == outcomes.len(),
    decreases outcomes.len(),
{
    if outcomes.len() > 0 {
        lemma_all_success_counted(outcomes.drop_last());
    }
}

/// A batch where every job fails reports no successes and no elapsed
/// time.
pub proof fn lemma_all_failure_zero(outcomes: Seq<JobOutcome>)
    requires
        forall|i: int| 0 <= i < outcomes.len() ==> outcomes[i] is Failure,
    ensures
        success_count(outcomes) == 0,
        success_total(outcomes) == 0,
    decreases outcomes.len(),
{
    if outcomes.len() > 0 {
        lemma_all_failure_zero(outcomes.drop_last());
    }
}

/// The cumulative average latency after each success, in the order the
/// outcomes were recorded: the full history that the bounded window
/// trails.
pub open spec fn averages_of(outcomes: Seq<JobOutcome>) -> Seq<u128>
    decreases outcomes.len(),
{
    if outcomes.len() == 0 {
        Seq::empty()
    } else {
        let rest = averages_of(outcomes.drop_last());
        if outcomes.last() is Success {
            rest.push(
                cumulative_avg(
                    success_total(outcomes) as u128,
                    success_count(outcomes) as u32,
                ),
            )
        } else {
            rest
        }
    }
}

/// In a batch whose successful jobs all took the same time, every
/// cumulative average equals that time, there is one average per
/// success, and the elapsed total is that time taken once per success.
pub proof fn lemma_uniform_success_averages(outcomes: Seq<JobOutcome>, c: u128)
    requires
        outcomes.len() <= u32::MAX,
        c * outcomes.len() <= u128::MAX,
        forall|i: int|
            0 <= i < outcomes.len() ==> (#[trigger] outcomes[i] matches JobOutcome::Success {
                elapsed_ms,
            } ==> elapsed_ms == c),
    ensures
        success_total(outcomes) == c * success_count(outcomes),
        averages_of(outcomes).len() == success_count(outcomes),
        forall|i: int| 0 <= i < averages_of(outcomes).len() ==> averages_of(outcomes)[i] == c,
    decreases outcomes.len(),
{
    lemma_success_count_bounds(outcomes);
    if outcomes.len() > 0 {
        let n = outcomes.len() as int;
        let rest = outcomes.drop_last();
        assert((c as int) * (n - 1) == (c as int) * n - (c as int)) by (nonlinear_arith);
        lemma_uniform_success_averages(rest, c);
        if outcomes.last() is Success {
            let k = success_count(outcomes);
            assert(outcomes[n - 1] matches JobOutcome::Success { elapsed_ms } ==> elapsed_ms
                == c);
            assert(success_total(outcomes) == c * (k - 1) + c);
            assert((c as int) * (k - 1) + (c as int) == (c as int) * k) by (nonlinear_arith);
            assert(0 <= (c as int) * k <= (c as int) * n) by (nonlinear_arith)
                requires
                    0 <= c as int,
                    0 <= k <= n,
            ;
            vstd::arithmetic::div_mod::lemma_div_multiples_vanish(c as int, k);
            assert((k * (c as int)) / k == c as int);
            assert((c as int) * k == k * (c as int)) by (nonlinear_arith);
            assert((success_total(outcomes) as u128) as int == (c as int) * k);
            assert((success_count(outcomes) as u32) as int == k);
            assert(cumulative_avg(
                success_total(outcomes) as u128,
                success_count(outcomes) as u32,
            ) == c);
        }
    }
}

/// A batch whose successful jobs all took the same time leaves the
/// controller idle: every window it can observe is flat, so no
/// adjustment ever moves the limit.
pub proof fn lemma_uniform_success_no_adjustment(outcomes: Seq<JobOutcome>, c: u128)
    requires
        outcomes.len() <= u32::MAX,
        c * outcomes.len() <= u128::MAX,
        forall|i: int|
            0 <= i < outcomes.len() ==> (#[trigger] outcomes[i] matches JobOutcome::Success {
                elapsed_ms,
            } ==> elapsed_ms == c),
    ensures
        adjustment_for(trailing(averages_of(outcomes))) == Adjustment::Hold,
{
    lemma_uniform_success_averages(outcomes, c);
    let window = trailing(averages_of(outcomes));
    assert(forall|i: int| 0 <= i < window.len() ==> window[i] == c);
    assert(forall|i: int, j: int|
        0 <= i < window.len() && 0 <= j < window.len() ==> !delta_exceeds(
            window[i],
            window[j],
        ));
    lemma_flat_window_holds(window);
}

/// Everything one batch mutates while it runs.
pub struct Executor {
    /// Success totals and the trailing window of averages.
    pub registry: LatencyRegistry,
    /// Jobs admitted whose outcome has not yet been handed back.
    pub in_flight: u32,
    /// Current maximum permitted in-flight count.
    pub limit: u32,
}

impl Executor {
    /// Well-formedness: the registry is consistent and the limit never
    /// sits under its floor.
    pub open spec fn wf(&self) -> bool {
        &&& self.registry.wf()
        &&& self.limit >= MIN_LIMIT
    }

    /// Fresh per-batch state: nothing recorded, nothing in flight, the
    /// limit at its initial value.
    pub fn new() -> (r: Executor)
        ensures
            r.wf(),
            r.registry.successes == 0,
            r.registry.total_elapsed_ms == 0,
            r.registry.window@ =~= Seq::<u128>::empty(),
            r.in_flight == 0,
            r.limit == INITIAL_LIMIT,
    {
        Executor { registry: LatencyRegistry::new(), in_flight: 0, limit: INITIAL_LIMIT }
    }

    /// The admission gate is closed: as many jobs are in flight as the
    /// limit allows. The driver must not admit another job while this
    /// holds.
    pub fn gate_closed(&self) -> (r: bool)
        ensures
            r == (self.limit <= self.in_flight),
    {
        self.limit <= self.in_flight
    }

    /// Admit one job. Admission through an open gate never pushes the
    /// in-flight count past the limit.
    pub fn job_started(&mut self)
        requires
            old(self).in_flight < u32::MAX,
        ensures
            final(self).in_flight == old(self).in_flight + 1,
            final(self).registry == old(self).registry,
            final(self).limit == old(self).limit,
            old(self).wf() ==> final(self).wf(),
            old(self).in_flight < old(self).limit ==> final(self).in_flight <= final(self).limit,
    {
        self.in_flight = self.in_flight + 1;
    }

    /// Hand back one job's outcome: a success is recorded in the
    /// registry, a failure leaves it untouched; either way the job is no
    /// longer in flight.
    pub fn job_finished(&mut self, outcome: JobOutcome)
        requires
            old(self).wf(),
            old(self).in_flight >= 1,
            old(self).registry.successes < u32::MAX,
            (outcome matches JobOutcome::Success { elapsed_ms } ==> old(
                self,
            ).registry.total_elapsed_ms + elapsed_ms <= u128::MAX),
        ensures
            final(self).wf(),
            final(self).in_flight == old(self).in_flight - 1,
            final(self).limit == old(self).limit,
            (outcome matches JobOutcome::Success { elapsed_ms } ==> {
                &&& final(self).registry.successes == old(self).registry.successes + 1
                &&& final(self).registry.total_elapsed_ms == old(self).registry.total_elapsed_ms
                    + elapsed_ms
                &&& final(self).registry.window@ == window_after_append(
                    old(self).registry.window@,
                    cumulative_avg(
                        final(self).registry.total_elapsed_ms,
                        final(self).registry.successes,
                    ),
                )
            }),
            outcome is Failure ==> final(self).registry == old(self).registry,
    {
        match outcome {
            JobOutcome::Success { elapsed_ms } => {
                self.registry.record_success(elapsed_ms);
            },
            JobOutcome::Failure => {},
        }
        self.in_flight = self.in_flight - 1;
    }

    /// One controller iteration: read the window, adjust the limit. The
    /// registry and the in-flight count are untouched, and the limit
    /// stays at or above its floor.
    pub fn controller_tick(&mut self)
        requires
            old(self).wf(),
        ensures
            final(self).wf(),
            final(self).registry == old(self).registry,
            final(self).in_flight == old(self).in_flight,
            final(self).limit == applied_limit(
                old(self).limit,
                adjustment_for(old(self).registry.window@),
            ),
            old(self).registry.window@.len() <= 1 ==> final(self).limit == old(self).limit,
    {
        let window = self.registry.snapshot_window();
        self.limit = controller_step(&window, self.limit);
    }

    /// The batch result: the success count and the total elapsed time of
    /// the recorded successes.
    pub fn totals(&self) -> (r: (u32, u128))
        ensures
            r.0 == self.registry.successes,
            r.1 == self.registry.total_elapsed_ms,
    {
        self.registry.totals()
    }
}

/// The sequential reference execution of a batch: each job is admitted
/// and its outcome handed back in order. The result it pins down — the
/// number of successes and the sum of their observed elapsed times — is
/// the one any interleaving of the same outcomes reports, since each
/// success is recorded exactly once.
pub fn run_batch(outcomes: &Vec<JobOutcome>) -> (r: (u32, u128))
    requires
        outcomes@.len() <= u32::MAX,
        success_total(outcomes@) <= u128::MAX,
    ensures
        r.0 as int == success_count(outcomes@),
        r.1 as int == success_total(outcomes@),
        r.0 <= outcomes@.len(),
{
    let mut state = Executor::new();
    let mut i: usize = 0;
    while i < outcomes.len()
        invariant
            i <= outcomes@.len(),
            outcomes@.len() <= u32::MAX,
            success_total(outcomes@) <= u128::MAX,
            state.wf(),
            state.in_flight == 0,
            state.registry.successes as int == success_count(outcomes@.subrange(0, i as int)),
            state.registry.total_elapsed_ms as int == success_total(
                outcomes@.subrange(0, i as int),
            ),
        decreases outcomes@.len() - i,
    {
        proof {
            let pre = outcomes@.subrange(0, i as int);
            let post = outcomes@.subrange(0, i as int + 1);
            assert(post.drop_last() =~= pre);
            lemma_success_count_bounds(pre);
            lemma_success_total_nonneg(pre);
            lemma_prefix_totals_le(outcomes@, i as int + 1);
        }
        state.job_started();
        state.job_finished(outcomes[i]);
        i = i + 1;
    }
    proof {
        assert(outcomes@.subrange(0, outcomes@.len() as int) =~= outcomes@);
        lemma_success_count_bounds(outcomes@);
    }
    state.totals()
}

/// The reference execution with the controller in the loop: after every
/// outcome the controller inspects the window and may move the limit.
/// The accounting is untouched by its activity — the final totals are
/// exactly those of the outcomes, and the window holds the trailing
/// cumulative averages of the successes — and the limit never leaves
/// its floor, wherever the controller steers it.
pub fn run_batch_with_controller(outcomes: &Vec<JobOutcome>) -> (state: Executor)
    requires
        outcomes@.len() <= u32::MAX,
        success_total(outcomes@) <= u128::MAX,
    ensures
        state.wf(),
        state.in_flight == 0,
        state.registry.successes as int == success_count(outcomes@),
        state.registry.total_elapsed_ms as int == success_total(outcomes@),
        state.registry.window@ == trailing(averages_of(outcomes@)),
        state.limit >= MIN_LIMIT,
{
    let mut state = Executor::new();
    let mut i: usize = 0;
    while i < outcomes.len()
        invariant
            i <= outcomes@.len(),
            outcomes@.len() <= u32::MAX,
            success_total(outcomes@) <= u128::MAX,
            state.wf(),
            state.in_flight == 0,
            state.registry.successes as int == success_count(outcomes@.subrange(0, i as int)),
            state.registry.total_elapsed_ms as int == success_total(
                outcomes@.subrange(0, i as int),
            ),
            state.registry.window@ == trailing(
                averages_of(outcomes@.subrange(0, i as int)),
            ),
        decreases outcomes@.len() - i,
    {
        proof {
            let pre = outcomes@.subrange(0, i as int);
            let post = outcomes@.subrange(0, i as int + 1);
            assert(post.drop_last() =~= pre);
            lemma_success_count_bounds(pre);
            lemma_success_total_nonneg(pre);
            lemma_prefix_totals_le(outcomes@, i as int + 1);
            if post.last() is Success {
                lemma_trailing_append(
                    averages_of(pre),
                    cumulative_avg(success_total(post) as u128, success_count(post) as u32),
                );
            }
        }
        state.job_started();
        state.job_finished(outcomes[i]);
        state.controller_tick();
        i = i + 1;
    }
    proof {
        assert(outcomes@.subrange(0, outcomes@.len() as int) =~= outcomes@);
    }
    state
}

} // verus!

