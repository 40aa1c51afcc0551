//! End-to-end batch scenarios driven on the per-batch state machine,
//! with a controller inspection interleaved after every job outcome.

use ethbatch::executor::{run_batch_with_controller, JobOutcome};
use ethbatch::{INITIAL_LIMIT, MIN_LIMIT};

#[test]
fn all_success_constant_latency() {
    let jobs = vec![JobOutcome::Success { elapsed_ms: 50 }; 20];
    let state = run_batch_with_controller(&jobs);
    assert_eq!(state.totals(), (20, 1000));
    // Every cumulative average is 50, so the window ends as ten
    // consecutive 50s and no adjustment ever moves the limit.
    assert_eq!(state.registry.snapshot_window(), vec![50; 10]);
    assert_eq!(state.limit, INITIAL_LIMIT);
}

#[test]
fn all_failure_leaves_everything_untouched() {
    let jobs = vec![JobOutcome::Failure; 20];
    let state = run_batch_with_controller(&jobs);
    assert_eq!(state.totals(), (0, 0));
    assert!(state.registry.snapshot_window().is_empty());
    assert_eq!(state.limit, INITIAL_LIMIT);
}

#[test]
fn rising_latency_doubles_the_limit() {
    let jobs: Vec<JobOutcome> =
        (1..=12).map(|k| JobOutcome::Success { elapsed_ms: 100 * k }).collect();
    let state = run_batch_with_controller(&jobs);
    assert_eq!(state.totals(), (12, 7800));
    // The controller saw a monotonically increasing window ...
    let window = state.registry.snapshot_window();
    for pair in window.windows(2) {
        assert!(pair[0] < pair[1]);
    }
    // ... and doubled the limit at least once.
    assert!(state.limit >= 2 * INITIAL_LIMIT);
}

#[test]
fn falling_latency_decrements_and_clamps_at_the_floor() {
    let jobs: Vec<JobOutcome> =
        (1..=12).map(|k| JobOutcome::Success { elapsed_ms: 100 * (13 - k) }).collect();
    let state = run_batch_with_controller(&jobs);
    assert_eq!(state.totals(), (12, 7800));
    assert_eq!(state.limit, MIN_LIMIT);
}

#[test]
fn mixed_successes_and_failures_count_only_successes() {
    let jobs: Vec<JobOutcome> = (0..10)
        .map(|k| {
            if k % 2 == 0 {
                JobOutcome::Success { elapsed_ms: 40 }
            } else {
                JobOutcome::Failure
            }
        })
        .collect();
    let state = run_batch_with_controller(&jobs);
    assert_eq!(state.totals(), (5, 200));
    assert_eq!(state.registry.snapshot_window(), vec![40; 5]);
}

#[test]
fn two_job_batch_never_adjusts_within_noise() {
    let jobs = vec![
        JobOutcome::Success { elapsed_ms: 30 },
        JobOutcome::Success { elapsed_ms: 50 },
    ];
    let state = run_batch_with_controller(&jobs);
    assert_eq!(state.totals(), (2, 80));
    // Window is the two cumulative averages 30 and 40: within the noise
    // threshold, the two-entry window leaves the limit alone.
    assert_eq!(state.registry.snapshot_window(), vec![30, 40]);
    assert_eq!(state.limit, INITIAL_LIMIT);
}
