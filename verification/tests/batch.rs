use ethbatch::executor::{run_batch, Executor, JobOutcome};
use ethbatch::INITIAL_LIMIT;

#[test]
fn empty_batch_reports_zero() {
    assert_eq!(run_batch(&Vec::new()), (0, 0));
}

#[test]
fn all_instant_successes_are_each_recorded() {
    let jobs = vec![JobOutcome::Success { elapsed_ms: 0 }; 7];
    assert_eq!(run_batch(&jobs), (7, 0));
}

#[test]
fn all_failures_report_zero() {
    let jobs = vec![JobOutcome::Failure; 20];
    assert_eq!(run_batch(&jobs), (0, 0));
}

#[test]
fn successes_never_exceed_batch_size() {
    let jobs = vec![
        JobOutcome::Success { elapsed_ms: 10 },
        JobOutcome::Failure,
        JobOutcome::Success { elapsed_ms: 30 },
    ];
    let (successes, total) = run_batch(&jobs);
    assert!(successes as usize <= jobs.len());
    assert_eq!((successes, total), (2, 40));
}

#[test]
fn total_is_the_sum_of_successful_elapsed_times() {
    let jobs = vec![
        JobOutcome::Success { elapsed_ms: 5 },
        JobOutcome::Success { elapsed_ms: 11 },
        JobOutcome::Failure,
        JobOutcome::Success { elapsed_ms: 100 },
        JobOutcome::Failure,
    ];
    assert_eq!(run_batch(&jobs), (3, 116));
}

#[test]
fn gate_tracks_in_flight_against_limit() {
    let mut state = Executor::new();
    assert_eq!(state.limit, INITIAL_LIMIT);
    assert!(!state.gate_closed());
    state.job_started();
    assert!(!state.gate_closed());
    state.job_started();
    assert!(state.gate_closed());
    state.job_finished(JobOutcome::Failure);
    assert!(!state.gate_closed());
    state.job_finished(JobOutcome::Success { elapsed_ms: 25 });
    assert_eq!(state.in_flight, 0);
    assert_eq!(state.totals(), (1, 25));
}
