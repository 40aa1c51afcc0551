use ethbatch::registry::{reported_average, LatencyRegistry};

#[test]
fn new_registry_is_empty() {
    let r = LatencyRegistry::new();
    assert_eq!(r.totals(), (0, 0));
    assert_eq!(r.snapshot_window(), Vec::<u128>::new());
}

#[test]
fn record_success_accumulates_totals_and_averages() {
    let mut r = LatencyRegistry::new();
    r.record_success(100);
    assert_eq!(r.totals(), (1, 100));
    assert_eq!(r.snapshot_window(), vec![100]);
    r.record_success(200);
    assert_eq!(r.totals(), (2, 300));
    assert_eq!(r.snapshot_window(), vec![100, 150]);
    r.record_success(40);
    // 340 / 3 rounds down to 113.
    assert_eq!(r.totals(), (3, 340));
    assert_eq!(r.snapshot_window(), vec![100, 150, 113]);
}

#[test]
fn window_is_trimmed_to_ten_entries_dropping_the_oldest() {
    let mut r = LatencyRegistry::new();
    for _ in 0..12 {
        r.record_success(50);
    }
    assert_eq!(r.totals(), (12, 600));
    let w = r.snapshot_window();
    assert_eq!(w.len(), 10);
    assert_eq!(w, vec![50; 10]);

    let mut r2 = LatencyRegistry::new();
    // Averages after each success: 110, 110, 110, ..., then a larger one.
    for _ in 0..10 {
        r2.record_success(110);
    }
    assert_eq!(r2.snapshot_window(), vec![110; 10]);
    // Eleventh success of 1210 ms: total 2310, average 210; the oldest
    // entry (110) leaves, the new average enters at the tail.
    r2.record_success(1210);
    let w2 = r2.snapshot_window();
    assert_eq!(w2.len(), 10);
    assert_eq!(w2[9], 210);
    assert_eq!(&w2[0..9], &[110; 9]);
}

#[test]
fn snapshot_is_a_copy() {
    let mut r = LatencyRegistry::new();
    r.record_success(70);
    let w = r.snapshot_window();
    r.record_success(90);
    assert_eq!(w, vec![70]);
    assert_eq!(r.snapshot_window(), vec![70, 80]);
}

#[test]
fn reported_average_guards_division_by_zero() {
    assert_eq!(reported_average(0, 0), 0);
    assert_eq!(reported_average(0, 999), 0);
    assert_eq!(reported_average(4, 1000), 250);
    assert_eq!(reported_average(3, 1000), 333);
}
