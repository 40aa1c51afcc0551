use ethbatch::clock::get_timestamp;

#[test]
fn timestamp_is_a_recent_epoch_millisecond_count() {
    let ts = get_timestamp();
    // Milliseconds since the Unix epoch: any sane clock sits well past
    // the year 2020 (1_600_000_000_000) and far under the year 3000.
    assert!(ts > 1_600_000_000_000);
    assert!(ts < 32_500_000_000_000);
}
