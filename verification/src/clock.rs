//! Wall-clock timestamps for per-job latency measurement.

use vstd::prelude::*;

verus! {

/// Relies on std::time::SystemTime::now and duration_since(UNIX_EPOCH):
/// the wall-clock time as milliseconds since the Unix epoch. Two calls
/// need not agree (the clock may be adjusted between them), so nothing
/// is promised of the result. Fails fatally if the system clock
/// predates the epoch, as the driver requires.
#[verifier::external_body]
fn system_now_ms() -> u128 {
    std::time::SystemTime::now()
        .duration_since(std::time::UNIX_EPOCH)
        .expect("SystemTime before UNIX EPOCH!")
        .as_millis()
}

/// The wall-clock time in milliseconds since the Unix epoch. The value
/// depends on the machine clock alone; the driver reads it before and
/// after each job and records the difference for successful jobs.
pub fn get_timestamp() -> u128 {
    system_now_ms()
}

} // verus!
