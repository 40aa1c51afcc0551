//! The latency registry: totals of successful jobs and a bounded trailing
//! window of cumulative-average latencies, read by the controller.

use vstd::prelude::*;

use crate::WINDOW_MAX;

verus! {

/// Cumulative mean latency after a success, in whole milliseconds.
pub open spec fn cumulative_avg(total_elapsed_ms: u128, successes: u32) -> u128
    recommends
        successes > 0,
{
    (total_elapsed_ms as int / successes as int) as u128
}

/// The trailing `WINDOW_MAX` entries of a sequence of averages: what a
/// bounded window retains of it once the oldest entries are dropped.
pub open spec fn trailing(averages: Seq<u128>) -> Seq<u128> {
    if averages.len() <= WINDOW_MAX {
        averages
    } else {
        averages.subrange(averages.len() as int - WINDOW_MAX as int, averages.len() as int)
    }
}

/// The window after appending one average: the newest entry goes to the
/// tail, and the oldest entries are dropped until at most `WINDOW_MAX`
/// remain.
pub open spec fn window_after_append(window: Seq<u128>, avg: u128) -> Seq<u128> {
    trailing(window.push(avg))
}

/// Appending to a bounded window commutes with trimming: feeding one
/// more average to the trailing window of a history gives the trailing
/// window of the extended history.
pub proof fn lemma_trailing_append(averages: Seq<u128>, avg: u128)
    ensures
        window_after_append(trailing(averages), avg) == trailing(averages.push(avg)),
{
    if averages.len() < WINDOW_MAX {
        assert(window_after_append(trailing(averages), avg) =~= trailing(averages.push(avg)));
    } else {
        assert(trailing(averages).push(avg) =~= averages.push(avg).subrange(
            averages.len() as int - WINDOW_MAX as int,
            averages.len() as int + 1,
        ));
        assert(window_after_append(trailing(averages), avg) =~= trailing(averages.push(avg)));
    }
}

/// The average latency reported to the caller of a finished batch: the
/// integer mean of the recorded successes, or zero when none succeeded.
pub fn reported_average(successes: u32, total_elapsed_ms: u128) -> (r: u128)
    ensures
        successes == 0 ==> r == 0,
        successes > 0 ==> r == cumulative_avg(total_elapsed_ms, successes),
{
    if successes == 0 {
        0
    } else {
        total_elapsed_ms / (successes as u128)
    }
}

/// Accumulator of success count, total elapsed time, and the trailing
/// window of cumulative-average latencies.
pub struct LatencyRegistry {
    /// Number of jobs recorded as successful.
    pub successes: u32,
    /// Sum of the elapsed milliseconds of all recorded successes.
    pub total_elapsed_ms: u128,
    /// Trailing cumulative averages, newest at the tail.
    pub window: Vec<u128>,
}

impl LatencyRegistry {
    /// Well-formedness: the window is bounded, and its newest entry is the
    /// cumulative mean of what has been recorded so far.
    pub open spec fn wf(&self) -> bool {
        &&& self.window@.len() <= WINDOW_MAX
        &&& self.successes == 0 ==> self.total_elapsed_ms == 0 && self.window@.len() == 0
        &&& self.successes > 0 ==> self.window@.len() > 0 && self.window@.last()
            == cumulative_avg(self.total_elapsed_ms, self.successes)
    }

    /// An empty registry: nothing recorded, empty window.
    pub fn new() -> (r: LatencyRegistry)
        ensures
            r.wf(),
            r.successes == 0,
            r.total_elapsed_ms == 0,
            r.window@ =~= Seq::<u128>::empty(),
    {
        LatencyRegistry { successes: 0, total_elapsed_ms: 0, window: Vec::new() }
    }

    /// Record one successful job: count it, add its elapsed time, append
    /// the new cumulative average to the window, and trim the window to
    /// `WINDOW_MAX` entries by dropping the oldest.
    pub fn record_success(&mut self, elapsed_ms: u128)
        requires
            old(self).wf(),
            old(self).successes < u32::MAX,
            old(self).total_elapsed_ms + elapsed_ms <= u128::MAX,
        ensures
            final(self).wf(),
            final(self).successes == old(self).successes + 1,
            final(self).total_elapsed_ms == old(self).total_elapsed_ms + elapsed_ms,
            final(self).window@ == window_after_append(
                old(self).window@,
                cumulative_avg(final(self).total_elapsed_ms, final(self).successes),
            ),
    {
        self.successes = self.successes + 1;
        self.total_elapsed_ms = self.total_elapsed_ms + elapsed_ms;
        let avg = self.total_elapsed_ms / (self.successes as u128);
        self.window.push(avg);
        if self.window.len() > WINDOW_MAX {
            self.window.remove(0);
        }
        proof {
            assert(self.window@ =~= window_after_append(
                old(self).window@,
                cumulative_avg(self.total_elapsed_ms, self.successes),
            ));
        }
    }

    /// A copy of the current window, for the controller to inspect.
    pub fn snapshot_window(&self) -> (w: Vec<u128>)
        ensures
            w@ == self.window@,
    {
        let mut w: Vec<u128> = Vec::new();
        let mut i: usize = 0;
        while i < self.window.len()
            invariant
                i <= self.window@.len(),
                w@ =~= self.window@.subrange(0, i as int),
            decreases self.window@.len() - i,
        {
            w.push(self.window[i]);
            i = i + 1;
        }
        proof {
            assert(w@ =~= self.window@);
        }
        w
    }

    /// The pair read back by the dispatcher once the batch has drained.
    pub fn totals(&self) -> (r: (u32, u128))
        ensures
            r.0 == self.successes,
            r.1 == self.total_elapsed_ms,
    {
        (self.successes, self.total_elapsed_ms)
    }
}

} // verus!
