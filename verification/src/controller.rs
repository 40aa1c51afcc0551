//! The controller's decision rule: from the trailing window of average
//! latencies, raise, lower or keep the in-flight limit.
//!
//! The heuristic inherited by this driver reads a rising latency trend as
//! a sign that more parallelism is currently helping, so it doubles the
//! limit; a falling trend lowers the limit by one, never under
//! `MIN_LIMIT`.

use vstd::prelude::*;

use crate::DELTA_RANGE_MS;
use crate::MIN_LIMIT;

verus! {

/// `a` exceeds `b` by more than the noise threshold `DELTA_RANGE_MS`.
pub open spec fn delta_exceeds(a: u128, b: u128) -> bool {
    a > b && a - b > DELTA_RANGE_MS
}

/// How many of `others` the newest average exceeds by more than the
/// threshold.
pub open spec fn count_bigger(others: Seq<u128>, last: u128) -> int
    decreases others.len(),
{
    if others.len() == 0 {
        0
    } else {
        count_bigger(others.drop_last(), last) + if delta_exceeds(last, others.last()) {
            1int
        } else {
            0int
        }
    }
}

/// How many of `others` exceed the newest average by more than the
/// threshold.
pub open spec fn count_smaller(others: Seq<u128>, last: u128) -> int
    decreases others.len(),
{
    if others.len() == 0 {
        0
    } else {
        count_smaller(others.drop_last(), last) + if delta_exceeds(others.last(), last) {
            1int
        } else {
            0int
        }
    }
}

/// The controller's verdict on one window snapshot.
#[derive(Clone, Copy, Debug, PartialEq, Eq, Structural)]
pub enum Adjustment {
    /// Double the limit.
    Raise,
    /// Lower the limit by one, clamped at `MIN_LIMIT`.
    Lower,
    /// Leave the limit as it is.
    Hold,
}

/// The verdict for a window: with one entry or none there is nothing to
/// compare and the limit stands. Otherwise the newest average is held
/// against every earlier entry; a majority of clearly slower entries
/// raises, a majority of clearly faster ones lowers, and a tie falls back
/// to comparing the newest entry against the one before it.
pub open spec fn adjustment_for(window: Seq<u128>) -> Adjustment {
    if window.len() <= 1 {
        Adjustment::Hold
    } else {
        let last = window.last();
        let others = window.drop_last();
        let big = count_bigger(others, last);
        let less = count_smaller(others, last);
        if big > less {
            Adjustment::Raise
        } else if big < less {
            Adjustment::Lower
        } else {
            let prev = window[window.len() as int - 2];
            if delta_exceeds(last, prev) {
                Adjustment::Raise
            } else if delta_exceeds(prev, last) {
                Adjustment::Lower
            } else {
                Adjustment::Hold
            }
        }
    }
}

/// The limit after a verdict is applied: doubling saturates at
/// `u32::MAX`, lowering is clamped at `MIN_LIMIT`.
pub open spec fn applied_limit(limit: u32, adj: Adjustment) -> u32 {
    match adj {
        Adjustment::Raise => if limit <= u32::MAX / 2 {
            (2 * limit) as u32
        } else {
            u32::MAX
        },
        Adjustment::Lower => if limit > MIN_LIMIT {
            (limit - 1) as u32
        } else {
            MIN_LIMIT
        },
        Adjustment::Hold => limit,
    }
}

proof fn lemma_count_bigger_nonneg(others: Seq<u128>, last: u128)
    ensures
        count_bigger(others, last) >= 0,
    decreases others.len(),
{
    if others.len() > 0 {
        lemma_count_bigger_nonneg(others.drop_last(), last);
    }
}

proof fn lemma_count_smaller_nonneg(others: Seq<u128>, last: u128)
    ensures
        count_smaller(others, last) >= 0,
    decreases others.len(),
{
    if others.len() > 0 {
        lemma_count_smaller_nonneg(others.drop_last(), last);
    }
}

proof fn lemma_count_bigger_zero(others: Seq<u128>, last: u128)
    requires
        forall|i: int| 0 <= i < others.len() ==> !delta_exceeds(last, others[i]),
    ensures
        count_bigger(others, last) == 0,
    decreases others.len(),
{
    if others.len() > 0 {
        lemma_count_bigger_zero(others.drop_last(), last);
    }
}

proof fn lemma_count_smaller_zero(others: Seq<u128>, last: u128)
    requires
        forall|i: int| 0 <= i < others.len() ==> !delta_exceeds(others[i], last),
    ensures
        count_smaller(others, last) == 0,
    decreases others.len(),
{
    if others.len() > 0 {
        lemma_count_smaller_zero(others.drop_last(), last);
    }
}

proof fn lemma_count_bigger_pos(others: Seq<u128>, last: u128, i: int)
    requires
        0 <= i < others.len(),
        delta_exceeds(last, others[i]),
    ensures
        count_bigger(others, last) >= 1,
    decreases others.len(),
{
    lemma_count_bigger_nonneg(others.drop_last(), last);
    if i < others.len() - 1 {
        lemma_count_bigger_pos(others.drop_last(), last, i);
    }
}

proof fn lemma_count_smaller_pos(others: Seq<u128>, last: u128, i: int)
    requires
        0 <= i < others.len(),
        delta_exceeds(others[i], last),
    ensures
        count_smaller(others, last) >= 1,
    decreases others.len(),
{
    lemma_count_smaller_nonneg(others.drop_last(), last);
    if i < others.len() - 1 {
        lemma_count_smaller_pos(others.drop_last(), last, i);
    }
}

/// A window whose entries all sit within the noise threshold of one
/// another never moves the limit: a batch with constant latency leaves
/// the controller idle.
pub proof fn lemma_flat_window_holds(window: Seq<u128>)
    requires
        forall|i: int, j: int|
            0 <= i < window.len() && 0 <= j < window.len() ==> !delta_exceeds(
                window[i],
                window[j],
            ),
    ensures
        adjustment_for(window) == Adjustment::Hold,
{
    if window.len() > 1 {
        let last = window.last();
        let others = window.drop_last();
        assert(forall|i: int| 0 <= i < others.len() ==> !delta_exceeds(last, others[i]));
        assert(forall|i: int| 0 <= i < others.len() ==> !delta_exceeds(others[i], last));
        lemma_count_bigger_zero(others, last);
        lemma_count_smaller_zero(others, last);
    }
}

/// A window whose newest entry clearly exceeds some earlier entry, while
/// no earlier entry clearly exceeds it, makes the controller raise the
/// limit: rising latency is read as headroom and doubles the budget.
pub proof fn lemma_rising_window_raises(window: Seq<u128>)
    requires
        window.len() > 1,
        forall|i: int| 0 <= i < window.len() - 1 ==> !delta_exceeds(window[i], window.last()),
        exists|i: int| 0 <= i < window.len() - 1 && delta_exceeds(window.last(), window[i]),
    ensures
        adjustment_for(window) == Adjustment::Raise,
{
    let last = window.last();
    let others = window.drop_last();
    let i = choose|i: int| 0 <= i < window.len() - 1 && delta_exceeds(window.last(), window[i]);
    lemma_count_bigger_pos(others, last, i);
    lemma_count_smaller_zero(others, last);
}

/// A window whose newest entry is clearly under some earlier entry,
/// while no earlier entry is clearly under it, makes the controller
/// lower the limit by one.
pub proof fn lemma_falling_window_lowers(window: Seq<u128>)
    requires
        window.len() > 1,
        forall|i: int| 0 <= i < window.len() - 1 ==> !delta_exceeds(window.last(), window[i]),
        exists|i: int| 0 <= i < window.len() - 1 && delta_exceeds(window[i], window.last()),
    ensures
        adjustment_for(window) == Adjustment::Lower,
{
    let last = window.last();
    let others = window.drop_last();
    let i = choose|i: int| 0 <= i < window.len() - 1 && delta_exceeds(window[i], window.last());
    lemma_count_smaller_pos(others, last, i);
    lemma_count_bigger_zero(others, last);
}

/// In a two-entry window a tie between the majority counts never
/// adjusts the limit: the tie-breaking comparison falls back on the
/// single earlier entry, which the tie already showed to be within the
/// noise threshold.
pub proof fn lemma_two_entry_tie_holds(window: Seq<u128>)
    requires
        window.len() == 2,
        count_bigger(window.drop_last(), window.last()) == count_smaller(
            window.drop_last(),
            window.last(),
        ),
    ensures
        adjustment_for(window) == Adjustment::Hold,
{
    let last = window.last();
    let others = window.drop_last();
    assert(others.drop_last() =~= Seq::<u128>::empty());
    assert(count_bigger(others.drop_last(), last) == 0);
    assert(count_smaller(others.drop_last(), last) == 0);
    assert(count_bigger(others, last) == if delta_exceeds(last, others.last()) {
        1int
    } else {
        0int
    });
    assert(count_smaller(others, last) == if delta_exceeds(others.last(), last) {
        1int
    } else {
        0int
    });
}

/// Compute the verdict for a window snapshot.
pub fn window_adjustment(window: &Vec<u128>) -> (adj: Adjustment)
    ensures
        adj == adjustment_for(window@),
{
    if window.len() <= 1 {
        return Adjustment::Hold;
    }
    let last = window[window.len() - 1];
    let mut big: usize = 0;
    let mut less: usize = 0;
    let mut i: usize = 0;
    while i < window.len() - 1
        invariant
            window@.len() > 1,
            i <= window@.len() - 1,
            last == window@.last(),
            big <= i,
            less <= i,
            big as int == count_bigger(window@.subrange(0, i as int), last),
            less as int == count_smaller(window@.subrange(0, i as int), last),
        decreases window@.len() - 1 - i,
    {
        let cost = window[i];
        if last > cost && last - cost > DELTA_RANGE_MS {
            big = big + 1;
        }
        if cost > last && cost - last > DELTA_RANGE_MS {
            less = less + 1;
        }
        i = i + 1;
        proof {
            let pre = window@.subrange(0, i as int);
            assert(pre.drop_last() =~= window@.subrange(0, i as int - 1));
            assert(pre.last() == window@[i as int - 1]);
        }
    }
    proof {
        assert(window@.subrange(0, window@.len() as int - 1) =~= window@.drop_last());
    }
    if big > less {
        Adjustment::Raise
    } else if big < less {
        Adjustment::Lower
    } else {
        let prev = window[window.len() - 2];
        if last > prev && last - prev > DELTA_RANGE_MS {
            Adjustment::Raise
        } else if prev > last && prev - last > DELTA_RANGE_MS {
            Adjustment::Lower
        } else {
            Adjustment::Hold
        }
    }
}

/// Apply a verdict to the current limit.
pub fn apply_adjustment(limit: u32, adj: Adjustment) -> (r: u32)
    ensures
        r == applied_limit(limit, adj),
        limit >= MIN_LIMIT ==> r >= MIN_LIMIT,
{
    match adj {
        Adjustment::Raise => if limit <= u32::MAX / 2 {
            2 * limit
        } else {
            u32::MAX
        },
        Adjustment::Lower => if limit > MIN_LIMIT {
            limit - 1
        } else {
            MIN_LIMIT
        },
        Adjustment::Hold => limit,
    }
}

/// One controller iteration over a window snapshot: the new limit. The
/// limit never sinks under `MIN_LIMIT`, and a window with at most one
/// entry leaves it untouched.
pub fn controller_step(window: &Vec<u128>, limit: u32) -> (r: u32)
    ensures
        r == applied_limit(limit, adjustment_for(window@)),
        limit >= MIN_LIMIT ==> r >= MIN_LIMIT,
        window@.len() <= 1 ==> r == limit,
{
    let adj = window_adjustment(window);
    apply_adjustment(limit, adj)
}

} // verus!
