//! A repeating tick timer over integer milliseconds.
//!
//! The timer accumulates per-frame wall-time deltas and reports, once per
//! frame, whether at least one period boundary was crossed ("just
//! finished"). Extra boundary crossings within a single frame are
//! discarded: the driver takes at most one effect per frame, so script
//! pacing stays independent of frame-rate jitter.

use vstd::prelude::*;

verus! {

/// Whether advancing from `elapsed` by `delta` crosses the period boundary.
pub open spec fn timer_fires(elapsed: int, period: int, delta: int) -> bool {
    elapsed + delta >= period
}

/// The accumulated time after one advance: on a crossing the accumulator
/// wraps modulo the period (the repeating mode), otherwise it just grows.
pub open spec fn timer_next(elapsed: int, period: int, delta: int) -> int {
    if timer_fires(elapsed, period, delta) {
        (elapsed + delta) % period
    } else {
        elapsed + delta
    }
}

/// A periodic timer with period `period_ms`, fired zero or one times per
/// frame by [`ClockTimer::tick`].
pub struct ClockTimer {
    pub period_ms: u64,
    pub elapsed_ms: u64,
}

impl ClockTimer {
    /// A timer is well formed when its period is positive and its
    /// accumulator has not yet reached the period.
    pub open spec fn wf(self) -> bool {
        0 < self.period_ms && self.elapsed_ms < self.period_ms
    }

    /// Builds a repeating timer with the given positive period, starting
    /// from an empty accumulator.
    pub fn new(period_ms: u64) -> (r: Self)
        requires
            period_ms > 0,
        ensures
            r.wf(),
            r.period_ms == period_ms,
            r.elapsed_ms == 0,
    {
        Self { period_ms, elapsed_ms: 0 }
    }

    /// Advances the timer by one frame's delta and reports whether it just
    /// finished a period this frame.
    pub fn tick(&mut self, delta_ms: u64) -> (just_finished: bool)
        requires
            old(self).wf(),
            old(self).elapsed_ms + delta_ms <= u64::MAX,
        ensures
            final(self).wf(),
            final(self).period_ms == old(self).period_ms,
            just_finished == timer_fires(
                old(self).elapsed_ms as int,
                old(self).period_ms as int,
                delta_ms as int,
            ),
            final(self).elapsed_ms == timer_next(
                old(self).elapsed_ms as int,
                old(self).period_ms as int,
                delta_ms as int,
            ),
    {
        let total: u64 = self.elapsed_ms + delta_ms;
        if total >= self.period_ms {
            self.elapsed_ms = total % self.period_ms;
            true
        } else {
            self.elapsed_ms = total;
            false
        }
    }
}

/// Right after a crossing under a steady delta `d < period`, the wrapped
/// accumulator is below `d`: the timer lags the boundary by less than one
/// frame.
pub proof fn lemma_overshoot_small(elapsed: int, period: int, delta: int)
    requires
        0 <= elapsed < period,
        0 < delta < period,
        timer_fires(elapsed, period, delta),
    ensures
        0 <= timer_next(elapsed, period, delta) < delta,
{
    assert(period <= elapsed + delta < 2 * period);
    assert((elapsed + delta) % period == elapsed + delta - period) by {
        vstd::arithmetic::div_mod::lemma_mod_sub_multiples_vanish(elapsed + delta, period);
        vstd::arithmetic::div_mod::lemma_small_mod((elapsed + delta - period) as nat, period as nat);
    };
}

/// Frame-rate pacing: under steady deltas `d < period`, consider the state
/// right after one effect fired (accumulator `e0 < d`, by
/// [`lemma_overshoot_small`]). If the next crossing happens on the `k`-th
/// following frame, then the wall time between the two effects, `k * d`,
/// is within one frame delta of the period:
/// `period - d < k * d < period + d`.
///
/// When the earlier effect fired exactly on the period boundary
/// (`e0 == 0`), the gap moreover reaches the period itself:
/// `period <= k * d < period + d`. With `e0 > 0` the lower bound `period`
/// can fail: the timer had a head start on the next period.
pub proof fn lemma_frame_rate_pacing(e0: int, period: int, delta: int, k: int)
    requires
        0 < delta < period,
        0 <= e0 < delta,
        k >= 1,
        e0 + (k - 1) * delta < period,
        e0 + k * delta >= period,
    ensures
        period - delta < k * delta < period + delta,
        e0 == 0 ==> period <= k * delta,
{
    assert((k - 1) * delta + delta == k * delta) by (nonlinear_arith);
}

} // verus!
