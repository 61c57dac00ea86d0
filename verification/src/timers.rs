//! The two 8-bit countdown timers. Each is decremented by exactly one for
//! every full tick (about 1/60 s) of wall-clock time that has elapsed,
//! never below zero. A microsecond accumulator carries the remainder of
//! partial ticks across calls, so slow callers lose no ticks and fast
//! callers never over-decrement. The caller supplies elapsed wall time;
//! reading a clock is the host's business.
use vstd::prelude::*;
use vstd::arithmetic::div_mod::{
    lemma_fundamental_div_mod, lemma_fundamental_div_mod_converse_div,
    lemma_fundamental_div_mod_converse_mod, lemma_mod_division_less_than_divisor,
};

verus! {

/// Length of one timer tick in microseconds: about 1/60 s.
pub const TICK_MICROS: u64 = 16667;

/// The delay and sound countdown timers, plus the accumulated wall time
/// (in microseconds) that has not yet amounted to a full tick.
pub struct Timers {
    pub delay_timer: u8,
    pub sound_timer: u8,
    pub accumulated_micros: u64,
}

/// A counter after `n` decrements, floored at zero.
pub open spec fn spec_count_down(t: u8, n: int) -> u8 {
    if t <= n {
        0
    } else {
        (t - n) as u8
    }
}

/// How many full ticks the accumulator holds once `elapsed` is added.
pub open spec fn spec_ticks(acc: u64, elapsed: u64) -> int {
    (acc + elapsed) / (TICK_MICROS as int)
}

/// The accumulator after `elapsed` is added and full ticks are drained.
pub open spec fn spec_remainder(acc: u64, elapsed: u64) -> u64 {
    ((acc + elapsed) % (TICK_MICROS as int)) as u64
}

impl Timers {
    /// The accumulator never holds a full tick between calls.
    pub open spec fn wf(&self) -> bool {
        self.accumulated_micros < TICK_MICROS
    }

    /// Both timers start at zero with an empty accumulator.
    pub fn new() -> (t: Timers)
        ensures
            t.wf(),
            t.delay_timer == 0,
            t.sound_timer == 0,
            t.accumulated_micros == 0,
    {
        Timers { delay_timer: 0, sound_timer: 0, accumulated_micros: 0 }
    }

    /// Account for `elapsed_micros` of wall time: each timer goes down by
    /// one per full tick now accumulated, floored at zero, and the
    /// remainder stays in the accumulator.
    pub fn update(&mut self, elapsed_micros: u64)
        requires
            old(self).wf(),
            elapsed_micros <= u64::MAX - TICK_MICROS,
        ensures
            final(self).wf(),
            final(self).delay_timer == spec_count_down(
                old(self).delay_timer,
                spec_ticks(old(self).accumulated_micros, elapsed_micros),
            ),
            final(self).sound_timer == spec_count_down(
                old(self).sound_timer,
                spec_ticks(old(self).accumulated_micros, elapsed_micros),
            ),
            final(self).accumulated_micros == spec_remainder(
                old(self).accumulated_micros,
                elapsed_micros,
            ),
    {
        let total: u64 = self.accumulated_micros + elapsed_micros;
        let ticks: u64 = total / TICK_MICROS;
        self.accumulated_micros = total % TICK_MICROS;
        self.delay_timer = if (self.delay_timer as u64) <= ticks {
            0
        } else {
            self.delay_timer - (ticks as u8)
        };
        self.sound_timer = if (self.sound_timer as u64) <= ticks {
            0
        } else {
            self.sound_timer - (ticks as u8)
        };
    }
}

/// Splitting a stretch of wall time over two `update` calls decrements the
/// timers exactly as one call covering the whole stretch would: ticks are
/// neither lost nor double-counted, and neither timer drops below zero.
pub proof fn lemma_update_accumulates(t: Timers, e1: u64, e2: u64)
    requires
        t.wf(),
        e1 + e2 <= u64::MAX - TICK_MICROS,
    ensures
        spec_ticks(t.accumulated_micros, e1) + spec_ticks(spec_remainder(t.accumulated_micros, e1), e2)
            == spec_ticks(t.accumulated_micros, (e1 + e2) as u64),
        spec_remainder(spec_remainder(t.accumulated_micros, e1), e2) == spec_remainder(
            t.accumulated_micros,
            (e1 + e2) as u64,
        ),
        spec_count_down(
            spec_count_down(t.delay_timer, spec_ticks(t.accumulated_micros, e1)),
            spec_ticks(spec_remainder(t.accumulated_micros, e1), e2),
        ) == spec_count_down(t.delay_timer, spec_ticks(t.accumulated_micros, (e1 + e2) as u64)),
{
    let m = TICK_MICROS as int;
    let acc = t.accumulated_micros as int;
    let n1 = spec_ticks(t.accumulated_micros, e1);
    let r1 = (acc + e1) % m;
    lemma_fundamental_div_mod(acc + e1, m);
    lemma_mod_division_less_than_divisor(acc + e1, m);
    lemma_fundamental_div_mod(r1 + e2, m);
    lemma_mod_division_less_than_divisor(r1 + e2, m);
    let n2 = (r1 + e2) / m;
    let r2 = (r1 + e2) % m;
    assert(acc + e1 + e2 == m * (n1 + n2) + r2) by (nonlinear_arith)
        requires
            acc + e1 == m * n1 + r1,
            r1 + e2 == m * n2 + r2,
    ;
    lemma_fundamental_div_mod_converse_div(acc + e1 + e2, m, n1 + n2, r2);
    lemma_fundamental_div_mod_converse_mod(acc + e1 + e2, m, n1 + n2, r2);
}

} // verus!
