//! Countdown gate used by the weapon cooldown, the enemy spawner and each
//! enemy's fire gate.

use vstd::prelude::*;

verus! {

/// `a + b` saturating at `u64::MAX`.
pub open spec fn sat_add_u64(a: u64, b: u64) -> u64 {
    if a + b > u64::MAX {
        u64::MAX
    } else {
        (a + b) as u64
    }
}

/// A non-repeating countdown over milliseconds.
///
/// `tick` accumulates elapsed time and reports whether the accumulated time
/// has reached the duration. The finished state is sticky: once reached, it
/// holds on every later tick until `reset` zeroes the accumulated time, so a
/// caller that consumes a finished signal must reset the timer or it fires
/// again every frame.
#[derive(Clone, Copy, Debug, PartialEq, Eq, Structural)]
pub struct Timer {
    pub duration_ms: u64,
    pub elapsed_ms: u64,
}

impl Timer {
    /// The timer after one tick of `dt_ms` milliseconds.
    pub open spec fn spec_ticked(self, dt_ms: u64) -> Timer {
        Timer { duration_ms: self.duration_ms, elapsed_ms: sat_add_u64(self.elapsed_ms, dt_ms) }
    }

    /// Whether the accumulated time has reached the duration.
    pub open spec fn spec_finished(self) -> bool {
        self.elapsed_ms >= self.duration_ms
    }

    /// A fresh timer with nothing accumulated yet.
    pub fn from_millis(duration_ms: u64) -> (t: Timer)
        ensures
            t == (Timer { duration_ms, elapsed_ms: 0 }),
    {
        Timer { duration_ms, elapsed_ms: 0 }
    }

    /// Adds `dt_ms` to the accumulated time and reports whether the timer
    /// has finished.
    pub fn tick(&mut self, dt_ms: u64) -> (finished: bool)
        ensures
            *final(self) == old(self).spec_ticked(dt_ms),
            finished == final(self).spec_finished(),
    {
        if dt_ms > u64::MAX - self.elapsed_ms {
            self.elapsed_ms = u64::MAX;
        } else {
            self.elapsed_ms = self.elapsed_ms + dt_ms;
        }
        self.elapsed_ms >= self.duration_ms
    }

    /// Zeroes the accumulated time; the duration is kept.
    pub fn reset(&mut self)
        ensures
            *final(self) == (Timer { duration_ms: old(self).duration_ms, elapsed_ms: 0 }),
    {
        self.elapsed_ms = 0;
    }
}

/// Total of a sequence of tick deltas.
pub open spec fn total_ms(deltas: Seq<u64>) -> int
    decreases deltas.len(),
{
    if deltas.len() == 0 {
        0
    } else {
        total_ms(deltas.drop_last()) + deltas.last()
    }
}

/// The timer after ticking through `deltas` in order, with no reset between.
pub open spec fn run_ticks(t: Timer, deltas: Seq<u64>) -> Timer
    decreases deltas.len(),
{
    if deltas.len() == 0 {
        t
    } else {
        run_ticks(t, deltas.drop_last()).spec_ticked(deltas.last())
    }
}

pub proof fn lemma_total_nonneg(deltas: Seq<u64>)
    ensures
        0 <= total_ms(deltas),
    decreases deltas.len(),
{
    if deltas.len() > 0 {
        lemma_total_nonneg(deltas.drop_last());
    }
}

pub proof fn lemma_total_take_le(deltas: Seq<u64>, i: int)
    requires
        0 <= i <= deltas.len(),
    ensures
        total_ms(deltas.take(i)) <= total_ms(deltas),
    decreases deltas.len(),
{
    if i == deltas.len() {
        assert(deltas.take(i) =~= deltas);
    } else {
        assert(deltas.drop_last().take(i) =~= deltas.take(i));
        lemma_total_take_le(deltas.drop_last(), i);
    }
}

/// Ticking through `deltas` without saturation accumulates their exact total
/// and keeps the duration.
pub proof fn lemma_run_ticks_elapsed(t: Timer, deltas: Seq<u64>)
    requires
        t.elapsed_ms + total_ms(deltas) <= u64::MAX,
    ensures
        run_ticks(t, deltas).duration_ms == t.duration_ms,
        run_ticks(t, deltas).elapsed_ms == t.elapsed_ms + total_ms(deltas),
    decreases deltas.len(),
{
    if deltas.len() > 0 {
        lemma_total_nonneg(deltas.drop_last());
        lemma_run_ticks_elapsed(t, deltas.drop_last());
    }
}

/// Law: until `reset` is called, a timer with duration `D` reports finished
/// on exactly those ticks where the accumulated elapsed time has reached
/// `D` — never before the accumulated total crosses `D`, and on every tick
/// from then on. (`reset` restarts the accumulated time at 0, by its own
/// contract.) Stated over every prefix of an arbitrary tick sequence whose
/// total does not overflow the counter.
pub proof fn lemma_timer_finished_iff(t: Timer, deltas: Seq<u64>, i: int)
    requires
        0 <= i <= deltas.len(),
        t.elapsed_ms + total_ms(deltas) <= u64::MAX,
    ensures
        run_ticks(t, deltas.take(i)).elapsed_ms == t.elapsed_ms + total_ms(deltas.take(i)),
        run_ticks(t, deltas.take(i)).spec_finished() <==> t.elapsed_ms + total_ms(deltas.take(i))
            >= t.duration_ms,
{
    lemma_total_take_le(deltas, i);
    lemma_total_nonneg(deltas.take(i));
    lemma_run_ticks_elapsed(t, deltas.take(i));
}

} // verus!
