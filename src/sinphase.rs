//! A repeating timer whose position in its cycle drives a periodic motion.
use vstd::prelude::*;

verus! {

/// A full turn, in microradians, rounded down.
pub const TAU: i64 = 6_283_185;

/// Longest cycle accepted, in microseconds (about 35 minutes).
pub const MAX_CYCLE_MICROS: u64 = 0x8000_0000;

/// A repeating timer: `elapsed` microseconds into a cycle of `duration`.
#[derive(Clone, Copy, Debug, PartialEq, Eq, Structural)]
pub struct SinPhase {
    pub elapsed: u64,
    pub duration: u64,
}

impl SinPhase {
    pub open spec fn wf(self) -> bool {
        0 < self.duration <= MAX_CYCLE_MICROS && self.elapsed < self.duration
    }

    /// A timer at the start of a cycle of `micros` microseconds.
    pub fn new(micros: u64) -> (p: SinPhase)
        requires
            0 < micros <= MAX_CYCLE_MICROS,
        ensures
            p.wf(),
            p.elapsed == 0,
            p.duration == micros,
    {
        SinPhase { elapsed: 0, duration: micros }
    }

    /// Advances the timer by `dt` microseconds, wrapping into the next cycle.
    pub fn tick(&mut self, dt: u64)
        requires
            old(self).wf(),
            dt <= MAX_CYCLE_MICROS,
        ensures
            final(self).wf(),
            final(self).duration == old(self).duration,
            final(self).elapsed == (old(self).elapsed + dt) % (old(self).duration as int),
    {
        self.elapsed = (self.elapsed + dt) % self.duration;
    }

    /// The angle of the cycle reached, in microradians, rounded down: a full
    /// turn over one cycle. Its sine is the phase.
    pub fn phase_angle(&self) -> (a: i64)
        requires
            self.wf(),
        ensures
            a == (TAU * self.elapsed) / (self.duration as int),
            0 <= a < TAU,
    {
        assert(TAU * self.elapsed < TAU * self.duration) by (nonlinear_arith)
            requires self.elapsed < self.duration;
        assert(TAU * self.duration <= 6_283_185 * 0x8000_0000) by (nonlinear_arith)
            requires self.duration <= 0x8000_0000;
        assert(TAU * self.elapsed >= 0) by (nonlinear_arith);
        let num: u64 = (TAU as u64) * self.elapsed;
        proof {
            let n = num as int;
            let d = self.duration as int;
            vstd::arithmetic::div_mod::lemma_fundamental_div_mod(n, d);
            vstd::arithmetic::div_mod::lemma_mod_pos_bound(n, d);
            assert(n / d < TAU && n / d >= 0) by (nonlinear_arith)
                requires
                    0 <= n < TAU * d,
                    n == d * (n / d) + n % d,
                    0 <= n % d < d,
                    d > 0,
            ;
        }
        (num / self.duration) as i64
    }
}

} // verus!
