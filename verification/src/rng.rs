//! Deterministic random source for the simulation.
//!
//! Every randomized rule (boundary re-randomization, fragment
//! directions and speeds) draws from this seeded generator, threaded
//! explicitly through the step controller, so a run can be replayed
//! exactly from its seed.

use vstd::prelude::*;
use crate::fixed::{div_trunc, iabs, MILLI};
use crate::vec2::{unit_dir, unit_of, Vec2i};

verus! {

pub const LCG_MUL: u64 = 6364136223846793005;

pub const LCG_ADD: u64 = 1442695040888963407;

/// One advance of the linear congruential generator.
pub open spec fn lcg_next(s: u64) -> u64 {
    s.wrapping_mul(LCG_MUL).wrapping_add(LCG_ADD)
}

/// The value a range draw yields from generator output `x`.
pub open spec fn range_val(x: u64, lo: int, hi: int) -> int {
    lo + x as int % (hi - lo + 1)
}

/// The fixed-point unit direction two consecutive draws from state `s`
/// produce: a point of the square `[-1, 1] x [-1, 1]`, normalized, or
/// zero if both draws give zero.
#[verifier::opaque]
pub open spec fn rand_dir_of(s: u64) -> Vec2i {
    unit_of(
        Vec2i {
            x: range_val(lcg_next(s), -(MILLI as int), MILLI as int) as i64,
            y: range_val(lcg_next(lcg_next(s)), -(MILLI as int), MILLI as int) as i64,
        },
    )
}

/// The speed one draw from state `s` yields: uniform over
/// `[max / 10, max]`, a tenth of the speed cap up to the cap itself.
pub open spec fn rand_speed_of(s: u64, max: int) -> int {
    range_val(lcg_next(s), max / 10, max)
}

/// The velocity three consecutive draws from state `s` produce: a
/// random direction scaled by a random speed.
#[verifier::opaque]
pub open spec fn rand_vel_of(s: u64, max: int) -> Vec2i {
    let d = rand_dir_of(s);
    let sp = rand_speed_of(lcg_next(lcg_next(s)), max);
    Vec2i {
        x: div_trunc(d.x * sp, MILLI as int) as i64,
        y: div_trunc(d.y * sp, MILLI as int) as i64,
    }
}

/// Seeded pseudo-random generator: a 64-bit linear congruential
/// generator whose whole stream is a function of the seed.
pub struct SimRng {
    pub state: u64,
}

impl SimRng {
    pub fn new(seed: u64) -> (r: SimRng)
        ensures
            r.state == seed,
    {
        SimRng { state: seed }
    }

    /// Advance once and return the new state as the output word.
    pub fn next_u64(&mut self) -> (r: u64)
        ensures
            final(self).state == lcg_next(old(self).state),
            r == final(self).state,
    {
        self.state = self.state.wrapping_mul(LCG_MUL).wrapping_add(LCG_ADD);
        self.state
    }

    /// A draw from `[lo, hi]`, by one advance of the generator.
    pub fn gen_range_i64(&mut self, lo: i64, hi: i64) -> (r: i64)
        requires
            lo <= hi,
            -4_000_000_000_000_000_000 <= lo,
            hi <= 4_000_000_000_000_000_000,
        ensures
            final(self).state == lcg_next(old(self).state),
            r == range_val(lcg_next(old(self).state), lo as int, hi as int),
            lo <= r <= hi,
    {
        let span: u64 = ((hi - lo) as u64) + 1;
        let x = self.next_u64();
        let m: u64 = x % span;
        lo + (m as i64)
    }

    /// A random fixed-point unit direction (or zero), by two advances.
    pub fn rand_unit_dir(&mut self) -> (d: Vec2i)
        ensures
            final(self).state == lcg_next(lcg_next(old(self).state)),
            d == rand_dir_of(old(self).state),
            iabs(d.x as int) <= MILLI,
            iabs(d.y as int) <= MILLI,
    {
        proof {
            reveal(rand_dir_of);
        }
        let dx = self.gen_range_i64(-1000, 1000);
        let dy = self.gen_range_i64(-1000, 1000);
        unit_dir(Vec2i { x: dx, y: dy })
    }

    /// A random speed in `[max / 10, max]`, by one advance.
    pub fn rand_speed(&mut self, max: i64) -> (sp: i64)
        requires
            0 < max <= 100_000_000,
        ensures
            final(self).state == lcg_next(old(self).state),
            sp == rand_speed_of(old(self).state, max as int),
            max / 10 <= sp <= max,
    {
        let lo: i64 = crate::fixed::div_trunc_i64(max, 10);
        self.gen_range_i64(lo, max)
    }

    /// A random velocity: random direction times random speed, by three
    /// advances. Its components never exceed the speed cap.
    pub fn rand_velocity(&mut self, max: i64) -> (v: Vec2i)
        requires
            0 < max <= 100_000_000,
        ensures
            final(self).state == lcg_next(lcg_next(lcg_next(old(self).state))),
            v == rand_vel_of(old(self).state, max as int),
            iabs(v.x as int) <= max,
            iabs(v.y as int) <= max,
    {
        proof {
            reveal(rand_vel_of);
        }
        let d = self.rand_unit_dir();
        let sp = self.rand_speed(max);
        proof {
            assert(iabs(d.x * sp) <= MILLI * sp && iabs(d.y * sp) <= MILLI * sp)
                by (nonlinear_arith)
                requires
                    iabs(d.x as int) <= MILLI,
                    iabs(d.y as int) <= MILLI,
                    0 <= sp,
                    MILLI == 1000,
            ;
            crate::vec2::lemma_div_trunc_bound(d.x * sp, MILLI as int, sp as int);
            crate::vec2::lemma_div_trunc_bound(d.y * sp, MILLI as int, sp as int);
        }
        Vec2i {
            x: crate::fixed::mul_div_trunc(d.x, sp, 1000),
            y: crate::fixed::mul_div_trunc(d.y, sp, 1000),
        }
    }
}

} // verus!
