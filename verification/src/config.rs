//! Simulation context: the per-run constants, carried explicitly.
//!
//! Nothing here is ambient global state; every stage call takes the
//! context as an argument, so several independent simulations can run
//! side by side. All lengths are milli-units, times are milliseconds.

use vstd::prelude::*;

verus! {

/// Largest magnitude a position component may reach (milli-units).
pub const POS_LIMIT: i64 = 1_100_000_000;

/// Largest start time an effect may carry (milliseconds).
pub const TIME_LIMIT: u64 = 4_000_000_000_000_000_000;

/// Largest radius an agent may carry (milli-units).
pub const RADIUS_LIMIT: i64 = 1_000_000;

/// Radius of a spawned fragment: one world unit.
pub const FRAGMENT_RADIUS: i64 = 1000;

#[derive(Clone, Copy, PartialEq, Eq, Structural, Debug)]
pub struct SimConfig {
    /// World rectangle width (milli-units); agents live in `[0, world_w]`.
    pub world_w: i64,
    /// World rectangle height (milli-units).
    pub world_h: i64,
    /// Speed cap (milli-units per second).
    pub max_speed: i64,
    /// Lifetime of an explosion effect (milliseconds).
    pub explode_millis: u64,
    /// Radius of the blast disc an explosion pushes through (milli-units).
    pub push_radius: i64,
    /// Numerator of the push falloff law, in whole units.
    pub push_const: i64,
    /// Distance from the blast center at which fragments appear (milli-units).
    pub frag_offset: i64,
    /// Least number of fragments a destroyed agent contributes.
    pub contrib_floor: i64,
    /// Smallest radius of an agent spawned at world init (milli-units).
    pub radius_lo: i64,
    /// Largest radius of an agent spawned at world init (milli-units).
    pub radius_hi: i64,
}

impl SimConfig {
    /// Bounds under which every arithmetic step of the simulation stays
    /// exact (no overflow anywhere in the rules).
    pub open spec fn wf(self) -> bool {
        &&& 0 < self.world_w <= 1_000_000_000
        &&& 0 < self.world_h <= 1_000_000_000
        &&& 0 < self.max_speed <= 100_000_000
        &&& 0 < self.explode_millis <= 1_000_000_000_000
        &&& 0 < self.push_radius <= 1_000_000_000
        &&& 0 < self.push_const <= 20_000
        &&& 0 <= self.frag_offset <= 100_000
        &&& 1 <= self.contrib_floor <= 1_000
        &&& 0 < self.radius_lo <= self.radius_hi <= RADIUS_LIMIT
    }

    /// The context the reference run uses: a 1000 x 1000 world, speed
    /// cap 50, explosions of 1.5 s pushing through a disc of radius 500
    /// with falloff numerator 10000, fragments placed 5 units out, at
    /// least 1 fragment per destroyed agent, initial radii in `[2, 5]`.
    pub fn standard() -> (c: SimConfig)
        ensures
            c.wf(),
            c.world_w == 1_000_000 && c.world_h == 1_000_000,
            c.max_speed == 50_000,
            c.explode_millis == 1_500,
            c.push_radius == 500_000,
            c.push_const == 10_000,
            c.frag_offset == 5_000,
            c.contrib_floor == 1,
            c.radius_lo == 2_000 && c.radius_hi == 5_000,
    {
        SimConfig {
            world_w: 1_000_000,
            world_h: 1_000_000,
            max_speed: 50_000,
            explode_millis: 1_500,
            push_radius: 500_000,
            push_const: 10_000,
            frag_offset: 5_000,
            contrib_floor: 1,
            radius_lo: 2_000,
            radius_hi: 5_000,
        }
    }

    /// The context made of the given values, when they lie within the
    /// workable bounds; `None` exactly when some value does not. A
    /// missing or unusable context is fatal at startup, and the caller
    /// decides so on `None`.
    pub fn checked(
        world_w: i64,
        world_h: i64,
        max_speed: i64,
        explode_millis: u64,
        push_radius: i64,
        push_const: i64,
        frag_offset: i64,
        contrib_floor: i64,
        radius_lo: i64,
        radius_hi: i64,
    ) -> (r: Option<SimConfig>)
        ensures
            r is Some <==> (SimConfig {
                world_w,
                world_h,
                max_speed,
                explode_millis,
                push_radius,
                push_const,
                frag_offset,
                contrib_floor,
                radius_lo,
                radius_hi,
            }).wf(),
            r is Some ==> r->Some_0 == (SimConfig {
                world_w,
                world_h,
                max_speed,
                explode_millis,
                push_radius,
                push_const,
                frag_offset,
                contrib_floor,
                radius_lo,
                radius_hi,
            }),
    {
        let c = SimConfig {
            world_w,
            world_h,
            max_speed,
            explode_millis,
            push_radius,
            push_const,
            frag_offset,
            contrib_floor,
            radius_lo,
            radius_hi,
        };
        let ok = 0 < c.world_w && c.world_w <= 1_000_000_000 && 0 < c.world_h && c.world_h
            <= 1_000_000_000 && 0 < c.max_speed && c.max_speed <= 100_000_000 && 0
            < c.explode_millis && c.explode_millis <= 1_000_000_000_000 && 0 < c.push_radius
            && c.push_radius <= 1_000_000_000 && 0 < c.push_const && c.push_const <= 20_000 && 0
            <= c.frag_offset && c.frag_offset <= 100_000 && 1 <= c.contrib_floor
            && c.contrib_floor <= 1_000 && 0 < c.radius_lo && c.radius_lo <= c.radius_hi
            && c.radius_hi <= RADIUS_LIMIT;
        if ok {
            Some(c)
        } else {
            None
        }
    }
}

} // verus!
