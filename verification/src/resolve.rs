//! Collision resolution and the explosion state machine.
//!
//! One physics step hands over a batch of start-of-contact events. Each
//! event destroys its two agents (each side skipped if already gone —
//! the same entity may appear in several simultaneous pairs), sums a
//! fragment budget from their radii, and, when anything was destroyed,
//! creates one explosion effect at the last known position, pushes
//! every other agent in the blast disc radially outward with a falloff
//! law, and spawns the budgeted fragments around the center.
//!
//! The whole batch is a function of the starting state, the events and
//! the random stream; `batch_step` is that function, and the executable
//! resolver is proved equal to it.

use vstd::prelude::*;
use crate::config::{SimConfig, FRAGMENT_RADIUS, POS_LIMIT, RADIUS_LIMIT, TIME_LIMIT};
use crate::fixed::{div_floor, div_trunc, div_floor_i64, iabs, imax, mul_div_trunc, MILLI};
use crate::rng::{lcg_next, rand_dir_of, rand_vel_of, SimRng};
use crate::vec2::{clamp_len, clamp_len_of, norm_sq, norm_sq_of, unit_dir, unit_of, vadd, vsub,
    Vec2i};
use crate::world::{agent_of, agent_ok, contains_id, distinct_agents, without_id, Agent,
    EntityCollision, ExplosionEffect, World};

verus! {

/// Smallest squared distance the falloff law divides by: 0.01 square
/// units, in micro-units.
pub const MIN_DIST_SQ: i64 = 10_000;

/// Fragments owed for one destroyed agent of radius `r` (milli-units):
/// the radius less one half, rounded down, but at least `floor`.
pub open spec fn contribution(r: int, floor: int) -> int {
    imax(floor, div_floor(r - MILLI / 2, MILLI as int))
}

/// The push power (milli-units of speed) the falloff law yields at
/// squared distance `d2` (micro-units) for falloff numerator `pc`
/// (whole units): `pc / max(d2, 0.01)` in world units.
pub open spec fn push_power_of(d2: int, pc: int) -> int {
    pc * 1_000_000_000 / imax(d2, MIN_DIST_SQ as int)
}

/// The velocity an agent at `pos` is left with when a blast at `center`
/// pushes it: the radial direction scaled by the falloff power is added
/// to `vel`, and the result is clamped to the speed cap.
pub open spec fn push_vel_of(vel: Vec2i, pos: Vec2i, center: Vec2i, pc: int, max: int) -> Vec2i {
    let diff = Vec2i { x: (pos.x - center.x) as i64, y: (pos.y - center.y) as i64 };
    let dir = unit_of(diff);
    let p = push_power_of(norm_sq_of(diff), pc);
    clamp_len_of(
        Vec2i {
            x: (vel.x + div_trunc(dir.x * p, MILLI as int)) as i64,
            y: (vel.y + div_trunc(dir.y * p, MILLI as int)) as i64,
        },
        max,
    )
}

/// Whether the blast disc of radius `pr` around `center` reaches the
/// body of `a`: the discs intersect when the centers are no farther
/// apart than the radii together.
pub open spec fn in_blast(a: Agent, center: Vec2i, pr: int) -> bool {
    (a.pos.x - center.x) * (a.pos.x - center.x) + (a.pos.y - center.y) * (a.pos.y - center.y) <= (
    pr + a.radius) * (pr + a.radius)
}

/// All agents after the blast at `center`: everyone in the blast disc
/// is pushed, except the two agents of the event itself; everyone else
/// is untouched.
pub open spec fn pushed_seq(
    s: Seq<Agent>,
    ea: u64,
    eb: u64,
    center: Vec2i,
    pc: int,
    pr: int,
    max: int,
) -> Seq<Agent> {
    s.map_values(
        |a: Agent|
            if a.id != ea && a.id != eb && in_blast(a, center, pr) {
                Agent { vel: push_vel_of(a.vel, a.pos, center, pc, max), ..a }
            } else {
                a
            },
    )
}

/// The simulation state one collision batch transforms: the population,
/// the effects, the two fresh-identity counters and the random stream.
pub struct SimState {
    pub agents: Seq<Agent>,
    pub explosions: Seq<ExplosionEffect>,
    pub next_id: u64,
    pub next_body: u64,
    pub rng: u64,
}

/// The state a `World` and a random source stand for.
pub open spec fn state_of(w: World, r: SimRng) -> SimState {
    SimState {
        agents: w.agents@,
        explosions: w.explosions@,
        next_id: w.next_id,
        next_body: w.next_body,
        rng: r.state,
    }
}

/// The fragment spawned next: placed `frag_offset` out from `center`
/// along a random direction, moving the same way at a random speed,
/// with the fixed fragment radius.
pub open spec fn frag_agent(st: SimState, center: Vec2i, cfg: SimConfig) -> Agent {
    let d = rand_dir_of(st.rng);
    Agent {
        id: st.next_id,
        body: st.next_body,
        pos: Vec2i {
            x: (center.x + div_trunc(d.x * cfg.frag_offset, MILLI as int)) as i64,
            y: (center.y + div_trunc(d.y * cfg.frag_offset, MILLI as int)) as i64,
        },
        vel: rand_vel_of(st.rng, cfg.max_speed as int),
        radius: FRAGMENT_RADIUS,
    }
}

/// One fragment spawn: the new agent joins, both counters advance, and
/// the random stream moves by the three draws the fragment consumed.
pub open spec fn spawn_frag_step(st: SimState, center: Vec2i, cfg: SimConfig) -> SimState {
    SimState {
        agents: st.agents.push(frag_agent(st, center, cfg)),
        explosions: st.explosions,
        next_id: (st.next_id + 1) as u64,
        next_body: (st.next_body + 1) as u64,
        rng: lcg_next(lcg_next(lcg_next(st.rng))),
    }
}

/// `k` fragment spawns in a row.
pub open spec fn spawn_frags(st: SimState, center: Vec2i, k: nat, cfg: SimConfig) -> SimState
    decreases k,
{
    if k == 0 {
        st
    } else {
        spawn_frags(spawn_frag_step(st, center, cfg), center, (k - 1) as nat, cfg)
    }
}

/// The fragment budget one event yields: the contribution of each side
/// that is still live when its turn comes — the second side looks at
/// the population after the first was destroyed, so an entity named
/// twice is counted and destroyed at most once.
pub open spec fn event_budget(s: Seq<Agent>, ev: EntityCollision, floor: int) -> int {
    let la = contains_id(s, ev.entity_a);
    let s1 = if la {
        without_id(s, ev.entity_a)
    } else {
        s
    };
    let lb = contains_id(s1, ev.entity_b);
    (if la {
        contribution(agent_of(s, ev.entity_a).radius as int, floor)
    } else {
        0
    }) + (if lb {
        contribution(agent_of(s1, ev.entity_b).radius as int, floor)
    } else {
        0
    })
}

/// The blast center of an event: the last known position of the last
/// side destroyed (the second overrides the first). Meaningful only
/// when something was destroyed.
pub open spec fn event_center(s: Seq<Agent>, ev: EntityCollision) -> Vec2i {
    let la = contains_id(s, ev.entity_a);
    let s1 = if la {
        without_id(s, ev.entity_a)
    } else {
        s
    };
    let lb = contains_id(s1, ev.entity_b);
    if lb {
        agent_of(s1, ev.entity_b).pos
    } else if la {
        agent_of(s, ev.entity_a).pos
    } else {
        Vec2i { x: 0, y: 0 }
    }
}

/// One collision event, whole: destroy each side still live, and if the
/// budget is positive, record one explosion at the center, push every
/// other agent in the blast disc, and spawn the budgeted fragments.
#[verifier::opaque]
pub open spec fn event_step(st: SimState, ev: EntityCollision, now: u64, cfg: SimConfig) -> SimState {
    let la = contains_id(st.agents, ev.entity_a);
    let s1 = if la {
        without_id(st.agents, ev.entity_a)
    } else {
        st.agents
    };
    let lb = contains_id(s1, ev.entity_b);
    let s2 = if lb {
        without_id(s1, ev.entity_b)
    } else {
        s1
    };
    let budget = event_budget(st.agents, ev, cfg.contrib_floor as int);
    let center = event_center(st.agents, ev);
    if budget > 0 {
        let st1 = SimState {
            agents: pushed_seq(
                s2,
                ev.entity_a,
                ev.entity_b,
                center,
                cfg.push_const as int,
                cfg.push_radius as int,
                cfg.max_speed as int,
            ),
            explosions: st.explosions.push(ExplosionEffect { pos: center, start_time: now }),
            next_id: st.next_id,
            next_body: st.next_body,
            rng: st.rng,
        };
        spawn_frags(st1, center, budget as nat, cfg)
    } else {
        st
    }
}

/// A whole batch of events, in order.
pub open spec fn batch_step(
    st: SimState,
    evs: Seq<EntityCollision>,
    now: u64,
    cfg: SimConfig,
) -> SimState
    decreases evs.len(),
{
    if evs.len() == 0 {
        st
    } else {
        batch_step(event_step(st, evs[0], now, cfg), evs.drop_first(), now, cfg)
    }
}

/// Every agent's position lies within `b` in both components.
pub open spec fn positions_within(s: Seq<Agent>, b: int) -> bool {
    forall|i: int|
        0 <= i < s.len() ==> iabs((#[trigger] s[i]).pos.x as int) <= b && iabs(s[i].pos.y as int)
            <= b
}

/// Fragments owed for one destroyed agent, exactly the `contribution`
/// rule: `max(floor, floor_div(radius - 1/2))` in whole units.
pub fn fragment_contribution(radius: i64, floor: i64) -> (c: i64)
    requires
        0 <= radius <= RADIUS_LIMIT,
        1 <= floor <= 1_000,
    ensures
        c == contribution(radius as int, floor as int),
        floor <= c <= 1_000,
{
    let d = div_floor_i64(radius - 500, 1000);
    proof {
        vstd::arithmetic::div_mod::lemma_div_is_ordered(
            radius - 500 as int,
            RADIUS_LIMIT - 500 as int,
            1000,
        );
        assert((RADIUS_LIMIT - 500) / 1000 == 999) by (nonlinear_arith);
    }
    if d < floor {
        floor
    } else {
        d
    }
}

/// The push power at squared distance `d2`, exactly the falloff law.
pub fn push_power(d2: u64, pc: i64) -> (p: i64)
    requires
        0 < pc <= 20_000,
    ensures
        p == push_power_of(d2 as int, pc as int),
        0 <= p <= 2_000_000_000,
{
    let num: u64 = (pc as u64) * 1_000_000_000;
    let m: u64 = if d2 < 10_000 {
        10_000
    } else {
        d2
    };
    let p: u64 = num / m;
    proof {
        vstd::arithmetic::div_mod::lemma_div_is_ordered_by_denominator(
            num as int,
            10_000,
            m as int,
        );
        assert(num as int / 10_000 == (pc as int) * 100_000) by (nonlinear_arith)
            requires
                num == pc * 1_000_000_000,
                0 < pc <= 20_000,
        ;
    }
    p as i64
}

/// The velocity the blast leaves the agent with, exactly `push_vel_of`:
/// the gained impulse is the radial unit direction times
/// `pc / max(d2, 0.01)`, and the sum is clamped to the speed cap.
pub fn apply_push(vel: Vec2i, pos: Vec2i, center: Vec2i, pc: i64, max: i64) -> (nv: Vec2i)
    requires
        iabs(pos.x as int) <= POS_LIMIT,
        iabs(pos.y as int) <= POS_LIMIT,
        iabs(center.x as int) <= POS_LIMIT,
        iabs(center.y as int) <= POS_LIMIT,
        iabs(vel.x as int) <= max,
        iabs(vel.y as int) <= max,
        0 < pc <= 20_000,
        0 < max <= 100_000_000,
    ensures
        nv == push_vel_of(vel, pos, center, pc as int, max as int),
        iabs(nv.x as int) <= max,
        iabs(nv.y as int) <= max,
{
    let diff = vsub(pos, center);
    let d2 = norm_sq(diff);
    let dir = unit_dir(diff);
    let p = push_power(d2, pc);
    proof {
        assert(iabs(dir.x * p) <= MILLI * p && iabs(dir.y * p) <= MILLI * p) by (nonlinear_arith)
            requires
                iabs(dir.x as int) <= MILLI,
                iabs(dir.y as int) <= MILLI,
                0 <= p,
                MILLI == 1000,
        ;
        crate::vec2::lemma_div_trunc_bound(dir.x * p, MILLI as int, p as int);
        crate::vec2::lemma_div_trunc_bound(dir.y * p, MILLI as int, p as int);
    }
    let ix = mul_div_trunc(dir.x, p, 1000);
    let iy = mul_div_trunc(dir.y, p, 1000);
    let moved = vadd(vel, Vec2i { x: ix, y: iy });
    clamp_len(moved, max)
}

/// Push every agent the blast disc around `center` reaches, except the
/// two agents of the event itself: exactly `pushed_seq`. Positions,
/// identities, bodies and radii are untouched; only velocities move.
fn push_blast(w: &mut World, ea: u64, eb: u64, center: Vec2i, cfg: &SimConfig)
    requires
        cfg.wf(),
        old(w).wf(*cfg),
        iabs(center.x as int) <= POS_LIMIT,
        iabs(center.y as int) <= POS_LIMIT,
    ensures
        final(w).wf(*cfg),
        final(w).agents@ == pushed_seq(
            old(w).agents@,
            ea,
            eb,
            center,
            cfg.push_const as int,
            cfg.push_radius as int,
            cfg.max_speed as int,
        ),
        final(w).explosions@ == old(w).explosions@,
        final(w).next_id == old(w).next_id,
        final(w).next_body == old(w).next_body,
        final(w).agents@.len() == old(w).agents@.len(),
        forall|j: int|
            0 <= j < old(w).agents@.len() ==> (#[trigger] final(w).agents@[j]).id
                == old(w).agents@[j].id && final(w).agents@[j].body == old(w).agents@[j].body
                && final(w).agents@[j].pos == old(w).agents@[j].pos && final(w).agents@[j].radius
                == old(w).agents@[j].radius,
{
    let ghost s0 = w.agents@;
    let ghost target = pushed_seq(
        s0,
        ea,
        eb,
        center,
        cfg.push_const as int,
        cfg.push_radius as int,
        cfg.max_speed as int,
    );
    let ghost exps = w.explosions@;
    let n = w.agents.len();
    let mut i: usize = 0;
    while i < n
        invariant
            cfg.wf(),
            n == s0.len(),
            w.agents@.len() == n,
            0 <= i <= n,
            iabs(center.x as int) <= POS_LIMIT,
            iabs(center.y as int) <= POS_LIMIT,
            target == pushed_seq(
                s0,
                ea,
                eb,
                center,
                cfg.push_const as int,
                cfg.push_radius as int,
                cfg.max_speed as int,
            ),
            forall|j: int| 0 <= j < i ==> #[trigger] w.agents@[j] == target[j],
            forall|j: int| i <= j < n ==> #[trigger] w.agents@[j] == s0[j],
            forall|j: int| 0 <= j < n ==> agent_ok(#[trigger] s0[j], *cfg),
            forall|j: int| 0 <= j < n ==> agent_ok(#[trigger] w.agents@[j], *cfg),
            forall|j: int|
                0 <= j < n ==> #[trigger] target[j] == (if s0[j].id != ea && s0[j].id != eb
                    && in_blast(s0[j], center, cfg.push_radius as int) {
                    Agent {
                        vel: push_vel_of(
                            s0[j].vel,
                            s0[j].pos,
                            center,
                            cfg.push_const as int,
                            cfg.max_speed as int,
                        ),
                        ..s0[j]
                    }
                } else {
                    s0[j]
                }),
            w.explosions@ == exps,
            forall|j: int| 0 <= j < exps.len() ==> crate::world::effect_ok(#[trigger] exps[j]),
            w.next_id == old(w).next_id,
            w.next_body == old(w).next_body,
            distinct_agents(s0),
            forall|j: int| 0 <= j < n ==> (#[trigger] s0[j]).id < w.next_id,
            forall|j: int| 0 <= j < n ==> (#[trigger] s0[j]).body < w.next_body,
        decreases n - i,
    {
        let a = w.agents[i];
        proof {
            assert(a == s0[i as int]);
            assert(0 <= cfg.push_radius + a.radius <= 1_001_000_000);
        }
        let reach: i64 = cfg.push_radius + a.radius;
        proof {
            assert((reach as u64) * (reach as u64) == reach * reach && reach * reach
                <= 2_000_000_000_000_000_000) by (nonlinear_arith)
                requires
                    0 <= reach <= 1_001_000_000,
            ;
        }
        let t2: u64 = (reach as u64) * (reach as u64);
        let diff = vsub(a.pos, center);
        let d2 = norm_sq(diff);
        if a.id != ea && a.id != eb && d2 <= t2 {
            let nv = apply_push(a.vel, a.pos, center, cfg.push_const, cfg.max_speed);
            let na = Agent { vel: nv, ..a };
            proof {
                assert(in_blast(s0[i as int], center, cfg.push_radius as int));
                assert(na == target[i as int]);
            }
            w.agents[i] = na;
        } else {
            proof {
                if a.id != ea && a.id != eb {
                    assert(!in_blast(s0[i as int], center, cfg.push_radius as int));
                }
                assert(a == target[i as int]);
            }
        }
        i = i + 1;
    }
    proof {
        assert(w.agents@ =~= target);
        assert(distinct_agents(w.agents@)) by {
            assert forall|p: int, q: int| 0 <= p < q < n implies (#[trigger] w.agents@[p]).id
                != (#[trigger] w.agents@[q]).id && w.agents@[p].body != w.agents@[q].body by {
                assert(s0[p].id != s0[q].id && s0[p].body != s0[q].body);
            }
        }
    }
}

/// Spawn `budget` fragments around `center`, each along its own random
/// direction with its own random speed: exactly `spawn_frags`.
fn spawn_fragments(
    w: &mut World,
    rng: &mut SimRng,
    center: Vec2i,
    budget: i64,
    cfg: &SimConfig,
    Ghost(bp): Ghost<int>,
)
    requires
        cfg.wf(),
        old(w).wf(*cfg),
        0 <= budget <= 2_000,
        old(w).next_id <= 4_000_000_000_000_000_100,
        old(w).next_body <= 4_000_000_000_000_000_100,
        positions_within(old(w).agents@, bp),
        iabs(center.x as int) <= bp,
        iabs(center.y as int) <= bp,
        0 <= bp,
        bp + cfg.frag_offset <= POS_LIMIT,
    ensures
        final(w).wf(*cfg),
        state_of(*final(w), *final(rng)) == spawn_frags(
            state_of(*old(w), *old(rng)),
            center,
            budget as nat,
            *cfg,
        ),
        final(w).next_id == old(w).next_id + budget,
        final(w).next_body == old(w).next_body + budget,
        final(w).explosions@ == old(w).explosions@,
        positions_within(final(w).agents@, bp + cfg.frag_offset),
{
    let ghost st1 = state_of(*w, *rng);
    let mut k: i64 = 0;
    proof {
        assert forall|j: int| 0 <= j < w.agents@.len() implies iabs(
            (#[trigger] w.agents@[j]).pos.x as int,
        ) <= bp + cfg.frag_offset && iabs(w.agents@[j].pos.y as int) <= bp + cfg.frag_offset by {
            assert(iabs(w.agents@[j].pos.x as int) <= bp);
        }
    }
    while k < budget
        invariant
            cfg.wf(),
            0 <= k <= budget,
            budget <= 2_000,
            w.wf(*cfg),
            spawn_frags(st1, center, budget as nat, *cfg) == spawn_frags(
                state_of(*w, *rng),
                center,
                (budget - k) as nat,
                *cfg,
            ),
            w.next_id == st1.next_id + k,
            w.next_body == st1.next_body + k,
            st1.next_id <= 4_000_000_000_000_000_100,
            st1.next_body <= 4_000_000_000_000_000_100,
            w.explosions@ == st1.explosions,
            positions_within(w.agents@, bp + cfg.frag_offset),
            iabs(center.x as int) <= bp,
            iabs(center.y as int) <= bp,
            0 <= bp,
            bp + cfg.frag_offset <= POS_LIMIT,
        decreases budget - k,
    {
        let ghost pre = state_of(*w, *rng);
        let d = rng.rand_unit_dir();
        let sp = rng.rand_speed(cfg.max_speed);
        proof {
            assert(iabs(d.x * sp) <= MILLI * sp && iabs(d.y * sp) <= MILLI * sp
                && iabs(d.x * cfg.frag_offset) <= MILLI * cfg.frag_offset && iabs(
                d.y * cfg.frag_offset,
            ) <= MILLI * cfg.frag_offset) by (nonlinear_arith)
                requires
                    iabs(d.x as int) <= MILLI,
                    iabs(d.y as int) <= MILLI,
                    0 <= sp,
                    0 <= cfg.frag_offset,
                    MILLI == 1000,
            ;
            crate::vec2::lemma_div_trunc_bound(d.x * sp, MILLI as int, sp as int);
            crate::vec2::lemma_div_trunc_bound(d.y * sp, MILLI as int, sp as int);
            crate::vec2::lemma_div_trunc_bound(
                d.x * cfg.frag_offset,
                MILLI as int,
                cfg.frag_offset as int,
            );
            crate::vec2::lemma_div_trunc_bound(
                d.y * cfg.frag_offset,
                MILLI as int,
                cfg.frag_offset as int,
            );
        }
        let vel = Vec2i { x: mul_div_trunc(d.x, sp, 1000), y: mul_div_trunc(d.y, sp, 1000) };
        let off = Vec2i {
            x: mul_div_trunc(d.x, cfg.frag_offset, 1000),
            y: mul_div_trunc(d.y, cfg.frag_offset, 1000),
        };
        let pos = vadd(center, off);
        let ghost nold = w.agents@.len() as int;
        w.spawn(cfg, pos, vel, FRAGMENT_RADIUS);
        proof {
            assert forall|j: int| 0 <= j < w.agents@.len() implies iabs(
                (#[trigger] w.agents@[j]).pos.x as int,
            ) <= bp + cfg.frag_offset && iabs(w.agents@[j].pos.y as int) <= bp
                + cfg.frag_offset by {
                if j < nold {
                    assert(w.agents@[j] == pre.agents[j]);
                }
            }
        }
        proof {
            reveal(crate::rng::rand_vel_of);
            assert(state_of(*w, *rng) =~= spawn_frag_step(pre, center, *cfg)) by {
                assert(frag_agent(pre, center, *cfg) == Agent {
                    id: pre.next_id,
                    body: pre.next_body,
                    pos,
                    vel,
                    radius: FRAGMENT_RADIUS,
                });
            }
            assert(spawn_frags(pre, center, (budget - k) as nat, *cfg) == spawn_frags(
                spawn_frag_step(pre, center, *cfg),
                center,
                (budget - k - 1) as nat,
                *cfg,
            ));
        }
        k = k + 1;
    }
    proof {
        assert(spawn_frags(state_of(*w, *rng), center, 0nat, *cfg) == state_of(*w, *rng));
    }
}

/// Position bounds survive a removal: the remaining agents were all
/// there before.
pub proof fn lemma_positions_within_without(s: Seq<Agent>, id: u64, b: int)
    requires
        positions_within(s, b),
    ensures
        positions_within(without_id(s, id), b),
{
    let f = without_id(s, id);
    let pred = crate::world::keep_pred(id);
    assert forall|j: int| 0 <= j < f.len() implies iabs((#[trigger] f[j]).pos.x as int) <= b
        && iabs(f[j].pos.y as int) <= b by {
        let a = f[j];
        assert(f.contains(a));
        s.lemma_filter_contains_rev(pred, a);
        let m = choose|m: int| 0 <= m < s.len() && s[m] == a;
        assert(iabs(s[m].pos.x as int) <= b && iabs(s[m].pos.y as int) <= b);
    }
}

/// One collision event: each side is destroyed if still live when its
/// turn comes (a side already gone is skipped — idempotent, never an
/// error), and when anything was destroyed one explosion effect is
/// created, the blast disc is pushed, and the budgeted fragments are
/// spawned. Exactly `event_step`; the fragment budget is returned.
pub fn resolve_event(
    w: &mut World,
    rng: &mut SimRng,
    ev: EntityCollision,
    now: u64,
    cfg: &SimConfig,
    Ghost(bp): Ghost<int>,
) -> (budget: i64)
    requires
        cfg.wf(),
        old(w).wf(*cfg),
        now <= TIME_LIMIT,
        old(w).next_id <= 4_000_000_000_000_000_000,
        old(w).next_body <= 4_000_000_000_000_000_000,
        positions_within(old(w).agents@, bp),
        0 <= bp,
        bp + cfg.frag_offset <= POS_LIMIT,
    ensures
        final(w).wf(*cfg),
        state_of(*final(w), *final(rng)) == event_step(
            state_of(*old(w), *old(rng)),
            ev,
            now,
            *cfg,
        ),
        budget == event_budget(old(w).agents@, ev, cfg.contrib_floor as int),
        0 <= budget <= 2_000,
        positions_within(final(w).agents@, bp + cfg.frag_offset),
        old(w).next_id <= final(w).next_id <= old(w).next_id + 2_000,
        old(w).next_body <= final(w).next_body <= old(w).next_body + 2_000,
{
    let ghost st0 = state_of(*w, *rng);
    let ghost s0 = w.agents@;
    let mut budget: i64 = 0;
    let mut center = Vec2i { x: 0, y: 0 };
    proof {
        if contains_id(s0, ev.entity_a) {
            crate::world::lemma_agent_of(s0, ev.entity_a);
            assert(agent_ok(s0[crate::world::idx_of(s0, ev.entity_a)], *cfg));
        } else {
            crate::world::lemma_without_id_shape(s0, ev.entity_a);
        }
    }
    let ra = w.take_agent(cfg, ev.entity_a);
    match ra {
        Some((r1, p1)) => {
            budget = fragment_contribution(r1, cfg.contrib_floor);
            center = p1;
        },
        None => {},
    }
    let ghost s1 = w.agents@;
    proof {
        lemma_positions_within_without(s0, ev.entity_a, bp);
        if contains_id(s1, ev.entity_b) {
            crate::world::lemma_agent_of(s1, ev.entity_b);
            assert(agent_ok(s1[crate::world::idx_of(s1, ev.entity_b)], *cfg));
            assert(iabs(agent_of(s1, ev.entity_b).pos.x as int) <= bp && iabs(
                agent_of(s1, ev.entity_b).pos.y as int,
            ) <= bp);
        } else {
            crate::world::lemma_without_id_shape(s1, ev.entity_b);
        }
        if contains_id(s0, ev.entity_a) {
            assert(iabs(agent_of(s0, ev.entity_a).pos.x as int) <= bp && iabs(
                agent_of(s0, ev.entity_a).pos.y as int,
            ) <= bp);
        }
    }
    let rb = w.take_agent(cfg, ev.entity_b);
    match rb {
        Some((r2, p2)) => {
            budget = budget + fragment_contribution(r2, cfg.contrib_floor);
            center = p2;
        },
        None => {},
    }
    let ghost s2 = w.agents@;
    proof {
        lemma_positions_within_without(s1, ev.entity_b, bp);
        assert(budget == event_budget(s0, ev, cfg.contrib_floor as int));
    }
    if budget > 0 {
        proof {
            assert(center == event_center(s0, ev));
            assert(iabs(center.x as int) <= bp && iabs(center.y as int) <= bp);
        }
        record_effect(w, center, now, cfg);
        push_blast(w, ev.entity_a, ev.entity_b, center, cfg);
        proof {
            // positions are untouched by the blast push
            assert forall|j: int| 0 <= j < w.agents@.len() implies iabs(
                (#[trigger] w.agents@[j]).pos.x as int,
            ) <= bp && iabs(w.agents@[j].pos.y as int) <= bp by {
                assert(w.agents@[j].pos == s2[j].pos);
                assert(iabs(s2[j].pos.x as int) <= bp);
            }
        }
        let ghost mid = state_of(*w, *rng);
        spawn_fragments(w, rng, center, budget, cfg, Ghost(bp));
        proof {
            reveal(event_step);
            let stspec = event_step(st0, ev, now, *cfg);
            assert(mid == SimState {
                agents: pushed_seq(
                    s2,
                    ev.entity_a,
                    ev.entity_b,
                    center,
                    cfg.push_const as int,
                    cfg.push_radius as int,
                    cfg.max_speed as int,
                ),
                explosions: st0.explosions.push(ExplosionEffect { pos: center, start_time: now }),
                next_id: st0.next_id,
                next_body: st0.next_body,
                rng: st0.rng,
            });
            assert(stspec == spawn_frags(mid, center, budget as nat, *cfg));
        }
        budget
    } else {
        proof {
            reveal(event_step);
            assert(state_of(*w, *rng) == st0);
            assert(event_step(st0, ev, now, *cfg) == st0);
            assert forall|j: int| 0 <= j < w.agents@.len() implies iabs(
                (#[trigger] w.agents@[j]).pos.x as int,
            ) <= bp + cfg.frag_offset && iabs(w.agents@[j].pos.y as int) <= bp
                + cfg.frag_offset by {
                assert(iabs(w.agents@[j].pos.x as int) <= bp);
            }
        }
        budget
    }
}

/// Record the one explosion effect of an event.
fn record_effect(w: &mut World, center: Vec2i, now: u64, cfg: &SimConfig)
    requires
        cfg.wf(),
        old(w).wf(*cfg),
        now <= TIME_LIMIT,
        iabs(center.x as int) <= POS_LIMIT,
        iabs(center.y as int) <= POS_LIMIT,
    ensures
        final(w).wf(*cfg),
        final(w).agents@ == old(w).agents@,
        final(w).explosions@ == old(w).explosions@.push(
            ExplosionEffect { pos: center, start_time: now },
        ),
        final(w).next_id == old(w).next_id,
        final(w).next_body == old(w).next_body,
{
    let e = ExplosionEffect { pos: center, start_time: now };
    w.explosions.push(e);
    proof {
        let s = w.explosions@;
        assert forall|j: int| 0 <= j < s.len() implies crate::world::effect_ok(
            #[trigger] s[j],
        ) by {
            if j < s.len() - 1 {
                assert(s[j] == old(w).explosions@[j]);
            }
        }
    }
}

/// One whole batch of collision events, in order: exactly `batch_step`.
/// The cap on the batch size, with the context's fragment-offset bound,
/// keeps every position a chain of fragment spawns can reach within the
/// modelled coordinate range.
#[verifier::rlimit(100)]
pub fn resolve_collisions(
    w: &mut World,
    rng: &mut SimRng,
    events: &Vec<EntityCollision>,
    now: u64,
    cfg: &SimConfig,
)
    requires
        cfg.wf(),
        old(w).wf(*cfg),
        now <= TIME_LIMIT,
        old(w).next_id <= 2_000_000_000_000_000_000,
        old(w).next_body <= 2_000_000_000_000_000_000,
        positions_within(old(w).agents@, 1_000_000_000),
        events@.len() <= 1_000,
    ensures
        final(w).wf(*cfg),
        state_of(*final(w), *final(rng)) == batch_step(
            state_of(*old(w), *old(rng)),
            events@,
            now,
            *cfg,
        ),
        positions_within(final(w).agents@, POS_LIMIT as int),
{
    let ghost st0 = state_of(*w, *rng);
    let n = events.len();
    let mut i: usize = 0;
    proof {
        assert(events@.skip(0) =~= events@);
    }
    while i < n
        invariant
            cfg.wf(),
            w.wf(*cfg),
            now <= TIME_LIMIT,
            n == events@.len(),
            n <= 1_000,
            0 <= i <= n,
            batch_step(st0, events@, now, *cfg) == batch_step(
                state_of(*w, *rng),
                events@.skip(i as int),
                now,
                *cfg,
            ),
            positions_within(w.agents@, 1_000_000_000 + i * 100_000),
            st0.next_id <= 2_000_000_000_000_000_000,
            st0.next_body <= 2_000_000_000_000_000_000,
            w.next_id <= st0.next_id + i * 2_000,
            w.next_body <= st0.next_body + i * 2_000,
        decreases n - i,
    {
        let ev = events[i];
        let ghost bp = 1_000_000_000 + i as int * 100_000;
        proof {
            assert(bp + cfg.frag_offset <= POS_LIMIT);
        }
        let ghost pre = state_of(*w, *rng);
        resolve_event(w, rng, ev, now, cfg, Ghost(bp));
        proof {
            assert(events@.skip(i as int)[0] == events@[i as int]);
            assert(events@.skip(i as int).drop_first() =~= events@.skip(i as int + 1));
            assert(batch_step(pre, events@.skip(i as int), now, *cfg) == batch_step(
                event_step(pre, ev, now, *cfg),
                events@.skip(i as int + 1),
                now,
                *cfg,
            ));
            assert forall|j: int| 0 <= j < w.agents@.len() implies iabs(
                (#[trigger] w.agents@[j]).pos.x as int,
            ) <= 1_000_000_000 + (i + 1) * 100_000 && iabs(w.agents@[j].pos.y as int)
                <= 1_000_000_000 + (i + 1) * 100_000 by {
                assert(iabs(w.agents@[j].pos.x as int) <= bp + cfg.frag_offset);
            }
        }
        i = i + 1;
    }
    proof {
        assert(events@.skip(n as int) =~= Seq::<EntityCollision>::empty());
        assert(batch_step(state_of(*w, *rng), events@.skip(n as int), now, *cfg) == state_of(
            *w,
            *rng,
        ));
        assert forall|j: int| 0 <= j < w.agents@.len() implies iabs(
            (#[trigger] w.agents@[j]).pos.x as int,
        ) <= POS_LIMIT as int && iabs(w.agents@[j].pos.y as int) <= POS_LIMIT as int by {
            assert(iabs(w.agents@[j].pos.x as int) <= 1_000_000_000 + n * 100_000);
        }
    }
}

} // verus!
