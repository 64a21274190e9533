//! The simulation step controller: the fixed five-stage frame.
//!
//! Each frame runs, in order: boundary correction, the physics step
//! (outside this library — it integrates the bodies and reports
//! start-of-contact events), position sync, collision resolution, and
//! effect expiry. Each stage completes before the next begins, and
//! positions are refreshed (stage 3) before blast centers are computed
//! (stage 4), so effects and pushes use current positions. The caller
//! drives stage 1 with `boundary_stage`, performs the physics step, and
//! hands its results to `post_step`, which is stages 3, 4 and 5 whole.

use vstd::prelude::*;
use crate::config::{SimConfig, POS_LIMIT, TIME_LIMIT};
use crate::fixed::iabs;
use crate::resolve::{batch_step, positions_within, resolve_collisions, state_of, SimState};
use crate::rng::{lcg_next, rand_vel_of, SimRng};
use crate::vec2::Vec2i;
use crate::world::{agent_ok, distinct_agents, Agent, EntityCollision, ExplosionEffect,
    PositionUpdate, World};

verus! {

/// Whether an agent has left the world rectangle `[0, W] x [0, H]`.
pub open spec fn out_of_bounds(a: Agent, cfg: SimConfig) -> bool {
    !(0 <= a.pos.x <= cfg.world_w && 0 <= a.pos.y <= cfg.world_h)
}

/// One agent of the boundary pass: an agent outside the world rectangle
/// gets a freshly randomized velocity (three draws); its position is
/// left exactly where it is — never clamped back inside. An agent
/// inside is untouched and draws nothing.
pub open spec fn rand_if_out(a: Agent, r: u64, cfg: SimConfig) -> (Agent, u64) {
    if out_of_bounds(a, cfg) {
        (
            Agent { vel: rand_vel_of(r, cfg.max_speed as int), ..a },
            lcg_next(lcg_next(lcg_next(r))),
        )
    } else {
        (a, r)
    }
}

/// The boundary pass over the first `k` agents, threading the random
/// stream through the agents it re-randomizes.
pub open spec fn boundary_upto(s: Seq<Agent>, r: u64, cfg: SimConfig, k: nat) -> (Seq<Agent>, u64)
    decreases k,
{
    if k == 0 {
        (s, r)
    } else {
        let prev = boundary_upto(s, r, cfg, (k - 1) as nat);
        let au = rand_if_out(prev.0[k - 1], prev.1, cfg);
        (prev.0.update(k - 1, au.0), au.1)
    }
}

/// Stage 1, boundary correction: every agent out of the world rectangle
/// is given a fresh random velocity; positions are never touched.
#[verifier::rlimit(100)]
pub fn boundary_stage(w: &mut World, rng: &mut SimRng, cfg: &SimConfig)
    requires
        cfg.wf(),
        old(w).wf(*cfg),
    ensures
        final(w).wf(*cfg),
        (final(w).agents@, final(rng).state) == boundary_upto(
            old(w).agents@,
            old(rng).state,
            *cfg,
            old(w).agents@.len(),
        ),
        final(w).agents@.len() == old(w).agents@.len(),
        final(w).explosions@ == old(w).explosions@,
        final(w).next_id == old(w).next_id,
        final(w).next_body == old(w).next_body,
        // positions are never clamped back inside, and nothing else moves
        forall|i: int|
            0 <= i < old(w).agents@.len() ==> (#[trigger] final(w).agents@[i]).pos
                == old(w).agents@[i].pos && final(w).agents@[i].id == old(w).agents@[i].id
                && final(w).agents@[i].body == old(w).agents@[i].body
                && final(w).agents@[i].radius == old(w).agents@[i].radius,
        // an agent inside the rectangle keeps its velocity
        forall|i: int|
            0 <= i < old(w).agents@.len() && !out_of_bounds(old(w).agents@[i], *cfg)
                ==> (#[trigger] final(w).agents@[i]).vel == old(w).agents@[i].vel,
{
    let ghost s0 = w.agents@;
    let ghost r0 = rng.state;
    let ghost exps0 = w.explosions@;
    let n = w.agents.len();
    let mut i: usize = 0;
    while i < n
        invariant
            cfg.wf(),
            n == s0.len(),
            w.agents@.len() == n,
            0 <= i <= n,
            (w.agents@, rng.state) == boundary_upto(s0, r0, *cfg, i as nat),
            forall|j: int| i <= j < n ==> #[trigger] w.agents@[j] == s0[j],
            forall|j: int|
                0 <= j < n ==> (#[trigger] w.agents@[j]).pos == s0[j].pos && w.agents@[j].id
                    == s0[j].id && w.agents@[j].body == s0[j].body && w.agents@[j].radius
                    == s0[j].radius,
            forall|j: int|
                0 <= j < n && !out_of_bounds(s0[j], *cfg) ==> (#[trigger] w.agents@[j]).vel
                    == s0[j].vel,
            forall|j: int| 0 <= j < n ==> agent_ok(#[trigger] w.agents@[j], *cfg),
            forall|j: int| 0 <= j < n ==> agent_ok(#[trigger] s0[j], *cfg),
            distinct_agents(s0),
            forall|j: int| 0 <= j < n ==> (#[trigger] s0[j]).id < w.next_id,
            forall|j: int| 0 <= j < n ==> (#[trigger] s0[j]).body < w.next_body,
            w.explosions@ == exps0,
            forall|j: int| 0 <= j < exps0.len() ==> crate::world::effect_ok(#[trigger] exps0[j]),
            w.next_id == old(w).next_id,
            w.next_body == old(w).next_body,
        decreases n - i,
    {
        let ghost pre_agents = w.agents@;
        let ghost pre_r = rng.state;
        let a = w.agents[i];
        let outside = a.pos.x < 0 || a.pos.x > cfg.world_w || a.pos.y < 0 || a.pos.y
            > cfg.world_h;
        if outside {
            let nv = rng.rand_velocity(cfg.max_speed);
            let na = Agent { vel: nv, ..a };
            w.agents[i] = na;
        }
        proof {
            assert(boundary_upto(s0, r0, *cfg, (i + 1) as nat).0 == boundary_upto(
                s0,
                r0,
                *cfg,
                i as nat,
            ).0.update(i as int, rand_if_out(pre_agents[i as int], pre_r, *cfg).0));
            if !outside {
                assert(w.agents@ =~= pre_agents.update(i as int, pre_agents[i as int]));
            }
        }
        i = i + 1;
    }
    proof {
        assert(distinct_agents(w.agents@)) by {
            assert forall|p: int, q: int| 0 <= p < q < n implies (#[trigger] w.agents@[p]).id
                != (#[trigger] w.agents@[q]).id && w.agents@[p].body != w.agents@[q].body by {
                assert(s0[p].id != s0[q].id && s0[p].body != s0[q].body);
            }
        }
    }
}

/// The position, if any, the physics step reports for identity `id`:
/// the first update carrying it.
pub open spec fn lookup_pos(us: Seq<PositionUpdate>, id: u64) -> Option<Vec2i>
    decreases us.len(),
{
    if us.len() == 0 {
        None
    } else if us[0].id == id {
        Some(us[0].pos)
    } else {
        lookup_pos(us.drop_first(), id)
    }
}

/// An agent after the position sync: its reported position if the step
/// reported one, otherwise unchanged.
pub open spec fn synced_agent(a: Agent, us: Seq<PositionUpdate>) -> Agent {
    match lookup_pos(us, a.id) {
        Some(p) => Agent { pos: p, ..a },
        None => a,
    }
}

/// The whole population after the position sync.
pub open spec fn synced_seq(s: Seq<Agent>, us: Seq<PositionUpdate>) -> Seq<Agent> {
    s.map_values(|a: Agent| synced_agent(a, us))
}

/// Every update carries a position within the synced range.
pub open spec fn updates_ok(us: Seq<PositionUpdate>) -> bool {
    forall|i: int|
        0 <= i < us.len() ==> iabs((#[trigger] us[i]).pos.x as int) <= 1_000_000_000 && iabs(
            us[i].pos.y as int,
        ) <= 1_000_000_000
}

/// The first update carrying `id`, exactly `lookup_pos`.
fn find_update(updates: &Vec<PositionUpdate>, id: u64) -> (r: Option<Vec2i>)
    ensures
        r == lookup_pos(updates@, id),
{
    let n = updates.len();
    let mut i: usize = 0;
    proof {
        assert(updates@.skip(0) =~= updates@);
    }
    while i < n
        invariant
            n == updates@.len(),
            0 <= i <= n,
            lookup_pos(updates@, id) == lookup_pos(updates@.skip(i as int), id),
        decreases n - i,
    {
        let u = updates[i];
        proof {
            assert(updates@.skip(i as int)[0] == updates@[i as int]);
            assert(updates@.skip(i as int).drop_first() =~= updates@.skip(i as int + 1));
        }
        if u.id == id {
            return Some(u.pos);
        }
        i = i + 1;
    }
    proof {
        assert(updates@.skip(n as int) =~= Seq::<PositionUpdate>::empty());
    }
    None
}

/// Stage 3, position sync: pull the freshly integrated position of
/// every still-bound agent into its record. An agent the step reports
/// nothing for keeps its last position.
pub fn sync_positions(w: &mut World, updates: &Vec<PositionUpdate>, cfg: &SimConfig)
    requires
        cfg.wf(),
        old(w).wf(*cfg),
        updates_ok(updates@),
    ensures
        final(w).wf(*cfg),
        final(w).agents@ == synced_seq(old(w).agents@, updates@),
        final(w).explosions@ == old(w).explosions@,
        final(w).next_id == old(w).next_id,
        final(w).next_body == old(w).next_body,
        // when the step reports every agent, all positions are synced
        (forall|i: int|
            0 <= i < old(w).agents@.len() ==> lookup_pos(
                updates@,
                (#[trigger] old(w).agents@[i]).id,
            ) is Some) ==> positions_within(final(w).agents@, 1_000_000_000),
{
    let ghost s0 = w.agents@;
    let ghost target = synced_seq(s0, updates@);
    let n = w.agents.len();
    let mut i: usize = 0;
    proof {
        assert forall|j: int| 0 <= j < n implies #[trigger] target[j] == synced_agent(
            s0[j],
            updates@,
        ) by {}
    }
    while i < n
        invariant
            cfg.wf(),
            n == s0.len(),
            w.agents@.len() == n,
            0 <= i <= n,
            target == synced_seq(s0, updates@),
            forall|j: int| 0 <= j < n ==> #[trigger] target[j] == synced_agent(s0[j], updates@),
            forall|j: int| 0 <= j < i ==> #[trigger] w.agents@[j] == target[j],
            forall|j: int| i <= j < n ==> #[trigger] w.agents@[j] == s0[j],
            forall|j: int| 0 <= j < n ==> agent_ok(#[trigger] s0[j], *cfg),
            forall|j: int| 0 <= j < n ==> agent_ok(#[trigger] w.agents@[j], *cfg),
            updates_ok(updates@),
            distinct_agents(s0),
            w.explosions@ == old(w).explosions@,
            w.next_id == old(w).next_id,
            w.next_body == old(w).next_body,
            forall|j: int| 0 <= j < n ==> (#[trigger] s0[j]).id < w.next_id,
            forall|j: int| 0 <= j < n ==> (#[trigger] s0[j]).body < w.next_body,
            forall|j: int| 0 <= j < w.explosions@.len() ==> crate::world::effect_ok(#[trigger] w.explosions@[j]),
        decreases n - i,
    {
        let a = w.agents[i];
        match find_update(updates, a.id) {
            Some(p) => {
                proof {
                    let k = choose|k: int|
                        0 <= k < updates@.len() && lookup_pos(updates@, a.id) == Some(
                            updates@[k].pos,
                        ) && updates@[k].pos == p;
                    lemma_lookup_pos_bounds(updates@, a.id);
                }
                let na = Agent { pos: p, ..a };
                w.agents[i] = na;
            },
            None => {},
        }
        proof {
            assert(w.agents@[i as int] == target[i as int]);
        }
        i = i + 1;
    }
    proof {
        assert(w.agents@ =~= target);
        assert(distinct_agents(w.agents@)) by {
            assert forall|p: int, q: int| 0 <= p < q < n implies (#[trigger] w.agents@[p]).id
                != (#[trigger] w.agents@[q]).id && w.agents@[p].body != w.agents@[q].body by {
                assert(s0[p].id != s0[q].id && s0[p].body != s0[q].body);
            }
        }
        if forall|i2: int|
            0 <= i2 < s0.len() ==> lookup_pos(updates@, (#[trigger] s0[i2]).id) is Some {
            assert forall|j: int| 0 <= j < w.agents@.len() implies iabs(
                (#[trigger] w.agents@[j]).pos.x as int,
            ) <= 1_000_000_000 && iabs(w.agents@[j].pos.y as int) <= 1_000_000_000 by {
                assert(lookup_pos(updates@, s0[j].id) is Some);
                lemma_lookup_pos_bounds(updates@, s0[j].id);
            }
        }
    }
}

/// A reported position lies within the synced range.
proof fn lemma_lookup_pos_bounds(us: Seq<PositionUpdate>, id: u64)
    requires
        updates_ok(us),
        lookup_pos(us, id) is Some,
    ensures
        iabs(lookup_pos(us, id)->Some_0.x as int) <= 1_000_000_000,
        iabs(lookup_pos(us, id)->Some_0.y as int) <= 1_000_000_000,
    decreases us.len(),
{
    if us.len() == 0 {
    } else if us[0].id == id {
    } else {
        assert(updates_ok(us.drop_first())) by {
            assert forall|i: int| 0 <= i < us.drop_first().len() implies iabs(
                (#[trigger] us.drop_first()[i]).pos.x as int,
            ) <= 1_000_000_000 && iabs(us.drop_first()[i].pos.y as int) <= 1_000_000_000 by {
                assert(us.drop_first()[i] == us[i + 1]);
            }
        }
        lemma_lookup_pos_bounds(us.drop_first(), id);
    }
}

/// Keep an explosion effect while its age is within the duration: an
/// effect is Active from creation, Expired once `now` passes
/// `start_time` by more than the duration, and an Expired effect is
/// removed. There are no other states or transitions.
pub open spec fn keep_effect(now: u64, dur: u64) -> spec_fn(ExplosionEffect) -> bool {
    |e: ExplosionEffect| now <= e.start_time + dur
}

/// Stage 5, effect expiry: remove every explosion effect whose age
/// exceeds the duration; everything else is untouched.
pub fn expire_effects(w: &mut World, now: u64, cfg: &SimConfig)
    requires
        cfg.wf(),
        old(w).wf(*cfg),
    ensures
        final(w).wf(*cfg),
        final(w).explosions@ == old(w).explosions@.filter(keep_effect(now, cfg.explode_millis)),
        final(w).agents@ == old(w).agents@,
        final(w).next_id == old(w).next_id,
        final(w).next_body == old(w).next_body,
        // exactly the effects whose age is within the duration survive
        forall|j: int|
            0 <= j < final(w).explosions@.len() ==> now
                <= (#[trigger] final(w).explosions@[j]).start_time + cfg.explode_millis,
        forall|j: int|
            0 <= j < old(w).explosions@.len() && now
                <= (#[trigger] old(w).explosions@[j]).start_time + cfg.explode_millis
                ==> final(w).explosions@.contains(old(w).explosions@[j]),
{
    let ghost s = w.explosions@;
    let ghost pred = keep_effect(now, cfg.explode_millis);
    let mut kept: Vec<ExplosionEffect> = Vec::new();
    let n = w.explosions.len();
    let mut i: usize = 0;
    proof {
        assert(s.take(0) =~= Seq::<ExplosionEffect>::empty());
    }
    while i < n
        invariant
            cfg.wf(),
            pred == keep_effect(now, cfg.explode_millis),
            n == s.len(),
            w.explosions@ == s,
            0 <= i <= n,
            kept@ == s.take(i as int).filter(pred),
            forall|j: int| 0 <= j < s.len() ==> crate::world::effect_ok(#[trigger] s[j]),
        decreases n - i,
    {
        let e = w.explosions[i];
        proof {
            assert(s.take(i as int + 1) =~= s.take(i as int).push(s[i as int]));
            s.take(i as int).lemma_filter_push(s[i as int], pred);
            assert(crate::world::effect_ok(s[i as int]));
        }
        if now <= e.start_time + cfg.explode_millis {
            kept.push(e);
        }
        i = i + 1;
    }
    proof {
        assert(s.take(n as int) =~= s);
        broadcast use Seq::lemma_filter_pred;
        broadcast use Seq::lemma_filter_contains;

        assert forall|j: int| 0 <= j < kept@.len() implies crate::world::effect_ok(
            #[trigger] kept@[j],
        ) by {
            let e = kept@[j];
            assert(kept@.contains(e));
            s.lemma_filter_contains_rev(pred, e);
            let m = choose|m: int| 0 <= m < s.len() && s[m] == e;
            assert(crate::world::effect_ok(s[m]));
        }
        assert forall|j: int|
            0 <= j < s.len() && now <= (#[trigger] s[j]).start_time
                + cfg.explode_millis implies s.filter(pred).contains(s[j]) by {
            assert(pred(s[j]));
            s.lemma_filter_contains(pred, j);
        }
    }
    w.explosions = kept;
}

/// Stages 3, 4 and 5 of one frame, in their fixed order: sync the
/// integrated positions, resolve the collision batch (which may destroy
/// agents and spawn fragments and one effect per event), then expire
/// the effects whose time is up. Positions are synced before any blast
/// center is read, so the centers are current, never stale.
pub fn post_step(
    w: &mut World,
    rng: &mut SimRng,
    updates: &Vec<PositionUpdate>,
    events: &Vec<EntityCollision>,
    now: u64,
    cfg: &SimConfig,
)
    requires
        cfg.wf(),
        old(w).wf(*cfg),
        now <= TIME_LIMIT,
        old(w).next_id <= 2_000_000_000_000_000_000,
        old(w).next_body <= 2_000_000_000_000_000_000,
        updates_ok(updates@),
        // the physics step reports a position for every bound agent
        forall|i: int|
            0 <= i < old(w).agents@.len() ==> lookup_pos(
                updates@,
                (#[trigger] old(w).agents@[i]).id,
            ) is Some,
        events@.len() <= 1_000,
    ensures
        final(w).wf(*cfg),
        state_of(*final(w), *final(rng)) == ({
            let st1 = SimState {
                agents: synced_seq(old(w).agents@, updates@),
                explosions: old(w).explosions@,
                next_id: old(w).next_id,
                next_body: old(w).next_body,
                rng: old(rng).state,
            };
            let st2 = batch_step(st1, events@, now, *cfg);
            SimState {
                explosions: st2.explosions.filter(keep_effect(now, cfg.explode_millis)),
                ..st2
            }
        }),
{
    sync_positions(w, updates, cfg);
    let ghost st1 = state_of(*w, *rng);
    resolve_collisions(w, rng, events, now, cfg);
    let ghost st2 = state_of(*w, *rng);
    expire_effects(w, now, cfg);
    proof {
        assert(state_of(*w, *rng) == SimState {
            explosions: st2.explosions.filter(keep_effect(now, cfg.explode_millis)),
            ..st2
        });
    }
}

/// Where agent `i` of the initial grid stands: the population is laid
/// out column-major on a square grid of side `xd`, scaled to the world
/// rectangle.
pub open spec fn grid_pos(i: int, xd: int, cfg: SimConfig) -> Vec2i {
    Vec2i {
        x: (i / xd * cfg.world_w / xd) as i64,
        y: (i % xd * cfg.world_h / xd) as i64,
    }
}

/// Agent `i` of the initial population: grid position, then one draw
/// for its radius and three for its velocity.
pub open spec fn init_agent(i: int, xd: int, r: u64, cfg: SimConfig) -> Agent {
    Agent {
        id: i as u64,
        body: i as u64,
        pos: grid_pos(i, xd, cfg),
        vel: rand_vel_of(lcg_next(r), cfg.max_speed as int),
        radius: crate::rng::range_val(
            lcg_next(r),
            cfg.radius_lo as int,
            cfg.radius_hi as int,
        ) as i64,
    }
}

/// The first `k` agents of the initial population, threading the random
/// stream (four draws each).
pub open spec fn init_upto(r0: u64, k: nat, xd: int, cfg: SimConfig) -> (Seq<Agent>, u64)
    decreases k,
{
    if k == 0 {
        (Seq::<Agent>::empty(), r0)
    } else {
        let prev = init_upto(r0, (k - 1) as nat, xd, cfg);
        (
            prev.0.push(init_agent(k - 1, xd, prev.1, cfg)),
            lcg_next(lcg_next(lcg_next(lcg_next(prev.1)))),
        )
    }
}

/// World init: `count` agents on a grid, each with a random radius from
/// the configured range and a random velocity. `None` exactly when the
/// grid formula would place an agent outside the synced coordinate
/// range — a configuration error, fatal at startup, decided by the
/// caller.
pub fn init_world(cfg: &SimConfig, rng: &mut SimRng, count: u64) -> (r: Option<World>)
    requires
        cfg.wf(),
        count <= 1_000_000,
    ensures
        count == 0 ==> r is Some,
        count > 0 ==> (r is Some <==> ((count - 1) as int) / crate::fixed::sqrt_floor(
            count as int,
        ) * (cfg.world_w as int) / crate::fixed::sqrt_floor(count as int) <= 1_000_000_000),
        r is None ==> *final(rng) == *old(rng),
        r is Some ==> ({
            let w = r->Some_0;
            &&& w.wf(*cfg)
            &&& w.agents@.len() == count
            &&& w.next_id == count
            &&& w.next_body == count
            &&& w.explosions@ == Seq::<ExplosionEffect>::empty()
            &&& crate::resolve::positions_within(w.agents@, 1_000_000_000)
            &&& (w.agents@, final(rng).state) == init_upto(
                old(rng).state,
                count as nat,
                crate::fixed::sqrt_floor(count as int),
                *cfg,
            )
        }),
{
    let mut w = World::empty();
    if count == 0 {
        return Some(w);
    }
    let xd = crate::fixed::isqrt64(count);
    proof {
        assert(xd >= 1) by {
            assert(1 * 1 <= count);
        }
        assert(xd <= count) by (nonlinear_arith)
            requires
                xd * xd <= count,
                xd >= 1,
        ;
        vstd::arithmetic::div_mod::lemma_div_nonincreasing((count - 1) as int, xd as int);
        vstd::arithmetic::div_mod::lemma_div_pos_is_pos((count - 1) as int, xd as int);
    }
    let q: u64 = (count - 1) / xd;
    proof {
        assert(q <= 1_000_000);
        assert(q * (cfg.world_w as int) <= 1_000_000 * 1_000_000_000) by (nonlinear_arith)
            requires
                0 <= q <= 1_000_000,
                0 < cfg.world_w <= 1_000_000_000,
        ;
    }
    let prod: u64 = q * (cfg.world_w as u64);
    let worst: u64 = prod / xd;
    proof {
        assert(((count - 1) as int) / (xd as int) * (cfg.world_w as int) <= 1_000_000
            * 1_000_000_000) by (nonlinear_arith)
            requires
                0 <= ((count - 1) as int) / (xd as int) <= 1_000_000,
                0 < cfg.world_w <= 1_000_000_000,
        ;
    }
    if worst > 1_000_000_000 {
        return None;
    }
    let ghost r0 = rng.state;
    let mut i: u64 = 0;
    while i < count
        invariant
            cfg.wf(),
            w.wf(*cfg),
            0 <= i <= count,
            count <= 1_000_000,
            1 <= xd <= count,
            xd == crate::fixed::sqrt_floor(count as int),
            w.agents@.len() == i,
            w.next_id == i,
            w.next_body == i,
            w.explosions@ == Seq::<ExplosionEffect>::empty(),
            crate::resolve::positions_within(w.agents@, 1_000_000_000),
            (w.agents@, rng.state) == init_upto(r0, i as nat, xd as int, *cfg),
            ((count - 1) as int) / (xd as int) * (cfg.world_w as int) / (xd as int)
                <= 1_000_000_000,
        decreases count - i,
    {
        let ghost pre_agents = w.agents@;
        let ghost pre_r = rng.state;
        let radius = rng.gen_range_i64(cfg.radius_lo, cfg.radius_hi);
        let vel = rng.rand_velocity(cfg.max_speed);
        proof {
            vstd::arithmetic::div_mod::lemma_div_nonincreasing(i as int, xd as int);
            vstd::arithmetic::div_mod::lemma_div_is_ordered(
                i as int,
                (count - 1) as int,
                xd as int,
            );
            assert((i as int) / (xd as int) * (cfg.world_w as int) <= ((count - 1) as int) / (
            xd as int) * (cfg.world_w as int) && (i as int) / (xd as int) * (cfg.world_w as int)
                <= 1_000_000 * 1_000_000_000) by (nonlinear_arith)
                requires
                    0 <= (i as int) / (xd as int) <= ((count - 1) as int) / (xd as int),
                    (i as int) / (xd as int) <= 1_000_000,
                    0 < cfg.world_w <= 1_000_000_000,
            ;
            vstd::arithmetic::div_mod::lemma_div_is_ordered(
                (i as int) / (xd as int) * (cfg.world_w as int),
                ((count - 1) as int) / (xd as int) * (cfg.world_w as int),
                xd as int,
            );
            vstd::arithmetic::div_mod::lemma_mod_pos_bound(i as int, xd as int);
            assert((i as int) % (xd as int) * (cfg.world_h as int) <= (xd as int) * (
            cfg.world_h as int) && (xd as int) * (cfg.world_h as int) <= 1_000_000
                * 1_000_000_000) by (nonlinear_arith)
                requires
                    0 <= (i as int) % (xd as int) < xd as int,
                    xd <= 1_000_000,
                    0 < cfg.world_h <= 1_000_000_000,
            ;
            vstd::arithmetic::div_mod::lemma_div_is_ordered(
                (i as int) % (xd as int) * (cfg.world_h as int),
                (xd as int) * (cfg.world_h as int),
                xd as int,
            );
            vstd::arithmetic::div_mod::lemma_div_multiples_vanish(
                cfg.world_h as int,
                xd as int,
            );
        }
        let px: u64 = i / xd * (cfg.world_w as u64) / xd;
        let py: u64 = i % xd * (cfg.world_h as u64) / xd;
        let pos = Vec2i { x: px as i64, y: py as i64 };
        w.spawn(cfg, pos, vel, radius);
        proof {
            assert(w.agents@ =~= pre_agents.push(init_agent(i as int, xd as int, pre_r, *cfg)))
                by {
                assert(w.agents@.last() == init_agent(i as int, xd as int, pre_r, *cfg)) by {
                    assert(pos == grid_pos(i as int, xd as int, *cfg));
                }
            }
            assert forall|j: int| 0 <= j < w.agents@.len() implies crate::fixed::iabs(
                (#[trigger] w.agents@[j]).pos.x as int,
            ) <= 1_000_000_000 && crate::fixed::iabs(w.agents@[j].pos.y as int)
                <= 1_000_000_000 by {
                if j < pre_agents.len() {
                    assert(w.agents@[j] == pre_agents[j]);
                }
            }
        }
        i = i + 1;
    }
    Some(w)
}

} // verus!
