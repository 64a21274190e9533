//! The general laws of the simulation, stated and proved once over the
//! model that the executable functions are specified against.

use vstd::prelude::*;
use crate::config::SimConfig;
use crate::resolve::{contribution, event_budget, push_power_of, MIN_DIST_SQ};
use crate::world::{
    agent_of, contains_id, distinct_agents, idx_of, lemma_agent_of, lemma_without_id_excludes,
    lemma_without_id_keeps, lemma_without_id_shape, without_id, Agent, EntityCollision, World,
};

verus! {

/// Law: every live agent has exactly one record, its one bound body is
/// shared with no other agent, and the record answers every position
/// and radius query — for a live agent the queries cannot fail.
pub proof fn lemma_one_record_per_agent(w: World, cfg: SimConfig, id: u64)
    requires
        w.wf(cfg),
        w.live(id),
    ensures
        0 <= idx_of(w.agents@, id) < w.agents@.len(),
        agent_of(w.agents@, id).id == id,
        forall|i: int|
            0 <= i < w.agents@.len() && (#[trigger] w.agents@[i]).id == id ==> i == idx_of(
                w.agents@,
                id,
            ),
        forall|i: int|
            0 <= i < w.agents@.len() && i != idx_of(w.agents@, id)
                ==> (#[trigger] w.agents@[i]).body != agent_of(w.agents@, id).body,
{
    let s = w.agents@;
    lemma_agent_of(s, id);
    let k = idx_of(s, id);
    assert forall|i: int| 0 <= i < s.len() && i != k implies (#[trigger] s[i]).body
        != agent_of(s, id).body by {
        if i < k {
            assert(s[i].body != s[k].body);
        } else {
            assert(s[k].body != s[i].body);
        }
    }
}

/// Law: the fragment budget of one collision event. With both sides
/// live and distinct it is the sum of the two contributions
/// `max(floor, floor_div(radius - 1/2))`; with only one side live — or
/// the same live entity named on both sides — it is that side's
/// contribution alone; with neither side live it is zero.
pub proof fn lemma_fragment_budget(s: Seq<Agent>, ev: EntityCollision, floor: int)
    requires
        distinct_agents(s),
    ensures
        contains_id(s, ev.entity_a) && contains_id(s, ev.entity_b) && ev.entity_a != ev.entity_b
            ==> event_budget(s, ev, floor) == contribution(
            agent_of(s, ev.entity_a).radius as int,
            floor,
        ) + contribution(agent_of(s, ev.entity_b).radius as int, floor),
        contains_id(s, ev.entity_a) && (ev.entity_a == ev.entity_b || !contains_id(
            s,
            ev.entity_b,
        )) ==> event_budget(s, ev, floor) == contribution(
            agent_of(s, ev.entity_a).radius as int,
            floor,
        ),
        !contains_id(s, ev.entity_a) && contains_id(s, ev.entity_b) ==> event_budget(s, ev, floor)
            == contribution(agent_of(s, ev.entity_b).radius as int, floor),
        !contains_id(s, ev.entity_a) && !contains_id(s, ev.entity_b) ==> event_budget(
            s,
            ev,
            floor,
        ) == 0,
{
    if contains_id(s, ev.entity_a) {
        lemma_without_id_shape(s, ev.entity_a);
        lemma_without_id_excludes(s, ev.entity_a);
        if ev.entity_b != ev.entity_a {
            lemma_without_id_keeps(s, ev.entity_a, ev.entity_b);
        }
    }
}

/// Law: destruction is idempotent. Removing an identity that is
/// already gone changes nothing, so an entity referenced twice within
/// one collision batch is destroyed at most once — the second
/// reference is a no-op, and an event naming the same live entity on
/// both sides removes one record and counts one contribution.
pub proof fn lemma_destroy_idempotent(s: Seq<Agent>, id: u64, floor: int)
    requires
        distinct_agents(s),
    ensures
        without_id(without_id(s, id), id) == without_id(s, id),
        contains_id(s, id) ==> without_id(s, id).len() == s.len() - 1,
        contains_id(s, id) ==> event_budget(
            s,
            EntityCollision { entity_a: id, entity_b: id },
            floor,
        ) == contribution(agent_of(s, id).radius as int, floor),
{
    lemma_without_id_shape(s, id);
    lemma_without_id_excludes(s, id);
    lemma_without_id_shape(without_id(s, id), id);
}

/// Law: the push falloff. The power an explosion imparts is
/// `pc / max(d2, 0.01)` in world units — exactly the inverse-square
/// law below the cap — and it never grows with distance.
pub proof fn lemma_push_falloff(d2a: int, d2b: int, pc: int)
    requires
        0 <= d2a <= d2b,
        0 < pc,
    ensures
        push_power_of(d2a, pc) >= push_power_of(d2b, pc),
        d2a >= MIN_DIST_SQ ==> push_power_of(d2a, pc) == pc * 1_000_000_000 / d2a,
        d2a < MIN_DIST_SQ ==> push_power_of(d2a, pc) == pc * 1_000_000_000 / (
        MIN_DIST_SQ as int),
{
    let ma = crate::fixed::imax(d2a, MIN_DIST_SQ as int);
    let mb = crate::fixed::imax(d2b, MIN_DIST_SQ as int);
    vstd::arithmetic::div_mod::lemma_div_is_ordered_by_denominator(
        pc * 1_000_000_000,
        ma,
        mb,
    );
}

} // verus!
