//! The population model: live agents, transient explosion effects, and
//! the atomic lifecycle operations on them.
//!
//! An agent is one record holding its stable identity, the identity of
//! its one bound body, and the position, velocity and radius that body
//! carries. Spawning creates the whole record at once — never a partial
//! bundle — and despawning removes it at once, so no component can ever
//! refer to a removed body.

use vstd::prelude::*;
use crate::config::{SimConfig, POS_LIMIT, RADIUS_LIMIT, TIME_LIMIT};
use crate::fixed::iabs;
use crate::vec2::Vec2i;

verus! {

#[derive(Clone, Copy, PartialEq, Eq, Structural, Debug)]
pub struct Agent {
    /// Stable identity of the agent.
    pub id: u64,
    /// Identity of the one physics body bound to this agent.
    pub body: u64,
    /// Position (milli-units).
    pub pos: Vec2i,
    /// Velocity (milli-units per second).
    pub vel: Vec2i,
    /// Radius of the body's disc (milli-units).
    pub radius: i64,
}

#[derive(Clone, Copy, PartialEq, Eq, Structural, Debug)]
pub struct ExplosionEffect {
    /// Where the blast happened, snapshot at creation.
    pub pos: Vec2i,
    /// When it happened (milliseconds).
    pub start_time: u64,
}

/// A start-of-contact report between the bodies of two agents.
#[derive(Clone, Copy, PartialEq, Eq, Structural, Debug)]
pub struct EntityCollision {
    pub entity_a: u64,
    pub entity_b: u64,
}

/// A freshly integrated position for one agent.
#[derive(Clone, Copy, PartialEq, Eq, Structural, Debug)]
pub struct PositionUpdate {
    pub id: u64,
    pub pos: Vec2i,
}

/// Some record of `s` carries identity `id`.
pub open spec fn contains_id(s: Seq<Agent>, id: u64) -> bool {
    exists|i: int| 0 <= i < s.len() && s[i].id == id
}

/// The index of the record carrying `id` (unique when identities are
/// pairwise distinct).
pub open spec fn idx_of(s: Seq<Agent>, id: u64) -> int {
    choose|i: int| 0 <= i < s.len() && s[i].id == id
}

/// The record carrying `id`.
pub open spec fn agent_of(s: Seq<Agent>, id: u64) -> Agent {
    s[idx_of(s, id)]
}

/// Keep every record but the one carrying `id`.
pub open spec fn keep_pred(id: u64) -> spec_fn(Agent) -> bool {
    |a: Agent| a.id != id
}

/// `s` with the record carrying `id` removed (unchanged when none does).
pub open spec fn without_id(s: Seq<Agent>, id: u64) -> Seq<Agent> {
    s.filter(keep_pred(id))
}

/// Identities and bound bodies are pairwise distinct: every agent has
/// its own record and its own body.
pub open spec fn distinct_agents(s: Seq<Agent>) -> bool {
    forall|i: int, j: int|
        0 <= i < j < s.len() ==> (#[trigger] s[i]).id != (#[trigger] s[j]).id && s[i].body
            != s[j].body
}

/// Bounds every live agent keeps: position within the modelled range,
/// speed within the cap, radius positive and bounded.
pub open spec fn agent_ok(a: Agent, cfg: SimConfig) -> bool {
    &&& iabs(a.pos.x as int) <= POS_LIMIT
    &&& iabs(a.pos.y as int) <= POS_LIMIT
    &&& iabs(a.vel.x as int) <= cfg.max_speed
    &&& iabs(a.vel.y as int) <= cfg.max_speed
    &&& 0 < a.radius <= RADIUS_LIMIT
}

/// Bounds every explosion effect keeps.
pub open spec fn effect_ok(e: ExplosionEffect) -> bool {
    &&& e.start_time <= TIME_LIMIT
    &&& iabs(e.pos.x as int) <= POS_LIMIT
    &&& iabs(e.pos.y as int) <= POS_LIMIT
}

/// The whole population.
pub struct World {
    pub agents: Vec<Agent>,
    pub explosions: Vec<ExplosionEffect>,
    /// Next fresh agent identity; all live identities lie below it.
    pub next_id: u64,
    /// Next fresh body identity; all bound bodies lie below it.
    pub next_body: u64,
}

impl World {
    /// The population invariant.
    pub open spec fn wf(self, cfg: SimConfig) -> bool {
        &&& distinct_agents(self.agents@)
        &&& forall|i: int|
            0 <= i < self.agents@.len() ==> agent_ok(#[trigger] self.agents@[i], cfg)
        &&& forall|i: int| 0 <= i < self.agents@.len() ==> (#[trigger] self.agents@[i]).id < self.next_id
        &&& forall|i: int|
            0 <= i < self.agents@.len() ==> (#[trigger] self.agents@[i]).body < self.next_body
        &&& forall|i: int|
            0 <= i < self.explosions@.len() ==> effect_ok(#[trigger] self.explosions@[i])
    }

    /// Whether an agent with identity `id` is live.
    pub open spec fn live(self, id: u64) -> bool {
        contains_id(self.agents@, id)
    }

    /// An empty population.
    pub fn empty() -> (w: World)
        ensures
            w.agents@ == Seq::<Agent>::empty(),
            w.explosions@ == Seq::<ExplosionEffect>::empty(),
            w.next_id == 0,
            w.next_body == 0,
            forall|cfg: SimConfig| w.wf(cfg),
    {
        let w = World { agents: Vec::new(), explosions: Vec::new(), next_id: 0, next_body: 0 };
        proof {
            assert(w.agents@ =~= Seq::<Agent>::empty());
            assert(w.explosions@ =~= Seq::<ExplosionEffect>::empty());
        }
        w
    }

    /// Atomic spawn: one entity with its bound body, position, velocity
    /// and radius, created as a single bundle and never partially.
    pub fn spawn(&mut self, cfg: &SimConfig, pos: Vec2i, vel: Vec2i, radius: i64) -> (id: u64)
        requires
            old(self).wf(*cfg),
            old(self).next_id < u64::MAX,
            old(self).next_body < u64::MAX,
            iabs(pos.x as int) <= POS_LIMIT,
            iabs(pos.y as int) <= POS_LIMIT,
            iabs(vel.x as int) <= cfg.max_speed,
            iabs(vel.y as int) <= cfg.max_speed,
            0 < radius <= RADIUS_LIMIT,
        ensures
            final(self).wf(*cfg),
            id == old(self).next_id,
            final(self).agents@ == old(self).agents@.push(
                Agent { id, body: old(self).next_body, pos, vel, radius },
            ),
            final(self).explosions@ == old(self).explosions@,
            final(self).next_id == old(self).next_id + 1,
            final(self).next_body == old(self).next_body + 1,
            final(self).live(id),
    {
        let id = self.next_id;
        let a = Agent { id, body: self.next_body, pos, vel, radius };
        self.agents.push(a);
        self.next_id = self.next_id + 1;
        self.next_body = self.next_body + 1;
        proof {
            let s = self.agents@;
            assert(s[s.len() - 1].id == id);
        }
        id
    }

    /// Despawn by identity: takes the radius and last known position of
    /// the removed agent. Asking for an identity that is not live is a
    /// benign no-op (`None`), never an error — the same identity may be
    /// named twice within one collision batch.
    pub fn take_agent(&mut self, cfg: &SimConfig, id: u64) -> (r: Option<(i64, Vec2i)>)
        requires
            old(self).wf(*cfg),
        ensures
            final(self).wf(*cfg),
            final(self).explosions@ == old(self).explosions@,
            final(self).next_id == old(self).next_id,
            final(self).next_body == old(self).next_body,
            final(self).agents@ == without_id(old(self).agents@, id),
            r is Some <==> contains_id(old(self).agents@, id),
            r is Some ==> r->Some_0.0 == agent_of(old(self).agents@, id).radius
                && r->Some_0.1 == agent_of(old(self).agents@, id).pos,
            contains_id(old(self).agents@, id) ==> final(self).agents@.len() == old(
                self,
            ).agents@.len() - 1,
            !contains_id(old(self).agents@, id) ==> final(self).agents@ == old(self).agents@,
            !final(self).live(id),
    {
        broadcast use vstd::seq_lib::group_seq_properties;

        let ghost s = self.agents@;
        let ghost pred = keep_pred(id);
        let mut kept: Vec<Agent> = Vec::new();
        let mut found: Option<(i64, Vec2i)> = None;
        let n = self.agents.len();
        let mut i: usize = 0;
        while i < n
            invariant
                pred == keep_pred(id),
                n == s.len(),
                self.agents@ == s,
                0 <= i <= n,
                kept@ == s.take(i as int).filter(pred),
                found is Some <==> contains_id(s.take(i as int), id),
                found is Some ==> exists|k: int|
                    0 <= k < i && s[k].id == id && found->Some_0.0 == s[k].radius
                        && found->Some_0.1 == s[k].pos,
            decreases n - i,
        {
            let a = self.agents[i];
            proof {
                assert(s.take(i as int + 1) =~= s.take(i as int).push(s[i as int]));
                s.take(i as int).lemma_filter_push(s[i as int], pred);
            }
            if a.id == id {
                found = Some((a.radius, a.pos));
                proof {
                    assert(s.take(i as int + 1)[i as int].id == id);
                    assert(!pred(s[i as int]));
                    assert(kept@ == s.take(i as int + 1).filter(pred));
                }
            } else {
                kept.push(a);
                proof {
                    assert(pred(s[i as int]));
                    assert(kept@ == s.take(i as int + 1).filter(pred));
                }
            }
            i = i + 1;
            proof {
                if found is Some {
                    assert(contains_id(s.take(i as int), id));
                }
            }
        }
        proof {
            assert(s.take(n as int) =~= s);
            lemma_without_id_shape(s, id);
            lemma_without_id_excludes(s, id);
            if found is Some {
                let k = choose|k: int|
                    0 <= k < n && s[k].id == id && found->Some_0.0 == s[k].radius
                        && found->Some_0.1 == s[k].pos;
                lemma_agent_of(s, id);
                assert(s[k] == agent_of(s, id));
            }
            // every kept record was a record of `s`, so the bounds carry over
            assert forall|j: int| 0 <= j < kept@.len() implies agent_ok(
                #[trigger] kept@[j],
                *cfg,
            ) && kept@[j].id < self.next_id && kept@[j].body < self.next_body by {
                let a = kept@[j];
                assert(kept@.contains(a));
                s.lemma_filter_contains_rev(pred, a);
                let m = choose|m: int| 0 <= m < s.len() && s[m] == a;
                assert(agent_ok(s[m], *cfg));
            }
        }
        self.agents = kept;
        found
    }

    /// Position query: answers exactly for the live agents.
    pub fn position_of(&self, id: u64) -> (r: Option<Vec2i>)
        requires
            distinct_agents(self.agents@),
        ensures
            r is Some <==> self.live(id),
            r is Some ==> r->Some_0 == agent_of(self.agents@, id).pos,
    {
        match self.find_agent(id) {
            Some(i) => Some(self.agents[i].pos),
            None => None,
        }
    }

    /// Radius query: answers exactly for the live agents.
    pub fn radius_of(&self, id: u64) -> (r: Option<i64>)
        requires
            distinct_agents(self.agents@),
        ensures
            r is Some <==> self.live(id),
            r is Some ==> r->Some_0 == agent_of(self.agents@, id).radius,
    {
        match self.find_agent(id) {
            Some(i) => Some(self.agents[i].radius),
            None => None,
        }
    }

    /// Velocity query: answers exactly for the live agents.
    pub fn velocity_of(&self, id: u64) -> (r: Option<Vec2i>)
        requires
            distinct_agents(self.agents@),
        ensures
            r is Some <==> self.live(id),
            r is Some ==> r->Some_0 == agent_of(self.agents@, id).vel,
    {
        match self.find_agent(id) {
            Some(i) => Some(self.agents[i].vel),
            None => None,
        }
    }

    /// The index of the live agent carrying `id`.
    pub fn find_agent(&self, id: u64) -> (r: Option<usize>)
        requires
            distinct_agents(self.agents@),
        ensures
            r is Some <==> self.live(id),
            r is Some ==> 0 <= r->Some_0 < self.agents@.len()
                && self.agents@[r->Some_0 as int].id == id && r->Some_0 == idx_of(
                self.agents@,
                id,
            ),
    {
        let n = self.agents.len();
        let mut i: usize = 0;
        while i < n
            invariant
                distinct_agents(self.agents@),
                n == self.agents@.len(),
                0 <= i <= n,
                forall|k: int| 0 <= k < i ==> self.agents@[k].id != id,
            decreases n - i,
        {
            if self.agents[i].id == id {
                proof {
                    assert(contains_id(self.agents@, id)) by {
                        assert(self.agents@[i as int].id == id);
                    }
                    lemma_agent_of(self.agents@, id);
                }
                return Some(i);
            }
            i = i + 1;
        }
        None
    }

    /// Number of live agents.
    pub fn agent_count(&self) -> (n: usize)
        ensures
            n == self.agents@.len(),
    {
        self.agents.len()
    }

    /// Number of explosion effects present.
    pub fn explosion_count(&self) -> (n: usize)
        ensures
            n == self.explosions@.len(),
    {
        self.explosions.len()
    }
}

/// The one record a live identity has. With distinct identities the
/// record is unique, so every query for a live agent answers from the
/// same record: one agent, one body, one position, one radius.
pub proof fn lemma_agent_of(s: Seq<Agent>, id: u64)
    requires
        distinct_agents(s),
        contains_id(s, id),
    ensures
        0 <= idx_of(s, id) < s.len(),
        agent_of(s, id).id == id,
        s.contains(agent_of(s, id)),
        forall|i: int| 0 <= i < s.len() && s[i].id == id ==> i == idx_of(s, id),
{
    let i0 = idx_of(s, id);
    assert(0 <= i0 < s.len() && s[i0].id == id);
    assert forall|i: int| 0 <= i < s.len() && s[i].id == id implies i == i0 by {
        if i < i0 {
            assert(s[i].id != s[i0].id);
        } else if i > i0 {
            assert(s[i0].id != s[i].id);
        }
    }
}

/// Removing an identity never leaves a record with it behind.
pub proof fn lemma_without_id_excludes(s: Seq<Agent>, id: u64)
    ensures
        !contains_id(without_id(s, id), id),
        forall|j: int|
            0 <= j < without_id(s, id).len() ==> (#[trigger] without_id(s, id)[j]).id != id,
{
    broadcast use Seq::lemma_filter_pred;

    let pred = keep_pred(id);
    assert forall|j: int| 0 <= j < without_id(s, id).len() implies (#[trigger] without_id(
        s,
        id,
    )[j]).id != id by {
        assert(pred(s.filter(pred)[j]));
    }
}

/// Shape of a removal: with distinct identities it takes away exactly
/// the one record when the identity is live, and nothing otherwise;
/// distinctness survives.
pub proof fn lemma_without_id_shape(s: Seq<Agent>, id: u64)
    requires
        distinct_agents(s),
    ensures
        distinct_agents(without_id(s, id)),
        contains_id(s, id) ==> without_id(s, id).len() == s.len() - 1,
        !contains_id(s, id) ==> without_id(s, id) == s,
    decreases s.len(),
{
    broadcast use Seq::lemma_filter_push;

    let pred = keep_pred(id);
    if s.len() == 0 {
        reveal(Seq::filter);
        assert(without_id(s, id) =~= s);
    } else {
        let rest = s.drop_last();
        let last = s.last();
        assert(distinct_agents(rest)) by {
            assert forall|i: int, j: int| 0 <= i < j < rest.len() implies (#[trigger] rest[i]).id
                != (#[trigger] rest[j]).id && rest[i].body != rest[j].body by {
                assert(s[i] == rest[i] && s[j] == rest[j]);
            }
        }
        lemma_without_id_shape(rest, id);
        assert(s =~= rest.push(last));
        rest.lemma_filter_push(last, pred);
        assert(s.filter(pred) == if pred(last) {
            rest.filter(pred).push(last)
        } else {
            rest.filter(pred)
        });
        if pred(last) {
            // the removed identity, if present, sits in `rest`
            assert(contains_id(s, id) ==> contains_id(rest, id)) by {
                if contains_id(s, id) {
                    let i = choose|i: int| 0 <= i < s.len() && s[i].id == id;
                    assert(i < rest.len() && rest[i] == s[i]);
                }
            }
            assert(contains_id(rest, id) ==> contains_id(s, id)) by {
                if contains_id(rest, id) {
                    let i = choose|i: int| 0 <= i < rest.len() && rest[i].id == id;
                    assert(s[i] == rest[i]);
                }
            }
            let f = rest.filter(pred);
            let g = f.push(last);
            assert(distinct_agents(g)) by {
                assert forall|i: int, j: int| 0 <= i < j < g.len() implies (#[trigger] g[i]).id
                    != (#[trigger] g[j]).id && g[i].body != g[j].body by {
                    if j < f.len() {
                        assert(g[i] == f[i] && g[j] == f[j]);
                    } else {
                        // `j` is the pushed record: compare through `s`
                        let a = f[i];
                        assert(g[i] == a && g[j] == last);
                        assert(f.contains(a));
                        rest.lemma_filter_contains_rev(pred, a);
                        let m = choose|m: int| 0 <= m < rest.len() && rest[m] == a;
                        assert(rest[m] == s[m]);
                        assert(s[m] == a && s[s.len() - 1] == last);
                        assert(s[m].id != last.id && s[m].body != last.body);
                    }
                }
            }
            if !contains_id(s, id) {
                assert(without_id(s, id) =~= s);
            }
        } else {
            // the last record is the one removed; distinctness keeps a
            // second record with the same identity out of `rest`
            assert(last.id == id);
            assert(!contains_id(rest, id)) by {
                if contains_id(rest, id) {
                    let i = choose|i: int| 0 <= i < rest.len() && rest[i].id == id;
                    assert(s[i].id != s[s.len() - 1].id);
                }
            }
            assert(contains_id(s, id)) by {
                assert(s[s.len() - 1].id == id);
            }
            assert(without_id(s, id) == rest);
        }
    }
}

/// A removal touches no other agent: every other identity keeps its
/// record, field for field.
pub proof fn lemma_without_id_keeps(s: Seq<Agent>, id: u64, id2: u64)
    requires
        distinct_agents(s),
        id2 != id,
    ensures
        contains_id(without_id(s, id), id2) <==> contains_id(s, id2),
        contains_id(s, id2) ==> agent_of(without_id(s, id), id2) == agent_of(s, id2),
{
    let pred = keep_pred(id);
    let f = s.filter(pred);
    if contains_id(s, id2) {
        lemma_agent_of(s, id2);
        let a2 = agent_of(s, id2);
        let i = idx_of(s, id2);
        s.lemma_filter_contains(pred, i);
        assert(f.contains(a2));
        let j = choose|j: int| 0 <= j < f.len() && f[j] == a2;
        assert(contains_id(f, id2)) by {
            assert(f[j].id == id2);
        }
        // the record found in the filtered sequence is a record of `s`
        // with identity `id2`, hence the same record
        lemma_without_id_shape(s, id);
        lemma_agent_of(f, id2);
        let b2 = agent_of(f, id2);
        assert(f.contains(b2));
        s.lemma_filter_contains_rev(pred, b2);
        let m = choose|m: int| 0 <= m < s.len() && s[m] == b2;
        lemma_agent_of(s, id2);
        assert(m == idx_of(s, id2));
        assert(b2 == a2);
    } else {
        if contains_id(f, id2) {
            let j = choose|j: int| 0 <= j < f.len() && f[j].id == id2;
            let a = f[j];
            assert(f.contains(a));
            s.lemma_filter_contains_rev(pred, a);
            let m = choose|m: int| 0 <= m < s.len() && s[m] == a;
            assert(contains_id(s, id2)) by {
                assert(s[m].id == id2);
            }
        }
    }
}

} // verus!
