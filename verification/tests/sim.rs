use cogito::config::SimConfig;
use cogito::rng::SimRng;
use cogito::resolve::resolve_collisions;
use cogito::step::{boundary_stage, expire_effects, init_world, post_step, sync_positions};
use cogito::vec2::Vec2i;
use cogito::world::{EntityCollision, PositionUpdate, World};

fn v(x: i64, y: i64) -> Vec2i {
    Vec2i { x, y }
}

#[test]
fn scenario_two_agents_collide_and_fragment() {
    // agents of radius 3 and 4 collide at (100, 100): both destroyed,
    // budget 2 + 3 = 5, one explosion at the center, five fragments of
    // radius 1 within 5 units of it
    let cfg = SimConfig::standard();
    let mut w = World::empty();
    let mut rng = SimRng::new(1);
    let a = w.spawn(&cfg, v(100_000, 100_000), v(0, 0), 3_000);
    let b = w.spawn(&cfg, v(100_000, 100_000), v(0, 0), 4_000);
    let events = vec![EntityCollision { entity_a: a, entity_b: b }];
    resolve_collisions(&mut w, &mut rng, &events, 0, &cfg);

    assert!(w.position_of(a).is_none());
    assert!(w.position_of(b).is_none());
    assert_eq!(w.agent_count(), 5);
    assert_eq!(w.explosion_count(), 1);
    assert_eq!(w.explosions[0].pos, v(100_000, 100_000));
    assert_eq!(w.explosions[0].start_time, 0);
    for ag in w.agents.iter() {
        assert_eq!(ag.radius, 1_000);
        let dx = ag.pos.x - 100_000;
        let dy = ag.pos.y - 100_000;
        assert!(dx * dx + dy * dy <= 25_000_000);
        // fragment speed lies in [0.1, 1.0] of the cap, up to rounding
        assert!(ag.vel.x.abs() <= cfg.max_speed && ag.vel.y.abs() <= cfg.max_speed);
    }
}

#[test]
fn scenario_explosion_lifetime() {
    // an explosion created at t = 0.0 with duration 1.5 is still
    // present at t = 1.4 and absent at t = 1.6
    let cfg = SimConfig::standard();
    let mut w = World::empty();
    let mut rng = SimRng::new(5);
    let a = w.spawn(&cfg, v(500_000, 500_000), v(0, 0), 2_000);
    let events = vec![EntityCollision { entity_a: a, entity_b: a + 100 }];
    resolve_collisions(&mut w, &mut rng, &events, 0, &cfg);
    assert_eq!(w.explosion_count(), 1);

    expire_effects(&mut w, 1_400, &cfg);
    assert_eq!(w.explosion_count(), 1);
    expire_effects(&mut w, 1_500, &cfg);
    assert_eq!(w.explosion_count(), 1);
    expire_effects(&mut w, 1_600, &cfg);
    assert_eq!(w.explosion_count(), 0);
}

#[test]
fn scenario_tiny_radius_still_yields_one_fragment() {
    // a solo collision involving radius 0.3: floor(0.3 - 0.5) is
    // negative, so the budget clamps up to the minimum of 1
    let cfg = SimConfig::standard();
    let mut w = World::empty();
    let mut rng = SimRng::new(9);
    let a = w.spawn(&cfg, v(200_000, 200_000), v(0, 0), 300);
    let events = vec![EntityCollision { entity_a: a, entity_b: a + 77 }];
    resolve_collisions(&mut w, &mut rng, &events, 0, &cfg);

    assert!(w.position_of(a).is_none());
    assert_eq!(w.agent_count(), 1);
    assert_eq!(w.agents[0].radius, 1_000);
    assert_eq!(w.explosion_count(), 1);
}

#[test]
fn push_falloff_exact_at_ten_units() {
    // a bystander 10 units from the center gains exactly
    // 10000 / 10^2 = 100 units/s of speed, radially outward
    let cfg = SimConfig::checked(
        1_000_000, 1_000_000, 1_000_000, 1_500, 500_000, 10_000, 5_000, 1, 2_000, 5_000,
    )
    .unwrap();
    let mut w = World::empty();
    let mut rng = SimRng::new(3);
    let a = w.spawn(&cfg, v(100_000, 0), v(0, 0), 3_000);
    let b = w.spawn(&cfg, v(100_000, 0), v(0, 0), 3_000);
    let bystander = w.spawn(&cfg, v(110_000, 0), v(0, 0), 2_000);
    let events = vec![EntityCollision { entity_a: a, entity_b: b }];
    resolve_collisions(&mut w, &mut rng, &events, 0, &cfg);
    assert_eq!(w.velocity_of(bystander), Some(v(100_000, 0)));
}

#[test]
fn push_is_capped_near_the_center_and_clamped_to_max_speed() {
    // 0.05 units from the center: d2 falls below the 0.01 cap, so the
    // raw power is 10000 / 0.01 units/s, then the speed clamp applies
    let cfg = SimConfig::checked(
        1_000_000, 1_000_000, 1_000_000, 1_500, 500_000, 10_000, 5_000, 1, 2_000, 5_000,
    )
    .unwrap();
    let mut w = World::empty();
    let mut rng = SimRng::new(3);
    let a = w.spawn(&cfg, v(100_000, 0), v(0, 0), 3_000);
    let b = w.spawn(&cfg, v(100_000, 0), v(0, 0), 3_000);
    let near = w.spawn(&cfg, v(100_050, 0), v(0, 0), 2_000);
    let at_center = w.spawn(&cfg, v(100_000, 0), v(0, 0), 2_000);
    let events = vec![EntityCollision { entity_a: a, entity_b: b }];
    resolve_collisions(&mut w, &mut rng, &events, 0, &cfg);
    // raw gain 1000 units/s, clamped onto the cap of 1000 units/s
    assert_eq!(w.velocity_of(near), Some(v(1_000_000, 0)));
    // zero distance: the radial direction is the zero vector
    assert_eq!(w.velocity_of(at_center), Some(v(0, 0)));
}

#[test]
fn entity_named_twice_is_destroyed_at_most_once() {
    let cfg = SimConfig::standard();
    let mut w = World::empty();
    let mut rng = SimRng::new(11);
    let a = w.spawn(&cfg, v(100_000, 100_000), v(0, 0), 3_000);
    let b = w.spawn(&cfg, v(100_000, 100_000), v(0, 0), 4_000);
    let c = w.spawn(&cfg, v(900_000, 900_000), v(0, 0), 2_000);
    // the second event names `a` again after the first destroyed it:
    // that side is skipped, `c` alone contributes
    let events = vec![
        EntityCollision { entity_a: a, entity_b: b },
        EntityCollision { entity_a: a, entity_b: c },
    ];
    resolve_collisions(&mut w, &mut rng, &events, 0, &cfg);
    // 3 agents destroyed; budgets 5 and 1 spawn 6 fragments
    assert_eq!(w.agent_count(), 6);
    assert_eq!(w.explosion_count(), 2);
    assert_eq!(w.explosions[1].pos, v(900_000, 900_000));
}

#[test]
fn same_entity_on_both_sides_counts_once() {
    let cfg = SimConfig::standard();
    let mut w = World::empty();
    let mut rng = SimRng::new(13);
    let a = w.spawn(&cfg, v(100_000, 100_000), v(0, 0), 3_000);
    let events = vec![EntityCollision { entity_a: a, entity_b: a }];
    resolve_collisions(&mut w, &mut rng, &events, 0, &cfg);
    // one destruction, one contribution of 2, never 4
    assert_eq!(w.agent_count(), 2);
    assert_eq!(w.explosion_count(), 1);
}

#[test]
fn event_with_no_live_side_does_nothing() {
    let cfg = SimConfig::standard();
    let mut w = World::empty();
    let mut rng = SimRng::new(17);
    let a = w.spawn(&cfg, v(100_000, 100_000), v(7, 8), 3_000);
    let events = vec![EntityCollision { entity_a: a + 50, entity_b: a + 51 }];
    resolve_collisions(&mut w, &mut rng, &events, 0, &cfg);
    assert_eq!(w.agent_count(), 1);
    assert_eq!(w.explosion_count(), 0);
    assert_eq!(w.velocity_of(a), Some(v(7, 8)));
}

#[test]
fn despawn_is_idempotent() {
    let cfg = SimConfig::standard();
    let mut w = World::empty();
    let a = w.spawn(&cfg, v(1_000, 2_000), v(0, 0), 2_000);
    assert_eq!(w.take_agent(&cfg, a), Some((2_000, v(1_000, 2_000))));
    assert_eq!(w.take_agent(&cfg, a), None);
    assert_eq!(w.agent_count(), 0);
    assert_eq!(w.take_agent(&cfg, 12345), None);
}

#[test]
fn queries_answer_exactly_for_live_agents() {
    let cfg = SimConfig::standard();
    let mut w = World::empty();
    let a = w.spawn(&cfg, v(10_000, 20_000), v(300, -400), 2_500);
    assert_eq!(w.position_of(a), Some(v(10_000, 20_000)));
    assert_eq!(w.radius_of(a), Some(2_500));
    assert_eq!(w.velocity_of(a), Some(v(300, -400)));
    assert!(w.position_of(a + 1).is_none());
    assert!(w.radius_of(a + 1).is_none());
}

#[test]
fn boundary_rerandomizes_outside_agents_only() {
    let cfg = SimConfig::standard();
    let mut w = World::empty();
    let mut rng = SimRng::new(21);
    let outside = w.spawn(&cfg, v(-1_000, 500_000), v(5, 5), 2_000);
    let inside = w.spawn(&cfg, v(500_000, 500_000), v(6, 6), 2_000);
    boundary_stage(&mut w, &mut rng, &cfg);
    // the outside agent's velocity is the one the seeded stream yields
    let mut expect = SimRng::new(21);
    let ev = expect.rand_velocity(cfg.max_speed);
    assert_eq!(w.velocity_of(outside), Some(ev));
    // positions are never clamped back inside
    assert_eq!(w.position_of(outside), Some(v(-1_000, 500_000)));
    assert_eq!(w.position_of(inside), Some(v(500_000, 500_000)));
    assert_eq!(w.velocity_of(inside), Some(v(6, 6)));
}

#[test]
fn sync_pulls_reported_positions() {
    let cfg = SimConfig::standard();
    let mut w = World::empty();
    let a = w.spawn(&cfg, v(1_000, 1_000), v(0, 0), 2_000);
    let b = w.spawn(&cfg, v(2_000, 2_000), v(0, 0), 2_000);
    let updates = vec![
        PositionUpdate { id: a, pos: v(5_000, 6_000) },
        PositionUpdate { id: 999, pos: v(7_000, 8_000) },
    ];
    sync_positions(&mut w, &updates, &cfg);
    assert_eq!(w.position_of(a), Some(v(5_000, 6_000)));
    // an agent the step reported nothing for keeps its position
    assert_eq!(w.position_of(b), Some(v(2_000, 2_000)));
}

#[test]
fn whole_post_step_runs_the_three_stages_in_order() {
    let cfg = SimConfig::standard();
    let mut w = World::empty();
    let mut rng = SimRng::new(23);
    let a = w.spawn(&cfg, v(100_000, 100_000), v(0, 0), 3_000);
    let b = w.spawn(&cfg, v(100_000, 100_000), v(0, 0), 4_000);
    // the physics step moved both agents before they collided; the
    // blast center must come from the synced position, not the stale one
    let updates = vec![
        PositionUpdate { id: a, pos: v(150_000, 100_000) },
        PositionUpdate { id: b, pos: v(152_000, 100_000) },
    ];
    let events = vec![EntityCollision { entity_a: a, entity_b: b }];
    post_step(&mut w, &mut rng, &updates, &events, 0, &cfg);
    assert_eq!(w.explosion_count(), 1);
    assert_eq!(w.explosions[0].pos, v(152_000, 100_000));
    assert_eq!(w.agent_count(), 5);
}

#[test]
fn config_is_validated_at_startup() {
    assert!(
        SimConfig::checked(
            1_000_000, 1_000_000, 50_000, 1_500, 500_000, 10_000, 5_000, 1, 2_000, 5_000
        )
        .is_some()
    );
    // a zeroed speed cap is an unusable context
    assert!(
        SimConfig::checked(1_000_000, 1_000_000, 0, 1_500, 500_000, 10_000, 5_000, 1, 2_000, 5_000)
            .is_none()
    );
    // an inverted radius range is an unusable context
    assert!(
        SimConfig::checked(
            1_000_000, 1_000_000, 50_000, 1_500, 500_000, 10_000, 5_000, 1, 5_000, 2_000
        )
        .is_none()
    );
}

#[test]
fn init_lays_the_population_out_on_a_grid() {
    let cfg = SimConfig::standard();
    let mut rng = SimRng::new(31);
    let w = init_world(&cfg, &mut rng, 9).unwrap();
    assert_eq!(w.agent_count(), 9);
    // a 9-agent world uses a 3 x 3 grid over the 1000 x 1000 world
    assert_eq!(w.position_of(0), Some(v(0, 0)));
    assert_eq!(w.position_of(4), Some(v(333_333, 333_333)));
    assert_eq!(w.position_of(8), Some(v(666_666, 666_666)));
    for ag in w.agents.iter() {
        assert!(cfg.radius_lo <= ag.radius && ag.radius <= cfg.radius_hi);
        assert!(ag.vel.x.abs() <= cfg.max_speed && ag.vel.y.abs() <= cfg.max_speed);
    }
}

#[test]
fn init_handles_the_empty_and_large_populations() {
    let cfg = SimConfig::standard();
    let mut rng = SimRng::new(37);
    let w0 = init_world(&cfg, &mut rng, 0).unwrap();
    assert_eq!(w0.agent_count(), 0);
    let w = init_world(&cfg, &mut rng, 1_000).unwrap();
    assert_eq!(w.agent_count(), 1_000);
}

#[test]
fn a_full_frame_loop_keeps_running() {
    // several whole frames against a synthetic physics step: positions
    // drift, a collision fires when two discs overlap
    let cfg = SimConfig::standard();
    let mut rng = SimRng::new(41);
    let mut w = init_world(&cfg, &mut rng, 25).unwrap();
    let mut now: u64 = 0;
    for _ in 0..10 {
        boundary_stage(&mut w, &mut rng, &cfg);
        // synthetic integration: every agent moves by a tenth of its
        // velocity; the first overlapping pair collides
        let mut updates = Vec::new();
        for ag in w.agents.iter() {
            updates.push(PositionUpdate {
                id: ag.id,
                pos: v(
                    (ag.pos.x + ag.vel.x / 10).clamp(-1_000_000, 1_000_000),
                    (ag.pos.y + ag.vel.y / 10).clamp(-1_000_000, 1_000_000),
                ),
            });
        }
        let mut events = Vec::new();
        'outer: for i in 0..w.agents.len() {
            for j in (i + 1)..w.agents.len() {
                let (p, q) = (&w.agents[i], &w.agents[j]);
                let dx = p.pos.x - q.pos.x;
                let dy = p.pos.y - q.pos.y;
                let rr = p.radius + q.radius;
                if dx * dx + dy * dy <= rr * rr {
                    events.push(EntityCollision { entity_a: p.id, entity_b: q.id });
                    break 'outer;
                }
            }
        }
        post_step(&mut w, &mut rng, &updates, &events, now, &cfg);
        now += 100;
    }
    assert!(w.agent_count() > 0);
}

#[test]
fn init_refuses_a_grid_that_leaves_the_world_range() {
    // with the largest world, a 1-wide grid would place the third agent
    // beyond the synced coordinate range: fatal at initialization only
    let cfg = SimConfig::checked(
        1_000_000_000, 1_000_000_000, 50_000, 1_500, 500_000, 10_000, 5_000, 1, 2_000, 5_000,
    )
    .unwrap();
    let mut rng = SimRng::new(43);
    assert!(init_world(&cfg, &mut rng, 2).is_some());
    assert!(init_world(&cfg, &mut rng, 3).is_none());
}

#[test]
fn runs_replay_exactly_from_the_seed() {
    let cfg = SimConfig::standard();
    let mut run = |seed: u64| {
        let mut rng = SimRng::new(seed);
        let mut w = init_world(&cfg, &mut rng, 16).unwrap();
        let a = w.agents[0].id;
        let b = w.agents[1].id;
        let events = vec![EntityCollision { entity_a: a, entity_b: b }];
        resolve_collisions(&mut w, &mut rng, &events, 7, &cfg);
        w
    };
    let w1 = run(77);
    let w2 = run(77);
    assert_eq!(w1.agents, w2.agents);
    assert_eq!(w1.explosions, w2.explosions);
    let w3 = run(78);
    assert!(w1.agents != w3.agents);
}
