use boids::rect::{Rect, Vec2i};
use boids::sim::{
    make_snapshot, next_phase, update_quadtree, AgentState, BoundaryPolicy, IntegratorKind,
    SimConfig, Simulation, TickPhase,
};
use boids::stats::QuadtreeStats;

fn world() -> Rect {
    Rect { min: Vec2i { x: -100, y: -100 }, max: Vec2i { x: 100, y: 100 } }
}

fn quiet_config(boundary: BoundaryPolicy, integrator: IntegratorKind) -> SimConfig {
    SimConfig {
        bounds: world(),
        threshold: 4,
        max_depth: 3,
        detect_scale_milli: Vec2i { x: 1500, y: 1500 },
        group_scale_milli: Vec2i { x: 2000, y: 2000 },
        sep_scale: 0,
        cohesion_gain_num: 0,
        cohesion_gain_den: 1,
        eps: 1_000_000_000,
        margin: Vec2i { x: 0, y: 0 },
        boundary,
        integrator,
        dt: 1,
    }
}

fn agent(id: u64, x: i64, y: i64, vx: i64, vy: i64) -> AgentState {
    AgentState {
        id,
        pos: Vec2i { x, y },
        vel: Vec2i { x: vx, y: vy },
        size: Vec2i { x: 2, y: 2 },
    }
}

#[test]
fn phases_cycle_in_order() {
    assert_eq!(next_phase(TickPhase::Idle), TickPhase::ComputingForces);
    assert_eq!(next_phase(TickPhase::ComputingForces), TickPhase::Integrating);
    assert_eq!(next_phase(TickPhase::Integrating), TickPhase::Reindexing);
    assert_eq!(next_phase(TickPhase::Reindexing), TickPhase::CleaningUp);
    assert_eq!(next_phase(TickPhase::CleaningUp), TickPhase::Idle);
}

#[test]
fn reindex_replaces_entry_by_identity() {
    let mut sim = Simulation::new(quiet_config(BoundaryPolicy::Wrap, IntegratorKind::Euler));
    let old = make_snapshot(&agent(1, 10, 10, 0, 0));
    sim.quadtree.add(old);
    assert_eq!(QuadtreeStats::calculate(&sim.quadtree).num_values, 1);
    let fresh = make_snapshot(&agent(1, 20, 20, 0, 0));
    let removed = update_quadtree(&mut sim.quadtree, fresh);
    assert_eq!(removed.expect("stale entry removed").rect.min.x, 10);
    assert_eq!(QuadtreeStats::calculate(&sim.quadtree).num_values, 1);
    let node = sim.quadtree.query_value(&fresh).expect("fresh entry indexed");
    assert!(node.values.iter().any(|w| w.id == 1 && w.rect.min.x == 20));
}

#[test]
fn reindex_drops_agent_leaving_the_world() {
    let mut sim = Simulation::new(quiet_config(BoundaryPolicy::Wrap, IntegratorKind::Euler));
    sim.quadtree.add(make_snapshot(&agent(1, 10, 10, 0, 0)));
    let outside = make_snapshot(&agent(1, 300, 300, 0, 0));
    let removed = update_quadtree(&mut sim.quadtree, outside);
    assert!(removed.is_some());
    assert_eq!(QuadtreeStats::calculate(&sim.quadtree).num_values, 0);
}

#[test]
fn wrap_policy_carries_agent_to_opposite_edge() {
    // An agent just inside the right bound moving right crosses to the
    // left edge on the next tick; the velocity's sign is unchanged.
    let mut sim = Simulation::new(quiet_config(BoundaryPolicy::Wrap, IntegratorKind::Euler));
    let mut agents = vec![agent(1, 98, 0, 5, 0)];
    sim.tick(&mut agents);
    assert_eq!(agents[0].vel, Vec2i { x: 5, y: 0 });
    assert_eq!(agents[0].pos, Vec2i { x: -97, y: 0 });
}

#[test]
fn bounce_policy_flips_velocity_at_edge() {
    let mut sim = Simulation::new(quiet_config(BoundaryPolicy::Bounce, IntegratorKind::Euler));
    let mut agents = vec![agent(1, 98, 0, 5, 0)];
    sim.tick(&mut agents);
    assert_eq!(agents[0].vel, Vec2i { x: -5, y: 0 });
    assert_eq!(agents[0].pos, Vec2i { x: 93, y: 0 });
}

#[test]
fn euler_and_rk4_ticks_agree_without_acceleration() {
    let mut sim_e = Simulation::new(quiet_config(BoundaryPolicy::Wrap, IntegratorKind::Euler));
    let mut sim_r = Simulation::new(quiet_config(BoundaryPolicy::Wrap, IntegratorKind::Rk4));
    let mut agents_e = vec![agent(1, 10, -20, 7, 13), agent(2, -50, 5, -3, 2)];
    let mut agents_r = agents_e.clone();
    sim_e.tick(&mut agents_e);
    sim_r.tick(&mut agents_r);
    assert_eq!(agents_e, agents_r);
    assert_eq!(agents_e[0].pos, Vec2i { x: 17, y: -7 });
}

#[test]
fn separated_pair_receives_opposite_corrections() {
    let mut cfg = quiet_config(BoundaryPolicy::Wrap, IntegratorKind::Euler);
    cfg.sep_scale = 401_000;
    cfg.eps = 0;
    let mut sim = Simulation::new(cfg);
    let a1 = agent(1, -10, 0, 0, 0);
    let a2 = agent(2, 10, 0, 0, 0);
    sim.quadtree.add(make_snapshot(&a1));
    sim.quadtree.add(make_snapshot(&a2));
    let mut agents = vec![a1, a2];
    sim.tick(&mut agents);
    // Symmetric setup: equal magnitude, opposite direction.
    assert_eq!(agents[0].vel.x, -agents[1].vel.x);
    assert_eq!(agents[0].vel.y, -agents[1].vel.y);
    assert!(agents[0].vel.x < 0);
    assert!(agents[1].vel.x > 0);
}

#[test]
fn cohesion_steers_toward_the_group_during_tick() {
    let mut cfg = quiet_config(BoundaryPolicy::Wrap, IntegratorKind::Euler);
    cfg.cohesion_gain_num = 1;
    cfg.cohesion_gain_den = 2;
    cfg.eps = 0;
    let mut sim = Simulation::new(cfg);
    // A still agent between two agents flying up: it acquires half their
    // average velocity.
    let still = agent(1, 0, 0, 0, 0);
    let up1 = agent(2, 20, 0, 0, 100);
    let up2 = agent(3, -20, 0, 0, 300);
    for a in [&still, &up1, &up2] {
        sim.quadtree.add(make_snapshot(a));
    }
    let mut agents = vec![still, up1, up2];
    sim.tick(&mut agents);
    assert_eq!(agents[0].vel, Vec2i { x: 0, y: 100 });
}

#[test]
fn tick_reindexes_moved_agents() {
    let mut sim = Simulation::new(quiet_config(BoundaryPolicy::Wrap, IntegratorKind::Euler));
    let a = agent(1, 0, 0, 5, 5);
    sim.quadtree.add(make_snapshot(&a));
    let mut agents = vec![a];
    sim.tick(&mut agents);
    assert_eq!(agents[0].pos, Vec2i { x: 5, y: 5 });
    let moved = make_snapshot(&agents[0]);
    let node = sim.quadtree.query_value(&moved).expect("agent stays indexed");
    assert!(node.values.iter().any(|w| w.id == 1 && w.rect.min.x == 5));
    assert_eq!(QuadtreeStats::calculate(&sim.quadtree).num_values, 1);
}
