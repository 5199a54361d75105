use boids::agent::AgentSnapshot;
use boids::forces::{
    approach_nearby_boid_groups, avoid_nearby_boids, avoid_screen_edges, wrap_screen_edges,
};
use boids::kinematics::Kinematics;
use boids::rect::{Rect, Vec2i};

fn agent(id: u64, x: i64, y: i64, vx: i64, vy: i64) -> AgentSnapshot {
    AgentSnapshot {
        id,
        rect: Rect { min: Vec2i { x, y }, max: Vec2i { x: x + 2, y: y + 2 } },
        velocity: Vec2i { x: vx, y: vy },
    }
}

#[test]
fn separation_pushes_away_with_exact_decay() {
    let a = agent(1, 0, 0, 0, 0);
    let b = agent(2, 10, 0, 0, 0);
    let v = avoid_nearby_boids(&a, &vec![b], 1000, 0);
    // Offset (-10, 0), damping 1 + 100 = 101: term -10*1000/101 = -99.
    assert_eq!(v, Vec2i { x: -99, y: 0 });
}

#[test]
fn separation_forces_are_equal_and_opposite() {
    let a = agent(1, 0, 0, 0, 0);
    let b = agent(2, 10, 7, 0, 0);
    let va = avoid_nearby_boids(&a, &vec![b], 1000, 0);
    let vb = avoid_nearby_boids(&b, &vec![a], 1000, 0);
    assert_eq!(va.x, -vb.x);
    assert_eq!(va.y, -vb.y);
    assert!(va.x < 0);
}

#[test]
fn separation_below_epsilon_is_dropped() {
    let a = agent(1, 0, 0, 50, 60);
    let b = agent(2, 10, 0, 0, 0);
    // The force would be (-99, 0); its squared magnitude 9801 does not
    // clear the epsilon, so the velocity is untouched.
    let v = avoid_nearby_boids(&a, &vec![b], 1000, 10_000);
    assert_eq!(v, Vec2i { x: 50, y: 60 });
}

#[test]
fn separation_excludes_self_by_identity() {
    let a = agent(1, 0, 0, 30, 40);
    // The same identity elsewhere in the window contributes nothing.
    let ghost_self = agent(1, 50, 50, 0, 0);
    let v = avoid_nearby_boids(&a, &vec![ghost_self], 1000, 0);
    assert_eq!(v, Vec2i { x: 30, y: 40 });
}

#[test]
fn cohesion_blends_toward_group_average() {
    let a = agent(1, 0, 0, 0, 0);
    let n1 = agent(2, 10, 10, 100, 0);
    let n2 = agent(3, -10, -10, 200, 0);
    // Average velocity (150, 0); blend one half toward it.
    let v = approach_nearby_boid_groups(&a, &vec![n1, n2], 1, 2, 0);
    assert_eq!(v, Vec2i { x: 75, y: 0 });
}

#[test]
fn cohesion_needs_more_than_one_neighbour() {
    let a = agent(1, 0, 0, 10, 20);
    let n1 = agent(2, 10, 10, 500, 500);
    let v = approach_nearby_boid_groups(&a, &vec![n1], 1, 2, 0);
    assert_eq!(v, Vec2i { x: 10, y: 20 });
}

#[test]
fn bounce_flips_crossing_component_only() {
    let bounds = Rect { min: Vec2i { x: -100, y: -100 }, max: Vec2i { x: 100, y: 100 } };
    let kin = Kinematics { velocity: Vec2i { x: 100, y: 3 }, acceleration: Vec2i { x: 0, y: 0 } };
    let v = avoid_screen_edges(Vec2i { x: 90, y: 0 }, &kin, &bounds, Vec2i { x: 5, y: 5 }, 1);
    assert_eq!(v, Vec2i { x: -100, y: 3 });
}

#[test]
fn bounce_leaves_interior_velocity_unchanged() {
    let bounds = Rect { min: Vec2i { x: -100, y: -100 }, max: Vec2i { x: 100, y: 100 } };
    let kin = Kinematics { velocity: Vec2i { x: 5, y: -5 }, acceleration: Vec2i { x: 0, y: 0 } };
    let v = avoid_screen_edges(Vec2i { x: 0, y: 0 }, &kin, &bounds, Vec2i { x: 5, y: 5 }, 1);
    assert_eq!(v, Vec2i { x: 5, y: -5 });
}

#[test]
fn wrap_teleports_to_opposite_edge() {
    let bounds = Rect { min: Vec2i { x: -100, y: -100 }, max: Vec2i { x: 100, y: 100 } };
    let margin = Vec2i { x: 5, y: 5 };
    // On the right margin: moved left by one span width, landing at the
    // left margin.
    let p = wrap_screen_edges(Vec2i { x: 95, y: 0 }, &bounds, margin);
    assert_eq!(p, Vec2i { x: -95, y: 0 });
    // Just inside the margin: untouched.
    let p = wrap_screen_edges(Vec2i { x: 94, y: 0 }, &bounds, margin);
    assert_eq!(p, Vec2i { x: 94, y: 0 });
    // The left margin wraps to the right.
    let p = wrap_screen_edges(Vec2i { x: -97, y: 0 }, &bounds, margin);
    assert_eq!(p, Vec2i { x: 93, y: 0 });
}
