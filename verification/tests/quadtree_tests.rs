use boids::agent::AgentSnapshot;
use boids::quadtree::Quadtree;
use boids::rect::{rect_contains_rect, Rect, Vec2i};
use boids::stats::QuadtreeStats;

fn world() -> Rect {
    Rect { min: Vec2i { x: -100, y: -100 }, max: Vec2i { x: 100, y: 100 } }
}

fn agent(id: u64, x: i64, y: i64, s: i64) -> AgentSnapshot {
    AgentSnapshot {
        id,
        rect: Rect { min: Vec2i { x, y }, max: Vec2i { x: x + s, y: y + s } },
        velocity: Vec2i { x: 0, y: 0 },
    }
}

#[test]
fn empty_tree_has_one_node_and_no_values() {
    let tree = Quadtree::empty(world(), 4, 3);
    let stats = QuadtreeStats::calculate(&tree);
    assert_eq!(stats.num_nodes, 1);
    assert_eq!(stats.num_values, 0);
    assert_eq!(stats.total_depth, 0);
}

#[test]
fn containment_invariant_after_insert() {
    let mut tree = Quadtree::empty(world(), 4, 3);
    let a = agent(1, -60, -60, 2);
    tree.add(a);
    // find(agent) returns a node whose rectangle contains the agent's
    // rectangle.
    let node = tree.query_value(&a).expect("inserted agent must be found");
    assert!(rect_contains_rect(&node.rect, &a.rect));
    // The agent is reachable via the root's descendant values.
    let all = tree.root.get_all_descendant_values();
    assert!(all.iter().any(|w| w.id == 1));
}

#[test]
fn insert_delete_round_trip() {
    let mut tree = Quadtree::empty(world(), 4, 3);
    tree.add(agent(7, 10, 10, 2));
    tree.add(agent(8, -20, 30, 2));
    let before = QuadtreeStats::calculate(&tree).num_values;
    let v = agent(9, 5, 5, 2);
    tree.add(v);
    let removed = tree.delete(&v).expect("the inserted agent must be deletable");
    assert_eq!(removed.id, 9);
    let after = QuadtreeStats::calculate(&tree).num_values;
    assert_eq!(after, before);
}

#[test]
fn out_of_bounds_insert_is_rejected() {
    let mut tree = Quadtree::empty(world(), 4, 3);
    tree.add(agent(1, 0, 0, 2));
    let before = QuadtreeStats::calculate(&tree).num_values;
    tree.add(agent(2, 200, 200, 2));
    // Entirely outside the world: silently dropped.
    assert_eq!(QuadtreeStats::calculate(&tree).num_values, before);
    // Straddling the world edge is not strictly contained either.
    tree.add(agent(3, 99, 0, 5));
    assert_eq!(QuadtreeStats::calculate(&tree).num_values, before);
    assert!(tree.query_value(&agent(2, 200, 200, 2)).is_none());
}

#[test]
fn deleting_absent_identity_returns_none() {
    let mut tree = Quadtree::empty(world(), 4, 3);
    tree.add(agent(1, 0, 0, 2));
    assert!(tree.delete(&agent(99, 0, 0, 2)).is_none());
    assert_eq!(QuadtreeStats::calculate(&tree).num_values, 1);
}

#[test]
fn split_threshold_creates_four_children() {
    let mut tree = Quadtree::empty(world(), 4, 3);
    // One agent per quadrant: the leaf holds the threshold's worth.
    tree.add(agent(0, -60, -60, 2));
    tree.add(agent(1, 60, -60, 2));
    tree.add(agent(2, -60, 60, 2));
    tree.add(agent(3, 60, 60, 2));
    assert!(tree.root.is_leaf());
    // The fifth value pushes the leaf past the threshold below the depth
    // ceiling: it acquires exactly 4 children.
    tree.add(agent(4, -40, -40, 2));
    assert!(!tree.root.is_leaf());
    let stats = QuadtreeStats::calculate(&tree);
    assert_eq!(stats.num_nodes, 5);
    assert_eq!(stats.num_values, 5);
}

#[test]
fn node_at_max_depth_never_splits() {
    let mut tree = Quadtree::empty(world(), 4, 0);
    for i in 0..20 {
        tree.add(agent(i, -60 + (i as i64), -60, 2));
    }
    assert!(tree.root.is_leaf());
    assert_eq!(QuadtreeStats::calculate(&tree).num_values, 20);
}

#[test]
fn cleanup_collapses_and_is_idempotent() {
    let mut tree = Quadtree::empty(world(), 4, 3);
    let mut agents = Vec::new();
    for i in 0..5 {
        let a = agent(i, -60 + 3 * (i as i64), -60, 2);
        agents.push(a);
        tree.add(a);
    }
    assert!(!tree.root.is_leaf());
    for a in &agents {
        tree.delete(a).expect("agent present");
    }
    assert_eq!(QuadtreeStats::calculate(&tree).num_values, 0);
    tree.clean_structure();
    let once = QuadtreeStats::calculate(&tree);
    assert!(tree.root.is_leaf());
    assert_eq!(once.num_nodes, 1);
    // A second pass changes nothing structurally.
    tree.clean_structure();
    let twice = QuadtreeStats::calculate(&tree);
    assert_eq!(once, twice);
    assert!(tree.root.is_leaf());
}

#[test]
fn clustered_scenario_splits_once() {
    // World [-100,-100]..[100,100], threshold 4, max depth 3; four agents
    // clustered in the bottom-left quadrant and one straddling the
    // midpoint.
    let mut tree = Quadtree::empty(world(), 4, 3);
    let clustered = [
        agent(1, -60, -60, 2),
        agent(2, -55, -60, 2),
        agent(3, -50, -60, 2),
        agent(4, -45, -60, 2),
    ];
    for a in &clustered {
        tree.add(*a);
    }
    let straddler = agent(5, -1, -1, 2);
    tree.add(straddler);
    // Exactly one split occurred.
    assert!(!tree.root.is_leaf());
    assert_eq!(QuadtreeStats::calculate(&tree).num_nodes, 5);
    // The four clustered agents landed in the bottom-left child.
    let bl = Rect { min: Vec2i { x: -100, y: -100 }, max: Vec2i { x: 0, y: 0 } };
    for a in &clustered {
        let node = tree.query_value(a).expect("clustered agent found");
        assert_eq!(node.rect, bl);
    }
    // The straddler remains at the parent.
    let node = tree.query_value(&straddler).expect("straddler found");
    assert_eq!(node.rect, world());
    assert_eq!(tree.root.values.len(), 1);
}

#[test]
fn clustered_agents_all_descend_when_none_straddles() {
    let mut tree = Quadtree::empty(world(), 4, 3);
    for i in 0..5 {
        tree.add(agent(i, -60 + 3 * (i as i64), -60, 2));
    }
    assert!(!tree.root.is_leaf());
    // No value straddles the midpoint, so all of them descend.
    assert_eq!(tree.root.values.len(), 0);
    assert_eq!(QuadtreeStats::calculate(&tree).num_values, 5);
}

#[test]
fn query_rect_returns_deepest_containing_node() {
    let mut tree = Quadtree::empty(world(), 4, 3);
    tree.add(agent(0, -60, -60, 2));
    tree.add(agent(1, 60, -60, 2));
    tree.add(agent(2, -60, 60, 2));
    tree.add(agent(3, 60, 60, 2));
    tree.add(agent(4, -40, -40, 2));
    let bl = Rect { min: Vec2i { x: -100, y: -100 }, max: Vec2i { x: 0, y: 0 } };
    let small = Rect { min: Vec2i { x: -60, y: -60 }, max: Vec2i { x: -58, y: -58 } };
    let node = tree.query_rect(&small).expect("contained in the world");
    assert_eq!(node.rect, bl);
    let across = Rect { min: Vec2i { x: -5, y: -5 }, max: Vec2i { x: 5, y: 5 } };
    let node = tree.query_rect(&across).expect("contained in the world");
    assert_eq!(node.rect, world());
    let outside = Rect { min: Vec2i { x: 150, y: 150 }, max: Vec2i { x: 160, y: 160 } };
    assert!(tree.query_rect(&outside).is_none());
}

#[test]
fn stats_sum_depths_over_all_nodes() {
    let mut tree = Quadtree::empty(world(), 4, 3);
    tree.add(agent(0, -60, -60, 2));
    tree.add(agent(1, 60, -60, 2));
    tree.add(agent(2, -60, 60, 2));
    tree.add(agent(3, 60, 60, 2));
    tree.add(agent(4, -40, -40, 2));
    // One root at depth 0 and four children at depth 1.
    let stats = QuadtreeStats::calculate(&tree);
    assert_eq!(stats.num_nodes, 5);
    assert_eq!(stats.total_depth, 4);
}

#[test]
fn find_follows_identity_not_position() {
    let mut tree = Quadtree::empty(world(), 4, 3);
    tree.add(agent(1, -60, -60, 2));
    // A query snapshot with the same identity at a different position still
    // finds the stored entry.
    let moved = agent(1, 40, 40, 2);
    let node = tree.query_value(&moved).expect("identity still indexed");
    assert!(node.values.iter().any(|w| w.id == 1));
    let removed = tree.delete(&moved).expect("deletable by identity");
    assert_eq!(removed.rect.min.x, -60);
}
