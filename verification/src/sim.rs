//! The tick orchestrator. One tick walks the phase cycle
//! `Idle -> ComputingForces -> Integrating -> Reindexing -> CleaningUp ->
//! Idle` strictly in order: per-agent forces are computed against the index
//! as it stood at the start of the tick, positions advance under the
//! configured integrator, every agent is re-indexed by deleting its old
//! entry by identity and inserting the fresh snapshot, and empty subtrees
//! are collapsed.

use crate::agent::AgentSnapshot;
use crate::forces::{
    approach_nearby_boid_groups, approach_spec, avoid_nearby_boids, avoid_screen_edges, avoid_spec,
    bounce_axis_spec, lemma_approach_spec_bound, lemma_avoid_spec_bound, wrap_axis_spec,
    wrap_screen_edges, COUNT_LIMIT, GAIN_LIMIT, SCALE_LIMIT,
};
use crate::kinematics::{
    integrate_axis_spec, integrate_rk4_axis_spec, Kinematics, TIME_LIMIT, VEL_LIMIT,
};
use crate::quadtree::{lemma_query_rect_props, lemma_subtree_values, Quadtree};
use crate::rect::{
    magnify_rect, magnify_rect_spec, rect_contains_rect_spec, Rect, Vec2i, COORD_LIMIT,
};
use vstd::multiset::Multiset;
use vstd::prelude::*;

verus! {

broadcast use vstd::seq_lib::group_to_multiset_ensures, vstd::multiset::group_multiset_axioms;

/// Largest per-agent velocity component one tick is specified for.
pub const TICK_VEL_LIMIT: i64 = 1_000_000_000;

/// Largest total separation force one tick is specified for: the number of
/// indexed snapshots times the separation strength stays under this.
pub const FORCE_LIMIT: i64 = 1_000_000_000;

/// Largest velocity component the force pipeline can produce in one tick
/// from inputs within `TICK_VEL_LIMIT` and `FORCE_LIMIT`.
pub const CHAIN_VEL_LIMIT: i64 = 5_000_000_000;

/// What happens to an agent that crosses the world margin.
#[derive(Clone, Copy, Debug, PartialEq, Eq, Structural)]
pub enum BoundaryPolicy {
    /// The velocity component pointing over the edge flips.
    Bounce,
    /// The position teleports to the opposite edge; velocity is unchanged.
    Wrap,
}

/// Which scheme advances positions from velocities.
#[derive(Clone, Copy, Debug, PartialEq, Eq, Structural)]
pub enum IntegratorKind {
    Euler,
    Rk4,
}

/// The phases of one simulation tick, in their fixed cycle.
#[derive(Clone, Copy, Debug, PartialEq, Eq, Structural)]
pub enum TickPhase {
    Idle,
    ComputingForces,
    Integrating,
    Reindexing,
    CleaningUp,
}

/// The strict phase cycle: no phase is ever skipped, and `CleaningUp` hands
/// back to `Idle` before the next tick may start.
pub open spec fn next_phase_spec(p: TickPhase) -> TickPhase {
    match p {
        TickPhase::Idle => TickPhase::ComputingForces,
        TickPhase::ComputingForces => TickPhase::Integrating,
        TickPhase::Integrating => TickPhase::Reindexing,
        TickPhase::Reindexing => TickPhase::CleaningUp,
        TickPhase::CleaningUp => TickPhase::Idle,
    }
}

pub fn next_phase(p: TickPhase) -> (r: TickPhase)
    ensures
        r == next_phase_spec(p),
{
    match p {
        TickPhase::Idle => TickPhase::ComputingForces,
        TickPhase::ComputingForces => TickPhase::Integrating,
        TickPhase::Integrating => TickPhase::Reindexing,
        TickPhase::Reindexing => TickPhase::CleaningUp,
        TickPhase::CleaningUp => TickPhase::Idle,
    }
}

/// The configuration surface of the simulation core, fixed at construction.
#[derive(Clone, Copy, Debug)]
pub struct SimConfig {
    pub bounds: Rect,
    pub threshold: usize,
    pub max_depth: usize,
    /// Detection window scale for separation, in per-mille of the agent's
    /// own bounds.
    pub detect_scale_milli: Vec2i,
    /// Detection window scale for cohesion, in per-mille.
    pub group_scale_milli: Vec2i,
    /// Separation strength.
    pub sep_scale: i64,
    /// Cohesion interpolation factor `num/den` in `[0, 1]`.
    pub cohesion_gain_num: i64,
    pub cohesion_gain_den: i64,
    /// Squared-magnitude floor under which a force is treated as zero.
    pub eps: i64,
    /// Margin inside the world bounds at which the boundary policy fires.
    pub margin: Vec2i,
    pub boundary: BoundaryPolicy,
    pub integrator: IntegratorKind,
    /// Fixed timestep.
    pub dt: i64,
}

impl SimConfig {
    pub open spec fn wf(self) -> bool {
        &&& self.bounds.wf()
        &&& self.bounds.bounded()
        &&& 0 <= self.detect_scale_milli.x <= 1_000_000
        &&& 0 <= self.detect_scale_milli.y <= 1_000_000
        &&& 0 <= self.group_scale_milli.x <= 1_000_000
        &&& 0 <= self.group_scale_milli.y <= 1_000_000
        &&& 0 <= self.sep_scale <= SCALE_LIMIT
        &&& 0 <= self.cohesion_gain_num <= self.cohesion_gain_den
        &&& 1 <= self.cohesion_gain_den <= GAIN_LIMIT
        &&& 0 <= self.eps
        &&& 0 <= self.margin.x
        &&& 0 <= self.margin.y
        &&& self.margin.bounded()
        &&& 2 * self.margin.x < self.bounds.max.x - self.bounds.min.x
        &&& 2 * self.margin.y < self.bounds.max.y - self.bounds.min.y
        &&& 0 <= self.dt <= TIME_LIMIT
    }
}

/// The per-tick state of one agent as the caller supplies it: identity,
/// position (the low corner of its bounds), velocity, and bounding size.
#[derive(Clone, Copy, Debug, PartialEq, Eq, Structural)]
pub struct AgentState {
    pub id: u64,
    pub pos: Vec2i,
    pub vel: Vec2i,
    pub size: Vec2i,
}

/// The snapshot an agent state yields for indexing and force queries.
pub open spec fn snapshot_of(a: AgentState) -> AgentSnapshot {
    AgentSnapshot {
        id: a.id,
        rect: Rect {
            min: a.pos,
            max: Vec2i { x: (a.pos.x + a.size.x) as i64, y: (a.pos.y + a.size.y) as i64 },
        },
        velocity: a.vel,
    }
}

/// The domain one tick is specified for: representable bounds and size, and
/// velocity within the tick envelope.
pub open spec fn agent_ok(a: AgentState) -> bool {
    &&& a.pos.bounded()
    &&& 0 <= a.size.x <= COORD_LIMIT
    &&& 0 <= a.size.y <= COORD_LIMIT
    &&& -COORD_LIMIT <= a.pos.x + a.size.x <= COORD_LIMIT
    &&& -COORD_LIMIT <= a.pos.y + a.size.y <= COORD_LIMIT
    &&& -TICK_VEL_LIMIT <= a.vel.x <= TICK_VEL_LIMIT
    &&& -TICK_VEL_LIMIT <= a.vel.y <= TICK_VEL_LIMIT
}

/// Every snapshot the index holds is representable and within the tick's
/// velocity envelope.
pub open spec fn tree_values_ok(t: Quadtree) -> bool {
    forall|w: AgentSnapshot|
        #[trigger] t.all_values().count(w) > 0 ==> w.rect.bounded() && -TICK_VEL_LIMIT
            <= w.velocity.x <= TICK_VEL_LIMIT && -TICK_VEL_LIMIT <= w.velocity.y <= TICK_VEL_LIMIT
}

pub fn make_snapshot(a: &AgentState) -> (s: AgentSnapshot)
    requires
        -crate::forces::POS_LIMIT <= a.pos.x <= crate::forces::POS_LIMIT,
        -crate::forces::POS_LIMIT <= a.pos.y <= crate::forces::POS_LIMIT,
        0 <= a.size.x <= COORD_LIMIT,
        0 <= a.size.y <= COORD_LIMIT,
    ensures
        s == snapshot_of(*a),
        s.rect.wf(),
        agent_ok(*a) ==> s.rect.bounded(),
{
    AgentSnapshot {
        id: a.id,
        rect: Rect {
            min: a.pos,
            max: Vec2i { x: a.pos.x + a.size.x, y: a.pos.y + a.size.y },
        },
        velocity: a.vel,
    }
}

/// The snapshots the force phase sees for a query window: all descendant
/// values of the deepest node containing the window, or none when the
/// window is not contained in the world bounds.
pub open spec fn neighbors_in_window(t: Quadtree, window: Rect) -> Seq<AgentSnapshot> {
    match t.root.query_rect_spec(window) {
        None => Seq::empty(),
        Some(n) => n.descendant_values_seq(),
    }
}

/// The velocity the force phase assigns to one agent: separation against
/// the detection window, then cohesion against the group window, then the
/// bounce policy if configured.
pub open spec fn forces_velocity_spec(t: Quadtree, cfg: SimConfig, a: AgentState) -> (int, int) {
    let snap = snapshot_of(a);
    let detect = magnify_rect_spec(snap.rect, cfg.detect_scale_milli);
    let v1 = avoid_spec(
        snap,
        neighbors_in_window(t, detect),
        cfg.sep_scale as int,
        cfg.eps as int,
    );
    let snap1 = AgentSnapshot {
        id: snap.id,
        rect: snap.rect,
        velocity: Vec2i { x: v1.0 as i64, y: v1.1 as i64 },
    };
    let group = magnify_rect_spec(snap.rect, cfg.group_scale_milli);
    let v2 = approach_spec(
        snap1,
        neighbors_in_window(t, group),
        cfg.cohesion_gain_num as int,
        cfg.cohesion_gain_den as int,
        cfg.eps as int,
    );
    if cfg.boundary is Bounce {
        (
            bounce_axis_spec(
                a.pos.x + integrate_axis_spec(v2.0, 0, cfg.dt as int),
                v2.0,
                cfg.bounds.min.x as int,
                cfg.bounds.max.x as int,
                cfg.margin.x as int,
            ),
            bounce_axis_spec(
                a.pos.y + integrate_axis_spec(v2.1, 0, cfg.dt as int),
                v2.1,
                cfg.bounds.min.y as int,
                cfg.bounds.max.y as int,
                cfg.margin.y as int,
            ),
        )
    } else {
        v2
    }
}

/// The position the integration phase assigns to one agent from its new
/// velocity: the configured integrator's displacement under zero
/// acceleration, then the wrap policy if configured.
pub open spec fn next_position_spec(cfg: SimConfig, a: AgentState, vel: Vec2i) -> (int, int) {
    let d = match cfg.integrator {
        IntegratorKind::Euler => (
            integrate_axis_spec(vel.x as int, 0, cfg.dt as int),
            integrate_axis_spec(vel.y as int, 0, cfg.dt as int),
        ),
        IntegratorKind::Rk4 => (
            integrate_rk4_axis_spec(vel.x as int, 0, cfg.dt as int),
            integrate_rk4_axis_spec(vel.y as int, 0, cfg.dt as int),
        ),
    };
    let px = a.pos.x + d.0;
    let py = a.pos.y + d.1;
    if cfg.boundary is Wrap {
        (
            wrap_axis_spec(px, cfg.bounds.min.x as int, cfg.bounds.max.x as int, cfg.margin.x as int),
            wrap_axis_spec(py, cfg.bounds.min.y as int, cfg.bounds.max.y as int, cfg.margin.y as int),
        )
    } else {
        (px, py)
    }
}

/// Gathers the neighbour candidates for one query window: the descendant
/// values of the node `query_rect` returns.
fn gather_neighbors(tree: &Quadtree, window: &Rect) -> (out: Vec<AgentSnapshot>)
    requires
        tree.wf(),
        tree_values_ok(*tree),
        tree.total() <= COUNT_LIMIT,
    ensures
        out@ == neighbors_in_window(*tree, *window),
        out@.len() <= tree.total(),
        out@.len() <= COUNT_LIMIT,
        forall|i: int|
            0 <= i < out@.len() ==> (#[trigger] out@[i]).rect.bounded() && -TICK_VEL_LIMIT
                <= out@[i].velocity.x <= TICK_VEL_LIMIT && -TICK_VEL_LIMIT <= out@[i].velocity.y
                <= TICK_VEL_LIMIT,
{
    match tree.query_rect(window) {
        None => Vec::new(),
        Some(node) => {
            let out = node.get_all_descendant_values();
            proof {
                lemma_query_rect_props(tree.root, *window, tree.max_depth);
                lemma_subtree_values(tree.root, *node);
                assert(tree.root.descendant_values_seq().len() == tree.all_values().len());
                assert forall|i: int| 0 <= i < out@.len() implies (#[trigger] out@[i]).rect.bounded()
                    && -TICK_VEL_LIMIT <= out@[i].velocity.x <= TICK_VEL_LIMIT && -TICK_VEL_LIMIT
                    <= out@[i].velocity.y <= TICK_VEL_LIMIT by {
                    let w = out@[i];
                    assert(node.descendant_values_seq().contains(w));
                    assert(node.all_values().count(w) > 0);
                    assert(tree.all_values().count(w) > 0);
                }
            }
            out
        },
    }
}

/// One agent's `ComputingForces` phase: separation, cohesion, and the
/// bounce policy, against the index as it currently stands.
pub fn compute_forces(tree: &Quadtree, cfg: &SimConfig, a: &AgentState) -> (v: Vec2i)
    requires
        tree.wf(),
        cfg.wf(),
        agent_ok(*a),
        tree_values_ok(*tree),
        tree.total() <= COUNT_LIMIT,
        (tree.total() as int) * (cfg.sep_scale as int) <= FORCE_LIMIT,
    ensures
        v.x == forces_velocity_spec(*tree, *cfg, *a).0,
        v.y == forces_velocity_spec(*tree, *cfg, *a).1,
        -CHAIN_VEL_LIMIT <= v.x <= CHAIN_VEL_LIMIT,
        -CHAIN_VEL_LIMIT <= v.y <= CHAIN_VEL_LIMIT,
{
    let snap = make_snapshot(a);
    let detect = magnify_rect(&snap.rect, cfg.detect_scale_milli);
    let ns1 = gather_neighbors(tree, &detect);
    proof {
        assert((ns1@.len() as int) * (cfg.sep_scale as int) <= (tree.total() as int) * (
        cfg.sep_scale as int)) by (nonlinear_arith)
            requires
                ns1@.len() <= tree.total(),
                cfg.sep_scale >= 0,
        ;
        lemma_avoid_spec_bound(
            snap,
            ns1@,
            cfg.sep_scale as int,
            cfg.eps as int,
            TICK_VEL_LIMIT as int,
        );
    }
    let v1 = avoid_nearby_boids(&snap, &ns1, cfg.sep_scale, cfg.eps);
    let snap1 = AgentSnapshot { id: snap.id, rect: snap.rect, velocity: v1 };
    let group = magnify_rect(&snap.rect, cfg.group_scale_milli);
    let ns2 = gather_neighbors(tree, &group);
    proof {
        lemma_approach_spec_bound(
            snap1,
            ns2@,
            cfg.cohesion_gain_num as int,
            cfg.cohesion_gain_den as int,
            cfg.eps as int,
            TICK_VEL_LIMIT as int + FORCE_LIMIT,
            TICK_VEL_LIMIT as int,
        );
    }
    let v2 = approach_nearby_boid_groups(
        &snap1,
        &ns2,
        cfg.cohesion_gain_num,
        cfg.cohesion_gain_den,
        cfg.eps,
    );
    match cfg.boundary {
        BoundaryPolicy::Bounce => {
            let kin = Kinematics { velocity: v2, acceleration: Vec2i { x: 0, y: 0 } };
            avoid_screen_edges(a.pos, &kin, &cfg.bounds, cfg.margin, cfg.dt)
        },
        BoundaryPolicy::Wrap => v2,
    }
}

/// One agent's `Integrating` phase: the configured integrator advances the
/// position from the new velocity under zero acceleration, and the wrap
/// policy relocates a position past the margin.
pub fn apply_kinematics(a: &AgentState, vel: Vec2i, cfg: &SimConfig) -> (p: Vec2i)
    requires
        cfg.wf(),
        a.pos.bounded(),
        -CHAIN_VEL_LIMIT <= vel.x <= CHAIN_VEL_LIMIT,
        -CHAIN_VEL_LIMIT <= vel.y <= CHAIN_VEL_LIMIT,
    ensures
        p.x == next_position_spec(*cfg, *a, vel).0,
        p.y == next_position_spec(*cfg, *a, vel).1,
        -crate::forces::POS_LIMIT <= p.x <= crate::forces::POS_LIMIT,
        -crate::forces::POS_LIMIT <= p.y <= crate::forces::POS_LIMIT,
{
    let kin = Kinematics { velocity: vel, acceleration: Vec2i { x: 0, y: 0 } };
    proof {
        crate::kinematics::lemma_euler_rk4_agree_zero_accel(vel.x as int, cfg.dt as int);
        crate::kinematics::lemma_euler_rk4_agree_zero_accel(vel.y as int, cfg.dt as int);
        assert(-(CHAIN_VEL_LIMIT as int * TIME_LIMIT) <= (vel.x as int) * (cfg.dt as int)
            <= CHAIN_VEL_LIMIT as int * TIME_LIMIT) by (nonlinear_arith)
            requires
                -CHAIN_VEL_LIMIT <= vel.x <= CHAIN_VEL_LIMIT,
                0 <= cfg.dt <= TIME_LIMIT,
        ;
        assert(-(CHAIN_VEL_LIMIT as int * TIME_LIMIT) <= (vel.y as int) * (cfg.dt as int)
            <= CHAIN_VEL_LIMIT as int * TIME_LIMIT) by (nonlinear_arith)
            requires
                -CHAIN_VEL_LIMIT <= vel.y <= CHAIN_VEL_LIMIT,
                0 <= cfg.dt <= TIME_LIMIT,
        ;
    }
    let d = match cfg.integrator {
        IntegratorKind::Euler => kin.integrate(cfg.dt),
        IntegratorKind::Rk4 => kin.integrate_rk4(cfg.dt),
    };
    let px = a.pos.x + d.x;
    let py = a.pos.y + d.y;
    match cfg.boundary {
        BoundaryPolicy::Wrap => wrap_screen_edges(Vec2i { x: px, y: py }, &cfg.bounds, cfg.margin),
        BoundaryPolicy::Bounce => Vec2i { x: px, y: py },
    }
}

/// One agent's `Reindexing` phase: the entry with the snapshot's identity
/// leaves the index and the fresh snapshot is inserted, which silently
/// rejects a rectangle outside the world bounds.
pub fn update_quadtree(tree: &mut Quadtree, snap: AgentSnapshot) -> (r: Option<AgentSnapshot>)
    requires
        old(tree).wf(),
    ensures
        final(tree).wf(),
        final(tree).rect == old(tree).rect,
        final(tree).threshold == old(tree).threshold,
        final(tree).max_depth == old(tree).max_depth,
        ({
            let inb = rect_contains_rect_spec(old(tree).rect, snap.rect);
            match r {
                Some(w) => w.id == snap.id && old(tree).all_values().count(w) > 0 && (inb
                    ==> final(tree).all_values() == old(tree).all_values().remove(w).insert(snap))
                    && (!inb ==> final(tree).all_values() == old(tree).all_values().remove(w)),
                None => !old(tree).contains_id_spec(snap.id) && (inb ==> final(tree).all_values()
                    == old(tree).all_values().insert(snap)) && (!inb ==> final(tree).all_values()
                    == old(tree).all_values()),
            }
        }),
{
    let r = tree.delete(&snap);
    tree.add(snap);
    r
}

/// The in-bounds snapshots of a sequence of agent states: what a correctly
/// re-indexed quadtree over those bounds holds.
pub open spec fn snaps_in_bounds(bounds: Rect, agents: Seq<AgentState>) -> Multiset<AgentSnapshot>
    decreases agents.len(),
{
    if agents.len() == 0 {
        Multiset::empty()
    } else {
        let rest = snaps_in_bounds(bounds, agents.drop_last());
        let s = snapshot_of(agents.last());
        if rect_contains_rect_spec(bounds, s.rect) {
            rest.insert(s)
        } else {
            rest
        }
    }
}

/// No two agents share an identity.
pub open spec fn distinct_ids(agents: Seq<AgentState>) -> bool {
    forall|i: int, j: int| 0 <= i < j < agents.len() ==> agents[i].id != agents[j].id
}

/// Every member of the in-bounds snapshot multiset is the snapshot of some
/// agent of the sequence, contained in the bounds.
proof fn lemma_snaps_members(bounds: Rect, agents: Seq<AgentState>, w: AgentSnapshot)
    requires
        snaps_in_bounds(bounds, agents).count(w) > 0,
    ensures
        exists|k: int|
            0 <= k < agents.len() && w == snapshot_of(#[trigger] agents[k])
                && rect_contains_rect_spec(bounds, w.rect),
    decreases agents.len(),
{
    if agents.len() == 0 {
    } else {
        let s = snapshot_of(agents.last());
        if rect_contains_rect_spec(bounds, s.rect) && w == s {
            assert(agents[agents.len() - 1] == agents.last());
        } else {
            lemma_snaps_members(bounds, agents.drop_last(), w);
            let k = choose|k: int|
                0 <= k < agents.drop_last().len() && w == snapshot_of(
                    #[trigger] agents.drop_last()[k],
                ) && rect_contains_rect_spec(bounds, w.rect);
            assert(agents[k] == agents.drop_last()[k]);
        }
    }
}

/// Peeling the first agent off the sequence peels its in-bounds snapshot
/// off the multiset.
proof fn lemma_snaps_drop_first(bounds: Rect, s: Seq<AgentState>)
    requires
        s.len() > 0,
    ensures
        snaps_in_bounds(bounds, s) == (if rect_contains_rect_spec(
            bounds,
            snapshot_of(s[0]).rect,
        ) {
            snaps_in_bounds(bounds, s.drop_first()).insert(snapshot_of(s[0]))
        } else {
            snaps_in_bounds(bounds, s.drop_first())
        }),
    decreases s.len(),
{
    if s.len() == 1 {
        assert(s.drop_last() =~= Seq::<AgentState>::empty());
        assert(s.drop_first() =~= Seq::<AgentState>::empty());
        assert(s.last() == s[0]);
    } else {
        lemma_snaps_drop_first(bounds, s.drop_last());
        assert(s.drop_first().drop_last() =~= s.drop_last().drop_first());
        assert(s.drop_first().last() == s.last());
        assert(s.drop_last()[0] == s[0]);
        let a = snapshot_of(s[0]);
        let b = snapshot_of(s.last());
        let core = snaps_in_bounds(bounds, s.drop_last().drop_first());
        if rect_contains_rect_spec(bounds, a.rect) && rect_contains_rect_spec(bounds, b.rect) {
            assert(core.insert(a).insert(b) =~= core.insert(b).insert(a));
        }
    }
}

/// Appending one more agent extends the in-bounds snapshot multiset.
proof fn lemma_snaps_take_step(bounds: Rect, agents: Seq<AgentState>, i: int)
    requires
        0 <= i < agents.len(),
    ensures
        snaps_in_bounds(bounds, agents.take(i + 1)) == (if rect_contains_rect_spec(
            bounds,
            snapshot_of(agents[i]).rect,
        ) {
            snaps_in_bounds(bounds, agents.take(i)).insert(snapshot_of(agents[i]))
        } else {
            snaps_in_bounds(bounds, agents.take(i))
        }),
{
    assert(agents.take(i + 1).drop_last() =~= agents.take(i));
    assert(agents.take(i + 1).last() == agents[i]);
}

/// A snapshot the index holds with some identity makes the identity
/// findable.
proof fn lemma_count_gives_id(t: Quadtree, w: AgentSnapshot)
    requires
        t.all_values().count(w) > 0,
    ensures
        t.contains_id_spec(w.id),
{
    assert(t.root.descendant_values_seq().contains(w));
    let i = choose|i: int|
        0 <= i < t.root.descendant_values_seq().len() && t.root.descendant_values_seq()[i] == w;
    assert(t.root.descendant_values_seq()[i].id == w.id);
}

/// One reindex step. With the index holding the new snapshots of the
/// processed agents and the old snapshots of the rest, replacing agent
/// `i`'s entry by identity advances that mixture by one agent.
proof fn lemma_reindex_step(
    rect0: Rect,
    olds: Seq<AgentState>,
    news: Seq<AgentState>,
    i: int,
    m_before: Multiset<AgentSnapshot>,
    m_after: Multiset<AgentSnapshot>,
    r: Option<AgentSnapshot>,
)
    requires
        0 <= i < olds.len(),
        news.len() == olds.len(),
        forall|j: int| 0 <= j < news.len() ==> (#[trigger] news[j]).id == olds[j].id,
        distinct_ids(olds),
        m_before == snaps_in_bounds(rect0, news.take(i)).add(snaps_in_bounds(rect0, olds.skip(i))),
        ({
            let snap = snapshot_of(news[i]);
            let inb = rect_contains_rect_spec(rect0, snap.rect);
            match r {
                Some(w) => w.id == snap.id && m_before.count(w) > 0 && (inb ==> m_after
                    == m_before.remove(w).insert(snap)) && (!inb ==> m_after == m_before.remove(
                    w,
                )),
                None => (forall|w: AgentSnapshot| #[trigger] m_before.count(w) > 0 ==> w.id != snap.id)
                    && (inb ==> m_after == m_before.insert(snap)) && (!inb ==> m_after
                    == m_before),
            }
        }),
    ensures
        m_after == snaps_in_bounds(rect0, news.take(i + 1)).add(
            snaps_in_bounds(rect0, olds.skip(i + 1)),
        ),
{
    let snap = snapshot_of(news[i]);
    let inb = rect_contains_rect_spec(rect0, snap.rect);
    let pre = snaps_in_bounds(rect0, news.take(i));
    let suf = snaps_in_bounds(rect0, olds.skip(i));
    let suf1 = snaps_in_bounds(rect0, olds.skip(i + 1));
    assert(olds.skip(i).len() == olds.len() - i);
    assert(olds.skip(i)[0] == olds[i]);
    assert(olds.skip(i).drop_first() =~= olds.skip(i + 1));
    lemma_snaps_drop_first(rect0, olds.skip(i));
    lemma_snaps_take_step(rect0, news, i);
    let oldsnap = snapshot_of(olds[i]);
    let old_inb = rect_contains_rect_spec(rect0, oldsnap.rect);
    match r {
        Some(w) => {
            if pre.count(w) > 0 {
                lemma_snaps_members(rect0, news.take(i), w);
                let k = choose|k: int|
                    0 <= k < news.take(i).len() && w == snapshot_of(#[trigger] news.take(i)[k])
                        && rect_contains_rect_spec(rect0, w.rect);
                assert(news.take(i)[k] == news[k]);
                assert(w.id == olds[k].id);
                assert(olds[k].id != olds[i].id);
                assert(false);
            }
            assert(suf.count(w) > 0);
            lemma_snaps_members(rect0, olds.skip(i), w);
            let k = choose|k: int|
                0 <= k < olds.skip(i).len() && w == snapshot_of(#[trigger] olds.skip(i)[k])
                    && rect_contains_rect_spec(rect0, w.rect);
            assert(olds.skip(i)[k] == olds[i + k]);
            assert(w.id == olds[i + k].id);
            if k != 0 {
                assert(olds[i].id != olds[i + k].id);
                assert(false);
            }
            assert(w == oldsnap);
            if !old_inb {
                assert(suf.count(w) == suf1.count(w));
                assert(false);
            }
            assert(suf == suf1.insert(oldsnap));
            assert(m_before.remove(w) =~= pre.add(suf1));
            if inb {
                assert(m_after =~= pre.insert(snap).add(suf1));
                assert(snaps_in_bounds(rect0, news.take(i + 1)) == pre.insert(snap));
                assert(m_after =~= snaps_in_bounds(rect0, news.take(i + 1)).add(suf1));
            } else {
                assert(m_after =~= snaps_in_bounds(rect0, news.take(i + 1)).add(suf1));
            }
        },
        None => {
            if old_inb {
                assert(suf == suf1.insert(oldsnap));
                assert(suf.count(oldsnap) > 0);
                assert(m_before.count(oldsnap) > 0);
                assert(oldsnap.id == snap.id);
                assert(false);
            }
            assert(suf == suf1);
            if inb {
                assert(m_after =~= pre.insert(snap).add(suf1));
                assert(m_after =~= snaps_in_bounds(rect0, news.take(i + 1)).add(suf1));
            } else {
                assert(m_after =~= snaps_in_bounds(rect0, news.take(i + 1)).add(suf1));
            }
        },
    }
}

/// The simulation core: the fixed configuration and the spatial index it
/// owns across ticks.
pub struct Simulation {
    pub config: SimConfig,
    pub quadtree: Quadtree,
}

impl Simulation {
    pub open spec fn wf(self) -> bool {
        &&& self.config.wf()
        &&& self.quadtree.wf()
        &&& self.quadtree.rect == self.config.bounds
        &&& self.quadtree.threshold == self.config.threshold
        &&& self.quadtree.max_depth == self.config.max_depth
    }

    /// A fresh simulation with an empty index over the configured bounds.
    pub fn new(config: SimConfig) -> (s: Simulation)
        requires
            config.wf(),
        ensures
            s.wf(),
            s.config == config,
            s.quadtree.total() == 0,
    {
        let quadtree = Quadtree::empty(config.bounds, config.threshold, config.max_depth);
        Simulation { config, quadtree }
    }

    /// One full tick: forces for every agent against the index as given,
    /// then integration, then re-indexing of every agent, then structural
    /// cleanup — each phase finishing before the next starts, none skipped.
    pub fn tick(&mut self, agents: &mut Vec<AgentState>)
        requires
            old(self).wf(),
            tree_values_ok(old(self).quadtree),
            old(self).quadtree.total() <= COUNT_LIMIT,
            (old(self).quadtree.total() as int) * (old(self).config.sep_scale as int)
                <= FORCE_LIMIT,
            forall|i: int| 0 <= i < old(agents)@.len() ==> agent_ok(#[trigger] old(agents)@[i]),
        ensures
            final(self).wf(),
            final(self).config == old(self).config,
            final(agents)@.len() == old(agents)@.len(),
            forall|i: int|
                0 <= i < old(agents)@.len() ==> {
                    let a0 = #[trigger] old(agents)@[i];
                    let af = final(agents)@[i];
                    let vnew = forces_velocity_spec(old(self).quadtree, old(self).config, a0);
                    &&& af.id == a0.id
                    &&& af.size == a0.size
                    &&& af.vel.x == vnew.0
                    &&& af.vel.y == vnew.1
                    &&& af.pos.x == next_position_spec(old(self).config, a0, af.vel).0
                    &&& af.pos.y == next_position_spec(old(self).config, a0, af.vel).1
                },
            final(self).quadtree.root.fully_cleaned(),
            distinct_ids(old(agents)@) && old(self).quadtree.all_values() == snaps_in_bounds(
                old(self).quadtree.rect,
                old(agents)@,
            ) ==> final(self).quadtree.all_values() == snaps_in_bounds(
                old(self).quadtree.rect,
                final(agents)@,
            ),
    {
        let ghost tree0 = self.quadtree;
        let ghost cfg0 = self.config;
        let ghost agents0 = agents@;
        let ghost rect0 = self.quadtree.rect;
        let ghost pre = distinct_ids(agents0) && tree0.all_values() == snaps_in_bounds(
            rect0,
            agents0,
        );
        let n = agents.len();
        // ComputingForces: read-only access to the index.
        let mut new_vels: Vec<Vec2i> = Vec::new();
        let mut i: usize = 0;
        while i < n
            invariant
                0 <= i <= n,
                n == agents@.len(),
                agents@ == agents0,
                *self == (Simulation { config: cfg0, quadtree: tree0 }),
                self.wf(),
                tree_values_ok(self.quadtree),
                self.quadtree.total() <= COUNT_LIMIT,
                (self.quadtree.total() as int) * (self.config.sep_scale as int) <= FORCE_LIMIT,
                forall|j: int| 0 <= j < n ==> agent_ok(#[trigger] agents@[j]),
                new_vels@.len() == i,
                forall|j: int|
                    0 <= j < i ==> (#[trigger] new_vels@[j]).x == forces_velocity_spec(
                        tree0,
                        cfg0,
                        agents0[j],
                    ).0 && new_vels@[j].y == forces_velocity_spec(tree0, cfg0, agents0[j]).1,
                forall|j: int|
                    0 <= j < i ==> -CHAIN_VEL_LIMIT <= (#[trigger] new_vels@[j]).x
                        <= CHAIN_VEL_LIMIT && -CHAIN_VEL_LIMIT <= new_vels@[j].y
                        <= CHAIN_VEL_LIMIT,
            decreases n - i,
        {
            let a = agents[i];
            let v = compute_forces(&self.quadtree, &self.config, &a);
            new_vels.push(v);
            i += 1;
        }
        // Integrating: each agent's position advances independently.
        let mut updated: Vec<AgentState> = Vec::new();
        let mut i: usize = 0;
        while i < n
            invariant
                0 <= i <= n,
                n == agents@.len(),
                agents@ == agents0,
                *self == (Simulation { config: cfg0, quadtree: tree0 }),
                self.wf(),
                new_vels@.len() == n,
                forall|j: int| 0 <= j < n ==> agent_ok(#[trigger] agents@[j]),
                forall|j: int|
                    0 <= j < n ==> (#[trigger] new_vels@[j]).x == forces_velocity_spec(
                        tree0,
                        cfg0,
                        agents0[j],
                    ).0 && new_vels@[j].y == forces_velocity_spec(tree0, cfg0, agents0[j]).1,
                forall|j: int|
                    0 <= j < n ==> -CHAIN_VEL_LIMIT <= (#[trigger] new_vels@[j]).x
                        <= CHAIN_VEL_LIMIT && -CHAIN_VEL_LIMIT <= new_vels@[j].y
                        <= CHAIN_VEL_LIMIT,
                updated@.len() == i,
                forall|j: int|
                    0 <= j < i ==> {
                        let a0 = agents0[j];
                        let af = #[trigger] updated@[j];
                        &&& af.id == a0.id
                        &&& af.size == a0.size
                        &&& af.vel == new_vels@[j]
                        &&& af.pos.x == next_position_spec(cfg0, a0, af.vel).0
                        &&& af.pos.y == next_position_spec(cfg0, a0, af.vel).1
                    },
                forall|j: int|
                    0 <= j < i ==> -crate::forces::POS_LIMIT <= (#[trigger] updated@[j]).pos.x
                        <= crate::forces::POS_LIMIT && -crate::forces::POS_LIMIT
                        <= updated@[j].pos.y <= crate::forces::POS_LIMIT && 0
                        <= updated@[j].size.x <= COORD_LIMIT && 0 <= updated@[j].size.y
                        <= COORD_LIMIT,
            decreases n - i,
        {
            let a = agents[i];
            let vel = new_vels[i];
            let p = apply_kinematics(&a, vel, &self.config);
            let na = AgentState { id: a.id, pos: p, vel, size: a.size };
            updated.push(na);
            i += 1;
        }
        *agents = updated;
        proof {
            if pre {
                assert(agents@.take(0) =~= Seq::<AgentState>::empty());
                assert(agents0.skip(0) =~= agents0);
                assert(snaps_in_bounds(rect0, agents@.take(0)) =~= Multiset::<
                    AgentSnapshot,
                >::empty());
                assert(self.quadtree.all_values() =~= snaps_in_bounds(rect0, agents@.take(0)).add(
                    snaps_in_bounds(rect0, agents0.skip(0)),
                ));
            }
        }
        // Reindexing: the index is mutated sequentially, one agent at a time.
        let mut i: usize = 0;
        while i < n
            invariant
                0 <= i <= n,
                n == agents@.len(),
                n == agents0.len(),
                self.config == cfg0,
                self.wf(),
                forall|j: int|
                    0 <= j < n ==> -crate::forces::POS_LIMIT <= (#[trigger] agents@[j]).pos.x
                        <= crate::forces::POS_LIMIT && -crate::forces::POS_LIMIT
                        <= agents@[j].pos.y <= crate::forces::POS_LIMIT && 0 <= agents@[j].size.x
                        <= COORD_LIMIT && 0 <= agents@[j].size.y <= COORD_LIMIT,
                forall|j: int|
                    0 <= j < n ==> {
                        let a0 = agents0[j];
                        let af = #[trigger] agents@[j];
                        &&& af.id == a0.id
                        &&& af.size == a0.size
                        &&& af.vel.x == forces_velocity_spec(tree0, cfg0, a0).0
                        &&& af.vel.y == forces_velocity_spec(tree0, cfg0, a0).1
                        &&& af.pos.x == next_position_spec(cfg0, a0, af.vel).0
                        &&& af.pos.y == next_position_spec(cfg0, a0, af.vel).1
                    },
                self.quadtree.rect == rect0,
                pre == (distinct_ids(agents0) && tree0.all_values() == snaps_in_bounds(
                    rect0,
                    agents0,
                )),
                pre ==> self.quadtree.all_values() == snaps_in_bounds(
                    rect0,
                    agents@.take(i as int),
                ).add(snaps_in_bounds(rect0, agents0.skip(i as int))),
            decreases n - i,
        {
            let ghost t_before = self.quadtree;
            let a = agents[i];
            let snap = make_snapshot(&a);
            let r = update_quadtree(&mut self.quadtree, snap);
            proof {
                if pre {
                    let m_before = t_before.all_values();
                    let m_after = self.quadtree.all_values();
                    if r is None {
                        assert forall|w: AgentSnapshot| #[trigger] m_before.count(w) > 0 implies w.id
                            != snap.id by {
                            lemma_count_gives_id(t_before, w);
                        }
                    }
                    lemma_reindex_step(rect0, agents0, agents@, i as int, m_before, m_after, r);
                }
            }
            i += 1;
        }
        proof {
            if pre {
                assert(agents@.take(n as int) =~= agents@);
                assert(agents0.skip(n as int) =~= Seq::<AgentState>::empty());
                assert(self.quadtree.all_values() =~= snaps_in_bounds(rect0, agents@));
            }
        }
        // CleaningUp: collapse subtrees of empty leaves.
        self.quadtree.clean_structure();
    }
}

} // verus!
