//! The per-agent force model. Separation pushes an agent away from close
//! neighbours with a contribution that decays with squared distance;
//! cohesion steers its velocity toward the average velocity of the nearby
//! group; the two boundary policies bounce or wrap an agent that crosses the
//! world margin.
//!
//! This implementation uses the force-accumulation configuration: separation
//! sums raw force into the velocity vector, and cohesion blends the velocity
//! toward the group average with a fixed interpolation gain, without
//! renormalising to the previous speed.

use crate::agent::AgentSnapshot;
use crate::kinematics::{integrate_axis_spec, Kinematics, TIME_LIMIT, VEL_LIMIT};
use crate::num::{div_trunc, div_trunc_spec, lemma_div_trunc_le, lemma_div_trunc_neg};
use crate::rect::{Rect, Vec2i};
use vstd::prelude::*;

verus! {

/// Largest separation strength the force model is specified for.
pub const SCALE_LIMIT: i64 = 1_000_000_000;

/// Largest neighbour count the force model is specified for.
pub const COUNT_LIMIT: usize = 1_000_000;

/// Largest interpolation denominator the cohesion blend is specified for.
pub const GAIN_LIMIT: i64 = 1_000_000;

/// Largest position component the boundary policies are specified for;
/// roomier than the world bounds, since one step of integration can carry
/// an agent far outside them.
pub const POS_LIMIT: i64 = 1_000_000_000_000_000;

/// Horizontal part of one neighbour's repulsive contribution: the offset
/// away from the neighbour, scaled by `scale` and damped by one plus the
/// squared distance.
pub open spec fn sep_term_x(dx: int, dy: int, scale: int) -> int {
    div_trunc_spec(dx * scale, 1 + dx * dx + dy * dy)
}

/// Vertical part of one neighbour's repulsive contribution.
pub open spec fn sep_term_y(dx: int, dy: int, scale: int) -> int {
    div_trunc_spec(dy * scale, 1 + dx * dx + dy * dy)
}

/// Total separation force on `agent` from `neighbors`, skipping entries
/// with the agent's own identity; offsets are taken between the rectangles'
/// low corners.
pub open spec fn sep_force(agent: AgentSnapshot, neighbors: Seq<AgentSnapshot>, scale: int) -> (
    int,
    int,
)
    decreases neighbors.len(),
{
    if neighbors.len() == 0 {
        (0, 0)
    } else {
        let rest = sep_force(agent, neighbors.drop_last(), scale);
        let nb = neighbors.last();
        if nb.id == agent.id {
            rest
        } else {
            let dx = agent.rect.min.x - nb.rect.min.x;
            let dy = agent.rect.min.y - nb.rect.min.y;
            (rest.0 + sep_term_x(dx, dy, scale), rest.1 + sep_term_y(dx, dy, scale))
        }
    }
}

/// The separation phase's result: the force joins the velocity only when
/// its squared magnitude clears `eps`, which guards the degenerate
/// near-zero direction.
pub open spec fn avoid_spec(
    agent: AgentSnapshot,
    neighbors: Seq<AgentSnapshot>,
    scale: int,
    eps: int,
) -> (int, int) {
    let f = sep_force(agent, neighbors, scale);
    if f.0 * f.0 + f.1 * f.1 > eps {
        (agent.velocity.x + f.0, agent.velocity.y + f.1)
    } else {
        (agent.velocity.x as int, agent.velocity.y as int)
    }
}

/// Sum of neighbour velocities and the neighbour count, skipping entries
/// with the agent's own identity.
pub open spec fn group_sum(agent: AgentSnapshot, neighbors: Seq<AgentSnapshot>) -> (int, int, int)
    decreases neighbors.len(),
{
    if neighbors.len() == 0 {
        (0, 0, 0)
    } else {
        let rest = group_sum(agent, neighbors.drop_last());
        let nb = neighbors.last();
        if nb.id == agent.id {
            rest
        } else {
            (rest.0 + nb.velocity.x, rest.1 + nb.velocity.y, rest.2 + 1)
        }
    }
}

/// The cohesion phase's result: with more than one other agent around and a
/// group velocity above `eps`, the velocity is blended toward the group
/// average by `gain_num / gain_den`.
pub open spec fn approach_spec(
    agent: AgentSnapshot,
    neighbors: Seq<AgentSnapshot>,
    gain_num: int,
    gain_den: int,
    eps: int,
) -> (int, int) {
    let s = group_sum(agent, neighbors);
    let vx = agent.velocity.x as int;
    let vy = agent.velocity.y as int;
    if s.2 > 1 {
        let ax = div_trunc_spec(s.0, s.2);
        let ay = div_trunc_spec(s.1, s.2);
        if ax * ax + ay * ay > eps {
            (
                vx + div_trunc_spec((ax - vx) * gain_num, gain_den),
                vy + div_trunc_spec((ay - vy) * gain_num, gain_den),
            )
        } else {
            (vx, vy)
        }
    } else {
        (vx, vy)
    }
}

/// One axis of the bounce policy: the velocity component flips when the
/// projected position crosses the margin on either side.
pub open spec fn bounce_axis_spec(proj: int, v: int, lo: int, hi: int, margin: int) -> int {
    if proj - margin <= lo || proj + margin >= hi {
        -v
    } else {
        v
    }
}

/// One axis of the wrap policy: a position on or past a margin teleports by
/// one span width to the opposite edge, as on a torus.
pub open spec fn wrap_axis_spec(p: int, lo: int, hi: int, margin: int) -> int {
    let span = hi - lo - 2 * margin;
    if p >= hi - margin {
        p - span
    } else if p <= lo + margin {
        p + span
    } else {
        p
    }
}

/// Separation: sums the repulsive contributions of every neighbour with a
/// different identity and, when the force clears the epsilon guard, adds it
/// to the agent's velocity.
pub fn avoid_nearby_boids(
    agent: &AgentSnapshot,
    neighbors: &Vec<AgentSnapshot>,
    scale: i64,
    eps: i64,
) -> (v: Vec2i)
    requires
        agent.rect.bounded(),
        -VEL_LIMIT <= agent.velocity.x <= VEL_LIMIT,
        -VEL_LIMIT <= agent.velocity.y <= VEL_LIMIT,
        forall|i: int| 0 <= i < neighbors@.len() ==> (#[trigger] neighbors@[i]).rect.bounded(),
        0 <= scale <= SCALE_LIMIT,
        0 <= eps,
        neighbors@.len() <= COUNT_LIMIT,
    ensures
        v.x == avoid_spec(*agent, neighbors@, scale as int, eps as int).0,
        v.y == avoid_spec(*agent, neighbors@, scale as int, eps as int).1,
{
    let n = neighbors.len();
    let mut fx: i64 = 0;
    let mut fy: i64 = 0;
    let mut i: usize = 0;
    while i < n
        invariant
            0 <= i <= n,
            n == neighbors@.len() <= COUNT_LIMIT,
            agent.rect.bounded(),
            forall|j: int| 0 <= j < neighbors@.len() ==> (#[trigger] neighbors@[j]).rect.bounded(),
            0 <= scale <= SCALE_LIMIT,
            fx == sep_force(*agent, neighbors@.take(i as int), scale as int).0,
            fy == sep_force(*agent, neighbors@.take(i as int), scale as int).1,
            -((i as int) * scale) <= fx <= (i as int) * scale,
            -((i as int) * scale) <= fy <= (i as int) * scale,
        decreases n - i,
    {
        let nb = neighbors[i];
        proof {
            assert(neighbors@.take(i + 1).drop_last() =~= neighbors@.take(i as int));
            assert(neighbors@.take(i + 1).last() == neighbors@[i as int]);
        }
        if nb.id != agent.id {
            let dx = agent.rect.min.x - nb.rect.min.x;
            let dy = agent.rect.min.y - nb.rect.min.y;
            proof {
                lemma_sep_products_bounded(dx as int, dy as int, scale as int);
            }
            let w = 1 + dx * dx + dy * dy;
            let tx = div_trunc(dx * scale, w);
            let ty = div_trunc(dy * scale, w);
            proof {
                lemma_sep_term_bounds(dx as int, dy as int, scale as int);
                assert((i + 1) as int * scale == (i as int) * scale + scale) by (nonlinear_arith);
                assert((i as int) * scale <= COUNT_LIMIT as int * SCALE_LIMIT) by (nonlinear_arith)
                    requires
                        0 <= i <= COUNT_LIMIT,
                        0 <= scale <= SCALE_LIMIT,
                ;
            }
            fx = fx + tx;
            fy = fy + ty;
        } else {
            proof {
                assert((i + 1) as int * scale >= (i as int) * scale) by (nonlinear_arith)
                    requires
                        scale >= 0,
                ;
                assert(-((i + 1) as int * scale) <= -((i as int) * scale)) by (nonlinear_arith)
                    requires
                        scale >= 0,
                ;
            }
        }
        i += 1;
    }
    proof {
        assert(neighbors@.take(n as int) =~= neighbors@);
        assert((n as int) * scale <= COUNT_LIMIT as int * SCALE_LIMIT) by (nonlinear_arith)
            requires
                0 <= n <= COUNT_LIMIT,
                0 <= scale <= SCALE_LIMIT,
        ;
        let lim: int = COUNT_LIMIT as int * SCALE_LIMIT;
        assert(0 <= (fx as int) * (fx as int) <= lim * lim) by (nonlinear_arith)
            requires
                -lim <= fx <= lim,
        ;
        assert(0 <= (fy as int) * (fy as int) <= lim * lim) by (nonlinear_arith)
            requires
                -lim <= fy <= lim,
        ;
    }
    let fxw = fx as i128;
    let fyw = fy as i128;
    let m2 = fxw * fxw + fyw * fyw;
    if m2 > eps as i128 {
        Vec2i { x: agent.velocity.x + fx, y: agent.velocity.y + fy }
    } else {
        Vec2i { x: agent.velocity.x, y: agent.velocity.y }
    }
}

/// Cohesion: averages the velocities of the nearby group (identity
/// excluded) and blends the agent's velocity toward that average.
pub fn approach_nearby_boid_groups(
    agent: &AgentSnapshot,
    neighbors: &Vec<AgentSnapshot>,
    gain_num: i64,
    gain_den: i64,
    eps: i64,
) -> (v: Vec2i)
    requires
        -VEL_LIMIT <= agent.velocity.x <= VEL_LIMIT,
        -VEL_LIMIT <= agent.velocity.y <= VEL_LIMIT,
        forall|i: int|
            0 <= i < neighbors@.len() ==> -VEL_LIMIT <= (#[trigger] neighbors@[i]).velocity.x
                <= VEL_LIMIT && -VEL_LIMIT <= neighbors@[i].velocity.y <= VEL_LIMIT,
        0 <= gain_num <= gain_den,
        1 <= gain_den <= GAIN_LIMIT,
        0 <= eps,
        neighbors@.len() <= COUNT_LIMIT,
    ensures
        v.x == approach_spec(*agent, neighbors@, gain_num as int, gain_den as int, eps as int).0,
        v.y == approach_spec(*agent, neighbors@, gain_num as int, gain_den as int, eps as int).1,
{
    let n = neighbors.len();
    let mut sx: i64 = 0;
    let mut sy: i64 = 0;
    let mut cnt: i64 = 0;
    let mut i: usize = 0;
    while i < n
        invariant
            0 <= i <= n,
            n == neighbors@.len() <= COUNT_LIMIT,
            forall|j: int|
                0 <= j < neighbors@.len() ==> -VEL_LIMIT <= (#[trigger] neighbors@[j]).velocity.x
                    <= VEL_LIMIT && -VEL_LIMIT <= neighbors@[j].velocity.y <= VEL_LIMIT,
            sx == group_sum(*agent, neighbors@.take(i as int)).0,
            sy == group_sum(*agent, neighbors@.take(i as int)).1,
            cnt == group_sum(*agent, neighbors@.take(i as int)).2,
            0 <= cnt <= i,
            -((cnt as int) * VEL_LIMIT) <= sx <= (cnt as int) * VEL_LIMIT,
            -((cnt as int) * VEL_LIMIT) <= sy <= (cnt as int) * VEL_LIMIT,
        decreases n - i,
    {
        let nb = neighbors[i];
        proof {
            assert(neighbors@.take(i + 1).drop_last() =~= neighbors@.take(i as int));
            assert(neighbors@.take(i + 1).last() == neighbors@[i as int]);
            assert((cnt as int + 1) * VEL_LIMIT == (cnt as int) * VEL_LIMIT + VEL_LIMIT)
                by (nonlinear_arith);
        }
        if nb.id != agent.id {
            sx = sx + nb.velocity.x;
            sy = sy + nb.velocity.y;
            cnt = cnt + 1;
        }
        i += 1;
    }
    proof {
        assert(neighbors@.take(n as int) =~= neighbors@);
    }
    if cnt > 1 {
        proof {
            lemma_div_trunc_le(sx as int, cnt as int, VEL_LIMIT as int);
            lemma_div_trunc_le(sy as int, cnt as int, VEL_LIMIT as int);
        }
        let ax = div_trunc(sx, cnt);
        let ay = div_trunc(sy, cnt);
        proof {
            assert(0 <= (ax as int) * (ax as int) <= VEL_LIMIT as int * VEL_LIMIT)
                by (nonlinear_arith)
                requires
                    -VEL_LIMIT <= ax <= VEL_LIMIT,
            ;
            assert(0 <= (ay as int) * (ay as int) <= VEL_LIMIT as int * VEL_LIMIT)
                by (nonlinear_arith)
                requires
                    -VEL_LIMIT <= ay <= VEL_LIMIT,
            ;
        }
        let axw = ax as i128;
        let ayw = ay as i128;
        let m2 = axw * axw + ayw * ayw;
        if m2 > eps as i128 {
            proof {
                lemma_lerp_products_bounded(ax as int, agent.velocity.x as int, gain_num as int);
                lemma_lerp_products_bounded(ay as int, agent.velocity.y as int, gain_num as int);
            }
            let bx = div_trunc((ax - agent.velocity.x) * gain_num, gain_den);
            let by = div_trunc((ay - agent.velocity.y) * gain_num, gain_den);
            Vec2i { x: agent.velocity.x + bx, y: agent.velocity.y + by }
        } else {
            Vec2i { x: agent.velocity.x, y: agent.velocity.y }
        }
    } else {
        Vec2i { x: agent.velocity.x, y: agent.velocity.y }
    }
}

/// Bounce policy: projects the position one step ahead and flips each
/// velocity component whose projection crosses the world margin.
pub fn avoid_screen_edges(
    pos: Vec2i,
    kin: &Kinematics,
    bounds: &Rect,
    margin: Vec2i,
    dt: i64,
) -> (v: Vec2i)
    requires
        -POS_LIMIT <= pos.x <= POS_LIMIT,
        -POS_LIMIT <= pos.y <= POS_LIMIT,
        kin.bounded(),
        bounds.bounded(),
        margin.bounded(),
        0 <= dt <= TIME_LIMIT,
    ensures
        v.x == bounce_axis_spec(
            pos.x + integrate_axis_spec(kin.velocity.x as int, kin.acceleration.x as int, dt as int),
            kin.velocity.x as int,
            bounds.min.x as int,
            bounds.max.x as int,
            margin.x as int,
        ),
        v.y == bounce_axis_spec(
            pos.y + integrate_axis_spec(kin.velocity.y as int, kin.acceleration.y as int, dt as int),
            kin.velocity.y as int,
            bounds.min.y as int,
            bounds.max.y as int,
            margin.y as int,
        ),
{
    let d = kin.integrate(dt);
    proof {
        crate::kinematics::lemma_integrate_axis_bound(
            kin.velocity.x as int,
            kin.acceleration.x as int,
            dt as int,
        );
        crate::kinematics::lemma_integrate_axis_bound(
            kin.velocity.y as int,
            kin.acceleration.y as int,
            dt as int,
        );
    }
    let px = pos.x + d.x;
    let py = pos.y + d.y;
    let vx = if px - margin.x <= bounds.min.x || px + margin.x >= bounds.max.x {
        -kin.velocity.x
    } else {
        kin.velocity.x
    };
    let vy = if py - margin.y <= bounds.min.y || py + margin.y >= bounds.max.y {
        -kin.velocity.y
    } else {
        kin.velocity.y
    };
    Vec2i { x: vx, y: vy }
}

/// Wrap policy: a position on or past a margin moves by one span width to
/// the opposite edge; the velocity is left to the caller, unchanged.
pub fn wrap_screen_edges(pos: Vec2i, bounds: &Rect, margin: Vec2i) -> (p: Vec2i)
    requires
        -POS_LIMIT <= pos.x <= POS_LIMIT,
        -POS_LIMIT <= pos.y <= POS_LIMIT,
        bounds.wf(),
        bounds.bounded(),
        0 <= margin.x,
        0 <= margin.y,
        2 * margin.x < bounds.max.x - bounds.min.x,
        2 * margin.y < bounds.max.y - bounds.min.y,
    ensures
        p.x == wrap_axis_spec(pos.x as int, bounds.min.x as int, bounds.max.x as int, margin.x as int),
        p.y == wrap_axis_spec(pos.y as int, bounds.min.y as int, bounds.max.y as int, margin.y as int),
{
    let span_x = bounds.max.x - bounds.min.x - 2 * margin.x;
    let span_y = bounds.max.y - bounds.min.y - 2 * margin.y;
    let x = if pos.x >= bounds.max.x - margin.x {
        pos.x - span_x
    } else if pos.x <= bounds.min.x + margin.x {
        pos.x + span_x
    } else {
        pos.x
    };
    let y = if pos.y >= bounds.max.y - margin.y {
        pos.y - span_y
    } else if pos.y <= bounds.min.y + margin.y {
        pos.y + span_y
    } else {
        pos.y
    };
    Vec2i { x, y }
}

/// Bounds on the products inside one separation term.
proof fn lemma_sep_products_bounded(dx: int, dy: int, scale: int)
    requires
        -2 * crate::rect::COORD_LIMIT <= dx <= 2 * crate::rect::COORD_LIMIT,
        -2 * crate::rect::COORD_LIMIT <= dy <= 2 * crate::rect::COORD_LIMIT,
        0 <= scale <= SCALE_LIMIT,
    ensures
        0 <= dx * dx <= 4 * crate::rect::COORD_LIMIT * crate::rect::COORD_LIMIT,
        0 <= dy * dy <= 4 * crate::rect::COORD_LIMIT * crate::rect::COORD_LIMIT,
        -2 * crate::rect::COORD_LIMIT * SCALE_LIMIT <= dx * scale <= 2 * crate::rect::COORD_LIMIT
            * SCALE_LIMIT,
        -2 * crate::rect::COORD_LIMIT * SCALE_LIMIT <= dy * scale <= 2 * crate::rect::COORD_LIMIT
            * SCALE_LIMIT,
{
    let c = crate::rect::COORD_LIMIT as int;
    assert(0 <= dx * dx <= 4 * c * c) by (nonlinear_arith)
        requires
            -2 * c <= dx <= 2 * c,
    ;
    assert(0 <= dy * dy <= 4 * c * c) by (nonlinear_arith)
        requires
            -2 * c <= dy <= 2 * c,
    ;
    assert(-2 * c * SCALE_LIMIT <= dx * scale <= 2 * c * SCALE_LIMIT) by (nonlinear_arith)
        requires
            -2 * c <= dx <= 2 * c,
            0 <= scale <= SCALE_LIMIT,
    ;
    assert(-2 * c * SCALE_LIMIT <= dy * scale <= 2 * c * SCALE_LIMIT) by (nonlinear_arith)
        requires
            -2 * c <= dy <= 2 * c,
            0 <= scale <= SCALE_LIMIT,
    ;
}

/// Each separation term is damped to at most the strength itself.
proof fn lemma_sep_term_bounds(dx: int, dy: int, scale: int)
    requires
        scale >= 0,
    ensures
        -scale <= sep_term_x(dx, dy, scale) <= scale,
        -scale <= sep_term_y(dx, dy, scale) <= scale,
{
    let w = 1 + dx * dx + dy * dy;
    assert(dx * dx >= 0 && dy * dy >= 0) by (nonlinear_arith);
    assert(-w <= dx <= w) by (nonlinear_arith)
        requires
            w == 1 + dx * dx + dy * dy,
    ;
    assert(-w <= dy <= w) by (nonlinear_arith)
        requires
            w == 1 + dx * dx + dy * dy,
    ;
    assert(-(w * scale) <= dx * scale <= w * scale) by (nonlinear_arith)
        requires
            -w <= dx <= w,
            scale >= 0,
    ;
    assert(-(w * scale) <= dy * scale <= w * scale) by (nonlinear_arith)
        requires
            -w <= dy <= w,
            scale >= 0,
    ;
    lemma_div_trunc_le(dx * scale, w, scale);
    lemma_div_trunc_le(dy * scale, w, scale);
}

/// Bounds on the cohesion blend's intermediate product.
proof fn lemma_lerp_products_bounded(avg: int, v: int, gain_num: int)
    requires
        -VEL_LIMIT <= avg <= VEL_LIMIT,
        -VEL_LIMIT <= v <= VEL_LIMIT,
        0 <= gain_num <= GAIN_LIMIT,
    ensures
        -2 * VEL_LIMIT * GAIN_LIMIT <= (avg - v) * gain_num <= 2 * VEL_LIMIT * GAIN_LIMIT,
{
    assert(-2 * VEL_LIMIT * GAIN_LIMIT <= (avg - v) * gain_num <= 2 * VEL_LIMIT * GAIN_LIMIT)
        by (nonlinear_arith)
        requires
            -2 * VEL_LIMIT <= avg - v <= 2 * VEL_LIMIT,
            0 <= gain_num <= GAIN_LIMIT,
    ;
}

/// The summed separation force grows at most linearly with the neighbour
/// count.
pub proof fn lemma_sep_force_bound(agent: AgentSnapshot, neighbors: Seq<AgentSnapshot>, scale: int)
    requires
        scale >= 0,
    ensures
        -(neighbors.len() * scale) <= sep_force(agent, neighbors, scale).0 <= neighbors.len()
            * scale,
        -(neighbors.len() * scale) <= sep_force(agent, neighbors, scale).1 <= neighbors.len()
            * scale,
    decreases neighbors.len(),
{
    if neighbors.len() == 0 {
    } else {
        lemma_sep_force_bound(agent, neighbors.drop_last(), scale);
        let nb = neighbors.last();
        let dx = agent.rect.min.x - nb.rect.min.x;
        let dy = agent.rect.min.y - nb.rect.min.y;
        lemma_sep_term_bounds(dx, dy, scale);
        assert(neighbors.len() * scale == neighbors.drop_last().len() * scale + scale)
            by (nonlinear_arith)
            requires
                neighbors.len() >= 1,
                neighbors.drop_last().len() == neighbors.len() - 1,
        ;
    }
}

/// The separation phase moves the velocity by at most the summed force.
pub proof fn lemma_avoid_spec_bound(
    agent: AgentSnapshot,
    neighbors: Seq<AgentSnapshot>,
    scale: int,
    eps: int,
    vcap: int,
)
    requires
        scale >= 0,
        vcap >= 0,
        -vcap <= agent.velocity.x <= vcap,
        -vcap <= agent.velocity.y <= vcap,
    ensures
        -(vcap + neighbors.len() * scale) <= avoid_spec(agent, neighbors, scale, eps).0 <= vcap
            + neighbors.len() * scale,
        -(vcap + neighbors.len() * scale) <= avoid_spec(agent, neighbors, scale, eps).1 <= vcap
            + neighbors.len() * scale,
{
    lemma_sep_force_bound(agent, neighbors, scale);
}

/// The group sums grow at most linearly with the neighbour count.
pub proof fn lemma_group_sum_bound(agent: AgentSnapshot, neighbors: Seq<AgentSnapshot>, ncap: int)
    requires
        ncap >= 0,
        forall|i: int|
            0 <= i < neighbors.len() ==> -ncap <= (#[trigger] neighbors[i]).velocity.x <= ncap
                && -ncap <= neighbors[i].velocity.y <= ncap,
    ensures
        0 <= group_sum(agent, neighbors).2 <= neighbors.len(),
        -(group_sum(agent, neighbors).2 * ncap) <= group_sum(agent, neighbors).0 <= group_sum(
            agent,
            neighbors,
        ).2 * ncap,
        -(group_sum(agent, neighbors).2 * ncap) <= group_sum(agent, neighbors).1 <= group_sum(
            agent,
            neighbors,
        ).2 * ncap,
    decreases neighbors.len(),
{
    if neighbors.len() == 0 {
    } else {
        lemma_group_sum_bound(agent, neighbors.drop_last(), ncap);
        let nb = neighbors.last();
        assert(nb == neighbors[neighbors.len() - 1]);
        let c0 = group_sum(agent, neighbors.drop_last()).2;
        assert((c0 + 1) * ncap == c0 * ncap + ncap) by (nonlinear_arith);
    }
}

/// The cohesion blend keeps the velocity within twice its own cap plus the
/// neighbours' cap.
pub proof fn lemma_approach_spec_bound(
    agent: AgentSnapshot,
    neighbors: Seq<AgentSnapshot>,
    gain_num: int,
    gain_den: int,
    eps: int,
    vcap: int,
    ncap: int,
)
    requires
        0 <= gain_num <= gain_den,
        gain_den >= 1,
        vcap >= 0,
        ncap >= 0,
        -vcap <= agent.velocity.x <= vcap,
        -vcap <= agent.velocity.y <= vcap,
        forall|i: int|
            0 <= i < neighbors.len() ==> -ncap <= (#[trigger] neighbors[i]).velocity.x <= ncap
                && -ncap <= neighbors[i].velocity.y <= ncap,
    ensures
        -(2 * vcap + ncap) <= approach_spec(agent, neighbors, gain_num, gain_den, eps).0 <= 2
            * vcap + ncap,
        -(2 * vcap + ncap) <= approach_spec(agent, neighbors, gain_num, gain_den, eps).1 <= 2
            * vcap + ncap,
{
    lemma_group_sum_bound(agent, neighbors, ncap);
    let s = group_sum(agent, neighbors);
    let vx = agent.velocity.x as int;
    let vy = agent.velocity.y as int;
    if s.2 > 1 {
        lemma_div_trunc_le(s.0, s.2, ncap);
        lemma_div_trunc_le(s.1, s.2, ncap);
        let ax = div_trunc_spec(s.0, s.2);
        let ay = div_trunc_spec(s.1, s.2);
        if ax * ax + ay * ay > eps {
            assert(-(gain_den * (ncap + vcap)) <= (ax - vx) * gain_num <= gain_den * (ncap + vcap))
                by (nonlinear_arith)
                requires
                    -(ncap + vcap) <= ax - vx <= ncap + vcap,
                    0 <= gain_num <= gain_den,
                    gain_den >= 1,
            ;
            assert(-(gain_den * (ncap + vcap)) <= (ay - vy) * gain_num <= gain_den * (ncap + vcap))
                by (nonlinear_arith)
                requires
                    -(ncap + vcap) <= ay - vy <= ncap + vcap,
                    0 <= gain_num <= gain_den,
                    gain_den >= 1,
            ;
            lemma_div_trunc_le((ax - vx) * gain_num, gain_den, ncap + vcap);
            lemma_div_trunc_le((ay - vy) * gain_num, gain_den, ncap + vcap);
        }
    }
}

/// Separation is antisymmetric in the offset: swapping the two agents'
/// positions flips each force component's sign exactly.
pub proof fn lemma_sep_term_antisymmetric(dx: int, dy: int, scale: int)
    ensures
        sep_term_x(-dx, -dy, scale) == -sep_term_x(dx, dy, scale),
        sep_term_y(-dx, -dy, scale) == -sep_term_y(dx, dy, scale),
{
    let w = 1 + dx * dx + dy * dy;
    assert(dx * dx >= 0 && dy * dy >= 0) by (nonlinear_arith);
    assert((-dx) * (-dx) == dx * dx && (-dy) * (-dy) == dy * dy) by (nonlinear_arith);
    assert((-dx) * scale == -(dx * scale)) by (nonlinear_arith);
    assert((-dy) * scale == -(dy * scale)) by (nonlinear_arith);
    lemma_div_trunc_neg(dx * scale, w);
    lemma_div_trunc_neg(dy * scale, w);
}

/// Two agents at the same distance inside each other's detection window,
/// with identical strength and decay, receive separation forces equal in
/// magnitude and opposite in direction.
pub proof fn lemma_separation_symmetry(a: AgentSnapshot, b: AgentSnapshot, scale: int)
    requires
        a.id != b.id,
    ensures
        sep_force(a, seq![b], scale).0 == -sep_force(b, seq![a], scale).0,
        sep_force(a, seq![b], scale).1 == -sep_force(b, seq![a], scale).1,
{
    let sa = seq![b];
    let sb = seq![a];
    assert(sa.drop_last() =~= Seq::<AgentSnapshot>::empty());
    assert(sb.drop_last() =~= Seq::<AgentSnapshot>::empty());
    assert(sep_force(a, sa.drop_last(), scale) == (0int, 0int));
    assert(sep_force(b, sb.drop_last(), scale) == (0int, 0int));
    let dx = a.rect.min.x - b.rect.min.x;
    let dy = a.rect.min.y - b.rect.min.y;
    assert(b.rect.min.x - a.rect.min.x == -dx);
    assert(b.rect.min.y - a.rect.min.y == -dy);
    lemma_sep_term_antisymmetric(dx, dy, scale);
}

} // verus!
