//! Fixed-timestep integration of agent motion: explicit Euler and classic
//! fourth-order Runge-Kutta over the velocity/acceleration pair. Time and
//! motion are integers in the caller's fixed-point units.

use crate::num::{div_trunc, div_trunc_spec};
use crate::rect::Vec2i;
use vstd::prelude::*;

verus! {

/// Largest velocity or acceleration component the integrators are specified
/// for.
pub const VEL_LIMIT: i64 = 10_000_000_000;

/// Largest timestep the integrators are specified for.
pub const TIME_LIMIT: i64 = 1_000;

/// Per-agent motion state: current velocity and (constant over one step)
/// acceleration.
#[derive(Clone, Copy, Debug, PartialEq, Eq, Structural)]
pub struct Kinematics {
    pub velocity: Vec2i,
    pub acceleration: Vec2i,
}

/// One component of the Euler displacement over a step of length `t`:
/// `v*t + a*t^2/2`, the quadratic term truncated toward zero.
pub open spec fn integrate_axis_spec(v: int, a: int, t: int) -> int {
    v * t + div_trunc_spec(a * t * t, 2)
}

/// One component of the fourth-order Runge-Kutta displacement: four
/// derivative samples of `v(t) = v0 + a*t` at `0, h/2, h/2, h`, combined as
/// `h*(k1 + 2*k2 + 2*k3 + k4)/6` with truncating division.
pub open spec fn integrate_rk4_axis_spec(v: int, a: int, h: int) -> int {
    let k1 = v;
    let k2 = v + a * (h / 2);
    let k3 = v + a * (h / 2);
    let k4 = v + a * h;
    div_trunc_spec(h * (k1 + 2 * k2 + 2 * k3 + k4), 6)
}

impl Kinematics {
    pub open spec fn bounded(self) -> bool {
        &&& -VEL_LIMIT <= self.velocity.x <= VEL_LIMIT
    &&& -VEL_LIMIT <= self.velocity.y <= VEL_LIMIT
    &&& -VEL_LIMIT <= self.acceleration.x <= VEL_LIMIT
    &&& -VEL_LIMIT <= self.acceleration.y <= VEL_LIMIT
    }

    pub fn new(velocity: Vec2i, acceleration: Vec2i) -> (k: Kinematics)
        ensures
            k == (Kinematics { velocity, acceleration }),
    {
        Kinematics { velocity, acceleration }
    }

    /// Explicit Euler displacement over a step of length `t`.
    pub fn integrate(&self, t: i64) -> (d: Vec2i)
        requires
            self.bounded(),
            0 <= t <= TIME_LIMIT,
        ensures
            d.x == integrate_axis_spec(self.velocity.x as int, self.acceleration.x as int, t as int),
            d.y == integrate_axis_spec(self.velocity.y as int, self.acceleration.y as int, t as int),
    {
        proof {
            lemma_axis_products_bounded(self.velocity.x as int, self.acceleration.x as int, t as int);
            lemma_axis_products_bounded(self.velocity.y as int, self.acceleration.y as int, t as int);
        }
        let dx = self.velocity.x * t + div_trunc(self.acceleration.x * t * t, 2);
        let dy = self.velocity.y * t + div_trunc(self.acceleration.y * t * t, 2);
        Vec2i { x: dx, y: dy }
    }

    /// Fourth-order Runge-Kutta displacement over a step of length `h`. With
    /// constant acceleration the scheme reduces to the analytic displacement
    /// up to the truncation of the integer divisions.
    pub fn integrate_rk4(&self, h: i64) -> (d: Vec2i)
        requires
            self.bounded(),
            0 <= h <= TIME_LIMIT,
        ensures
            d.x == integrate_rk4_axis_spec(
                self.velocity.x as int,
                self.acceleration.x as int,
                h as int,
            ),
            d.y == integrate_rk4_axis_spec(
                self.velocity.y as int,
                self.acceleration.y as int,
                h as int,
            ),
    {
        let dx = rk4_axis(self.velocity.x, self.acceleration.x, h);
        let dy = rk4_axis(self.velocity.y, self.acceleration.y, h);
        Vec2i { x: dx, y: dy }
    }
}

fn rk4_axis(v: i64, a: i64, h: i64) -> (d: i64)
    requires
        -VEL_LIMIT <= v <= VEL_LIMIT,
        -VEL_LIMIT <= a <= VEL_LIMIT,
        0 <= h <= TIME_LIMIT,
    ensures
        d == integrate_rk4_axis_spec(v as int, a as int, h as int),
{
    proof {
        lemma_axis_products_bounded(v as int, a as int, h as int);
    }
    let half = h / 2;
    let k1 = v;
    let k2 = v + a * half;
    let k3 = v + a * half;
    let k4 = v + a * h;
    let combined = k1 + 2 * k2 + 2 * k3 + k4;
    proof {
        let lim: int = 6 * (VEL_LIMIT + VEL_LIMIT * TIME_LIMIT);
        assert(-lim <= combined <= lim);
        assert(-TIME_LIMIT * lim <= h * combined <= TIME_LIMIT * lim) by (nonlinear_arith)
            requires
                -lim <= combined <= lim,
                0 <= h <= TIME_LIMIT,
                lim >= 0,
        ;
    }
    div_trunc(h * combined, 6)
}

/// The Euler displacement is bounded by the velocity and acceleration
/// limits over one step.
pub proof fn lemma_integrate_axis_bound(v: int, a: int, t: int)
    requires
        -VEL_LIMIT <= v <= VEL_LIMIT,
        -VEL_LIMIT <= a <= VEL_LIMIT,
        0 <= t <= TIME_LIMIT,
    ensures
        -VEL_LIMIT * TIME_LIMIT - VEL_LIMIT * TIME_LIMIT * TIME_LIMIT <= integrate_axis_spec(
            v,
            a,
            t,
        ) <= VEL_LIMIT * TIME_LIMIT + VEL_LIMIT * TIME_LIMIT * TIME_LIMIT,
{
    lemma_axis_products_bounded(v, a, t);
    crate::num::lemma_div_trunc_bound(a * t * t, 2, VEL_LIMIT * TIME_LIMIT * TIME_LIMIT);
}

/// Bounds on the intermediate products of both integration schemes.
proof fn lemma_axis_products_bounded(v: int, a: int, t: int)
    requires
        -VEL_LIMIT <= v <= VEL_LIMIT,
        -VEL_LIMIT <= a <= VEL_LIMIT,
        0 <= t <= TIME_LIMIT,
    ensures
        -VEL_LIMIT * TIME_LIMIT <= v * t <= VEL_LIMIT * TIME_LIMIT,
        -VEL_LIMIT * TIME_LIMIT <= a * t <= VEL_LIMIT * TIME_LIMIT,
        -VEL_LIMIT * TIME_LIMIT <= a * (t / 2) <= VEL_LIMIT * TIME_LIMIT,
        -VEL_LIMIT * TIME_LIMIT * TIME_LIMIT <= a * t * t <= VEL_LIMIT * TIME_LIMIT * TIME_LIMIT,
{
    assert(0 <= t / 2 <= t);
    assert(-VEL_LIMIT * TIME_LIMIT <= v * t <= VEL_LIMIT * TIME_LIMIT) by (nonlinear_arith)
        requires
            -VEL_LIMIT <= v <= VEL_LIMIT,
            0 <= t <= TIME_LIMIT,
    ;
    assert(-VEL_LIMIT * TIME_LIMIT <= a * t <= VEL_LIMIT * TIME_LIMIT) by (nonlinear_arith)
        requires
            -VEL_LIMIT <= a <= VEL_LIMIT,
            0 <= t <= TIME_LIMIT,
    ;
    assert(-VEL_LIMIT * TIME_LIMIT <= a * (t / 2) <= VEL_LIMIT * TIME_LIMIT) by (nonlinear_arith)
        requires
            -VEL_LIMIT <= a <= VEL_LIMIT,
            0 <= t / 2 <= TIME_LIMIT,
    ;
    assert(-VEL_LIMIT * TIME_LIMIT * TIME_LIMIT <= (a * t) * t <= VEL_LIMIT * TIME_LIMIT
        * TIME_LIMIT) by (nonlinear_arith)
        requires
            -VEL_LIMIT * TIME_LIMIT <= a * t <= VEL_LIMIT * TIME_LIMIT,
            0 <= t <= TIME_LIMIT,
    ;
}

/// Under zero acceleration the Euler and Runge-Kutta displacements coincide
/// exactly: both equal `v * t` on each axis.
pub proof fn lemma_euler_rk4_agree_zero_accel(v: int, t: int)
    requires
        t >= 0,
    ensures
        integrate_axis_spec(v, 0, t) == v * t,
        integrate_rk4_axis_spec(v, 0, t) == v * t,
{
    assert(integrate_axis_spec(v, 0, t) == v * t);
    assert(t * (v + 2 * v + 2 * v + v) == (t * v) * 6) by (nonlinear_arith);
    crate::num::lemma_div_trunc_exact(t * v, 6);
    assert(t * v == v * t) by (nonlinear_arith);
}

} // verus!
