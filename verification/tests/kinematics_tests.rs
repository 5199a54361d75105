use boids::kinematics::Kinematics;
use boids::rect::Vec2i;

fn kin(vx: i64, vy: i64, ax: i64, ay: i64) -> Kinematics {
    Kinematics { velocity: Vec2i { x: vx, y: vy }, acceleration: Vec2i { x: ax, y: ay } }
}

#[test]
fn euler_displacement_is_velocity_times_time() {
    let k = kin(100, 200, 0, 0);
    let d = k.integrate(16);
    assert_eq!(d, Vec2i { x: 1600, y: 3200 });
}

#[test]
fn euler_adds_half_acceleration_term() {
    let k = kin(100, 0, 10, -10);
    let d = k.integrate(10);
    // v*t + a*t^2/2 = 1000 + 500 on x; 0 - 500 on y.
    assert_eq!(d, Vec2i { x: 1500, y: -500 });
}

#[test]
fn rk4_matches_analytic_displacement_under_constant_acceleration() {
    let k = kin(100, 0, 10, 0);
    let d = k.integrate_rk4(10);
    assert_eq!(d.x, 1500);
    assert_eq!(d.y, 0);
}

#[test]
fn euler_and_rk4_agree_under_zero_acceleration() {
    // With zero acceleration both schemes give exactly v * dt.
    let k = kin(123, -456, 0, 0);
    let dt = 16;
    let euler = k.integrate(dt);
    let rk4 = k.integrate_rk4(dt);
    assert_eq!(euler, rk4);
    assert_eq!(euler, Vec2i { x: 123 * 16, y: -456 * 16 });
}

#[test]
fn quadratic_term_truncates_toward_zero() {
    // a*t^2/2 = ±1/2 truncates to 0 on either sign, not toward negative
    // infinity.
    let up = kin(0, 0, 1, 0);
    assert_eq!(up.integrate(1), Vec2i { x: 0, y: 0 });
    let down = kin(0, 0, -1, 0);
    assert_eq!(down.integrate(1), Vec2i { x: 0, y: 0 });
}

#[test]
fn zero_timestep_moves_nothing() {
    let k = kin(500, -500, 30, 40);
    assert_eq!(k.integrate(0), Vec2i { x: 0, y: 0 });
    assert_eq!(k.integrate_rk4(0), Vec2i { x: 0, y: 0 });
}
