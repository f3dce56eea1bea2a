use cyclone::particle::Particle;
use cyclone::Vec3;

#[test]
fn integrate_uses_pre_step_velocity() {
    let mut p = Particle {
        position: Vec3(0, 0, 0),
        velocity: Vec3(0, 0, 0),
        acceleration: Vec3(0, -10, 0),
        damping: 1,
        inverse_mass: 1,
    };
    p.integrate(1);
    // The position moves by the velocity from before the step, which was
    // zero; only the velocity picks up the acceleration.
    assert_eq!(p.position, Vec3(0, 0, 0));
    assert_eq!(p.velocity, Vec3(0, -10, 0));
}

#[test]
fn integrate_second_step_moves_position() {
    let mut p = Particle {
        position: Vec3(0, 0, 0),
        velocity: Vec3(0, 0, 0),
        acceleration: Vec3(0, -10, 0),
        damping: 1,
        inverse_mass: 1,
    };
    p.integrate(1);
    p.integrate(1);
    assert_eq!(p.position, Vec3(0, -10, 0));
    assert_eq!(p.velocity, Vec3(0, -20, 0));
}

#[test]
fn integrate_leaves_acceleration_and_mass_alone() {
    let mut p = Particle {
        position: Vec3(1, 2, 3),
        velocity: Vec3(4, 5, 6),
        acceleration: Vec3(7, 8, 9),
        damping: 1,
        inverse_mass: 42,
    };
    p.integrate(2);
    assert_eq!(p.acceleration, Vec3(7, 8, 9));
    assert_eq!(p.inverse_mass, 42);
    assert_eq!(p.damping, 1);
}

#[test]
fn full_damping_stops_the_particle() {
    let mut p = Particle {
        position: Vec3(0, 0, 0),
        velocity: Vec3(0, 10, 0),
        acceleration: Vec3(0, 0, 0),
        damping: 0,
        inverse_mass: 1,
    };
    p.integrate(1);
    // damping^duration = 0^1 = 0 wipes the velocity after the move.
    assert_eq!(p.position, Vec3(0, 10, 0));
    assert_eq!(p.velocity, Vec3(0, 0, 0));
}

#[test]
fn zero_duration_is_a_no_op() {
    let mut p = Particle {
        position: Vec3(1, 2, 3),
        velocity: Vec3(4, 5, 6),
        acceleration: Vec3(7, 8, 9),
        damping: 1,
        inverse_mass: 2,
    };
    let before = p;
    p.integrate(0);
    assert_eq!(p, before);
}

#[test]
fn repeated_integration_matches_closed_form() {
    let p0 = Vec3(5, -3, 0);
    let v0 = Vec3(1, 2, 3);
    let a = Vec3(0, -10, 2);
    let d: i64 = 2;
    let n: i64 = 10;
    let mut p = Particle {
        position: p0,
        velocity: v0,
        acceleration: a,
        damping: 1,
        inverse_mass: 1,
    };
    for _ in 0..n {
        p.integrate(d);
    }
    // Undamped closed form: v = v0 + a*(n*d),
    // x = x0 + v0*(n*d) + a*d^2*(0 + 1 + ... + (n-1)).
    let tri = n * (n - 1) / 2;
    assert_eq!(p.velocity, v0.add(a.scale(n * d)));
    assert_eq!(p.position, p0.add(v0.scale(n * d)).add(a.scale(d * d * tri)));
}
