//! A point mass and its time-stepped integration.

use vstd::prelude::*;
use vstd::arithmetic::div_mod::lemma_hoist_over_denominator;
use vstd::arithmetic::power::{lemma1_pow, pow};
use vstd::math::abs;
use crate::{add3, add_fits, scale3, scale_fits, Vec3};

verus! {

/// Mathematical model of a particle's kinematic state.
pub struct ParticleModel {
    pub position: (int, int, int),
    pub velocity: (int, int, int),
    pub acceleration: (int, int, int),
    pub damping: int,
    pub inverse_mass: int,
}

/// One semi-implicit Euler step of length `d`: the position moves by the old
/// velocity, then the velocity picks up the acceleration, then the velocity
/// decays by `damping ^ d`.
pub open spec fn integrate_step(p: ParticleModel, d: int) -> ParticleModel {
    ParticleModel {
        position: add3(p.position, scale3(p.velocity, d)),
        velocity: scale3(add3(p.velocity, scale3(p.acceleration, d)), pow(p.damping, d as nat)),
        ..p
    }
}

/// Overflow guard: every intermediate value of one step stays within `i64`.
pub open spec fn integrate_fits(p: ParticleModel, d: int) -> bool {
    &&& scale_fits(p.velocity, d)
    &&& add_fits(p.position, scale3(p.velocity, d))
    &&& scale_fits(p.acceleration, d)
    &&& add_fits(p.velocity, scale3(p.acceleration, d))
    &&& pow(abs(p.damping) as int, d as nat) <= i64::MAX
    &&& scale_fits(add3(p.velocity, scale3(p.acceleration, d)), pow(p.damping, d as nat))
}

/// One point mass.  The owner sets the acceleration between steps; the
/// integrator never clears or accumulates it.
#[derive(Debug, Clone, Copy, PartialEq, Eq, Structural)]
pub struct Particle {
    pub position: Vec3,
    pub velocity: Vec3,
    pub acceleration: Vec3,
    /// Multiplicative velocity decay per unit time; `1` means no damping.
    pub damping: i64,
    /// Reciprocal of the mass.  Zero stands for an immovable, infinitely
    /// heavy body; zero mass itself is deliberately unrepresentable.
    pub inverse_mass: i64,
}

impl View for Particle {
    type V = ParticleModel;

    open spec fn view(&self) -> ParticleModel {
        ParticleModel {
            position: self.position@,
            velocity: self.velocity@,
            acceleration: self.acceleration@,
            damping: self.damping as int,
            inverse_mass: self.inverse_mass as int,
        }
    }
}

impl Particle {
    /// Advance the state by `duration`, in this exact order: position by the
    /// pre-step velocity, velocity by the acceleration, then exponential
    /// damping of the velocity.
    pub fn integrate(&mut self, duration: i64)
        requires
            0 <= duration,
            integrate_fits(old(self)@, duration as int),
        ensures
            final(self)@ == integrate_step(old(self)@, duration as int),
    {
        let dp = self.velocity.scale(duration);
        self.position.add_assign(dp);
        let dv = self.acceleration.scale(duration);
        self.velocity.add_assign(dv);
        let k = crate::scalar::pow_i64(self.damping, duration);
        self.velocity.scale_assign(k);
    }
}

/// The state after `n` equal steps of length `d`.
pub open spec fn iterate_steps(p: ParticleModel, d: int, n: nat) -> ParticleModel
    decreases n,
{
    if n == 0 {
        p
    } else {
        integrate_step(iterate_steps(p, d, (n - 1) as nat), d)
    }
}

/// The sum `0 + 1 + ... + (n - 1)`.
pub open spec fn tri(n: nat) -> int
    decreases n,
{
    if n == 0 {
        0
    } else {
        tri((n - 1) as nat) + (n - 1)
    }
}

/// The triangular sum in closed form.
pub proof fn lemma_tri_closed(n: nat)
    ensures
        tri(n) == (n * (n - 1)) / 2,
    decreases n,
{
    if n != 0 {
        let m = n - 1;
        lemma_tri_closed((n - 1) as nat);
        lemma_hoist_over_denominator(m * (m - 1), m, 2nat);
        assert(m * (m - 1) + m * 2 == n * (n - 1)) by (nonlinear_arith)
            requires
                m == n - 1,
        ;
    }
}

/// Velocity accumulation: one more undamped step adds `a * d` once.
proof fn lemma_vel_step(v0: int, a0: int, d: int, m: int)
    ensures
        (v0 + a0 * (m * d)) + a0 * d == v0 + a0 * ((m + 1) * d),
{
    assert((v0 + a0 * (m * d)) + a0 * d == v0 + a0 * ((m + 1) * d)) by (nonlinear_arith);
}

/// Position accumulation: one more undamped step adds the current velocity
/// times `d`.
proof fn lemma_pos_step(p0: int, v0: int, a0: int, d: int, t: int, m: int)
    ensures
        (p0 + (v0 * (m * d) + a0 * (d * d * t))) + (v0 + a0 * (m * d)) * d == p0 + (v0 * ((m + 1)
            * d) + a0 * (d * d * (t + m))),
{
    assert((v0 + a0 * (m * d)) * d == v0 * d + a0 * (m * d) * d) by (nonlinear_arith);
    assert(v0 * (m * d) + v0 * d == v0 * ((m + 1) * d)) by (nonlinear_arith);
    assert(a0 * (d * d * t) + a0 * (m * d) * d == a0 * (d * d * (t + m))) by (nonlinear_arith);
}

/// Repeated undamped integration in closed form: after `n` steps of length
/// `d` the velocity has grown by `a * (n * d)` and the position by
/// `v * (n * d) + a * d^2 * (0 + 1 + ... + (n - 1))`, exactly.
pub proof fn lemma_integrate_closed_form(p: ParticleModel, d: int, n: nat)
    requires
        p.damping == 1,
        0 <= d,
    ensures
        ({
            let q = iterate_steps(p, d, n);
            &&& q.velocity == add3(p.velocity, scale3(p.acceleration, n * d))
            &&& q.position == add3(
                p.position,
                add3(scale3(p.velocity, n * d), scale3(p.acceleration, d * d * tri(n))),
            )
            &&& q.position == add3(
                p.position,
                add3(
                    scale3(p.velocity, n * d),
                    scale3(p.acceleration, d * d * ((n * (n - 1)) / 2)),
                ),
            )
            &&& q.acceleration == p.acceleration
            &&& q.damping == p.damping
            &&& q.inverse_mass == p.inverse_mass
        }),
    decreases n,
{
    lemma1_pow(d as nat);
    lemma_tri_closed(n);
    if n == 0 {
    } else {
        let m = (n - 1) as nat;
        lemma_integrate_closed_form(p, d, m);
        let q0 = iterate_steps(p, d, m);
        let q = iterate_steps(p, d, n);
        assert(q == integrate_step(q0, d));
        lemma_vel_step(p.velocity.0, p.acceleration.0, d, m as int);
        lemma_vel_step(p.velocity.1, p.acceleration.1, d, m as int);
        lemma_vel_step(p.velocity.2, p.acceleration.2, d, m as int);
        lemma_pos_step(p.position.0, p.velocity.0, p.acceleration.0, d, tri(m), m as int);
        lemma_pos_step(p.position.1, p.velocity.1, p.acceleration.1, d, tri(m), m as int);
        lemma_pos_step(p.position.2, p.velocity.2, p.acceleration.2, d, tri(m), m as int);
    }
}

} // verus!
