//! Exact three-component vector arithmetic and a point-mass integrator.
//!
//! `Vec3` is a value type holding three `i64` coordinates.  All arithmetic is
//! exact: overflow is ruled out by preconditions, the magnitude is the floor
//! of the Euclidean norm, and scalar division truncates toward zero.  On top
//! of it, [`particle::Particle`] advances one point mass by semi-implicit
//! Euler integration.

use vstd::prelude::*;
use crate::scalar::{div_trunc, fits_i64, sqrt_floor};
use vstd::math::abs;

pub mod particle;
pub mod scalar;

verus! {

/// Mathematical model of a vector: its three coordinates as unbounded integers.
pub open spec fn neg3(v: (int, int, int)) -> (int, int, int) {
    (-v.0, -v.1, -v.2)
}

pub open spec fn add3(a: (int, int, int), b: (int, int, int)) -> (int, int, int) {
    (a.0 + b.0, a.1 + b.1, a.2 + b.2)
}

pub open spec fn sub3(a: (int, int, int), b: (int, int, int)) -> (int, int, int) {
    (a.0 - b.0, a.1 - b.1, a.2 - b.2)
}

/// Component product (Hadamard product), not a dot or cross product.
pub open spec fn cmul3(a: (int, int, int), b: (int, int, int)) -> (int, int, int) {
    (a.0 * b.0, a.1 * b.1, a.2 * b.2)
}

pub open spec fn scale3(v: (int, int, int), s: int) -> (int, int, int) {
    (v.0 * s, v.1 * s, v.2 * s)
}

/// Each coordinate divided by `s`, truncating toward zero.
pub open spec fn divs3(v: (int, int, int), s: int) -> (int, int, int) {
    (div_trunc(v.0, s), div_trunc(v.1, s), div_trunc(v.2, s))
}

pub open spec fn dot3(a: (int, int, int), b: (int, int, int)) -> int {
    a.0 * b.0 + a.1 * b.1 + a.2 * b.2
}

/// Right-handed cross product.
pub open spec fn cross3(a: (int, int, int), b: (int, int, int)) -> (int, int, int) {
    (a.1 * b.2 - a.2 * b.1, a.2 * b.0 - a.0 * b.2, a.0 * b.1 - a.1 * b.0)
}

pub open spec fn magsq3(v: (int, int, int)) -> int {
    v.0 * v.0 + v.1 * v.1 + v.2 * v.2
}

/// The vector scaled to floor-unit length; the zero vector is returned
/// unchanged rather than divided by zero.
pub open spec fn norm3(v: (int, int, int)) -> (int, int, int) {
    if magsq3(v) == 0 {
        v
    } else {
        divs3(v, sqrt_floor(magsq3(v)))
    }
}

// Overflow guards: each one states that every intermediate value of the
// corresponding operation stays within `i64`.
pub open spec fn neg_fits(v: (int, int, int)) -> bool {
    fits_i64(-v.0) && fits_i64(-v.1) && fits_i64(-v.2)
}

pub open spec fn add_fits(a: (int, int, int), b: (int, int, int)) -> bool {
    fits_i64(a.0 + b.0) && fits_i64(a.1 + b.1) && fits_i64(a.2 + b.2)
}

pub open spec fn sub_fits(a: (int, int, int), b: (int, int, int)) -> bool {
    fits_i64(a.0 - b.0) && fits_i64(a.1 - b.1) && fits_i64(a.2 - b.2)
}

pub open spec fn cmul_fits(a: (int, int, int), b: (int, int, int)) -> bool {
    fits_i64(a.0 * b.0) && fits_i64(a.1 * b.1) && fits_i64(a.2 * b.2)
}

pub open spec fn scale_fits(v: (int, int, int), s: int) -> bool {
    fits_i64(v.0 * s) && fits_i64(v.1 * s) && fits_i64(v.2 * s)
}

pub open spec fn div_fits(v: (int, int, int), s: int) -> bool {
    fits_i64(div_trunc(v.0, s)) && fits_i64(div_trunc(v.1, s)) && fits_i64(div_trunc(v.2, s))
}

pub open spec fn dot_fits(a: (int, int, int), b: (int, int, int)) -> bool {
    fits_i64(a.0 * b.0) && fits_i64(a.1 * b.1) && fits_i64(a.2 * b.2) && fits_i64(
        a.0 * b.0 + a.1 * b.1,
    ) && fits_i64(dot3(a, b))
}

pub open spec fn cross_fits(a: (int, int, int), b: (int, int, int)) -> bool {
    &&& fits_i64(a.1 * b.2) && fits_i64(a.2 * b.1) && fits_i64(a.1 * b.2 - a.2 * b.1)
    &&& fits_i64(a.2 * b.0) && fits_i64(a.0 * b.2) && fits_i64(a.2 * b.0 - a.0 * b.2)
    &&& fits_i64(a.0 * b.1) && fits_i64(a.1 * b.0) && fits_i64(a.0 * b.1 - a.1 * b.0)
}

pub open spec fn magsq_fits(v: (int, int, int)) -> bool {
    magsq3(v) <= i64::MAX
}

/// Squares are nonnegative, so the squared magnitude is as well.
pub proof fn lemma_magsq_nonneg(v: (int, int, int))
    ensures
        0 <= v.0 * v.0,
        0 <= v.1 * v.1,
        0 <= v.2 * v.2,
        0 <= magsq3(v),
{
    assert(0 <= v.0 * v.0) by (nonlinear_arith);
    assert(0 <= v.1 * v.1) by (nonlinear_arith);
    assert(0 <= v.2 * v.2) by (nonlinear_arith);
}

/// Squaring is monotone in the absolute value.
pub proof fn lemma_sq_le(x: int, y: int)
    requires
        abs(x) <= abs(y),
    ensures
        x * x <= y * y,
{
    let ax = abs(x) as int;
    let ay = abs(y) as int;
    assert(ax * ax <= ay * ay) by (nonlinear_arith)
        requires
            0 <= ax <= ay,
    ;
    assert(x * x == ax * ax) by (nonlinear_arith)
        requires
            ax == x || ax == -x,
    ;
    assert(y * y == ay * ay) by (nonlinear_arith)
        requires
            ay == y || ay == -y,
    ;
}

/// An `i64` value of a three-component vector.
#[derive(Debug, Clone, Copy, PartialEq, Eq, Structural)]
pub struct Vec3(pub i64, pub i64, pub i64);

impl View for Vec3 {
    type V = (int, int, int);

    open spec fn view(&self) -> (int, int, int) {
        (self.0 as int, self.1 as int, self.2 as int)
    }
}

impl Vec3 {
    /// Component-wise negation.
    pub fn invert(self) -> (r: Self)
        requires
            neg_fits(self@),
        ensures
            r@ == neg3(self@),
    {
        Vec3(-self.0, -self.1, -self.2)
    }

    /// Floor of the Euclidean norm `sqrt(x^2 + y^2 + z^2)`.
    pub fn mag(self) -> (r: i64)
        requires
            magsq_fits(self@),
        ensures
            r as int == sqrt_floor(magsq3(self@)),
            0 <= r,
            r * r <= magsq3(self@),
            magsq3(self@) < (r + 1) * (r + 1),
    {
        let m = self.mag_squared();
        let s = crate::scalar::isqrt_u64(m as u64);
        proof {
            assert(s as int <= m as int) by (nonlinear_arith)
                requires
                    0 <= s as int,
                    (s as int) * (s as int) <= m as int,
            ;
        }
        s as i64
    }

    /// `v.mag_squared()` avoids the square root that `v.mag()` takes.
    pub fn mag_squared(self) -> (r: i64)
        requires
            magsq_fits(self@),
        ensures
            r as int == magsq3(self@),
            0 <= r,
    {
        proof {
            lemma_magsq_nonneg(self@);
        }
        self.0 * self.0 + self.1 * self.1 + self.2 * self.2
    }

    /// The vector scaled to unit (floor) length; the zero vector comes back
    /// unchanged, with no division and no error.
    pub fn norm(self) -> (r: Self)
        requires
            magsq_fits(self@),
        ensures
            r@ == norm3(self@),
    {
        let m = self.mag();
        if m == 0 {
            proof {
                lemma_magsq_nonneg(self@);
            }
            self
        } else {
            proof {
                assert(magsq3(self@) != 0) by (nonlinear_arith)
                    requires
                        1 <= m as int,
                        (m as int) * (m as int) <= magsq3(self@),
                ;
                crate::scalar::lemma_div_trunc_bound(self@.0, m as int);
                crate::scalar::lemma_div_trunc_bound(self@.1, m as int);
                crate::scalar::lemma_div_trunc_bound(self@.2, m as int);
            }
            Vec3(
                crate::scalar::div_i64(self.0, m),
                crate::scalar::div_i64(self.1, m),
                crate::scalar::div_i64(self.2, m),
            )
        }
    }

    /// Scalar (dot) product.
    pub fn dot(self, other: Self) -> (r: i64)
        requires
            dot_fits(self@, other@),
        ensures
            r as int == dot3(self@, other@),
    {
        self.0 * other.0 + self.1 * other.1 + self.2 * other.2
    }

    /// Right-handed cross product.
    pub fn cross(self, other: Self) -> (r: Self)
        requires
            cross_fits(self@, other@),
        ensures
            r@ == cross3(self@, other@),
    {
        Vec3(
            self.1 * other.2 - self.2 * other.1,
            self.2 * other.0 - self.0 * other.2,
            self.0 * other.1 - self.1 * other.0,
        )
    }

    /// Component-wise sum.
    pub fn add(self, other: Self) -> (r: Self)
        requires
            add_fits(self@, other@),
        ensures
            r@ == add3(self@, other@),
    {
        Vec3(self.0 + other.0, self.1 + other.1, self.2 + other.2)
    }

    /// In-place form of [`Vec3::add`]; the two agree on every input.
    pub fn add_assign(&mut self, other: Self)
        requires
            add_fits(old(self)@, other@),
        ensures
            final(self)@ == add3(old(self)@, other@),
    {
        self.0 = self.0 + other.0;
        self.1 = self.1 + other.1;
        self.2 = self.2 + other.2;
    }

    /// Component-wise difference.
    pub fn sub(self, other: Self) -> (r: Self)
        requires
            sub_fits(self@, other@),
        ensures
            r@ == sub3(self@, other@),
    {
        Vec3(self.0 - other.0, self.1 - other.1, self.2 - other.2)
    }

    /// In-place form of [`Vec3::sub`]; the two agree on every input.
    pub fn sub_assign(&mut self, other: Self)
        requires
            sub_fits(old(self)@, other@),
        ensures
            final(self)@ == sub3(old(self)@, other@),
    {
        self.0 = self.0 - other.0;
        self.1 = self.1 - other.1;
        self.2 = self.2 - other.2;
    }

    /// Component product (Hadamard product), not a dot or cross product.
    pub fn mul(self, other: Self) -> (r: Self)
        requires
            cmul_fits(self@, other@),
        ensures
            r@ == cmul3(self@, other@),
    {
        Vec3(self.0 * other.0, self.1 * other.1, self.2 * other.2)
    }

    /// In-place form of [`Vec3::mul`]; the two agree on every input.
    pub fn mul_assign(&mut self, other: Self)
        requires
            cmul_fits(old(self)@, other@),
        ensures
            final(self)@ == cmul3(old(self)@, other@),
    {
        self.0 = self.0 * other.0;
        self.1 = self.1 * other.1;
        self.2 = self.2 * other.2;
    }

    /// Every component multiplied by the scalar `s`.
    pub fn scale(self, s: i64) -> (r: Self)
        requires
            scale_fits(self@, s as int),
        ensures
            r@ == scale3(self@, s as int),
    {
        Vec3(self.0 * s, self.1 * s, self.2 * s)
    }

    /// In-place form of [`Vec3::scale`]; the two agree on every input.
    pub fn scale_assign(&mut self, s: i64)
        requires
            scale_fits(old(self)@, s as int),
        ensures
            final(self)@ == scale3(old(self)@, s as int),
    {
        self.0 = self.0 * s;
        self.1 = self.1 * s;
        self.2 = self.2 * s;
    }

    /// Every component divided by the scalar `s`, truncating toward zero.
    /// Division by zero is ruled out here rather than checked at run time.
    pub fn div(self, s: i64) -> (r: Self)
        requires
            s != 0,
            div_fits(self@, s as int),
        ensures
            r@ == divs3(self@, s as int),
    {
        Vec3(
            crate::scalar::div_i64(self.0, s),
            crate::scalar::div_i64(self.1, s),
            crate::scalar::div_i64(self.2, s),
        )
    }

    /// In-place form of [`Vec3::div`]; the two agree on every input.
    pub fn div_assign(&mut self, s: i64)
        requires
            s != 0,
            div_fits(old(self)@, s as int),
        ensures
            final(self)@ == divs3(old(self)@, s as int),
    {
        self.0 = crate::scalar::div_i64(self.0, s);
        self.1 = crate::scalar::div_i64(self.1, s);
        self.2 = crate::scalar::div_i64(self.2, s);
    }

    /// An orthogonal right-handed frame built from `self` (the new X axis)
    /// and `other` (which only fixes a plane): `Z` is the normalized cross
    /// product of normalized `self` with `other`, and `Y = Z x self`.
    /// Absent exactly when that `Z` came out as the zero vector, which is how
    /// parallel or degenerate inputs show up.
    pub fn basis(self, other: Self) -> (r: Option<(Vec3, Vec3, Vec3)>)
        requires
            magsq_fits(self@),
            cross_fits(norm3(self@), other@),
            magsq_fits(cross3(norm3(self@), other@)),
            cross_fits(norm3(cross3(norm3(self@), other@)), self@),
        ensures
            ({
                let z = norm3(cross3(norm3(self@), other@));
                match r {
                    Some(t) => magsq3(z) != 0 && t.0 == self && t.1@ == cross3(z, self@)
                        && t.2@ == z,
                    None => magsq3(z) == 0,
                }
            }),
    {
        let a = self;
        let an = a.norm();
        let c0 = an.cross(other);
        proof {
            lemma_norm_magsq_le(c0@);
        }
        let c = c0.norm();
        let m = c.mag();
        if m == 0 {
            proof {
                lemma_magsq_nonneg(c@);
                assert(magsq3(c@) == 0) by (nonlinear_arith)
                    requires
                        0 <= magsq3(c@),
                        magsq3(c@) < (m as int + 1) * (m as int + 1),
                        m as int == 0,
                ;
            }
            None
        } else {
            proof {
                assert(magsq3(c@) != 0) by (nonlinear_arith)
                    requires
                        1 <= m as int,
                        (m as int) * (m as int) <= magsq3(c@),
                ;
            }
            Some((a, c.cross(a), c))
        }
    }
}

/// Normalizing never grows the squared magnitude.
pub proof fn lemma_norm_magsq_le(v: (int, int, int))
    ensures
        magsq3(norm3(v)) <= magsq3(v),
{
    if magsq3(v) != 0 {
        lemma_magsq_nonneg(v);
        crate::scalar::lemma_sqrt_floor(magsq3(v));
        let s = sqrt_floor(magsq3(v));
        if s == 0 {
            assert(magsq3(v) < 1) by (nonlinear_arith)
                requires
                    magsq3(v) < (s + 1) * (s + 1),
                    s == 0,
            ;
        } else {
            crate::scalar::lemma_div_trunc_bound(v.0, s);
            crate::scalar::lemma_div_trunc_bound(v.1, s);
            crate::scalar::lemma_div_trunc_bound(v.2, s);
            lemma_sq_le(div_trunc(v.0, s), v.0);
            lemma_sq_le(div_trunc(v.1, s), v.1);
            lemma_sq_le(div_trunc(v.2, s), v.2);
        }
    }
}

/// Inverting a vector twice gives the original vector back.
pub proof fn lemma_invert_involutive(v: (int, int, int))
    ensures
        neg3(neg3(v)) == v,
{
}

/// The dot product is symmetric in its two arguments.
pub proof fn lemma_dot_symmetric(a: (int, int, int), b: (int, int, int))
    ensures
        dot3(a, b) == dot3(b, a),
{
    assert(a.0 * b.0 == b.0 * a.0) by (nonlinear_arith);
    assert(a.1 * b.1 == b.1 * a.1) by (nonlinear_arith);
    assert(a.2 * b.2 == b.2 * a.2) by (nonlinear_arith);
}

/// The cross product is anticommutative: swapping the arguments negates it.
pub proof fn lemma_cross_anticommutative(a: (int, int, int), b: (int, int, int))
    ensures
        cross3(a, b) == neg3(cross3(b, a)),
{
    assert(a.1 * b.2 == b.2 * a.1 && a.2 * b.1 == b.1 * a.2) by (nonlinear_arith);
    assert(a.2 * b.0 == b.0 * a.2 && a.0 * b.2 == b.2 * a.0) by (nonlinear_arith);
    assert(a.0 * b.1 == b.1 * a.0 && a.1 * b.0 == b.0 * a.1) by (nonlinear_arith);
}

} // verus!


