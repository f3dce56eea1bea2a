//! Exact scalar helpers: truncating division, floor square root, and powers.

use vstd::prelude::*;
use vstd::arithmetic::div_mod::{lemma_div_nonincreasing, lemma_div_pos_is_pos};
use vstd::arithmetic::power::{lemma0_pow, lemma_pow0, pow};
use vstd::math::abs;

verus! {

pub open spec fn fits_i64(x: int) -> bool {
    i64::MIN <= x <= i64::MAX
}

/// Truncating division (the quotient is rounded toward zero), the rounding
/// that machine division uses; `/` on `int` rounds toward negative infinity
/// for a positive divisor.
pub open spec fn div_trunc(a: int, b: int) -> int {
    if a == 0 {
        0
    } else if a > 0 && b > 0 {
        a / b
    } else if a < 0 && b < 0 {
        (a * -1) / (b * -1)
    } else if a < 0 {
        ((a * -1) / b) * -1
    } else {
        (a / (b * -1)) * -1
    }
}

/// The floor of the square root: the unique `r >= 0` with
/// `r * r <= n < (r + 1) * (r + 1)`.
pub open spec fn sqrt_floor(n: int) -> int {
    choose|r: int| 0 <= r && #[trigger] (r * r) <= n < (r + 1) * (r + 1)
}

/// For every `n >= 0` some integer square root floor exists.
pub proof fn lemma_sqrt_floor_exists(n: int) -> (r: int)
    requires
        0 <= n,
    ensures
        0 <= r && r * r <= n < (r + 1) * (r + 1),
    decreases n,
{
    if n == 0 {
        0
    } else {
        let p = lemma_sqrt_floor_exists(n - 1);
        if (p + 1) * (p + 1) == n {
            assert((p + 2) * (p + 2) > n) by (nonlinear_arith)
                requires
                    0 <= p && (p + 1) * (p + 1) == n,
            ;
            p + 1
        } else {
            p
        }
    }
}

/// The two inequalities pin the root down: any two witnesses are equal.
pub proof fn lemma_sqrt_floor_unique(n: int, r1: int, r2: int)
    requires
        0 <= r1 && r1 * r1 <= n < (r1 + 1) * (r1 + 1),
        0 <= r2 && r2 * r2 <= n < (r2 + 1) * (r2 + 1),
    ensures
        r1 == r2,
{
    assert(r1 == r2) by (nonlinear_arith)
        requires
            0 <= r1 && r1 * r1 <= n < (r1 + 1) * (r1 + 1),
            0 <= r2 && r2 * r2 <= n < (r2 + 1) * (r2 + 1),
    ;
}

/// `sqrt_floor(n)` satisfies its defining inequalities whenever `n >= 0`.
pub proof fn lemma_sqrt_floor(n: int)
    requires
        0 <= n,
    ensures
        0 <= sqrt_floor(n),
        sqrt_floor(n) * sqrt_floor(n) <= n,
        n < (sqrt_floor(n) + 1) * (sqrt_floor(n) + 1),
{
    let w = lemma_sqrt_floor_exists(n);
    assert(exists|r: int| 0 <= r && #[trigger] (r * r) <= n < (r + 1) * (r + 1));
}

/// Floor square root of a machine word, by bisection.
pub fn isqrt_u64(n: u64) -> (r: u64)
    ensures
        r * r <= n < (r + 1) * (r + 1),
        r as int == sqrt_floor(n as int),
{
    let mut lo: u64 = 0;
    let mut hi: u64 = 0x1_0000_0000;
    proof {
        assert((0x1_0000_0000int) * (0x1_0000_0000int) > u64::MAX as int);
    }
    while lo + 1 < hi
        invariant
            0 <= lo < hi <= 0x1_0000_0000,
            lo * lo <= n,
            (hi as int) * (hi as int) > n,
        decreases hi - lo,
    {
        let mid: u64 = lo + (hi - lo) / 2;
        proof {
            assert((mid as int) * (mid as int) <= 0x1_0000_0000_0000_0000int) by (nonlinear_arith)
                requires
                    0 <= mid <= 0x1_0000_0000int,
            ;
        }
        let sq: u128 = (mid as u128) * (mid as u128);
        if sq <= n as u128 {
            lo = mid;
        } else {
            hi = mid;
        }
    }
    proof {
        assert(hi == lo + 1);
        lemma_sqrt_floor(n as int);
        lemma_sqrt_floor_unique(n as int, lo as int, sqrt_floor(n as int));
    }
    lo
}

/// For a positive divisor the truncated quotient lies between zero and the
/// dividend.
pub proof fn lemma_div_trunc_bound(a: int, b: int)
    requires
        1 <= b,
    ensures
        a >= 0 ==> 0 <= div_trunc(a, b) <= a,
        a < 0 ==> a <= div_trunc(a, b) <= 0,
{
    if a > 0 {
        lemma_div_pos_is_pos(a, b);
        lemma_div_nonincreasing(a, b);
    } else if a < 0 {
        lemma_div_pos_is_pos(a * -1, b);
        lemma_div_nonincreasing(a * -1, b);
    }
}

/// Truncating machine division, as `i64::checked_div` performs it.
pub fn div_i64(a: i64, b: i64) -> (r: i64)
    requires
        b != 0,
        fits_i64(div_trunc(a as int, b as int)),
    ensures
        r as int == div_trunc(a as int, b as int),
{
    match a.checked_div(b) {
        Some(q) => q,
        None => {
            proof {
                assert(false);
            }
            0
        },
    }
}

/// The absolute value is multiplicative.
pub proof fn lemma_abs_mul(x: int, y: int)
    ensures
        abs(x * y) == abs(x) * abs(y),
{
    if x >= 0 && y >= 0 {
        assert(x * y >= 0 && x * y == x * y) by (nonlinear_arith)
            requires
                x >= 0 && y >= 0,
        ;
    } else if x >= 0 && y < 0 {
        assert(x * y <= 0 && x * (-y) == -(x * y)) by (nonlinear_arith)
            requires
                x >= 0 && y < 0,
        ;
    } else if x < 0 && y >= 0 {
        assert(x * y <= 0 && (-x) * y == -(x * y)) by (nonlinear_arith)
            requires
                x < 0 && y >= 0,
        ;
    } else {
        assert(x * y >= 0 && (-x) * (-y) == x * y) by (nonlinear_arith)
            requires
                x < 0 && y < 0,
        ;
    }
}

/// The magnitude of a power is the power of the magnitude.
pub proof fn lemma_pow_abs(b: int, e: nat)
    ensures
        abs(pow(b, e)) == pow(abs(b) as int, e),
    decreases e,
{
    if e == 0 {
        lemma_pow0(b);
        lemma_pow0(abs(b) as int);
    } else {
        lemma_pow_abs(b, (e - 1) as nat);
        reveal(pow);
        lemma_abs_mul(b, pow(b, (e - 1) as nat));
    }
}

/// `base` raised to a nonnegative integer exponent, by repeated
/// multiplication.  The bound on the power of the absolute value rules out
/// overflow at every intermediate step.
pub fn pow_i64(base: i64, exp: i64) -> (r: i64)
    requires
        0 <= exp,
        pow(abs(base as int) as int, exp as nat) <= i64::MAX,
    ensures
        r as int == pow(base as int, exp as nat),
{
    if base == 0 && exp > 0 {
        proof {
            lemma0_pow(exp as nat);
        }
        return 0;
    }
    let mut acc: i64 = 1;
    let mut i: i64 = 0;
    proof {
        lemma_pow0(base as int);
    }
    while i < exp
        invariant
            0 <= i <= exp,
            base != 0 || exp == 0,
            acc as int == pow(base as int, i as nat),
            pow(abs(base as int) as int, exp as nat) <= i64::MAX,
        decreases exp - i,
    {
        proof {
            reveal(pow);
            assert(pow(base as int, (i + 1) as nat) == base * pow(base as int, i as nat));
            vstd::arithmetic::mul::lemma_mul_is_commutative(acc as int, base as int);
            assert(acc * base == pow(base as int, (i + 1) as nat));
            lemma_pow_abs(base as int, (i + 1) as nat);
            assert(abs(base as int) > 0);
            vstd::arithmetic::power::lemma_pow_increases(
                abs(base as int),
                (i + 1) as nat,
                exp as nat,
            );
            assert(abs((acc * base) as int) <= i64::MAX);
        }
        acc = acc * base;
        i = i + 1;
    }
    acc
}

} // verus!
