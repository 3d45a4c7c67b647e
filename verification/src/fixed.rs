//! Fixed-point scale, floor division, and linear interpolation.
//!
//! A fraction in [0, 1] is stored as an `i64` in [0, `SCALE`]; one unit
//! is 10⁻⁹, so the root finder's classical tolerance of 10⁻⁹ is exactly
//! one unit.

use vstd::prelude::*;
use vstd::arithmetic::div_mod::lemma_div_decreases;
use vstd::arithmetic::div_mod::lemma_div_is_ordered;
use vstd::arithmetic::div_mod::lemma_div_multiples_vanish;
use vstd::arithmetic::div_mod::lemma_div_nonincreasing;
use vstd::arithmetic::div_mod::lemma_div_pos_is_pos;
use vstd::arithmetic::div_mod::lemma_fundamental_div_mod;
use vstd::arithmetic::div_mod::lemma_fundamental_div_mod_converse;
use vstd::arithmetic::div_mod::lemma_mod_bound;

verus! {

/// One whole unit: the fixed-point representation of the real number 1.
pub const SCALE: i64 = 1_000_000_000;

/// The representation of 1/2; also the seed of the Newton iteration.
pub const HALF: i64 = 500_000_000;

/// Largest magnitude of an interpolation endpoint, so that every
/// intermediate product stays far inside the `i128` range.
pub const VALUE_LIMIT: i64 = 1_000_000_000_000_000;

/// Product bound: |a| <= ca and |b| <= cb give |a * b| <= ca * cb.
pub(crate) proof fn lemma_mul_le(a: int, b: int, ca: int, cb: int)
    by (nonlinear_arith)
    requires
        -ca <= a <= ca,
        -cb <= b <= cb,
        0 <= ca,
        0 <= cb,
    ensures
        -(ca * cb) <= a * b <= ca * cb,
{
}

/// Floor division: the quotient rounded toward negative infinity.
/// For a positive divisor this is exactly the Euclidean `/` of
/// specification arithmetic.
pub open spec fn floor_div_spec(a: int, b: int) -> int {
    if b >= 0 {
        a / b
    } else {
        (-a) / (-b)
    }
}

/// Floor division of `i128` values, matching `floor_div_spec`.
pub fn floor_div(a: i128, b: i128) -> (q: i128)
    requires
        b != 0,
        a != i128::MIN,
        b != i128::MIN,
    ensures
        q == floor_div_spec(a as int, b as int),
        b > 0 && a >= 0 ==> 0 <= q <= a,
        b > 0 && a < 0 ==> a <= q <= 0,
        b < 0 && a >= 0 ==> -a <= q <= 0,
        b < 0 && a < 0 ==> 0 <= q <= -a,
{
    let (aa, bb): (i128, i128) = if b < 0 { (-a, -b) } else { (a, b) };
    if aa >= 0 {
        proof {
            lemma_div_pos_is_pos(aa as int, bb as int);
            lemma_div_nonincreasing(aa as int, bb as int);
        }
        let qu: u128 = (aa as u128) / (bb as u128);
        qu as i128
    } else {
        let na: u128 = (-aa) as u128;
        let qu: u128 = na / (bb as u128);
        let ru: u128 = na % (bb as u128);
        proof {
            lemma_div_pos_is_pos(na as int, bb as int);
            lemma_div_nonincreasing(na as int, bb as int);
            lemma_mod_bound(na as int, bb as int);
            lemma_fundamental_div_mod(na as int, bb as int);
            if na as int % bb as int != 0 {
                lemma_div_decreases(na as int, bb as int);
            }
        }
        let qd: i128 = qu as i128;
        if ru == 0 {
            proof {
                assert(aa as int == (-(qd as int)) * (bb as int) + 0) by (nonlinear_arith)
                    requires
                        na as int == (bb as int) * (qd as int) + 0,
                        aa as int == -(na as int),
                ;
                lemma_fundamental_div_mod_converse(aa as int, bb as int, -(qd as int), 0);
            }
            -qd
        } else {
            proof {
                assert(aa as int == (-(qd as int) - 1) * (bb as int) + ((bb - ru) as int))
                    by (nonlinear_arith)
                    requires
                        na as int == (bb as int) * (qd as int) + (ru as int),
                        aa as int == -(na as int),
                ;
                lemma_fundamental_div_mod_converse(
                    aa as int,
                    bb as int,
                    -(qd as int) - 1,
                    (bb - ru) as int,
                );
            }
            -qd - 1
        }
    }
}

/// The value a fraction `f` of the way from `p1` to `p2`:
/// the fixed-point rendering of `p1 * (1 - f) + p2 * f`.
pub open spec fn interpolate_spec(p1: int, p2: int, f: int) -> int {
    (p1 * (SCALE - f) + p2 * f) / (SCALE as int)
}

/// Linear interpolation between `p1` and `p2` by the fraction `f`.
/// A fraction outside [0, `SCALE`] extrapolates beyond the endpoints.
pub fn interpolate(p1: i64, p2: i64, f: i64) -> (r: i64)
    requires
        -VALUE_LIMIT <= p1 <= VALUE_LIMIT,
        -VALUE_LIMIT <= p2 <= VALUE_LIMIT,
        -SCALE <= f <= 2 * SCALE,
    ensures
        r as int == interpolate_spec(p1 as int, p2 as int, f as int),
{
    let s: i128 = SCALE as i128;
    proof {
        lemma_mul_le(p1 as int, s - (f as int), VALUE_LIMIT as int, 2 * SCALE as int);
        lemma_mul_le(p2 as int, f as int, VALUE_LIMIT as int, 2 * SCALE as int);
    }
    let a: i128 = (p1 as i128) * (s - (f as i128));
    let b: i128 = (p2 as i128) * (f as i128);
    let q: i128 = floor_div(a + b, s);
    proof {
        lemma_div_is_ordered((a + b) as int, 4_000_000_000_000_000_000_000_000int, s as int);
        lemma_div_is_ordered(-4_000_000_000_000_000_000_000_000int, (a + b) as int, s as int);
    }
    q as i64
}

/// At fraction 0 interpolation returns the first endpoint exactly, and
/// at the whole fraction `SCALE` the second, for all endpoints.
pub proof fn lemma_interpolate_endpoints(p1: int, p2: int)
    ensures
        interpolate_spec(p1, p2, 0) == p1,
        interpolate_spec(p1, p2, SCALE as int) == p2,
{
    let s: int = SCALE as int;
    assert(p1 * (s - 0) + p2 * 0 == s * p1) by (nonlinear_arith);
    lemma_div_multiples_vanish(p1, s);
    assert(p1 * (s - s) + p2 * s == s * p2) by (nonlinear_arith);
    lemma_div_multiples_vanish(p2, s);
}

/// At the midpoint fraction, interpolation is the arithmetic mean of
/// the endpoints.
pub proof fn lemma_interpolate_midpoint(p1: int, p2: int)
    ensures
        interpolate_spec(p1, p2, HALF as int) == (p1 + p2) / 2,
{
    let s: int = SCALE as int;
    let h: int = HALF as int;
    let x: int = p1 + p2;
    let q: int = x / 2;
    let r: int = x % 2;
    lemma_fundamental_div_mod(x, 2);
    lemma_mod_bound(x, 2);
    assert(p1 * (s - h) + p2 * h == x * h) by (nonlinear_arith)
        requires
            s == 2 * h,
            x == p1 + p2,
    ;
    assert(x * h == q * s + r * h) by (nonlinear_arith)
        requires
            x == 2 * q + r,
            s == 2 * h,
    ;
    assert(0 <= r * h < s) by (nonlinear_arith)
        requires
            0 <= r < 2,
            s == 2 * h,
            h > 0,
    ;
    lemma_fundamental_div_mod_converse(x * h, s, q, r * h);
}

} // verus!
