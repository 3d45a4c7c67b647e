//! Cubic-Bézier easing: curve evaluator, derivative, Newton root
//! finder, and the public easing entry point.
//!
//! The curve has fixed endpoints 0 and 1 and interior control points
//! `p1` and `p2`; every coordinate is a fixed-point fraction scaled by
//! `SCALE` (see `crate::fixed`).  The curve value at parameter `f` is
//!
//! ```text
//! B(f) = f^3 + 3 f^3 p1 - 3 f^3 p2 + 3 f^2 p2 - 6 f^2 p1 + 3 f p1
//! ```
//!
//! rendered here as one exact integer polynomial divided once by the
//! cube of the scale, so that the result is the floor of the true
//! scaled value.

use vstd::prelude::*;
use vstd::arithmetic::div_mod::lemma_div_is_ordered;
use vstd::arithmetic::div_mod::lemma_div_multiples_vanish;
use vstd::arithmetic::div_mod::lemma_div_of0;
use crate::fixed::floor_div;
use crate::fixed::floor_div_spec;
use crate::fixed::lemma_mul_le;
use crate::fixed::HALF;
use crate::fixed::SCALE;

verus! {

/// Halting floor for the Newton derivative: below this numerator
/// magnitude (10⁻¹⁴ of a unit slope, in numerator scale) the iteration
/// reports failure rather than divide by a vanishing derivative.
pub const DERIV_FLOOR: i128 = 10_000_000_000_000;

/// Successive-iterate tolerance: one fixed-point unit, 10⁻⁹.
pub const TOL: i64 = 1;

/// Hard cap on Newton iterations.
pub const MAX_ITER: u32 = 100;

/// The curve parameter domain accepted by the evaluators: the root
/// finder keeps its iterates within twice the unit interval on each
/// side, and any parameter it can return lies in that band.
pub const PARAM_LIMIT: i64 = 2_000_000_000;

/// Numerator of the Bézier curve value at `v`, scaled by `SCALE³`:
/// `curve_num / SCALE³` is the exact curve value scaled by `SCALE`.
pub open spec fn curve_num(p1: int, p2: int, v: int) -> int {
    ((v * v) * v) * (SCALE + 3 * p1 - 3 * p2) + ((v * v) * (SCALE as int)) * (3 * p2 - 6 * p1)
        + ((3 * v) * p1) * ((SCALE as int) * (SCALE as int))
}

/// Numerator of the curve derivative at `v`, scaled by `SCALE³`:
/// `prime_num / SCALE³` is the exact derivative dB/df.
pub open spec fn prime_num(p1: int, p2: int, v: int) -> int {
    (3 * (v * v)) * (SCALE + 3 * p1 - 3 * p2) + ((2 * v) * (SCALE as int)) * (3 * p2 - 6 * p1)
        + (3 * p1) * ((SCALE as int) * (SCALE as int))
}

/// The curve value at `v` as a fixed-point fraction: the floor of the
/// exact value scaled by `SCALE`.
pub open spec fn curve_val(p1: int, p2: int, v: int) -> int {
    curve_num(p1, p2, v) / ((SCALE as int) * (SCALE as int) * (SCALE as int))
}

/// The derivative at `v` as a fixed-point value scaled by `SCALE`.
pub open spec fn prime_val(p1: int, p2: int, v: int) -> int {
    prime_num(p1, p2, v) / ((SCALE as int) * (SCALE as int))
}

/// Computes `curve_num` exactly in 128-bit arithmetic.
fn curve_num_exec(p1: i64, p2: i64, v: i64) -> (n: i128)
    requires
        0 <= p1 <= SCALE,
        0 <= p2 <= SCALE,
        -PARAM_LIMIT <= v <= PARAM_LIMIT,
    ensures
        n as int == curve_num(p1 as int, p2 as int, v as int),
        -62_000_000_000_000_000_000_000_000_000_000_000_000 <= n
            <= 62_000_000_000_000_000_000_000_000_000_000_000_000,
{
    let s: i128 = SCALE as i128;
    let w: i128 = v as i128;
    let q1: i128 = p1 as i128;
    let q2: i128 = p2 as i128;
    let c3: i128 = s + 3 * q1 - 3 * q2;
    let c2: i128 = 3 * q2 - 6 * q1;
    proof {
        lemma_mul_le(w as int, w as int, 2_000_000_000, 2_000_000_000);
    }
    let v2: i128 = w * w;
    proof {
        lemma_mul_le(v2 as int, w as int, 4_000_000_000_000_000_000, 2_000_000_000);
    }
    let v3: i128 = v2 * w;
    proof {
        lemma_mul_le(
            v3 as int,
            c3 as int,
            8_000_000_000_000_000_000_000_000_000,
            4_000_000_000,
        );
    }
    let t1: i128 = v3 * c3;
    proof {
        lemma_mul_le(
            (v2 * s) as int,
            c2 as int,
            4_000_000_000_000_000_000_000_000_000,
            6_000_000_000,
        );
    }
    let t2: i128 = (v2 * s) * c2;
    proof {
        lemma_mul_le((3 * w) as int, q1 as int, 6_000_000_000, 1_000_000_000);
        assert((s * s) as int == 1_000_000_000_000_000_000) by (nonlinear_arith)
            requires
                s as int == 1_000_000_000,
        ;
        lemma_mul_le(
            ((3 * w) * q1) as int,
            (s * s) as int,
            6_000_000_000_000_000_000,
            1_000_000_000_000_000_000,
        );
    }
    let t3: i128 = ((3 * w) * q1) * (s * s);
    t1 + t2 + t3
}

/// Computes `prime_num` exactly in 128-bit arithmetic.
fn prime_num_exec(p1: i64, p2: i64, v: i64) -> (m: i128)
    requires
        0 <= p1 <= SCALE,
        0 <= p2 <= SCALE,
        -PARAM_LIMIT <= v <= PARAM_LIMIT,
    ensures
        m as int == prime_num(p1 as int, p2 as int, v as int),
        -75_000_000_000_000_000_000_000_000_000 <= m <= 75_000_000_000_000_000_000_000_000_000,
{
    let s: i128 = SCALE as i128;
    let w: i128 = v as i128;
    let q1: i128 = p1 as i128;
    let q2: i128 = p2 as i128;
    let c3: i128 = s + 3 * q1 - 3 * q2;
    let c2: i128 = 3 * q2 - 6 * q1;
    proof {
        lemma_mul_le(w as int, w as int, 2_000_000_000, 2_000_000_000);
    }
    let v2: i128 = w * w;
    proof {
        lemma_mul_le(
            (3 * v2) as int,
            c3 as int,
            12_000_000_000_000_000_000,
            4_000_000_000,
        );
    }
    let m1: i128 = (3 * v2) * c3;
    proof {
        lemma_mul_le(((2 * w) * s) as int, c2 as int, 4_000_000_000_000_000_000, 6_000_000_000);
    }
    let m2: i128 = ((2 * w) * s) * c2;
    proof {
        assert((s * s) as int == 1_000_000_000_000_000_000) by (nonlinear_arith)
            requires
                s as int == 1_000_000_000,
        ;
        lemma_mul_le(
            (3 * q1) as int,
            (s * s) as int,
            3_000_000_000,
            1_000_000_000_000_000_000,
        );
    }
    let m3: i128 = (3 * q1) * (s * s);
    m1 + m2 + m3
}

/// The 1-dimensional easing Bézier with endpoints 0 and 1: the curve
/// value at parameter `f`, as a fixed-point fraction scaled by `SCALE`.
pub fn bezier_easing_1d(p1: i64, p2: i64, f: i64) -> (r: i64)
    requires
        0 <= p1 <= SCALE,
        0 <= p2 <= SCALE,
        -PARAM_LIMIT <= f <= PARAM_LIMIT,
    ensures
        r as int == curve_val(p1 as int, p2 as int, f as int),
{
    let n: i128 = curve_num_exec(p1, p2, f);
    let s: i128 = SCALE as i128;
    proof {
        assert((s as int) * (s as int) == 1_000_000_000_000_000_000) by (nonlinear_arith)
            requires
                s as int == 1_000_000_000,
        ;
        assert((s as int) * (s as int) * (s as int) == 1_000_000_000_000_000_000_000_000_000)
            by (nonlinear_arith)
            requires
                s as int == 1_000_000_000,
        ;
        assert((SCALE as int) * (SCALE as int) * (SCALE as int)
            == 1_000_000_000_000_000_000_000_000_000) by (nonlinear_arith)
            requires
                SCALE as int == 1_000_000_000,
        ;
    }
    let s3: i128 = s * s * s;
    let q: i128 = floor_div(n, s3);
    proof {
        lemma_div_is_ordered(
            n as int,
            62_000_000_000_000_000_000_000_000_000_000_000_000,
            s3 as int,
        );
        lemma_div_is_ordered(
            -62_000_000_000_000_000_000_000_000_000_000_000_000,
            n as int,
            s3 as int,
        );
    }
    q as i64
}

/// The derivative of `bezier_easing_1d` at parameter `f`, as a
/// fixed-point value scaled by `SCALE`.
pub fn bezier_easing_1d_prime(p1: i64, p2: i64, f: i64) -> (r: i64)
    requires
        0 <= p1 <= SCALE,
        0 <= p2 <= SCALE,
        -PARAM_LIMIT <= f <= PARAM_LIMIT,
    ensures
        r as int == prime_val(p1 as int, p2 as int, f as int),
{
    let m: i128 = prime_num_exec(p1, p2, f);
    let s: i128 = SCALE as i128;
    proof {
        assert((s as int) * (s as int) == 1_000_000_000_000_000_000) by (nonlinear_arith)
            requires
                s as int == 1_000_000_000,
        ;
        assert((SCALE as int) * (SCALE as int) == 1_000_000_000_000_000_000) by (nonlinear_arith)
            requires
                SCALE as int == 1_000_000_000,
        ;
    }
    let s2: i128 = s * s;
    let q: i128 = floor_div(m, s2);
    proof {
        lemma_div_is_ordered(m as int, 75_000_000_000_000_000_000_000_000_000, s2 as int);
        lemma_div_is_ordered(-75_000_000_000_000_000_000_000_000_000, m as int, s2 as int);
    }
    q as i64
}

/// One run of Newton's method from iterate `v` with `fuel` steps left.
///
/// Each step divides the curve error by the derivative numerator with
/// floor rounding.  The run ends with `None` when the derivative
/// numerator falls under `DERIV_FLOOR`, when an iterate leaves the
/// `PARAM_LIMIT` band, or when the fuel is exhausted; it ends with
/// `Some` at the first step shorter than `TOL`.
pub open spec fn newton_iter(p1: int, p2: int, target: int, v: int, fuel: nat) -> Option<i64>
    decreases fuel,
{
    if fuel == 0 {
        None
    } else {
        let m = prime_num(p1, p2, v);
        if -DERIV_FLOOR < m && m < DERIV_FLOOR {
            None
        } else {
            let d = curve_num(p1, p2, v) - target * ((SCALE as int) * (SCALE as int) * (
            SCALE as int));
            let vn = v - floor_div_spec(d, m);
            if vn < -PARAM_LIMIT || PARAM_LIMIT < vn {
                None
            } else if -TOL <= vn - v && vn - v <= TOL {
                Some(vn as i64)
            } else {
                newton_iter(p1, p2, target, vn, (fuel - 1) as nat)
            }
        }
    }
}

/// The root the Newton iteration finds for `target`, seeded at the
/// midpoint with the full iteration budget.
pub open spec fn find_root_spec(p1: int, p2: int, target: int) -> Option<i64> {
    newton_iter(p1, p2, target, HALF as int, MAX_ITER as nat)
}

/// Finds a curve parameter `f` with `B(f)` close to `target` by
/// Newton's method seeded at the midpoint; `None` reports numerical
/// failure (vanishing derivative, a diverging iterate, or an exhausted
/// iteration budget).
pub fn find_root(p1: i64, p2: i64, target: i64) -> (r: Option<i64>)
    requires
        0 <= p1 <= SCALE,
        0 <= p2 <= SCALE,
        0 <= target <= SCALE,
    ensures
        r == find_root_spec(p1 as int, p2 as int, target as int),
        r matches Some(t) ==> -PARAM_LIMIT <= t <= PARAM_LIMIT,
{
    let mut v: i64 = HALF;
    let mut fuel: u32 = MAX_ITER;
    loop
        invariant
            0 <= p1 <= SCALE,
            0 <= p2 <= SCALE,
            0 <= target <= SCALE,
            fuel <= MAX_ITER,
            -PARAM_LIMIT <= v <= PARAM_LIMIT,
            newton_iter(p1 as int, p2 as int, target as int, v as int, fuel as nat)
                == find_root_spec(p1 as int, p2 as int, target as int),
        decreases fuel,
    {
        if fuel == 0 {
            return None;
        }
        let m: i128 = prime_num_exec(p1, p2, v);
        let m_abs: i128 = if m < 0 {
            -m
        } else {
            m
        };
        if m_abs < DERIV_FLOOR {
            return None;
        }
        let n: i128 = curve_num_exec(p1, p2, v);
        let s: i128 = SCALE as i128;
        proof {
            assert((s as int) * (s as int) == 1_000_000_000_000_000_000) by (nonlinear_arith)
                requires
                    s as int == 1_000_000_000,
            ;
            assert((s as int) * (s as int) * (s as int) == 1_000_000_000_000_000_000_000_000_000)
                by (nonlinear_arith)
                requires
                    s as int == 1_000_000_000,
            ;
            assert((SCALE as int) * (SCALE as int) * (SCALE as int)
                == 1_000_000_000_000_000_000_000_000_000) by (nonlinear_arith)
                requires
                    SCALE as int == 1_000_000_000,
            ;
            lemma_mul_le(
                target as int,
                (s as int) * (s as int) * (s as int),
                1_000_000_000,
                1_000_000_000_000_000_000_000_000_000,
            );
        }
        let d: i128 = n - (target as i128) * (s * s * s);
        let q: i128 = floor_div(d, m);
        let vnw: i128 = (v as i128) - q;
        if vnw < -(PARAM_LIMIT as i128) || (PARAM_LIMIT as i128) < vnw {
            return None;
        }
        let vn: i64 = vnw as i64;
        let diff: i64 = if vn >= v {
            vn - v
        } else {
            v - vn
        };
        if diff <= TOL {
            return Some(vn);
        }
        v = vn;
        fuel = fuel - 1;
    }
}

/// The eased progress fraction for control points (x1, y1), (x2, y2)
/// at time fraction `f`: the y-curve evaluated at the parameter where
/// the x-curve reaches `f`, or `None` on numerical failure of the root
/// finder.
pub open spec fn bezier_easing_spec(x1: int, y1: int, x2: int, y2: int, f: int) -> Option<i64> {
    match find_root_spec(x1, x2, f) {
        None => None,
        Some(t) => Some(curve_val(y1, y2, t as int) as i64),
    }
}

/// Maps a normalized time fraction `f` to an eased progress fraction
/// through the two-dimensional easing curve with interior control
/// points (x1, y1) and (x2, y2); all five inputs are fixed-point
/// fractions in [0, `SCALE`].  `None` reports that the root finder did
/// not converge for this input.
pub fn bezier_easing_function(x1: i64, y1: i64, x2: i64, y2: i64, f: i64) -> (r: Option<i64>)
    requires
        0 <= x1 <= SCALE,
        0 <= y1 <= SCALE,
        0 <= x2 <= SCALE,
        0 <= y2 <= SCALE,
        0 <= f <= SCALE,
    ensures
        r == bezier_easing_spec(x1 as int, y1 as int, x2 as int, y2 as int, f as int),
{
    match find_root(x1, x2, f) {
        None => None,
        Some(t) => Some(bezier_easing_1d(y1, y2, t)),
    }
}

/// A timing function: the closed set of easing kinds an animation can
/// carry.  `Linear` passes the time fraction through unchanged;
/// `BezierEasing` holds the four control-point coordinates of a cubic
/// easing curve.
#[derive(Clone, Copy, PartialEq, Eq, Structural, Debug)]
pub enum EasingFunction {
    Linear,
    BezierEasing(i64, i64, i64, i64),
}

impl EasingFunction {
    /// All control-point coordinates lie in the unit range.
    pub open spec fn wf(self) -> bool {
        match self {
            EasingFunction::Linear => true,
            EasingFunction::BezierEasing(x1, y1, x2, y2) => 0 <= x1 <= SCALE && 0 <= y1 <= SCALE
                && 0 <= x2 <= SCALE && 0 <= y2 <= SCALE,
        }
    }

    /// The progress fraction this timing function yields at time
    /// fraction `t`.
    pub open spec fn value_at_spec(self, t: int) -> Option<i64> {
        match self {
            EasingFunction::Linear => Some(t as i64),
            EasingFunction::BezierEasing(x1, y1, x2, y2) => bezier_easing_spec(
                x1 as int,
                y1 as int,
                x2 as int,
                y2 as int,
                t,
            ),
        }
    }

    /// Evaluates the timing function at time fraction `t`.
    pub fn value_at(&self, t: i64) -> (r: Option<i64>)
        requires
            self.wf(),
            0 <= t <= SCALE,
        ensures
            r == self.value_at_spec(t as int),
    {
        match *self {
            EasingFunction::Linear => Some(t),
            EasingFunction::BezierEasing(x1, y1, x2, y2) => bezier_easing_function(
                x1,
                y1,
                x2,
                y2,
                t,
            ),
        }
    }
}

/// The easing curve's endpoints are fixed: for every control-point
/// pair, the curve value is exactly 0 at parameter 0 and exactly 1 at
/// parameter 1.
pub proof fn lemma_curve_fixed_endpoints(p1: int, p2: int)
    ensures
        curve_val(p1, p2, 0) == 0,
        curve_val(p1, p2, SCALE as int) == SCALE as int,
{
    let s: int = SCALE as int;
    assert(s * s * s == 1_000_000_000_000_000_000_000_000_000) by (nonlinear_arith)
        requires
            s == 1_000_000_000,
    ;
    lemma_div_of0(s * s * s);
    assert(((0 * 0) * 0) * (s + 3 * p1 - 3 * p2) + ((0 * 0) * s) * (3 * p2 - 6 * p1) + ((3 * 0)
        * p1) * (s * s) == 0) by (nonlinear_arith);
    assert(curve_num(p1, p2, 0) == 0);
    assert(((s * s) * s) * (s + 3 * p1 - 3 * p2) + ((s * s) * s) * (3 * p2 - 6 * p1) + ((3 * s)
        * p1) * (s * s) == (s * s * s) * s) by (nonlinear_arith);
    lemma_div_multiples_vanish(s, s * s * s);
}

/// A proved record of monotonicity: on the smoothstep-like easing
/// curve whose control points sit at 0 and 1, the curve value never
/// decreases as the parameter grows through the unit range.
pub proof fn lemma_smoothstep_curve_monotone(u: int, v: int)
    requires
        0 <= u <= v <= SCALE,
    ensures
        curve_val(0, SCALE as int, u) <= curve_val(0, SCALE as int, v),
{
    let s: int = SCALE as int;
    assert(((u * u) * u) * (s - 3 * s) + ((u * u) * s) * (3 * s) <= ((v * v) * v) * (s - 3 * s)
        + ((v * v) * s) * (3 * s)) by (nonlinear_arith)
        requires
            0 <= u <= v <= s,
    ;
    assert(s * s * s == 1_000_000_000_000_000_000_000_000_000) by (nonlinear_arith)
        requires
            s == 1_000_000_000,
    ;
    lemma_div_is_ordered(curve_num(0, s, u), curve_num(0, s, v), s * s * s);
}

/// Numerical-failure handling: with the first control point pulled to
/// the top corner and the second to the bottom corner, the curve's
/// derivative vanishes exactly at the midpoint seed, so the root finder
/// reports failure at once, for every target.
pub proof fn lemma_derivative_floor_at_seed(target: int)
    ensures
        find_root_spec(SCALE as int, 0, target) == None::<i64>,
{
    assert(prime_num(SCALE as int, 0, HALF as int) == 0) by (nonlinear_arith)
        requires
            SCALE as int == 1_000_000_000,
            HALF as int == 500_000_000,
    ;
    assert(newton_iter(SCALE as int, 0, target, HALF as int, MAX_ITER as nat) == None::<i64>);
}

/// Determinism of the easing function: two results computed from
/// identical inputs are equal, because the contract pins each result to
/// the same mathematical function of the inputs.
pub proof fn lemma_easing_deterministic(
    x1: int,
    y1: int,
    x2: int,
    y2: int,
    f: int,
    r1: Option<i64>,
    r2: Option<i64>,
)
    requires
        r1 == bezier_easing_spec(x1, y1, x2, y2, f),
        r2 == bezier_easing_spec(x1, y1, x2, y2, f),
    ensures
        r1 == r2,
{
}

} // verus!
