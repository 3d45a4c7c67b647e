use bezier_easing::bezier::bezier_easing_1d;
use bezier_easing::bezier::bezier_easing_1d_prime;
use bezier_easing::bezier::bezier_easing_function;
use bezier_easing::bezier::find_root;
use bezier_easing::bezier::EasingFunction;
use bezier_easing::fixed::HALF;
use bezier_easing::fixed::SCALE;

/// 10^-7 of a unit, the classical accuracy expected of the root finder.
const EPS: i64 = 100;

fn abs64(x: i64) -> i64 {
    if x < 0 {
        -x
    } else {
        x
    }
}

#[test]
fn test_bezier_easing_function() {
    let r = bezier_easing_function(0, SCALE, SCALE, 0, HALF).unwrap();
    assert!(abs64(r - HALF) < EPS);
    let r = bezier_easing_function(0, SCALE, SCALE, 0, 0).unwrap();
    assert!(abs64(r - 0) < EPS);
    let r = bezier_easing_function(0, SCALE, SCALE, 0, SCALE).unwrap();
    assert!(abs64(r - SCALE) < EPS);
}

#[test]
fn curve_endpoints_are_exact() {
    let p1 = SCALE / 4;
    let p2 = 3 * SCALE / 4;
    assert_eq!(bezier_easing_1d(p1, p2, 0), 0);
    assert_eq!(bezier_easing_1d(p1, p2, SCALE), SCALE);
}

#[test]
fn symmetric_curve_midpoint_is_exact() {
    // p1 + p2 == 1 makes the curve odd-symmetric about the midpoint.
    assert_eq!(bezier_easing_1d(SCALE / 4, 3 * SCALE / 4, HALF), HALF);
    assert_eq!(find_root(SCALE / 4, 3 * SCALE / 4, HALF), Some(HALF));
}

#[test]
fn derivative_at_endpoints() {
    // dB/df is 3*p1 at 0 and 3*(1 - p2) at 1, exactly.
    let p1 = 123_456_789;
    let p2 = 777_000_001;
    assert_eq!(bezier_easing_1d_prime(p1, p2, 0), 3 * p1);
    assert_eq!(bezier_easing_1d_prime(p1, p2, SCALE), 3 * (SCALE - p2));
}

#[test]
fn root_finder_accuracy_on_grid() {
    // Wherever the root finder converges, the curve value at the root
    // is within EPS of the target; on curves with both control points
    // strictly inside the unit interval it always converges.
    let grid = [0, SCALE / 4, SCALE / 2, 3 * SCALE / 4, SCALE];
    for &p1 in grid.iter() {
        for &p2 in grid.iter() {
            for k in 0..11i64 {
                let t = k * SCALE / 10;
                match find_root(p1, p2, t) {
                    Some(f) => {
                        assert!(abs64(bezier_easing_1d(p1, p2, f) - t) < EPS);
                    }
                    None => {
                        let interior = |p: i64| 0 < p && p < SCALE;
                        assert!(!(interior(p1) && interior(p2)));
                    }
                }
            }
        }
    }
}

#[test]
fn progress_is_monotone_in_time() {
    // An ease-in-out curve: progress never decreases as time advances.
    let (x1, y1, x2, y2) = (420_000_000, 0, 580_000_000, SCALE);
    let mut prev: i64 = -1;
    for k in 0..21i64 {
        let t = k * SCALE / 20;
        let r = bezier_easing_function(x1, y1, x2, y2, t).unwrap();
        assert!(r >= prev);
        prev = r;
    }
}

#[test]
fn derivative_floor_guard_reports_failure() {
    // With the x control points at 1 and 0 the x-curve's derivative is
    // exactly zero at the midpoint seed: the finder must report None
    // instead of diverging or panicking.
    assert_eq!(find_root(SCALE, 0, 123_456_789), None);
    assert_eq!(bezier_easing_function(SCALE, 0, 0, SCALE, HALF), None);
    assert_eq!(bezier_easing_function(SCALE, SCALE, 0, 0, 0), None);
}

#[test]
fn repeated_calls_are_identical() {
    let args = (420_000_000, 0, 580_000_000, SCALE, 300_000_000);
    let r1 = bezier_easing_function(args.0, args.1, args.2, args.3, args.4);
    let r2 = bezier_easing_function(args.0, args.1, args.2, args.3, args.4);
    assert_eq!(r1, r2);
    assert_eq!(find_root(args.0, args.2, args.4), find_root(args.0, args.2, args.4));
}

#[test]
fn timing_function_linear_is_identity() {
    let e = EasingFunction::Linear;
    assert_eq!(e.value_at(0), Some(0));
    assert_eq!(e.value_at(7_777), Some(7_777));
    assert_eq!(e.value_at(SCALE), Some(SCALE));
}

#[test]
fn timing_function_bezier_matches_entry_point() {
    let e = EasingFunction::BezierEasing(0, SCALE, SCALE, 0);
    assert_eq!(e.value_at(HALF), bezier_easing_function(0, SCALE, SCALE, 0, HALF));
    assert_eq!(e.value_at(HALF), Some(HALF));
}

fn float_bezier_1d(p1: f64, p2: f64, f: f64) -> f64 {
    let f2 = f * f;
    let f3 = f2 * f;
    f3 + 3.0 * f3 * p1 - 3.0 * f3 * p2 + 3.0 * f2 * p2 - 6.0 * f2 * p1 + 3.0 * f * p1
}

fn float_bezier_1d_prime(p1: f64, p2: f64, f: f64) -> f64 {
    let f2 = f * f;
    3.0 * f2 + 9.0 * f2 * p1 - 9.0 * f2 * p2 + 6.0 * f * p2 - 12.0 * f * p1 + 3.0 * p1
}

fn float_find_root(p1: f64, p2: f64, target: f64) -> f64 {
    let mut p0 = 0.5;
    for _ in 0..100 {
        let y = float_bezier_1d(p1, p2, p0) - target;
        let y_prime = float_bezier_1d_prime(p1, p2, p0);
        if y_prime.abs() < 1e-14 {
            break;
        }
        let p_next = p0 - y / y_prime;
        if (p_next - p0).abs() <= 1e-9 {
            return p_next;
        }
        p0 = p_next;
    }
    f64::NAN
}

#[test]
fn fixed_point_matches_float_reference() {
    // The fixed-point pipeline agrees with a double-precision rendering
    // of the same formulas to well under the test accuracy.
    let cases = [
        (0.42, 0.0, 0.58, 1.0),
        (0.25, 0.1, 0.25, 1.0),
        (0.0, 1.0, 1.0, 0.0),
        (0.33, 1.0, 0.68, 1.0),
    ];
    for &(x1, y1, x2, y2) in cases.iter() {
        for k in 1..20i64 {
            let t = k as f64 / 20.0;
            let fv = float_bezier_1d(y1, y2, float_find_root(x1, x2, t));
            let iv = bezier_easing_function(
                (x1 * SCALE as f64) as i64,
                (y1 * SCALE as f64) as i64,
                (x2 * SCALE as f64) as i64,
                (y2 * SCALE as f64) as i64,
                k * SCALE / 20,
            );
            let iv = iv.unwrap() as f64 / SCALE as f64;
            assert!(fv.is_finite());
            assert!((fv - iv).abs() < 1e-7);
        }
    }
}
