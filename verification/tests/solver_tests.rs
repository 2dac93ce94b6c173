//! Exercises the solver on simple grid functions with exactly known results.

use bisection::solver::Affine;
use bisection::solver::Bisection;
use bisection::solver::NLSolveCode;
use bisection::solver::RealFn;

/// `x - c`: root at `c`.
fn shift(c: i64) -> Affine {
    Affine { slope: 1, intercept: -c }
}

/// `2x - c`: root at `c / 2`, which may fall between grid points.
fn steep(c: i64) -> Affine {
    Affine { slope: 2, intercept: -c }
}

/// Yields `-1` at one point, `1` at another, and no number anywhere else.
struct TwoPoints {
    a: i64,
    b: i64,
}

impl RealFn for TwoPoints {
    fn eval_spec(&self, x: i64) -> Option<i64> {
        self.eval(x)
    }

    fn eval(&self, x: i64) -> Option<i64> {
        if x == self.a {
            Some(-1)
        } else if x == self.b {
            Some(1)
        } else {
            None
        }
    }
}

/// Never yields a number.
struct NoNumber;

impl RealFn for NoNumber {
    fn eval_spec(&self, _x: i64) -> Option<i64> {
        None
    }

    fn eval(&self, _x: i64) -> Option<i64> {
        None
    }
}

#[test]
fn constructor_accepts_a_sign_change() {
    let sol = Bisection::new(shift(6), 0, 10).ok().unwrap();
    assert_eq!(sol.lower, 0);
    assert_eq!(sol.upper, 10);
    assert_eq!(sol.f_lower, -6);
    assert_eq!(sol.f_upper, 4);
}

#[test]
fn constructor_orders_the_endpoints() {
    let sol = Bisection::new(shift(6), 10, 0).ok().unwrap();
    assert_eq!(sol.lower, 0);
    assert_eq!(sol.upper, 10);
    assert_eq!(sol.f_lower, -6);
    assert_eq!(sol.f_upper, 4);
}

#[test]
fn constructor_accepts_a_zero_endpoint() {
    let sol = Bisection::new(shift(3), 3, 10).ok().unwrap();
    assert_eq!(sol.f_lower, 0);
    assert_eq!(sol.f_upper, 7);
}

#[test]
fn constructor_rejects_a_bracket_without_sign_change() {
    let r = Bisection::new(shift(100), 0, 10);
    assert!(matches!(r, Err(NLSolveCode::InvalidArgument)));
}

#[test]
fn constructor_rejects_a_function_without_numbers() {
    let r = Bisection::new(NoNumber, 0, 10);
    assert!(matches!(r, Err(NLSolveCode::BadFunction)));
}

#[test]
fn iterate_halves_and_keeps_the_sign_change() {
    let mut sol = Bisection::new(shift(6), 0, 10).ok().unwrap();
    // midpoint 5: f(5) = -1 has the sign of f(0) = -6, so [5, 10] is kept
    let code = sol.iterate();
    assert!(matches!(code, NLSolveCode::Continue));
    assert_eq!(sol.lower, 5);
    assert_eq!(sol.upper, 10);
    assert_eq!(sol.f_lower, -1);
    assert_eq!(sol.f_upper, 4);
    assert!(sol.f_lower as i128 * sol.f_upper as i128 <= 0);
    assert!(2 * (sol.upper - sol.lower) <= 10 - 0 + 1);
    // midpoint 7: f(7) = 1 has the opposite sign, so [5, 7] is kept
    let code = sol.iterate();
    assert!(matches!(code, NLSolveCode::Continue));
    assert_eq!(sol.lower, 5);
    assert_eq!(sol.upper, 7);
    assert_eq!(sol.f_lower, -1);
    assert_eq!(sol.f_upper, 1);
    assert!(sol.f_lower as i128 * sol.f_upper as i128 <= 0);
    assert!(2 * (sol.upper - sol.lower) <= 10 - 5 + 1);
}

#[test]
fn iterate_collapses_on_a_cached_zero() {
    let mut sol = Bisection::new(shift(3), 3, 10).ok().unwrap();
    let code = sol.iterate();
    assert!(matches!(code, NLSolveCode::Success));
    assert_eq!(sol.lower, 3);
    assert_eq!(sol.upper, 3);
    assert_eq!(sol.f_lower, 0);
    assert_eq!(sol.f_upper, 0);
}

#[test]
fn iterate_reports_a_failed_midpoint_and_keeps_the_bracket() {
    let mut sol = Bisection::new(TwoPoints { a: 0, b: 8 }, 0, 8).ok().unwrap();
    let code = sol.iterate();
    assert!(matches!(code, NLSolveCode::BadFunction));
    assert_eq!(sol.lower, 0);
    assert_eq!(sol.upper, 8);
}

#[test]
fn solve_finds_an_exact_midpoint_root() {
    let root = Bisection::solve(shift(5), 0, 10, 0);
    assert_eq!(root, 5);
}

#[test]
fn solve_refines_with_the_secant_line() {
    // f(x) = 2x - 5 on [0, 5] stops at bracket [2, 5] with values -1 and 5;
    // the secant crossing (5 * -1 - 2 * 5) / (-1 - 5) is 2.5 rounded toward
    // zero.
    let root = Bisection::solve(steep(5), 0, 5, 1);
    assert_eq!(root, 2);
}

#[test]
fn solve_falls_back_to_the_midpoint_without_a_sign_change() {
    let root = Bisection::solve(shift(100), 0, 9, 1);
    assert_eq!(root, 4);
    let root = Bisection::solve(shift(100), -9, -2, 1);
    assert_eq!(root, -6);
}

#[test]
fn solve_falls_back_to_the_midpoint_when_no_value_comes_back() {
    let root = Bisection::solve(NoNumber, 0, 10, 1);
    assert_eq!(root, 5);
}

#[test]
fn solve_stops_on_a_failed_evaluation_mid_run() {
    // the endpoints yield -1 and 1, the midpoint nothing: the run stops and
    // returns the midpoint of the bracket it still holds
    let root = Bisection::solve(TwoPoints { a: 0, b: 8 }, 0, 8, 0);
    assert_eq!(root, 4);
}

#[test]
fn solve_returns_an_endpoint_root_at_once() {
    let root = Bisection::solve(shift(4), 4, 9, 0);
    assert_eq!(root, 4);
    let root = Bisection::solve(shift(9), 9, 4, 0);
    assert_eq!(root, 9);
}

#[test]
fn solve_exhausts_on_a_grid_with_no_exact_root() {
    // f(x) = 2x + 1 has no zero on the grid; with tolerance 0 the run ends
    // on the adjacent pair [-1, 0] and the secant crossing rounds to 0
    let root = Bisection::solve(steep(-1), -3, 4, 0);
    assert_eq!(root, 0);
}
