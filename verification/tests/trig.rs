//! The trigonometric scenarios, written on the solver's fixed-point grid:
//! the coordinate carries seven decimal places, function values nine.

use bisection::solver::Bisection;
use bisection::solver::RealFn;

const X_SCALE: f64 = 1e7;
const F_SCALE: f64 = 1e9;

struct Sine;

impl RealFn for Sine {
    fn eval_spec(&self, x: i64) -> Option<i64> {
        self.eval(x)
    }

    fn eval(&self, x: i64) -> Option<i64> {
        Some(((x as f64 / X_SCALE).sin() * F_SCALE).round() as i64)
    }
}

struct Cosine;

impl RealFn for Cosine {
    fn eval_spec(&self, x: i64) -> Option<i64> {
        self.eval(x)
    }

    fn eval(&self, x: i64) -> Option<i64> {
        Some(((x as f64 / X_SCALE).cos() * F_SCALE).round() as i64)
    }
}

fn grid(v: f64) -> i64 {
    (v * X_SCALE).round() as i64
}

#[test]
fn test_trig() {
    let tol = 1e-5;
    let grid_tol = (tol * F_SCALE) as i64;

    let root = Bisection::solve(Sine, grid(3.0), grid(4.0), grid_tol);
    assert!((root as f64 / X_SCALE - std::f64::consts::PI).abs() < tol);

    let root = Bisection::solve(Sine, grid(-4.0), grid(-3.0), grid_tol);
    assert!((root as f64 / X_SCALE + std::f64::consts::PI).abs() < tol);

    let root = Bisection::solve(Sine, grid(-1.0 / 3.0), grid(1.0), grid_tol);
    assert!((root as f64 / X_SCALE).abs() < tol);

    let root = Bisection::solve(Cosine, grid(0.0), grid(3.0), grid_tol);
    assert!((root as f64 / X_SCALE - std::f64::consts::PI / 2.0).abs() < tol);

    let root = Bisection::solve(Cosine, grid(-3.0), grid(0.0), grid_tol);
    assert!((root as f64 / X_SCALE + std::f64::consts::PI / 2.0).abs() < tol);
}
