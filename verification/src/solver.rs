//! The bracket-narrowing solver itself.

use vstd::prelude::*;

use crate::arith::lemma_sign_product;
use crate::arith::mid_val;
use crate::arith::midpoint;
use crate::arith::secant;
use crate::arith::secant_val;
use vstd::arithmetic::power2::pow2;
use vstd::math::abs;

verus! {

/// Upper bound on the number of narrowing steps one `solve` call takes: 64
/// halvings collapse any `i64` bracket to adjacent integers, doubled for
/// margin. Bisection needs about log2(width / tolerance) steps, so a cap
/// covering the whole type's range gives up nothing, while it guarantees
/// termination even when the tolerance is finer than the integer grid.
pub const MAX_STEPS: u64 = 128;

/// Outcome of one solver step or of validating a bracket.
#[derive(Clone, Copy, Debug, PartialEq, Eq, Structural)]
pub enum NLSolveCode {
    /// A root was pinned down exactly; the bracket has collapsed to it.
    Success,
    /// The bracket was halved and narrowing should go on.
    Continue,
    /// The function values at the two endpoints have the same strict sign,
    /// so the interval is not known to bracket a root.
    InvalidArgument,
    /// A function evaluation produced no number.
    BadFunction,
}

/// A scalar function of one fixed-point variable. Evaluation is total: it
/// returns either the function value at `x` or `None` where the function
/// cannot produce a number there.
pub trait RealFn: Sized {
    /// The mathematical value of the function at `x`, `None` where
    /// evaluation does not yield a number.
    spec fn eval_spec(&self, x: i64) -> Option<i64>;

    /// Evaluate the function at `x`; agrees with `eval_spec`.
    fn eval(&self, x: i64) -> (r: Option<i64>)
        ensures
            r == self.eval_spec(x),
    ;
}

/// The affine function `slope * x + intercept`, the simplest function worth
/// handing the solver. Where the arithmetic would leave `i64`, evaluation
/// yields no number.
pub struct Affine {
    /// Coefficient of `x`.
    pub slope: i64,
    /// Value at zero.
    pub intercept: i64,
}

impl RealFn for Affine {
    open spec fn eval_spec(&self, x: i64) -> Option<i64> {
        if i64::MIN <= self.slope * x <= i64::MAX && i64::MIN <= self.slope * x + self.intercept
            <= i64::MAX {
            Some((self.slope * x + self.intercept) as i64)
        } else {
            None
        }
    }

    fn eval(&self, x: i64) -> (r: Option<i64>)
        ensures
            r == self.eval_spec(x),
    {
        match self.slope.checked_mul(x) {
            Some(p) => p.checked_add(self.intercept),
            None => None,
        }
    }
}

/// The solver: the current bracket `[lower, upper]` together with the cached
/// function values at its endpoints.
pub struct Bisection<F: RealFn> {
    /// The function whose root is sought.
    pub f: F,
    /// Lower endpoint of the current bracket.
    pub lower: i64,
    /// Upper endpoint of the current bracket.
    pub upper: i64,
    /// Cached value of the function at `lower`.
    pub f_lower: i64,
    /// Cached value of the function at `upper`.
    pub f_upper: i64,
}

impl<F: RealFn> Bisection<F> {
    /// Well-formedness: the endpoints are ordered, the cached values are
    /// exactly the function's values there (never stale), and the two cached
    /// values do not share a strict sign, so a sign change lies inside the
    /// bracket.
    pub open spec fn wf(self) -> bool {
        &&& self.lower <= self.upper
        &&& self.f.eval_spec(self.lower) == Some(self.f_lower)
        &&& self.f.eval_spec(self.upper) == Some(self.f_upper)
        &&& self.f_lower * self.f_upper <= 0
    }

    /// One narrowing step as a mathematical function of the state: the code
    /// it signals and the state it leaves behind. A cached zero collapses the
    /// bracket onto that endpoint; otherwise the midpoint is evaluated and
    /// the half that keeps the sign change is kept. A failed evaluation
    /// leaves the bracket unchanged.
    pub open spec fn step_spec(self) -> (NLSolveCode, Bisection<F>) {
        if self.f_lower == 0 {
            (NLSolveCode::Success, Bisection { upper: self.lower, f_upper: 0, ..self })
        } else if self.f_upper == 0 {
            (NLSolveCode::Success, Bisection { lower: self.upper, f_lower: 0, ..self })
        } else {
            let m = mid_val(self.lower as int, self.upper as int) as i64;
            match self.f.eval_spec(m) {
                None => (NLSolveCode::BadFunction, self),
                Some(v) => if v == 0 {
                    (
                        NLSolveCode::Success,
                        Bisection { lower: m, upper: m, f_lower: 0, f_upper: 0, ..self },
                    )
                } else if self.f_lower * v < 0 {
                    (NLSolveCode::Continue, Bisection { upper: m, f_upper: v, ..self })
                } else {
                    (NLSolveCode::Continue, Bisection { lower: m, f_lower: v, ..self })
                },
            }
        }
    }

    /// The narrowing loop as a mathematical function: step until a function
    /// value within `tol` of zero sits at an endpoint, an evaluation fails
    /// (first component `true`), or `fuel` steps have been taken.
    pub open spec fn run_spec(self, tol: i64, fuel: nat) -> (bool, Bisection<F>)
        decreases fuel,
    {
        let (code, next) = self.step_spec();
        if code == NLSolveCode::BadFunction {
            (true, next)
        } else if abs(next.f_lower as int) <= tol || abs(next.f_upper as int) <= tol {
            (false, next)
        } else if fuel <= 1 {
            (false, next)
        } else {
            next.run_spec(tol, (fuel - 1) as nat)
        }
    }

    /// A bracket is acceptable when the function yields a number at both
    /// endpoints and the two values do not share a strict sign.
    pub open spec fn bracket_ok(f: F, a: i64, b: i64) -> bool {
        &&& f.eval_spec(a).is_some()
        &&& f.eval_spec(b).is_some()
        &&& f.eval_spec(a).unwrap() * f.eval_spec(b).unwrap() <= 0
    }

    /// The solver state right after construction: the endpoints ordered, the
    /// function values cached.
    pub open spec fn initial_spec(f: F, a: i64, b: i64) -> Bisection<F> {
        if a <= b {
            Bisection {
                f,
                lower: a,
                upper: b,
                f_lower: f.eval_spec(a).unwrap(),
                f_upper: f.eval_spec(b).unwrap(),
            }
        } else {
            Bisection {
                f,
                lower: b,
                upper: a,
                f_lower: f.eval_spec(b).unwrap(),
                f_upper: f.eval_spec(a).unwrap(),
            }
        }
    }

    /// Whether the narrowing loop of `solve` stops on a failed evaluation.
    pub open spec fn run_failed(f: F, a: i64, b: i64, tol: i64) -> bool {
        Self::initial_spec(f, a, b).run_spec(tol, MAX_STEPS as nat).0
    }

    /// The bracket the narrowing loop of `solve` ends with.
    pub open spec fn final_state(f: F, a: i64, b: i64, tol: i64) -> Bisection<F> {
        Self::initial_spec(f, a, b).run_spec(tol, MAX_STEPS as nat).1
    }

    /// Why the narrowing loop of `solve` stops on a good bracket: a function
    /// value within tolerance of zero sits at an endpoint, or the bracket is
    /// no wider than one grid step (the tolerance is finer than the
    /// fixed-point grid allows), or an evaluation failed.
    pub open spec fn run_converged(f: F, a: i64, b: i64, tol: i64) -> bool {
        ||| Self::run_failed(f, a, b, tol)
        ||| abs(Self::final_state(f, a, b, tol).f_lower as int) <= tol
        ||| abs(Self::final_state(f, a, b, tol).f_upper as int) <= tol
        ||| Self::final_state(f, a, b, tol).upper - Self::final_state(f, a, b, tol).lower <= 1
    }

    /// The estimate returned for a finished run: the bracket's midpoint if an
    /// evaluation failed mid-loop, the common endpoint of a collapsed
    /// bracket, and otherwise the secant-line zero crossing between the two
    /// endpoints.
    pub open spec fn estimate_spec(bad: bool, s: Bisection<F>) -> int {
        if bad {
            mid_val(s.lower as int, s.upper as int)
        } else if s.lower == s.upper {
            s.lower as int
        } else {
            secant_val(s.lower as int, s.upper as int, s.f_lower as int, s.f_upper as int)
        }
    }

    /// What `solve` returns: the fallback midpoint of the given interval when
    /// the bracket is rejected, and otherwise the estimate of the narrowing
    /// run.
    pub open spec fn solve_spec(f: F, a: i64, b: i64, tol: i64) -> int {
        if !Self::bracket_ok(f, a, b) {
            mid_val(a as int, b as int)
        } else {
            Self::estimate_spec(
                Self::run_failed(f, a, b, tol),
                Self::final_state(f, a, b, tol),
            )
        }
    }

    /// Validate a bracket and build the solver. Fails with `BadFunction`
    /// when the function yields no number at an endpoint, with
    /// `InvalidArgument` when the endpoint values share a strict sign;
    /// otherwise the solver starts well formed, holding the given interval
    /// (endpoints ordered) and the two cached values. Exactly the two
    /// endpoint evaluations are performed.
    pub fn new(f: F, a: i64, b: i64) -> (r: Result<Bisection<F>, NLSolveCode>)
        ensures
            match r {
                Ok(s) => {
                    &&& Self::bracket_ok(f, a, b)
                    &&& s == Self::initial_spec(f, a, b)
                    &&& s.wf()
                },
                Err(code) => {
                    &&& !Self::bracket_ok(f, a, b)
                    &&& (code == NLSolveCode::BadFunction <==> (f.eval_spec(a).is_none()
                        || f.eval_spec(b).is_none()))
                    &&& (code == NLSolveCode::InvalidArgument <==> (f.eval_spec(a).is_some()
                        && f.eval_spec(b).is_some() && f.eval_spec(a).unwrap() * f.eval_spec(
                        b,
                    ).unwrap() > 0))
                },
            },
    {
        let fb = f.eval(b);
        let fa = f.eval(a);
        match (fa, fb) {
            (Some(va), Some(vb)) => {
                proof {
                    lemma_sign_product(va as int, vb as int);
                }
                if (va > 0 && vb > 0) || (va < 0 && vb < 0) {
                    Err(NLSolveCode::InvalidArgument)
                } else {
                    assert(va as int * vb as int <= 0 && vb as int * va as int <= 0);
                    if a <= b {
                        Ok(Bisection { f, lower: a, upper: b, f_lower: va, f_upper: vb })
                    } else {
                        Ok(Bisection { f, lower: b, upper: a, f_lower: vb, f_upper: va })
                    }
                }
            },
            _ => Err(NLSolveCode::BadFunction),
        }
    }

    /// One bisection refinement of the bracket, exactly `step_spec`: collapse
    /// onto an endpoint whose cached value is zero, otherwise evaluate the
    /// midpoint and keep the half with the sign change. Well-formedness is
    /// preserved (the bracket keeps enclosing a sign change), the bracket
    /// never widens, and a `Continue` step halves it.
    pub fn iterate(&mut self) -> (code: NLSolveCode)
        requires
            old(self).wf(),
        ensures
            (code, *final(self)) == old(self).step_spec(),
            final(self).wf(),
            final(self).f == old(self).f,
            old(self).lower <= final(self).lower <= final(self).upper <= old(self).upper,
            final(self).upper - final(self).lower <= old(self).upper - old(self).lower,
            code == NLSolveCode::Continue ==> 2 * (final(self).upper - final(self).lower) <= old(self).upper - old(self).lower + 1,
            code == NLSolveCode::Continue ==> final(self).f_lower != 0 && final(self).f_upper != 0,
            code == NLSolveCode::Success ==> final(self).lower == final(self).upper
                && final(self).f_lower == 0 && final(self).f_upper == 0,
            code == NLSolveCode::BadFunction ==> *final(self) == *old(self),
            code != NLSolveCode::InvalidArgument,
    {
        if self.f_lower == 0 {
            self.upper = self.lower;
            self.f_upper = 0;
            return NLSolveCode::Success;
        }
        if self.f_upper == 0 {
            self.lower = self.upper;
            self.f_lower = 0;
            return NLSolveCode::Success;
        }
        let m = midpoint(self.lower, self.upper);
        let fm = self.f.eval(m);
        match fm {
            None => NLSolveCode::BadFunction,
            Some(v) => {
                proof {
                    lemma_sign_product(self.f_lower as int, v as int);
                    lemma_sign_product(v as int, self.f_upper as int);
                    lemma_sign_product(self.f_lower as int, self.f_upper as int);
                }
                if v == 0 {
                    self.lower = m;
                    self.upper = m;
                    self.f_lower = 0;
                    self.f_upper = 0;
                    NLSolveCode::Success
                } else if (self.f_lower > 0 && v < 0) || (self.f_lower < 0 && v > 0) {
                    self.upper = m;
                    self.f_upper = v;
                    NLSolveCode::Continue
                } else {
                    self.lower = m;
                    self.f_lower = v;
                    NLSolveCode::Continue
                }
            },
        }
    }

    /// A run whose starting state already caches a zero at an endpoint stops
    /// at once, with the bracket collapsed onto that endpoint (the lower one
    /// is preferred): the degenerate-root behaviour.
    proof fn lemma_degenerate_run(s: Bisection<F>, tol: i64, fuel: nat)
        requires
            s.wf(),
            tol >= 0,
            fuel >= 1,
            s.f_lower == 0 || s.f_upper == 0,
        ensures
            s.f_lower == 0 ==> s.run_spec(tol, fuel) == (
                false,
                Bisection { upper: s.lower, f_upper: 0i64, ..s },
            ),
            s.f_lower != 0 ==> s.run_spec(tol, fuel) == (
                false,
                Bisection { lower: s.upper, f_lower: 0i64, ..s },
            ),
    {
    }

    /// On a bracket that validates, once the narrowing run's outcome is
    /// known, `solve_spec` is the estimate of that outcome.
    proof fn lemma_solve_spec_resolved(
        f: F,
        a: i64,
        b: i64,
        tol: i64,
        bad: bool,
        s: Bisection<F>,
    )
        requires
            Self::bracket_ok(f, a, b),
            Self::initial_spec(f, a, b).run_spec(tol, MAX_STEPS as nat) == (bad, s),
        ensures
            Self::run_failed(f, a, b, tol) == bad,
            Self::final_state(f, a, b, tol) == s,
            Self::solve_spec(f, a, b, tol) == Self::estimate_spec(bad, s),
    {
    }

    /// A bracket that starts with the function value zero at `a` makes
    /// `solve` return `a` itself: the run collapses onto that endpoint at
    /// once. When `a > b`, `a` becomes the upper endpoint and the collapse
    /// prefers the lower one, so the value at `b` must then be nonzero.
    proof fn lemma_degenerate_solve(f: F, a: i64, b: i64, tol: i64)
        requires
            tol >= 0,
            f.eval_spec(a) == Some(0i64),
            f.eval_spec(b).is_some(),
            a <= b || f.eval_spec(b) != Some(0i64),
        ensures
            Self::bracket_ok(f, a, b),
            !Self::run_failed(f, a, b, tol),
            Self::final_state(f, a, b, tol).lower == a,
            Self::final_state(f, a, b, tol).upper == a,
            Self::solve_spec(f, a, b, tol) == a,
    {
        assert(f.eval_spec(a).unwrap() * f.eval_spec(b).unwrap() == 0);
        let s0 = Self::initial_spec(f, a, b);
        Self::lemma_degenerate_run(s0, tol, MAX_STEPS as nat);
    }

    /// One halving step keeps the bracket width within the geometric bound
    /// `(w0 - 1) / 2^k + 1` that drives convergence.
    proof fn lemma_width_halves(oldw: int, neww: int, w0: int, k: nat)
        requires
            w0 >= 1,
            0 <= neww,
            2 * neww <= oldw + 1,
            oldw <= (w0 - 1) / (pow2(k) as int) + 1,
        ensures
            neww <= (w0 - 1) / (pow2(k + 1) as int) + 1,
    {
        let p = pow2(k) as int;
        vstd::arithmetic::power2::lemma_pow2_pos(k);
        vstd::arithmetic::div_mod::lemma_div_is_ordered(2 * neww, oldw + 1, 2);
        vstd::arithmetic::div_mod::lemma_div_multiples_vanish(neww, 2);
        vstd::arithmetic::div_mod::lemma_div_is_ordered(oldw + 1, (w0 - 1) / p + 2, 2);
        vstd::arithmetic::div_mod::lemma_div_plus_one((w0 - 1) / p, 2);
        vstd::arithmetic::div_mod::lemma_div_denominator(w0 - 1, p, 2);
        vstd::arithmetic::power2::lemma_pow2_adds(k, 1);
        vstd::arithmetic::power2::lemma2_to64();
    }

    /// After the full budget of halvings, the geometric bound has reached
    /// one grid step: no `i64` bracket survives that many halvings wider.
    proof fn lemma_width_exhausted(w0: int)
        requires
            1 <= w0 <= 0xffff_ffff_ffff_ffff,
        ensures
            (w0 - 1) / (pow2(MAX_STEPS as nat) as int) + 1 <= 1,
    {
        vstd::arithmetic::power2::lemma2_to64();
        vstd::arithmetic::power2::lemma_pow2_strictly_increases(64, MAX_STEPS as nat);
        vstd::arithmetic::div_mod::lemma_basic_div(w0 - 1, pow2(MAX_STEPS as nat) as int);
    }

    /// Find a root of `f` inside the interval between `a` and `b`: validate
    /// the bracket, narrow it until a function value within `tol` of zero
    /// sits at an endpoint (or the bracket cannot shrink further), and
    /// return the secant estimate between the final endpoints. The routine
    /// never fails: on a rejected bracket it returns the midpoint of the
    /// given interval, and on an evaluation that fails mid-loop the midpoint
    /// of the narrowed bracket.
    pub fn solve(f: F, a: i64, b: i64, tol: i64) -> (root: i64)
        requires
            tol >= 0,
        ensures
            root == Self::solve_spec(f, a, b, tol),
            !Self::bracket_ok(f, a, b) ==> root == mid_val(a as int, b as int),
            a <= b ==> a <= root <= b,
            b <= a ==> b <= root <= a,
            Self::bracket_ok(f, a, b) ==> {
                &&& Self::final_state(f, a, b, tol).wf()
                &&& Self::final_state(f, a, b, tol).lower <= root <= Self::final_state(
                    f,
                    a,
                    b,
                    tol,
                ).upper
                &&& Self::run_converged(f, a, b, tol)
            },
            f.eval_spec(a) == Some(0i64) && f.eval_spec(b).is_some() && (a <= b || f.eval_spec(b)
                != Some(0i64)) ==> root == a,
    {
        let sr = Bisection::new(f, a, b);
        match sr {
            Err(_) => {
                proof {
                    if f.eval_spec(a) == Some(0i64) && f.eval_spec(b).is_some() && (a <= b
                        || f.eval_spec(b) != Some(0i64)) {
                        Self::lemma_degenerate_solve(f, a, b, tol);
                    }
                }
                midpoint(a, b)
            },
            Ok(mut sol) => {
                let ghost s0 = sol;
                let ghost w0 = sol.upper as int - sol.lower as int;
                let mut steps: u64 = 0;
                proof {
                    vstd::arithmetic::power2::lemma2_to64();
                }
                loop
                    invariant_except_break
                        tol >= 0,
                        sol.wf(),
                        steps < MAX_STEPS,
                        Self::bracket_ok(f, a, b),
                        s0 == Self::initial_spec(f, a, b),
                        s0.lower <= sol.lower <= sol.upper <= s0.upper,
                        w0 == s0.upper as int - s0.lower as int,
                        sol.run_spec(tol, (MAX_STEPS - steps) as nat) == s0.run_spec(
                            tol,
                            MAX_STEPS as nat,
                        ),
                        w0 >= 1 ==> sol.upper - sol.lower <= (w0 - 1) / (pow2(
                            steps as nat,
                        ) as int) + 1,
                        w0 == 0 ==> sol.upper == sol.lower,
                    ensures
                        sol.wf(),
                        s0.lower <= sol.lower <= sol.upper <= s0.upper,
                        s0.run_spec(tol, MAX_STEPS as nat) == (false, sol),
                        abs(sol.f_lower as int) <= tol || abs(sol.f_upper as int) <= tol
                            || sol.upper - sol.lower <= 1,
                        sol.lower < sol.upper ==> sol.f_lower != 0 && sol.f_upper != 0,
                    decreases MAX_STEPS - steps,
                {
                    let ghost pre = sol;
                    let ghost fuel = (MAX_STEPS - steps) as nat;
                    let code = sol.iterate();
                    if code == NLSolveCode::BadFunction {
                        proof {
                            assert(pre.run_spec(tol, fuel) == (true, pre));
                            Self::lemma_solve_spec_resolved(f, a, b, tol, true, pre);
                            if f.eval_spec(a) == Some(0i64) && f.eval_spec(b).is_some() && (a <= b
                                || f.eval_spec(b) != Some(0i64)) {
                                Self::lemma_degenerate_solve(f, a, b, tol);
                            }
                        }
                        return midpoint(sol.lower, sol.upper);
                    }
                    if (-tol <= sol.f_lower && sol.f_lower <= tol) || (-tol <= sol.f_upper
                        && sol.f_upper <= tol) {
                        proof {
                            assert(pre.run_spec(tol, fuel) == (false, sol));
                        }
                        break ;
                    }
                    steps = steps + 1;
                    proof {
                        assert(code == NLSolveCode::Continue);
                        if steps < MAX_STEPS {
                            assert(pre.run_spec(tol, fuel) == sol.run_spec(
                                tol,
                                (fuel - 1) as nat,
                            ));
                        } else {
                            assert(pre.run_spec(tol, fuel) == (false, sol));
                        }
                        if w0 >= 1 {
                            Self::lemma_width_halves(
                                pre.upper as int - pre.lower as int,
                                sol.upper as int - sol.lower as int,
                                w0,
                                (steps - 1) as nat,
                            );
                        } else {
                            assert(pre.f_lower == pre.f_upper);
                            assert(pre.f_lower as int * pre.f_upper as int <= 0 && pre.f_lower
                                == pre.f_upper ==> pre.f_lower == 0) by (nonlinear_arith);
                            assert(false);
                        }
                    }
                    if steps == MAX_STEPS {
                        proof {
                            Self::lemma_width_exhausted(w0);
                        }
                        break ;
                    }
                }
                proof {
                    Self::lemma_solve_spec_resolved(f, a, b, tol, false, sol);
                    if f.eval_spec(a) == Some(0i64) && f.eval_spec(b).is_some() && (a <= b
                        || f.eval_spec(b) != Some(0i64)) {
                        Self::lemma_degenerate_solve(f, a, b, tol);
                    }
                    if sol.lower < sol.upper {
                        assert(sol.f_lower as int * sol.f_lower as int > 0) by (nonlinear_arith)
                            requires
                                sol.f_lower != 0,
                        ;
                    }
                }
                if sol.lower == sol.upper {
                    sol.lower
                } else {
                    secant(sol.lower, sol.upper, sol.f_lower, sol.f_upper)
                }
            },
        }
    }
}

} // verus!
