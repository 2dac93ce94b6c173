//! Bracketed root finding: bisection with a final secant refinement.
//!
//! The solver narrows an interval `[lower, upper]` that brackets a sign
//! change of a scalar function until the function value at one endpoint is
//! within a caller-supplied tolerance of zero, then returns the zero crossing
//! of the straight line through the two endpoints.
//!
//! Coordinates and function values are fixed-point numbers: `i64` mantissas
//! at whatever scale the caller chooses. A function that cannot produce a
//! number at some input reports that by returning `None` there.

pub mod arith;
pub mod solver;
