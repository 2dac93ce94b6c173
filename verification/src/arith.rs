//! Integer arithmetic used by the solver: midpoints of (possibly huge)
//! intervals and the secant-line zero crossing, with the round-toward-zero
//! division semantics of Rust's signed integer types.

use vstd::prelude::*;

verus! {

/// Round-toward-zero division, the meaning of `/` on Rust's signed integer
/// types. Spec-mode `/` is Euclidean division, which differs on negative
/// dividends; this wrapper expresses the executable behaviour exactly.
/// Like spec-mode `/`, it is unspecified for `d == 0`.
pub open spec fn tdiv(n: int, d: int) -> int {
    if n >= 0 {
        n / d
    } else {
        -((-n) / d)
    }
}

/// The midpoint of the interval between `a` and `b` (the floor of their
/// average), written symmetrically so that the order of the endpoints does
/// not matter.
pub open spec fn mid_val(a: int, b: int) -> int {
    if a <= b {
        a + (b - a) / 2
    } else {
        b + (a - b) / 2
    }
}

/// The zero crossing of the straight line through `(l, fl)` and `(u, fu)`,
/// `(u * fl - l * fu) / (fl - fu)` rounded toward zero, written with the
/// denominator made positive (negating both operands of a quotient does not
/// change it). Unspecified when `fl == fu`.
pub open spec fn secant_val(l: int, u: int, fl: int, fu: int) -> int {
    if fl >= fu {
        tdiv(u * fl - l * fu, fl - fu)
    } else {
        tdiv(l * fu - u * fl, fu - fl)
    }
}

/// The product of two integers is strictly positive exactly when they share
/// a strict sign, and strictly negative exactly when they have opposite
/// strict signs.
pub proof fn lemma_sign_product(x: int, y: int)
    ensures
        x * y > 0 <==> ((x > 0 && y > 0) || (x < 0 && y < 0)),
        x * y < 0 <==> ((x > 0 && y < 0) || (x < 0 && y > 0)),
{
    assert(x * y > 0 <==> ((x > 0 && y > 0) || (x < 0 && y < 0))) by (nonlinear_arith);
    assert(x * y < 0 <==> ((x > 0 && y < 0) || (x < 0 && y > 0))) by (nonlinear_arith);
}

/// Midpoint of the interval between `a` and `b`, for either order of the
/// endpoints; the width is formed in `i128` so that it cannot overflow.
pub fn midpoint(a: i64, b: i64) -> (m: i64)
    ensures
        m == mid_val(a as int, b as int),
        a <= b ==> a <= m <= b,
        b <= a ==> b <= m <= a,
{
    let lo: i128 = if a <= b { a as i128 } else { b as i128 };
    let hi: i128 = if a <= b { b as i128 } else { a as i128 };
    let m: i128 = lo + (hi - lo) / 2;
    m as i64
}

/// For a positive divisor, a truncated quotient of a value lying between two
/// multiples of the divisor lies between the two multipliers.
pub proof fn lemma_tdiv_bounds(n: int, d: int, lo: int, hi: int)
    requires
        0 < d,
        lo * d <= n,
        n <= hi * d,
    ensures
        lo <= tdiv(n, d) <= hi,
{
    if n >= 0 {
        vstd::arithmetic::div_mod::lemma_div_is_ordered(lo * d, n, d);
        vstd::arithmetic::div_mod::lemma_div_is_ordered(n, hi * d, d);
        vstd::arithmetic::div_mod::lemma_div_multiples_vanish(lo, d);
        vstd::arithmetic::div_mod::lemma_div_multiples_vanish(hi, d);
        assert(lo * d == d * lo && hi * d == d * hi) by (nonlinear_arith);
    } else {
        assert((-lo) * d == -(lo * d) && (-hi) * d == -(hi * d)) by (nonlinear_arith);
        vstd::arithmetic::div_mod::lemma_div_is_ordered(-n, (-lo) * d, d);
        vstd::arithmetic::div_mod::lemma_div_is_ordered((-hi) * d, -n, d);
        vstd::arithmetic::div_mod::lemma_div_multiples_vanish(-lo, d);
        vstd::arithmetic::div_mod::lemma_div_multiples_vanish(-hi, d);
        assert(d * (-lo) == (-lo) * d && d * (-hi) == (-hi) * d) by (nonlinear_arith);
    }
}

/// The product of two values is bounded in magnitude by the product of
/// bounds on their magnitudes.
pub proof fn lemma_abs_mul_bound(x: int, y: int, a: int, b: int)
    requires
        -a <= x <= a,
        -b <= y <= b,
    ensures
        -(a * b) <= x * y <= a * b,
{
    assert(-(a * b) <= x * y <= a * b) by (nonlinear_arith)
        requires
            -a <= x <= a,
            -b <= y <= b,
    ;
}

/// The secant-line zero crossing between two endpoints whose values do not
/// share a strict sign lies inside the interval the endpoints span.
pub proof fn lemma_secant_in_range(l: int, u: int, fl: int, fu: int)
    requires
        l <= u,
        fl * fu <= 0,
        fl != fu,
    ensures
        l <= secant_val(l, u, fl, fu) <= u,
{
    lemma_sign_product(fl, fu);
    if fl >= fu {
        assert((u * fl - l * fu) - l * (fl - fu) == (u - l) * fl) by (nonlinear_arith);
        assert(u * (fl - fu) - (u * fl - l * fu) == (u - l) * (-fu)) by (nonlinear_arith);
        vstd::arithmetic::mul::lemma_mul_nonnegative(u - l, fl);
        vstd::arithmetic::mul::lemma_mul_nonnegative(u - l, -fu);
        lemma_tdiv_bounds(u * fl - l * fu, fl - fu, l, u);
    } else {
        assert((l * fu - u * fl) - l * (fu - fl) == (u - l) * (-fl)) by (nonlinear_arith);
        assert(u * (fu - fl) - (l * fu - u * fl) == (u - l) * fu) by (nonlinear_arith);
        vstd::arithmetic::mul::lemma_mul_nonnegative(u - l, -fl);
        vstd::arithmetic::mul::lemma_mul_nonnegative(u - l, fu);
        lemma_tdiv_bounds(l * fu - u * fl, fu - fl, l, u);
    }
}

/// The zero crossing of the line through `(l, fl)` and `(u, fu)`, rounded
/// toward zero; it always lies inside the bracket `[l, u]`. The products are
/// formed in `i128`, where they cannot overflow.
pub fn secant(l: i64, u: i64, fl: i64, fu: i64) -> (r: i64)
    requires
        l < u,
        fl as int * fu as int <= 0,
        fl != fu,
    ensures
        r == secant_val(l as int, u as int, fl as int, fu as int),
        l <= r <= u,
{
    proof {
        lemma_secant_in_range(l as int, u as int, fl as int, fu as int);
        lemma_abs_mul_bound(
            u as int,
            fl as int,
            0x7fff_ffff_ffff_ffff,
            0x8000_0000_0000_0000,
        );
        lemma_abs_mul_bound(
            l as int,
            fu as int,
            0x8000_0000_0000_0000,
            0x8000_0000_0000_0000,
        );
    }
    let mut num: i128 = (u as i128) * (fl as i128) - (l as i128) * (fu as i128);
    let mut den: i128 = (fl as i128) - (fu as i128);
    if den < 0 {
        num = -num;
        den = -den;
    }
    (num / den) as i64
}

} // verus!
