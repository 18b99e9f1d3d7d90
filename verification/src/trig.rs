//! Fixed-point sine and cosine for headings.
//!
//! The heading unit vector is computed with Bhaskara's rational approximation
//! of the sine, evaluated exactly in integer arithmetic: for `x` in `[0, pi]`,
//! `sin x ~ 16 x (pi - x) / (5 pi^2 - 4 x (pi - x))`. The approximation is
//! a deterministic function of the angle, is exactly `0` at `0` and `pi`,
//! and always lies in `[-SCALE, SCALE]`.

use vstd::prelude::*;

use crate::fx::{tdiv, tdiv_exec, SCALE};

verus! {

/// One half turn (pi) in micro-radians.
pub const PI_FX: i64 = 3141593;

/// A full turn (2 pi) in micro-radians; exactly `2 * PI_FX`.
pub const TWO_PI_FX: i64 = 6283186;

/// A quarter turn (pi / 2) in micro-radians.
pub const HALF_PI_FX: i64 = 1570796;

/// Bhaskara's approximation on `[0, PI_FX]`, in micro-units.
pub open spec fn sin_half_spec(x: int) -> int {
    tdiv(16 * x * (PI_FX - x) * SCALE, 5 * (PI_FX as int) * (PI_FX as int) - 4 * x * (PI_FX - x))
}

/// The sine of a reduced angle `x` in `[0, TWO_PI_FX)`, in micro-units.
pub open spec fn sin_spec(x: int) -> int {
    if x <= PI_FX {
        sin_half_spec(x)
    } else {
        -sin_half_spec(x - PI_FX)
    }
}

/// The cosine of a reduced angle `x` in `[0, TWO_PI_FX)`, in micro-units:
/// the sine a quarter turn ahead.
pub open spec fn cos_spec(x: int) -> int {
    if x + HALF_PI_FX < TWO_PI_FX {
        sin_spec(x + HALF_PI_FX)
    } else {
        sin_spec(x + HALF_PI_FX - TWO_PI_FX)
    }
}

/// On `[0, PI_FX]` the approximation is a ratio of a nonnegative numerator
/// and a larger positive denominator, so it lies in `[0, SCALE]`.
proof fn lemma_sin_half_bounds(x: int)
    requires
        0 <= x <= PI_FX,
    ensures
        0 <= sin_half_spec(x) <= SCALE,
{
    let p = PI_FX as int;
    let num = 16 * x * (p - x) * SCALE;
    let den = 5 * p * p - 4 * x * (p - x);
    assert(4 * x * (p - x) <= p * p) by (nonlinear_arith)
        requires
            0 <= x <= p,
    ;
    assert(num >= 0) by (nonlinear_arith)
        requires
            0 <= x <= p,
            num == 16 * x * (p - x) * SCALE,
    ;
    assert(den >= p * p) by (nonlinear_arith)
        requires
            4 * x * (p - x) <= p * p,
            den == 5 * p * p - 4 * x * (p - x),
    ;
    assert(num <= den * SCALE) by (nonlinear_arith)
        requires
            4 * x * (p - x) <= p * p,
            den == 5 * p * p - 4 * x * (p - x),
            num == 16 * x * (p - x) * SCALE,
    ;
    vstd::arithmetic::div_mod::lemma_div_pos_is_pos(num, den);
    vstd::arithmetic::div_mod::lemma_div_is_ordered(num, den * (SCALE as int), den);
    vstd::arithmetic::div_mod::lemma_div_multiples_vanish(SCALE as int, den);
}

/// The sine of any reduced angle lies in `[-SCALE, SCALE]`.
pub proof fn lemma_sin_bounds(x: int)
    requires
        0 <= x < TWO_PI_FX,
    ensures
        -SCALE <= sin_spec(x) <= SCALE,
{
    if x <= PI_FX {
        lemma_sin_half_bounds(x);
    } else {
        lemma_sin_half_bounds(x - PI_FX);
    }
}

/// The cosine of any reduced angle lies in `[-SCALE, SCALE]`.
pub proof fn lemma_cos_bounds(x: int)
    requires
        0 <= x < TWO_PI_FX,
    ensures
        -SCALE <= cos_spec(x) <= SCALE,
{
    if x + HALF_PI_FX < TWO_PI_FX {
        lemma_sin_bounds(x + HALF_PI_FX);
    } else {
        lemma_sin_bounds(x + HALF_PI_FX - TWO_PI_FX);
    }
}

/// Evaluate the approximation on `[0, PI_FX]`.
fn sin_half(x: i64) -> (r: i64)
    requires
        0 <= x <= PI_FX,
    ensures
        r == sin_half_spec(x as int),
        0 <= r <= SCALE,
{
    proof {
        lemma_sin_half_bounds(x as int);
        let p = PI_FX as int;
        assert(4 * (x as int) * (p - x) <= p * p) by (nonlinear_arith)
            requires
                0 <= x <= p,
        ;
        assert(0 <= (x as int) * (p - x) <= p * p) by (nonlinear_arith)
            requires
                0 <= x <= p,
        ;
    }
    let t: i64 = x * (PI_FX - x);
    let num: i128 = 16 * (t as i128) * (SCALE as i128);
    let den: i128 = 5 * (PI_FX as i128) * (PI_FX as i128) - 4 * (t as i128);
    proof {
        let p = PI_FX as int;
        assert(num as int == 16 * (x as int) * (p - x) * SCALE) by (nonlinear_arith)
            requires
                t == (x as int) * (p - x),
                num == 16 * (t as int) * SCALE,
        ;
        assert(den as int == 5 * p * p - 4 * (x as int) * (p - x)) by (nonlinear_arith)
            requires
                t == (x as int) * (p - x),
                den == 5 * p * p - 4 * (t as int),
        ;
        assert(den >= 1);
    }
    let q = tdiv_exec(num, den);
    proof {
        assert(q == sin_half_spec(x as int));
    }
    q as i64
}

/// The sine of a reduced angle, in micro-units.
pub fn sin_fx(x: i64) -> (r: i64)
    requires
        0 <= x < TWO_PI_FX,
    ensures
        r == sin_spec(x as int),
        -SCALE <= r <= SCALE,
{
    if x <= PI_FX {
        sin_half(x)
    } else {
        -sin_half(x - PI_FX)
    }
}

/// The cosine of a reduced angle, in micro-units.
pub fn cos_fx(x: i64) -> (r: i64)
    requires
        0 <= x < TWO_PI_FX,
    ensures
        r == cos_spec(x as int),
        -SCALE <= r <= SCALE,
{
    if x + HALF_PI_FX < TWO_PI_FX {
        sin_fx(x + HALF_PI_FX)
    } else {
        sin_fx(x + HALF_PI_FX - TWO_PI_FX)
    }
}

} // verus!
