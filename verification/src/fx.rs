//! Fixed-point arithmetic in micro-units.
//!
//! A quantity of one (one maze cell, one radian, full stick deflection) is
//! `SCALE` micro-units. Products and quotients are truncated toward zero,
//! which `mul_spec` and `div_spec` state exactly.

use vstd::prelude::*;

verus! {

/// Number of micro-units in one unit.
pub const SCALE: i64 = 1000000;

/// Truncating (toward zero) division of `a` by a positive divisor `d`.
pub open spec fn tdiv(a: int, d: int) -> int {
    if a >= 0 {
        a / d
    } else {
        -((-a) / d)
    }
}

/// The value of a fixed-point product: `a * b / SCALE`, truncated toward zero.
pub open spec fn mul_spec(a: int, b: int) -> int {
    tdiv(a * b, SCALE as int)
}

/// The value of a fixed-point quotient: `a * SCALE / d`, truncated toward zero.
pub open spec fn div_spec(a: int, d: int) -> int {
    tdiv(a * SCALE, d)
}

/// Clamping to a symmetric interval `[-bound, bound]`.
pub open spec fn clamp_spec(v: int, bound: int) -> int {
    if v < -bound {
        -bound
    } else if v > bound {
        bound
    } else {
        v
    }
}

proof fn lemma_tdiv_bound(a: int, d: int, m: int)
    requires
        d >= 1,
        vstd::math::abs(a) <= m,
    ensures
        vstd::math::abs(tdiv(a, d)) <= m,
{
    if a >= 0 {
        vstd::arithmetic::div_mod::lemma_div_is_ordered(a, m, d);
        vstd::arithmetic::div_mod::lemma_div_pos_is_pos(a, d);
    } else {
        vstd::arithmetic::div_mod::lemma_div_is_ordered(-a, m, d);
        vstd::arithmetic::div_mod::lemma_div_pos_is_pos(-a, d);
    }
}

/// Truncating division of a signed value by a positive divisor, computed on
/// magnitudes so that machine division and the spec-level `tdiv` agree.
pub(crate) fn tdiv_exec(a: i128, d: i128) -> (r: i128)
    requires
        d >= 1,
        a != i128::MIN,
    ensures
        r == tdiv(a as int, d as int),
        vstd::math::abs(r as int) <= vstd::math::abs(a as int),
{
    proof {
        lemma_tdiv_bound(a as int, d as int, vstd::math::abs(a as int) as int);
    }
    if a >= 0 {
        let q: i128 = a / d;
        proof {
            vstd::arithmetic::div_mod::lemma_div_pos_is_pos(a as int, d as int);
        }
        q
    } else {
        let q: i128 = (-a) / d;
        proof {
            vstd::arithmetic::div_mod::lemma_div_pos_is_pos(-a as int, d as int);
        }
        -q
    }
}

/// A product shrinks: if one factor is at most `SCALE` in magnitude, the
/// fixed-point product is no larger in magnitude than the other factor.
pub proof fn lemma_mul_spec_bound(a: int, b: int, m: int)
    requires
        vstd::math::abs(a) <= SCALE,
        vstd::math::abs(b) <= m,
    ensures
        vstd::math::abs(mul_spec(a, b)) <= m,
{
    assert(vstd::math::abs(a * b) <= m * SCALE) by (nonlinear_arith)
        requires
            vstd::math::abs(a) <= SCALE,
            vstd::math::abs(b) <= m,
    ;
    lemma_tdiv_bound_frac(a * b, SCALE as int, m);
}

/// The fixed-point product does not depend on the order of its factors.
pub proof fn lemma_mul_spec_comm(a: int, b: int)
    ensures
        mul_spec(a, b) == mul_spec(b, a),
{
    assert(a * b == b * a) by (nonlinear_arith);
}

/// A quotient by a divisor of at least `SCALE` shrinks.
pub proof fn lemma_div_spec_bound(a: int, d: int, m: int)
    requires
        d >= SCALE,
        vstd::math::abs(a) <= m,
    ensures
        vstd::math::abs(div_spec(a, d)) <= m,
{
    assert(vstd::math::abs(a * SCALE) <= m * d) by (nonlinear_arith)
        requires
            d >= SCALE,
            SCALE >= 1,
            vstd::math::abs(a) <= m,
    ;
    lemma_tdiv_bound_frac(a * SCALE, d, m);
}

/// If `|a| <= m * d` then `|tdiv(a, d)| <= m`.
pub proof fn lemma_tdiv_bound_frac(a: int, d: int, m: int)
    requires
        d >= 1,
        m >= 0,
        vstd::math::abs(a) <= m * d,
    ensures
        vstd::math::abs(tdiv(a, d)) <= m,
{
    assert(m * d == d * m) by (nonlinear_arith);
    vstd::arithmetic::div_mod::lemma_div_multiples_vanish(m, d);
    if a >= 0 {
        vstd::arithmetic::div_mod::lemma_div_is_ordered(a, m * d, d);
        vstd::arithmetic::div_mod::lemma_div_pos_is_pos(a, d);
    } else {
        vstd::arithmetic::div_mod::lemma_div_is_ordered(-a, m * d, d);
        vstd::arithmetic::div_mod::lemma_div_pos_is_pos(-a, d);
    }
}

/// Fixed-point multiply: `a * b / SCALE`, truncated toward zero.
pub fn fx_mul(a: i64, b: i64) -> (r: i64)
    requires
        vstd::math::abs(a as int) <= 0x2000000000000000,
        vstd::math::abs(b as int) <= 0x2000000000000000,
        vstd::math::abs(mul_spec(a as int, b as int)) <= i64::MAX,
    ensures
        r == mul_spec(a as int, b as int),
{
    let p: i128 = (a as i128) * (b as i128);
    let q = tdiv_exec(p, SCALE as i128);
    q as i64
}

/// Fixed-point divide: `a * SCALE / d` for a positive `d`, truncated toward zero.
pub fn fx_div(a: i64, d: i64) -> (r: i64)
    requires
        d >= 1,
        vstd::math::abs(a as int) <= 0x2000000000000000,
        vstd::math::abs(div_spec(a as int, d as int)) <= i64::MAX,
    ensures
        r == div_spec(a as int, d as int),
{
    let p: i128 = (a as i128) * (SCALE as i128);
    let q = tdiv_exec(p, d as i128);
    q as i64
}

/// Clamp `v` into `[-bound, bound]`.
pub fn fx_clamp(v: i64, bound: i64) -> (r: i64)
    requires
        bound >= 0,
    ensures
        r == clamp_spec(v as int, bound as int),
{
    if v < -bound {
        -bound
    } else if v > bound {
        bound
    } else {
        v
    }
}

} // verus!
