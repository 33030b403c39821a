//! Scaled-integer arithmetic helpers shared by the distance model, the
//! trilateration solver and the coordinate transform.
//!
//! Rust's signed division is not available to verified code, so the two
//! division flavours the pipeline needs — flooring and truncating — are
//! implemented here over unsigned magnitudes, with contracts that state the
//! mathematical quotient exactly.

use vstd::prelude::*;

verus! {

/// Quotient of `a / b` rounded toward zero, the rounding used wherever the
/// pipeline divides two signed quantities of the same scale.
pub open spec fn spec_div_trunc(a: int, b: int) -> int
    recommends
        b != 0,
{
    let n = if b < 0 {
        -a
    } else {
        a
    };
    let d = if b < 0 {
        -b
    } else {
        b
    };
    if n >= 0 {
        n / d
    } else {
        -((-n) / d)
    }
}

/// `v` saturated into `[-lim, lim]`.
pub open spec fn spec_clamp(v: int, lim: int) -> int
    recommends
        lim >= 0,
{
    if v > lim {
        lim
    } else if v < -lim {
        -lim
    } else {
        v
    }
}

/// Product of two values bounded in magnitude is bounded by the product of
/// the bounds.
pub proof fn lemma_mul_bounds(a: int, b: int, aa: int, bb: int)
    by (nonlinear_arith)
    requires
        -aa <= a <= aa,
        -bb <= b <= bb,
        0 <= aa,
        0 <= bb,
    ensures
        -(aa * bb) <= a * b <= aa * bb,
{
}

/// Flooring division by a positive divisor never grows the magnitude.
pub proof fn lemma_div_bounds(a: int, b: int, aa: int)
    by (nonlinear_arith)
    requires
        1 <= b,
        -aa <= a <= aa,
        0 <= aa,
    ensures
        -aa <= a / b <= aa,
{
}

/// A truncating quotient by a positive divisor is bounded by the flooring
/// quotient of the dividend's bound.
pub proof fn lemma_div_trunc_bounds(a: int, b: int, aa: int)
    requires
        1 <= b,
        -aa <= a <= aa,
        0 <= aa,
    ensures
        -(aa / b) <= spec_div_trunc(a, b) <= aa / b,
{
    vstd::arithmetic::div_mod::lemma_div_pos_is_pos(aa, b);
    if a >= 0 {
        vstd::arithmetic::div_mod::lemma_div_pos_is_pos(a, b);
        vstd::arithmetic::div_mod::lemma_div_is_ordered(a, aa, b);
    } else {
        vstd::arithmetic::div_mod::lemma_div_pos_is_pos(-a, b);
        vstd::arithmetic::div_mod::lemma_div_is_ordered(-a, aa, b);
    }
}

/// A flooring quotient of a negative dividend equals the negated ceiling
/// quotient of its magnitude.
proof fn lemma_neg_floor_div(a: int, b: int, m: int, q0: int)
    by (nonlinear_arith)
    requires
        1 <= b,
        m == -a,
        1 <= m,
        q0 == (m + (b - 1)) / b,
    ensures
        -q0 == a / b,
        1 <= q0 <= m,
{
    vstd::arithmetic::div_mod::lemma_fundamental_div_mod(m + (b - 1), b);
    vstd::arithmetic::div_mod::lemma_fundamental_div_mod(a, b);
}

/// Quotient of `a / b` rounded toward negative infinity, for a positive
/// divisor. This is exactly the mathematical (Euclidean) `a / b`.
pub fn floor_div_i64(a: i64, b: i64) -> (q: i64)
    requires
        1 <= b,
    ensures
        q == a as int / b as int,
{
    if a >= 0 {
        let m: u64 = a as u64;
        let d: u64 = b as u64;
        let q0: u64 = m / d;
        proof {
            lemma_div_bounds(a as int, b as int, a as int);
        }
        q0 as i64
    } else {
        let m: u128 = (-(a as i128)) as u128;
        let d: u128 = b as u128;
        let q0: u128 = (m + (d - 1)) / d;
        proof {
            lemma_neg_floor_div(a as int, b as int, m as int, q0 as int);
        }
        -(q0 as i128) as i64
    }
}

/// Quotient of `a / b` rounded toward zero, for wide intermediates of the
/// solver and the transform.
pub fn div_trunc_i128(a: i128, b: i128) -> (q: i128)
    requires
        b != 0,
        -0x4000_0000_0000_0000_0000_0000_0000_0000 < a
            < 0x4000_0000_0000_0000_0000_0000_0000_0000,
        -0x4000_0000_0000_0000_0000_0000_0000_0000 < b
            < 0x4000_0000_0000_0000_0000_0000_0000_0000,
    ensures
        q == spec_div_trunc(a as int, b as int),
{
    let n: i128 = if b < 0 {
        -a
    } else {
        a
    };
    let d: i128 = if b < 0 {
        -b
    } else {
        b
    };
    if n >= 0 {
        let q0: u128 = (n as u128) / (d as u128);
        proof {
            lemma_div_bounds(n as int, d as int, n as int);
        }
        q0 as i128
    } else {
        let q0: u128 = ((-n) as u128) / (d as u128);
        proof {
            lemma_div_bounds(-n as int, d as int, -n as int);
        }
        -(q0 as i128)
    }
}

/// `v` saturated into `[-lim, lim]`.
pub fn clamp_i128(v: i128, lim: i128) -> (c: i128)
    requires
        0 <= lim,
    ensures
        c == spec_clamp(v as int, lim as int),
{
    if v > lim {
        lim
    } else if v < -lim {
        -lim
    } else {
        v
    }
}

} // verus!
