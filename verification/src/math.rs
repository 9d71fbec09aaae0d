//! Fixed-point numbers and the small vectors built from them.
//!
//! Every length, coordinate and speed factor in this crate is an `i64` count of
//! position units, `UNIT` of which make one pixel. The same scale represents
//! dimensionless factors: a factor of `UNIT` is 1. Results that leave the range
//! of `i64` stick to the nearest bound.

use vstd::prelude::*;
use vstd::arithmetic::div_mod::lemma_fundamental_div_mod_converse;

verus! {

/// Position units per pixel, and the fixed-point value of the factor 1.
pub const UNIT: i64 = 10_000;

/// The `i64` nearest to `v`.
pub open spec fn saturated(v: int) -> i64 {
    if v < i64::MIN {
        i64::MIN
    } else if v > i64::MAX {
        i64::MAX
    } else {
        v as i64
    }
}

/// `v` multiplied by the fixed-point factor `factor`, rounded down to a whole unit.
pub open spec fn scaled(v: int, factor: int) -> int {
    (v * factor) / (UNIT as int)
}

/// `v` pulled into the interval from `lo` to `hi`. Where the interval is empty, the lower
/// bound wins for values below it.
pub open spec fn clamped(v: int, lo: int, hi: int) -> int {
    if v < lo {
        lo
    } else if v > hi {
        hi
    } else {
        v
    }
}

/// A point or an extent in the plane.
#[derive(Clone, Copy, Debug, PartialEq, Eq, Structural)]
pub struct Vec2 {
    pub x: i64,
    pub y: i64,
}

/// A point in space. Only `x` and `y` take part in motion and collision; `z` is the
/// drawing layer and is carried along.
#[derive(Clone, Copy, Debug, PartialEq, Eq, Structural)]
pub struct Vec3 {
    pub x: i64,
    pub y: i64,
    pub z: i64,
}

/// Narrows a wide intermediate result to `i64`, sticking to the bound it crosses.
pub fn saturate(v: i128) -> (r: i64)
    ensures
        r == saturated(v as int),
{
    if v < i64::MIN as i128 {
        i64::MIN
    } else if v > i64::MAX as i128 {
        i64::MAX
    } else {
        v as i64
    }
}

/// Quotient of `a` by a positive `b`, rounded toward negative infinity.
pub fn floor_div(a: i128, b: i128) -> (q: i128)
    requires
        b > 0,
    ensures
        q == a as int / b as int,
{
    if a >= 0 {
        a / b
    } else {
        let n: i128 = -(a + 1);
        let below: i128 = n / b;
        proof {
            let r = n as int % b as int;
            assert(n as int == b as int * (n as int / b as int) + r && 0 <= r < b) by {
                vstd::arithmetic::div_mod::lemma_fundamental_div_mod(n as int, b as int);
                vstd::arithmetic::div_mod::lemma_mod_bound(n as int, b as int);
            }
            assert(0 <= n as int / b as int <= n) by {
                vstd::arithmetic::div_mod::lemma_div_pos_is_pos(n as int, b as int);
                vstd::arithmetic::div_mod::lemma_div_is_ordered_by_denominator(n as int, 1, b as int);
            }
            let q = -(n as int / b as int) - 1;
            assert(a as int == q * b as int + (b - r - 1)) by (nonlinear_arith)
                requires
                    n as int == b as int * (n as int / b as int) + r,
                    n == -(a + 1),
                    q == -(n as int / b as int) - 1,
            ;
            lemma_fundamental_div_mod_converse(a as int, b as int, q, b - r - 1);
        }
        -below - 1
    }
}

/// Multiplies `v` by the fixed-point factor `factor`. The result is exact up to the
/// rounding down to a whole unit, and always fits the wide type.
pub fn scale(v: i64, factor: i64) -> (r: i128)
    ensures
        r == scaled(v as int, factor as int),
        -0x4000_0000_0000_0000_0000_0000_0000_0000 <= r <= 0x4000_0000_0000_0000_0000_0000_0000_0000,
{
    proof {
        lemma_product_bound(v as int, factor as int);
    }
    let product: i128 = (v as i128) * (factor as i128);
    let q: i128 = floor_div(product, UNIT as i128);
    proof {
        lemma_floor_div_bound(product as int, UNIT as int, 0x4000_0000_0000_0000_0000_0000_0000_0000);
    }
    q
}

/// Pulls `v` into the interval from `lo` to `hi`.
pub fn clamp(v: i64, lo: i64, hi: i64) -> (r: i64)
    ensures
        r == clamped(v as int, lo as int, hi as int),
{
    if v < lo {
        lo
    } else if v > hi {
        hi
    } else {
        v
    }
}

/// Scaling is exact up to its rounding: the result, taken back to the scale of the
/// product, lies at most one unit below the product and never above it.
pub proof fn lemma_scaled_bounds(v: int, factor: int)
    ensures
        UNIT * scaled(v, factor) <= v * factor < UNIT * scaled(v, factor) + UNIT,
        (v * factor) % (UNIT as int) == 0 ==> UNIT * scaled(v, factor) == v * factor,
{
    vstd::arithmetic::div_mod::lemma_fundamental_div_mod(v * factor, UNIT as int);
    vstd::arithmetic::div_mod::lemma_mod_bound(v * factor, UNIT as int);
}

/// The product of two `i64` values has magnitude at most 2^126.
pub proof fn lemma_product_bound(a: int, b: int)
    requires
        i64::MIN <= a <= i64::MAX,
        i64::MIN <= b <= i64::MAX,
    ensures
        -0x4000_0000_0000_0000_0000_0000_0000_0000 <= a * b <= 0x4000_0000_0000_0000_0000_0000_0000_0000,
{
    let m: int = 0x8000_0000_0000_0000;
    assert(a * b <= m * m && a * b >= -(m * m)) by (nonlinear_arith)
        requires
            -m <= a <= m,
            -m <= b <= m,
            m >= 0,
    ;
    assert(m * m == 0x4000_0000_0000_0000_0000_0000_0000_0000) by (nonlinear_arith)
        requires
            m == 0x8000_0000_0000_0000,
    ;
}

/// Rounding a quotient down keeps it within the bound of its numerator.
pub proof fn lemma_floor_div_bound(a: int, b: int, bound: int)
    requires
        b >= 1,
        -bound <= a <= bound,
    ensures
        -bound <= a / b <= bound,
{
    assert(-bound <= a / b <= bound) by (nonlinear_arith)
        requires
            b >= 1,
            -bound <= a <= bound,
    {
        vstd::arithmetic::div_mod::lemma_fundamental_div_mod(a, b);
        vstd::arithmetic::div_mod::lemma_mod_bound(a, b);
    }
}

} // verus!
