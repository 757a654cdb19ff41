//! Fixed-point arithmetic of the risk engine.
//!
//! Prices, quantities and amounts of money are integers scaled by `SCALE`;
//! fractions are scaled by `FRACTION_SCALE`. Products are taken exactly, then
//! scaled back by dividing towards zero, and brought into range at the end.

use vstd::prelude::*;

verus! {

/// Units per whole for prices, quantities and amounts.
pub const SCALE: i128 = 100_000_000;

/// Units per whole for fractions.
pub const FRACTION_SCALE: i128 = 1_000_000;

/// Division that drops the fractional part, whatever the signs.
pub open spec fn div_to_zero(a: int, b: int) -> int {
    if a >= 0 {
        a / b
    } else {
        -((-a) / b)
    }
}

/// The closest value that an `i64` can hold.
pub open spec fn clamped(v: int) -> i64 {
    if v > i64::MAX {
        i64::MAX
    } else if v < i64::MIN {
        i64::MIN
    } else {
        v as i64
    }
}

/// Size of a number.
pub open spec fn magnitude(v: int) -> int {
    if v < 0 {
        -v
    } else {
        v
    }
}

/// Divides towards zero.
pub fn divide(a: i128, b: i128) -> (r: i128)
    requires
        b > 0,
        a > i128::MIN,
    ensures
        r == div_to_zero(a as int, b as int),
        magnitude(r as int) <= magnitude(a as int),
{
    proof {
        lemma_div_shrinks(magnitude(a as int), b as int);
    }
    if a >= 0 {
        a / b
    } else {
        -((-a) / b)
    }
}

pub proof fn lemma_div_shrinks(a: int, b: int)
    requires
        a >= 0,
        b > 0,
    ensures
        0 <= a / b <= a,
{
    assert(0 <= a / b <= a) by (nonlinear_arith)
        requires
            a >= 0,
            b > 0,
    ;
}

/// Brings a value into the range of `i64`.
pub fn clamp(v: i128) -> (r: i64)
    ensures
        r == clamped(v as int),
{
    if v > i64::MAX as i128 {
        i64::MAX
    } else if v < i64::MIN as i128 {
        i64::MIN
    } else {
        v as i64
    }
}

/// Size of a number.
pub fn size(v: i64) -> (r: i128)
    ensures
        r == magnitude(v as int),
        0 <= r <= 0x8000_0000_0000_0000,
{
    if v < 0 {
        -(v as i128)
    } else {
        v as i128
    }
}

/// A product of two bounded numbers is bounded.
pub proof fn lemma_product_bound(a: int, b: int, x: int, y: int)
    requires
        magnitude(a) <= x,
        magnitude(b) <= y,
    ensures
        magnitude(a * b) <= x * y,
{
    assert(magnitude(a * b) <= x * y) by (nonlinear_arith)
        requires
            -x <= a <= x,
            -y <= b <= y,
            magnitude(a * b) == a * b || magnitude(a * b) == -(a * b),
    ;
}

/// A quotient is rounded towards zero: what is left is smaller than the
/// divisor and has the sign of the dividend. One number is as far from zero as
/// its opposite. A value is kept if it is within the range, and else moved to
/// the end of the range that is closer.
pub proof fn law_rounding_and_range(a: int, b: int)
    requires
        b > 0,
    ensures
        ({
            let left = a - div_to_zero(a, b) * b;
            &&& a >= 0 ==> 0 <= left < b
            &&& a <= 0 ==> -b < left <= 0
        }),
        div_to_zero(-a, b) == -div_to_zero(a, b),
        magnitude(a) == magnitude(-a),
        magnitude(a) >= 0,
        magnitude(a) == a || magnitude(a) == -a,
        -0x8000_0000_0000_0000 <= a <= 0x7FFF_FFFF_FFFF_FFFF ==> clamped(a) == a,
        a > 0x7FFF_FFFF_FFFF_FFFF ==> clamped(a) == 0x7FFF_FFFF_FFFF_FFFF,
        a < -0x8000_0000_0000_0000 ==> clamped(a) == -0x8000_0000_0000_0000,
        SCALE == 100_000_000,
        FRACTION_SCALE == 1_000_000,
{
    let m = magnitude(a);
    let q = m / b;
    assert(0 <= m - q * b < b) by (nonlinear_arith)
        requires
            b > 0,
            q == m / b,
    ;
    assert((-q) * b == -(q * b)) by (nonlinear_arith);
    if a == 0 {
        assert(q == 0) by (nonlinear_arith)
            requires
                b > 0,
                q == 0int / b,
        ;
    }
}

} // verus!
