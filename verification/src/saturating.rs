//! Fixed-point arithmetic that stops at the ends of the range instead of
//! failing: what the performance figures are computed in.
use vstd::prelude::*;
use crate::fixed::{
    div_trunc, portion, product, product_wide, quotient, trunc_div, wide_product, SCALE,
};

verus! {

/// The storable value nearest to `x`.
pub open spec fn clamp(x: int) -> i64 {
    if x < i64::MIN {
        i64::MIN
    } else if x > i64::MAX {
        i64::MAX
    } else {
        x as i64
    }
}

/// Clamps a wide value.
pub fn saturate(x: i128) -> (r: i64)
    ensures
        r == clamp(x as int),
{
    if x < -9_223_372_036_854_775_808i128 {
        i64::MIN
    } else if x > 9_223_372_036_854_775_807i128 {
        i64::MAX
    } else {
        x as i64
    }
}

pub fn sat_add(a: i64, b: i64) -> (r: i64)
    ensures
        r == clamp(a + b),
{
    saturate(a as i128 + b as i128)
}

pub fn sat_sub(a: i64, b: i64) -> (r: i64)
    ensures
        r == clamp(a - b),
{
    saturate(a as i128 - b as i128)
}

/// The fixed-point product, clamped.
pub fn sat_mul(a: i64, b: i64) -> (r: i64)
    ensures
        r == clamp(product(a as int, b as int)),
{
    saturate(product_wide(a, b))
}

/// The fixed-point quotient by a positive divisor, clamped.
pub fn sat_div(a: i64, b: i64) -> (r: i64)
    requires
        b > 0,
    ensures
        r == clamp(quotient(a as int, b as int)),
{
    saturate(div_trunc(wide_product(a, SCALE), b as i128))
}

/// `a * b / c` for a positive `c`, rounded once and clamped.
pub fn sat_portion(a: i64, b: i64, c: i64) -> (r: i64)
    requires
        c > 0,
    ensures
        r == clamp(portion(a as int, b as int, c as int)),
{
    saturate(div_trunc(wide_product(a, b), c as i128))
}

/// An amount cut down to whole hundredths.
pub open spec fn cents(x: i64) -> i64 {
    (trunc_div(x as int, 10_000) * 10_000) as i64
}

/// Cutting down to hundredths moves an amount toward zero by less than a
/// hundredth.
pub proof fn lemma_cents_bounds(x: int)
    ensures
        x >= 0 ==> x - 10_000 < trunc_div(x, 10_000) * 10_000 <= x,
        x <= 0 ==> x <= trunc_div(x, 10_000) * 10_000 < x + 10_000,
{
    crate::fixed::lemma_trunc_div_bounds(x, 10_000);
}

/// Cuts an amount down to whole hundredths.
pub fn to_cents(x: i64) -> (r: i64)
    ensures
        r == cents(x),
        x >= 0 ==> x - 10_000 < r <= x,
        x <= 0 ==> x <= r < x + 10_000,
{
    proof {
        lemma_cents_bounds(x as int);
    }
    let q: i128 = div_trunc(x as i128, 10_000i128);
    (q * 10_000i128) as i64
}

/// Whether `r` is the square root of `x`, rounded down.
pub open spec fn is_root(r: int, x: int) -> bool {
    r >= 0 && r * r <= x < (r + 1) * (r + 1)
}

/// The square root of a number that is not negative, rounded down.
pub open spec fn root(x: int) -> int {
    choose|r: int| is_root(r, x)
}

/// A number has at most one rounded-down square root.
pub proof fn lemma_root_unique(a: int, b: int, x: int)
    requires
        is_root(a, x),
        is_root(b, x),
    ensures
        a == b,
{
    if a < b {
        assert((a + 1) * (a + 1) <= b * b) by (nonlinear_arith)
            requires
                0 <= a,
                a + 1 <= b,
        ;
    }
    if b < a {
        assert((b + 1) * (b + 1) <= a * a) by (nonlinear_arith)
            requires
                0 <= b,
                b + 1 <= a,
        ;
    }
}

/// The square root of `x`, rounded down, for `x` below 2^100.
pub fn sqrt_floor(x: i128) -> (r: i128)
    requires
        0 <= x < 0x1_0000_0000_0000_0000_0000_0000_0,
    ensures
        is_root(r as int, x as int),
        r == root(x as int),
        r < 0x4_0000_0000_0000,
{
    let mut low: i128 = 0;
    let mut high: i128 = 0x4_0000_0000_0000;
    proof {
        assert(0x4_0000_0000_0000int * 0x4_0000_0000_0000int == 0x1_0000_0000_0000_0000_0000_0000_0)
            by (nonlinear_arith);
    }
    while high - low > 1
        invariant
            0 <= low < high <= 0x4_0000_0000_0000,
            low * low <= x < high * high,
        decreases high - low,
    {
        let middle: i128 = low + (high - low) / 2;
        proof {
            assert(0 <= middle * middle <= 0x4_0000_0000_0000int * 0x4_0000_0000_0000int)
                by (nonlinear_arith)
                requires
                    0 <= middle <= 0x4_0000_0000_0000,
            ;
            assert(0x4_0000_0000_0000int * 0x4_0000_0000_0000int
                == 0x1_0000_0000_0000_0000_0000_0000_0) by (nonlinear_arith);
        }
        if middle * middle <= x {
            low = middle;
        } else {
            high = middle;
        }
    }
    proof {
        assert(high == low + 1);
        assert(is_root(low as int, x as int));
        lemma_root_unique(low as int, root(x as int), x as int);
    }
    low
}

} // verus!
