//! Fixed-point arithmetic on millionths, rounded toward zero.
use vstd::prelude::*;

verus! {

/// Raw units per whole unit.
pub const SCALE: i64 = 1_000_000;

/// Whether a mathematical integer can be stored as a raw value.
pub open spec fn fits(x: int) -> bool {
    i64::MIN <= x <= i64::MAX
}

/// The stored form of `x`, if it has one.
pub open spec fn stored(x: int) -> Option<i64> {
    if fits(x) {
        Some(x as i64)
    } else {
        None
    }
}

/// The quotient of `n` by a positive `d`, rounded toward zero.
pub open spec fn trunc_div(n: int, d: int) -> int {
    if n >= 0 {
        n / d
    } else {
        -((-n) / d)
    }
}

/// The product of two fixed-point values, as a fixed-point value.
pub open spec fn product(a: int, b: int) -> int {
    trunc_div(a * b, SCALE as int)
}

/// The quotient of two fixed-point values, as a fixed-point value.
pub open spec fn quotient(a: int, b: int) -> int {
    trunc_div(a * SCALE, b)
}

/// `a * b / c` with a single rounding: the part of `a` that `b` is of `c`.
pub open spec fn portion(a: int, b: int, c: int) -> int {
    trunc_div(a * b, c)
}

/// `a` in percent of a positive `b`, as a fixed-point value.
pub open spec fn percentage(a: int, b: int) -> int {
    trunc_div(a * (100 * SCALE), b)
}

/// Rounding toward zero never moves a quotient away from zero, nor past the
/// exact value.
pub proof fn lemma_trunc_div_bounds(n: int, d: int)
    requires
        d > 0,
    ensures
        n >= 0 ==> 0 <= trunc_div(n, d) <= n,
        n <= 0 ==> n <= trunc_div(n, d) <= 0,
        n >= 0 ==> trunc_div(n, d) * d <= n < (trunc_div(n, d) + 1) * d,
        n <= 0 ==> (trunc_div(n, d) - 1) * d < n <= trunc_div(n, d) * d,
{
    let m: int = if n >= 0 { n } else { -n };
    let q: int = m / d;
    assert(0 <= q <= m && q * d <= m < (q + 1) * d) by (nonlinear_arith)
        requires
            m >= 0,
            d > 0,
            q == m / d,
    ;
    if n <= 0 {
        assert((-q - 1) * d == -((q + 1) * d)) by (nonlinear_arith);
        assert((-q) * d == -(q * d)) by (nonlinear_arith);
    }
}

/// An exact multiple divides back without rounding.
pub proof fn lemma_trunc_div_exact(q: int, d: int)
    requires
        d > 0,
    ensures
        trunc_div(q * d, d) == q,
{
    if q >= 0 {
        assert(q * d >= 0 && (q * d) / d == q) by (nonlinear_arith)
            requires
                q >= 0,
                d > 0,
        ;
    } else {
        assert(q * d < 0 && (-(q * d)) / d == -q) by (nonlinear_arith)
            requires
                q < 0,
                d > 0,
        ;
    }
}

/// Stores a wide value, or reports that it does not fit.
pub fn narrow(x: i128) -> (r: Option<i64>)
    ensures
        r == stored(x as int),
{
    if x < -9_223_372_036_854_775_808i128 || x > 9_223_372_036_854_775_807i128 {
        None
    } else {
        Some(x as i64)
    }
}

/// Divides by a positive divisor, rounding toward zero.
pub fn div_trunc(n: i128, d: i128) -> (q: i128)
    requires
        d > 0,
        n > i128::MIN,
    ensures
        q == trunc_div(n as int, d as int),
{
    proof {
        lemma_trunc_div_bounds(n as int, d as int);
    }
    if n >= 0 {
        n / d
    } else {
        let m: i128 = -n;
        let q: i128 = m / d;
        -q
    }
}

/// The exact product of two raw values, which always fits in 128 bits.
pub fn wide_product(a: i64, b: i64) -> (r: i128)
    ensures
        r == a as int * b as int,
        -0x4000_0000_0000_0000_0000_0000_0000_0000 < r <= 0x4000_0000_0000_0000_0000_0000_0000_0000,
{
    proof {
        lemma_product_range(a as int, b as int);
    }
    let x: i128 = a as i128;
    let y: i128 = b as i128;
    x * y
}

/// The product of two raw values has magnitude at most 2^126.
pub proof fn lemma_product_range(a: int, b: int)
    requires
        fits(a),
        fits(b),
    ensures
        -0x4000_0000_0000_0000_0000_0000_0000_0000 < a * b <= 0x4000_0000_0000_0000_0000_0000_0000_0000,
{
    let m: int = 0x8000_0000_0000_0000;
    assert(-(m * m) <= a * b <= m * m) by (nonlinear_arith)
        requires
            -m <= a <= m,
            -m <= b <= m,
            m >= 0,
    ;
    assert(m * m == 0x4000_0000_0000_0000_0000_0000_0000_0000) by (nonlinear_arith)
        requires
            m == 0x8000_0000_0000_0000,
    ;
    if a * b == -(m * m) {
        assert(false) by (nonlinear_arith)
            requires
                -m <= a < m,
                -m <= b < m,
                m > 0,
                a * b == -(m * m),
        ;
    }
}

/// The product of two raw values, rescaled, has magnitude below 2^107.
pub proof fn lemma_product_magnitude(a: int, b: int)
    requires
        fits(a),
        fits(b),
    ensures
        -0x800_0000_0000_0000_0000_0000_0000 < product(a, b)
            < 0x800_0000_0000_0000_0000_0000_0000,
{
    lemma_product_range(a, b);
    lemma_trunc_div_bounds(a * b, SCALE as int);
    let q: int = product(a, b);
    if a * b >= 0 {
        assert(q < 0x800_0000_0000_0000_0000_0000_0000) by (nonlinear_arith)
            requires
                q * 1_000_000 <= a * b,
                a * b <= 0x4000_0000_0000_0000_0000_0000_0000_0000,
        ;
    } else {
        assert(q > -0x800_0000_0000_0000_0000_0000_0000) by (nonlinear_arith)
            requires
                a * b <= q * 1_000_000,
                a * b > -0x4000_0000_0000_0000_0000_0000_0000_0000,
        ;
    }
}

/// The fixed-point product of two values, exact and wide.
pub fn product_wide(a: i64, b: i64) -> (r: i128)
    ensures
        r == product(a as int, b as int),
        -0x800_0000_0000_0000_0000_0000_0000 < r < 0x800_0000_0000_0000_0000_0000_0000,
{
    proof {
        lemma_product_magnitude(a as int, b as int);
    }
    div_trunc(wide_product(a, b), SCALE as i128)
}

/// Multiplies two fixed-point values; `None` where the result cannot be
/// stored.
pub fn mul_fixed(a: i64, b: i64) -> (r: Option<i64>)
    ensures
        r == stored(product(a as int, b as int)),
{
    narrow(product_wide(a, b))
}

/// A wide whole number as a fixed-point value.
pub fn scaled(x: i128) -> (r: i128)
    requires
        -0x1_0000_0000_0000_0000_0000_0000 <= x <= 0x1_0000_0000_0000_0000_0000_0000,
    ensures
        r == x * SCALE,
        -0x10_0000_0000_0000_0000_0000_0000_0000 < r < 0x10_0000_0000_0000_0000_0000_0000_0000,
        x >= 0 ==> r >= 0,
{
    x * 1_000_000
}

/// A hundred times a wide value, as a fixed-point value: the dividend of a
/// percentage.
pub fn hundredfold(x: i128) -> (r: i128)
    requires
        -0x1_0000_0000_0000_0000_0000 <= x <= 0x1_0000_0000_0000_0000_0000,
    ensures
        r == x * (100 * SCALE),
        -0x800_0000_0000_0000_0000_0000_0000 < r < 0x800_0000_0000_0000_0000_0000_0000,
{
    x * 100_000_000
}

/// Adds two raw values; `None` where the sum cannot be stored.
pub fn add_fixed(a: i64, b: i64) -> (r: Option<i64>)
    ensures
        r == stored(a + b),
{
    let x: i128 = a as i128;
    let y: i128 = b as i128;
    narrow(x + y)
}

/// Subtracts two raw values; `None` where the difference cannot be stored.
pub fn sub_fixed(a: i64, b: i64) -> (r: Option<i64>)
    ensures
        r == stored(a - b),
{
    let x: i128 = a as i128;
    let y: i128 = b as i128;
    narrow(x - y)
}

/// A quotient lies between any two integers whose multiples of the divisor
/// enclose the dividend.
pub proof fn lemma_trunc_div_between(n: int, d: int, lo: int, hi: int)
    requires
        d > 0,
        lo * d <= n <= hi * d,
    ensures
        lo <= trunc_div(n, d) <= hi,
{
    lemma_trunc_div_bounds(n, d);
    let q: int = trunc_div(n, d);
    if n >= 0 {
        assert(lo <= q) by (nonlinear_arith)
            requires
                d > 0,
                lo * d <= n,
                n < (q + 1) * d,
        ;
        assert(q <= hi) by (nonlinear_arith)
            requires
                d > 0,
                q * d <= n,
                n <= hi * d,
        ;
    } else {
        assert(lo <= q) by (nonlinear_arith)
            requires
                d > 0,
                lo * d <= n,
                n <= q * d,
        ;
        assert(q <= hi) by (nonlinear_arith)
            requires
                d > 0,
                (q - 1) * d < n,
                n <= hi * d,
        ;
    }
}

/// The mean of `a` and `b` weighted by `wa` and `wb`, rounded toward zero.
pub open spec fn weighted_mean(a: int, wa: int, b: int, wb: int) -> int {
    trunc_div(a * wa + b * wb, wa + wb)
}

/// A weighted mean lies between the two values it averages.
pub proof fn lemma_weighted_mean_between(a: int, wa: int, b: int, wb: int)
    requires
        wa >= 0,
        wb >= 0,
        wa + wb > 0,
    ensures
        a <= b ==> a <= weighted_mean(a, wa, b, wb) <= b,
        b <= a ==> b <= weighted_mean(a, wa, b, wb) <= a,
{
    let lo: int = if a <= b { a } else { b };
    let hi: int = if a <= b { b } else { a };
    assert(lo * (wa + wb) <= a * wa + b * wb <= hi * (wa + wb)) by (nonlinear_arith)
        requires
            wa >= 0,
            wb >= 0,
            lo <= a <= hi,
            lo <= b <= hi,
    ;
    lemma_trunc_div_between(a * wa + b * wb, wa + wb, lo, hi);
}

/// Computes a weighted mean; it always fits, lying between `a` and `b`.
pub fn mean_weighted(a: i64, wa: i64, b: i64, wb: i64) -> (r: i64)
    requires
        wa >= 0,
        wb >= 0,
        wa + wb > 0,
        wa + wb <= i64::MAX,
    ensures
        r == weighted_mean(a as int, wa as int, b as int, wb as int),
{
    proof {
        lemma_weighted_mean_between(a as int, wa as int, b as int, wb as int);
        let m: int = 0x8000_0000_0000_0000;
        assert(-(m * (m - 1)) <= a * wa <= m * (m - 1)) by (nonlinear_arith)
            requires
                -m <= a < m,
                0 <= wa < m,
                m > 0,
        ;
        assert(-(m * (m - 1)) <= b * wb <= m * (m - 1)) by (nonlinear_arith)
            requires
                -m <= b < m,
                0 <= wb < m,
                m > 0,
        ;
        assert(m * (m - 1) == 0x3fff_ffff_ffff_ffff_8000_0000_0000_0000) by (nonlinear_arith)
            requires
                m == 0x8000_0000_0000_0000,
        ;
    }
    let left: i128 = wide_product(a, wa);
    let right: i128 = wide_product(b, wb);
    let total: i128 = left + right;
    let weight: i128 = wa as i128 + wb as i128;
    let q: i128 = div_trunc(total, weight);
    q as i64
}

/// A price moved by a fraction of itself: `price * (1 + fraction)`.
pub open spec fn adjusted(price: int, fraction: int) -> int {
    trunc_div(price * (SCALE + fraction), SCALE as int)
}

/// Moves a price by a fraction of itself; `None` where the result cannot be
/// stored.
pub fn adjust(price: i64, fraction: i64) -> (r: Option<i64>)
    ensures
        r == stored(adjusted(price as int, fraction as int)),
{
    let factor: i128 = SCALE as i128 + fraction as i128;
    let wide: i128 = price as i128;
    proof {
        let m: int = 0x8000_0000_0000_0000;
        assert(-(m * (m + 1_000_000)) <= wide * factor <= m * (m + 1_000_000)) by (nonlinear_arith)
            requires
                -m <= wide <= m,
                -(m + 1_000_000) <= factor <= m + 1_000_000,
                m > 0,
        ;
        assert(m * (m + 1_000_000) == 0x4000_0000_0007_a120_0000_0000_0000_0000) by (nonlinear_arith)
            requires
                m == 0x8000_0000_0000_0000,
        ;
    }
    narrow(div_trunc(wide * factor, SCALE as i128))
}

/// The part of an amount that falls to `part` of `whole` is no larger than
/// the amount and has its sign.
pub proof fn lemma_portion_bounds(a: int, part: int, whole: int)
    requires
        0 <= part <= whole,
        whole > 0,
    ensures
        a >= 0 ==> 0 <= portion(a, part, whole) <= a,
        a <= 0 ==> a <= portion(a, part, whole) <= 0,
        part == whole ==> portion(a, part, whole) == a,
        part == 0 ==> portion(a, part, whole) == 0,
{
    if a >= 0 {
        assert(0 * whole <= a * part <= a * whole) by (nonlinear_arith)
            requires
                a >= 0,
                0 <= part <= whole,
        ;
        lemma_trunc_div_between(a * part, whole, 0, a);
    } else {
        assert(a * whole <= a * part <= 0 * whole) by (nonlinear_arith)
            requires
                a <= 0,
                0 <= part <= whole,
        ;
        lemma_trunc_div_between(a * part, whole, a, 0);
    }
    if part == whole {
        lemma_trunc_div_exact(a, whole);
    }
    if part == 0 {
        assert(a * part == 0) by (nonlinear_arith)
            requires
                part == 0,
        ;
    }
}

/// The part of `a` that falls to `part` of `whole`; it always fits.
pub fn share(a: i64, part: i64, whole: i64) -> (r: i64)
    requires
        0 <= part <= whole,
        whole > 0,
    ensures
        r == portion(a as int, part as int, whole as int),
{
    proof {
        lemma_portion_bounds(a as int, part as int, whole as int);
    }
    let wide: i128 = wide_product(a, part);
    let q: i128 = div_trunc(wide, whole as i128);
    q as i64
}

} // verus!
