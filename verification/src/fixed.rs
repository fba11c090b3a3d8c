//! Fixed-point arithmetic over `i64` raw values.
//!
//! A quantity `x` is represented by the raw integer `x * SCALE`, rounded
//! toward zero; `SCALE` is one million, so values carry six decimal places.
//! The spec functions here are the mathematical meaning of every arithmetic
//! step the crate performs, and the executable helpers are proved to return
//! exactly those values.

use vstd::arithmetic::div_mod::*;
use vstd::prelude::*;

verus! {

/// Number of raw units that represent the value one.
pub const SCALE: i64 = 1_000_000;

/// Integer division that rounds toward zero, as Rust's `/` does on
/// machine integers. Defined for positive divisors.
pub open spec fn tdiv(a: int, b: int) -> int {
    if a >= 0 {
        a / b
    } else {
        -((-a) / b)
    }
}

/// Product of two fixed-point values, rounded toward zero.
pub open spec fn fx_mul(a: int, b: int) -> int {
    tdiv(a * b, SCALE as int)
}

/// Quotient of two fixed-point values, rounded toward zero.
pub open spec fn fx_div(a: int, b: int) -> int {
    tdiv(a * SCALE, b)
}

/// Floor of the square root of a nonnegative integer.
pub open spec fn isqrt_spec(n: int) -> int
    decreases n,
{
    if n <= 0 {
        0
    } else {
        let r = isqrt_spec(n - 1);
        if (r + 1) * (r + 1) <= n {
            r + 1
        } else {
            r
        }
    }
}

/// Square root of a nonnegative fixed-point value, as a fixed-point value,
/// rounded down.
pub open spec fn fx_sqrt_spec(x: int) -> int {
    isqrt_spec(x * SCALE)
}

/// The floor square root squared never exceeds its argument, and the next
/// integer squared always exceeds it.
pub proof fn lemma_isqrt_bounds(n: int)
    ensures
        0 <= isqrt_spec(n),
        isqrt_spec(n) * isqrt_spec(n) <= if n >= 0 { n } else { 0 },
        n < (isqrt_spec(n) + 1) * (isqrt_spec(n) + 1),
    decreases n,
{
    if n <= 0 {
    } else {
        lemma_isqrt_bounds(n - 1);
        let r = isqrt_spec(n - 1);
        if (r + 1) * (r + 1) <= n {
            assert(isqrt_spec(n) == r + 1);
            assert(n - 1 < (r + 1) * (r + 1));
            assert(n == (r + 1) * (r + 1));
            assert((r + 1) * (r + 1) < (r + 2) * (r + 2)) by (nonlinear_arith)
                requires
                    r >= 0,
            ;
            assert(n < (isqrt_spec(n) + 1) * (isqrt_spec(n) + 1));
        } else {
            assert(isqrt_spec(n) == r);
            assert(r * r <= n - 1);
            assert(n < (r + 1) * (r + 1));
        }
    }
}

/// Any integer sitting between consecutive squares is the floor square root.
pub proof fn lemma_isqrt_unique(n: int, r: int)
    requires
        0 <= n,
        0 <= r,
        r * r <= n,
        n < (r + 1) * (r + 1),
    ensures
        r == isqrt_spec(n),
{
    let s = isqrt_spec(n);
    lemma_isqrt_bounds(n);
    if r < s {
        assert((r + 1) * (r + 1) <= s * s) by (nonlinear_arith)
            requires
                0 <= r,
                r + 1 <= s,
        ;
    }
    if s < r {
        assert((s + 1) * (s + 1) <= r * r) by (nonlinear_arith)
            requires
                0 <= s,
                s + 1 <= r,
        ;
    }
}

/// Dividing a multiple of a positive integer by it recovers the cofactor,
/// also under rounding toward zero.
pub proof fn lemma_tdiv_mul_cancel(g: int, k: int)
    requires
        k > 0,
    ensures
        tdiv(k * g, k) == g,
{
    if g >= 0 {
        assert(k * g >= 0) by (nonlinear_arith)
            requires
                k > 0,
                g >= 0,
        ;
        lemma_div_multiples_vanish(g, k);
    } else {
        assert(k * g < 0 && -(k * g) == k * (-g)) by (nonlinear_arith)
            requires
                k > 0,
                g < 0,
        ;
        lemma_div_multiples_vanish(-g, k);
    }
}

/// Rounding toward zero maps a bounded numerator to a bounded quotient.
pub proof fn lemma_tdiv_bounds(a: int, b: int, c: int)
    requires
        b > 0,
        0 <= c,
        -c <= a <= c,
    ensures
        -tdiv(c, b) <= tdiv(a, b) <= tdiv(c, b),
        0 <= tdiv(c, b) <= c,
        a >= 0 ==> tdiv(a, b) >= 0,
{
    lemma_div_pos_is_pos(c, b);
    lemma_div_nonincreasing(c, b);
    if a >= 0 {
        lemma_div_pos_is_pos(a, b);
        lemma_div_is_ordered(a, c, b);
    } else {
        lemma_div_pos_is_pos(-a, b);
        lemma_div_is_ordered(-a, c, b);
    }
}

/// A nonnegative numerator divided by a larger positive divisor gives a
/// quotient no larger than with the smaller divisor.
pub proof fn lemma_tdiv_denominator(c: int, b: int, bmin: int)
    requires
        0 <= c,
        0 < bmin <= b,
    ensures
        0 <= tdiv(c, b) <= tdiv(c, bmin),
{
    lemma_div_pos_is_pos(c, b);
    lemma_div_is_ordered_by_denominator(c, bmin, b);
}

/// Division rounding toward zero, on `i128` operands.
pub fn tdiv_i128(a: i128, b: i128) -> (q: i128)
    requires
        b > 0,
        a != i128::MIN,
    ensures
        q == tdiv(a as int, b as int),
{
    if a >= 0 {
        let qu: u128 = (a as u128) / (b as u128);
        proof {
            lemma_div_pos_is_pos(a as int, b as int);
            lemma_div_nonincreasing(a as int, b as int);
        }
        qu as i128
    } else {
        let na: u128 = (-a) as u128;
        let qu: u128 = na / (b as u128);
        proof {
            lemma_div_pos_is_pos(na as int, b as int);
            lemma_div_nonincreasing(na as int, b as int);
        }
        -(qu as i128)
    }
}

/// Fixed-point product; the caller must show that the mathematical result
/// fits in an `i64`.
pub fn fx_mul_exec(a: i64, b: i64) -> (r: i64)
    requires
        -(i64::MAX as int) <= fx_mul(a as int, b as int) <= i64::MAX as int,
    ensures
        r == fx_mul(a as int, b as int),
{
    proof {
        assert((a as int) * (b as int) < i128::MAX && i128::MIN < (a as int) * (b as int))
            by (nonlinear_arith)
            requires
                i64::MIN <= a <= i64::MAX,
                i64::MIN <= b <= i64::MAX,
        ;
    }
    let p: i128 = (a as i128) * (b as i128);
    let q: i128 = tdiv_i128(p, SCALE as i128);
    q as i64
}

/// Floor square root, computed by bisection.
pub fn isqrt_u128(n: u128) -> (r: u128)
    requires
        n < 1_267_650_600_228_229_401_496_703_205_376,  // 2^100
    ensures
        r == isqrt_spec(n as int),
        r * r <= n < (r + 1) * (r + 1),
{
    let mut lo: u128 = 0;
    let mut hi: u128 = 1_125_899_906_842_624;  // 2^50
    proof {
        assert((hi as int) * (hi as int) == 1_267_650_600_228_229_401_496_703_205_376int)
            by (nonlinear_arith)
            requires
                hi == 1_125_899_906_842_624u128,
        ;
    }
    while hi - lo > 1
        invariant
            lo < hi,
            hi <= 1_125_899_906_842_624,
            lo * lo <= n,
            n < hi * hi,
        decreases hi - lo,
    {
        let mid: u128 = lo + (hi - lo) / 2;
        proof {
            assert((mid as int) * (mid as int) <= u128::MAX as int) by (nonlinear_arith)
                requires
                    0 <= mid <= 1_125_899_906_842_624,
            ;
        }
        let sq: u128 = mid * mid;
        if sq <= n {
            lo = mid;
        } else {
            hi = mid;
        }
    }
    proof {
        lemma_isqrt_unique(n as int, lo as int);
    }
    lo
}

/// Fixed-point square root of a nonnegative fixed-point value.
pub fn fx_sqrt(x: i64) -> (r: i64)
    requires
        0 <= x,
    ensures
        r == fx_sqrt_spec(x as int),
        0 <= r,
        r * r <= (x as int) * (SCALE as int),
        (x as int) * (SCALE as int) < (r + 1) * (r + 1),
{
    proof {
        assert((x as int) * (SCALE as int) < 1_267_650_600_228_229_401_496_703_205_376int)
            by (nonlinear_arith)
            requires
                0 <= x <= i64::MAX,
        ;
    }
    let n: u128 = (x as u128) * (SCALE as u128);
    let r: u128 = isqrt_u128(n);
    proof {
        assert((r as int) < 4_398_046_511_104int) by (nonlinear_arith)
            requires
                (r as int) * (r as int) <= (n as int),
                (n as int) <= 9_223_372_036_854_775_807_000_000int,
                0 <= r,
        ;  // 2^42 squared exceeds any i64 value times SCALE
    }
    r as i64
}

} // verus!
