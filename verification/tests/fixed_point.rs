use cartpole::fixed::{fx_mul_exec, fx_sqrt, isqrt_u128, tdiv_i128, SCALE};

#[test]
fn scale_is_one_million() {
    assert_eq!(SCALE, 1_000_000);
}

#[test]
fn fx_mul_positive() {
    // 1.5 * 2.0 == 3.0
    assert_eq!(fx_mul_exec(1_500_000, 2_000_000), 3_000_000);
}

#[test]
fn fx_mul_negative_rounds_toward_zero() {
    assert_eq!(fx_mul_exec(-1_500_000, 2_000_000), -3_000_000);
    // -1 raw unit times 0.1: product is -0.1 raw units, rounded to zero.
    assert_eq!(fx_mul_exec(-1, 100_000), 0);
}

#[test]
fn fx_mul_truncates() {
    // 0.333333 * 3.0 == 0.999999
    assert_eq!(fx_mul_exec(333_333, 3_000_000), 999_999);
}

#[test]
fn fx_sqrt_perfect_square() {
    // sqrt(4.0) == 2.0
    assert_eq!(fx_sqrt(4_000_000), 2_000_000);
}

#[test]
fn fx_sqrt_two() {
    // sqrt(2.0) == 1.414213..., floor at six decimals
    assert_eq!(fx_sqrt(2_000_000), 1_414_213);
}

#[test]
fn fx_sqrt_zero() {
    assert_eq!(fx_sqrt(0), 0);
}

#[test]
fn isqrt_small_values() {
    assert_eq!(isqrt_u128(0), 0);
    assert_eq!(isqrt_u128(1), 1);
    assert_eq!(isqrt_u128(10), 3);
    assert_eq!(isqrt_u128(16), 4);
    assert_eq!(isqrt_u128(10_000_000_000_000_000_000_000), 100_000_000_000);
}

#[test]
fn tdiv_rounds_toward_zero_both_signs() {
    assert_eq!(tdiv_i128(7, 2), 3);
    assert_eq!(tdiv_i128(-7, 2), -3);
    assert_eq!(tdiv_i128(0, 5), 0);
}
