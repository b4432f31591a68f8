use softraster::fixed::{
    floor_div, floor_ratio, fx_div, fx_mul, isqrt, narrow, wide_mul, wide_mul64, ONE,
};

#[test]
fn one_is_two_to_the_sixteen() {
    assert_eq!(ONE, 65536);
}

#[test]
fn narrow_clamps() {
    assert_eq!(narrow(5), 5);
    assert_eq!(narrow(-5), -5);
    assert_eq!(narrow(1 << 40), i32::MAX);
    assert_eq!(narrow(-(1 << 40)), i32::MIN);
    assert_eq!(narrow(i32::MAX as i128), i32::MAX);
    assert_eq!(narrow(i32::MIN as i128), i32::MIN);
}

#[test]
fn wide_products_are_exact() {
    assert_eq!(wide_mul(i32::MIN, i32::MIN), 1i64 << 62);
    assert_eq!(wide_mul(-3, 7), -21);
    assert_eq!(wide_mul64(i64::MIN, i64::MIN), 1i128 << 126);
    assert_eq!(wide_mul64(1 << 40, -(1 << 40)), -(1i128 << 80));
}

#[test]
fn floor_div_rounds_down() {
    assert_eq!(floor_div(7, 2), 3);
    assert_eq!(floor_div(-7, 2), -4);
    assert_eq!(floor_div(-8, 2), -4);
    assert_eq!(floor_div(-1, 65536), -1);
    assert_eq!(floor_div(0, 3), 0);
    assert_eq!(floor_div(i128::MIN, 1), i128::MIN);
}

#[test]
fn floor_ratio_takes_either_sign() {
    assert_eq!(floor_ratio(7, -2), -4);
    assert_eq!(floor_ratio(-7, -2), 3);
    assert_eq!(floor_ratio(-7, 2), -4);
    assert_eq!(floor_ratio(6, -2), -3);
}

#[test]
fn fx_mul_exact_values() {
    assert_eq!(fx_mul(3 * ONE, 2 * ONE), 6 * ONE);
    assert_eq!(fx_mul(ONE / 2, ONE / 2), ONE / 4);
    assert_eq!(fx_mul(-3 * ONE, ONE / 2), -3 * ONE / 2);
    assert_eq!(fx_mul(ONE, 12345), 12345);
    assert_eq!(fx_mul(0, i32::MAX), 0);
}

#[test]
fn fx_mul_rounds_down() {
    // 1/65536 times one half is below the resolution.
    assert_eq!(fx_mul(1, ONE / 2), 0);
    assert_eq!(fx_mul(-1, ONE / 2), -1);
}

#[test]
fn fx_mul_saturates() {
    assert_eq!(fx_mul(i32::MAX, i32::MAX), i32::MAX);
    assert_eq!(fx_mul(i32::MIN, i32::MAX), i32::MIN);
    assert_eq!(fx_mul(i32::MIN, i32::MIN), i32::MAX);
}

#[test]
fn fx_div_exact_values() {
    assert_eq!(fx_div(6 * ONE, 2 * ONE), 3 * ONE);
    assert_eq!(fx_div(ONE, 4 * ONE), ONE / 4);
    assert_eq!(fx_div(-ONE, 4 * ONE), -ONE / 4);
    assert_eq!(fx_div(ONE, -4 * ONE), -ONE / 4);
    assert_eq!(fx_div(-ONE, -4 * ONE), ONE / 4);
}

#[test]
fn fx_div_rounds_down() {
    assert_eq!(fx_div(1, 3 * ONE), 0);
    assert_eq!(fx_div(-1, 3 * ONE), -1);
    assert_eq!(fx_div(ONE, 3 * ONE), 21845);
}

#[test]
fn fx_div_saturates() {
    assert_eq!(fx_div(i32::MAX, 1), i32::MAX);
    assert_eq!(fx_div(i32::MIN, 1), i32::MIN);
    assert_eq!(fx_div(i32::MIN, -1), i32::MAX);
}

#[test]
fn isqrt_of_squares_and_neighbours() {
    assert_eq!(isqrt(0), 0);
    assert_eq!(isqrt(1), 1);
    assert_eq!(isqrt(3), 1);
    assert_eq!(isqrt(4), 2);
    assert_eq!(isqrt(99), 9);
    assert_eq!(isqrt(100), 10);
    assert_eq!(isqrt((1u128 << 64) - 1), (1u64 << 32) - 1);
    assert_eq!(isqrt(1u128 << 64), 1u64 << 32);
    assert_eq!(isqrt(u128::MAX), u64::MAX);
}

#[test]
fn isqrt_brackets_its_argument() {
    for n in [2u128, 17, 1000, 65535, 65536, 1 << 40, 123456789012345678901234567890] {
        let r = isqrt(n) as u128;
        assert!(r * r <= n);
        assert!(n < (r + 1) * (r + 1));
    }
}
