use ft_linear_regression::fixed::{Fixed, MAX_RAW, SCALE};

fn fx(raw: i64) -> Fixed {
    Fixed { raw }
}

#[test]
fn zero_and_from_micros() {
    assert_eq!(Fixed::zero().raw, 0);
    assert_eq!(Fixed::from_micros(2_500_000).unwrap().raw, 2_500_000);
    assert!(Fixed::from_micros(MAX_RAW).is_some());
    assert!(Fixed::from_micros(MAX_RAW + 1).is_none());
    assert!(Fixed::from_micros(-MAX_RAW - 1).is_none());
}

#[test]
fn from_int_scales_by_a_million() {
    assert_eq!(Fixed::from_int(3).unwrap().raw, 3_000_000);
    assert_eq!(Fixed::from_int(-7).unwrap().raw, -7_000_000);
    // A trillion is the largest representable whole number.
    assert_eq!(Fixed::from_int(1_000_000_000_000).unwrap().raw, MAX_RAW);
    assert!(Fixed::from_int(1_000_000_000_001).is_none());
}

#[test]
fn addition_and_subtraction_are_exact() {
    let a = fx(1_500_000);
    let b = fx(2_250_000);
    assert_eq!(a.try_add(b).unwrap().raw, 3_750_000);
    assert_eq!(a.try_sub(b).unwrap().raw, -750_000);
    assert!(fx(MAX_RAW).try_add(fx(1)).is_none());
    assert!(fx(-MAX_RAW).try_sub(fx(1)).is_none());
}

#[test]
fn multiplication_truncates_at_the_scale() {
    // 2.5 * 4 == 10
    assert_eq!(fx(2_500_000).try_mul(fx(4_000_000)).unwrap().raw, 10_000_000);
    // (1/3) * 3 == 0.999999: the stored third already lost the remainder
    assert_eq!(fx(333_333).try_mul(fx(3_000_000)).unwrap().raw, 999_999);
    // sign handling truncates toward zero
    assert_eq!(fx(-1_000_001).try_mul(fx(500_000)).unwrap().raw, -500_000);
    // overflow of the representable range
    assert!(fx(MAX_RAW).try_mul(fx(MAX_RAW)).is_none());
}

#[test]
fn division_truncates_toward_zero() {
    // 1 / 3 == 0.333333
    assert_eq!(fx(SCALE).try_div(fx(3 * SCALE)).unwrap().raw, 333_333);
    assert_eq!(fx(-SCALE).try_div(fx(3 * SCALE)).unwrap().raw, -333_333);
    assert_eq!(fx(SCALE).try_div(fx(-3 * SCALE)).unwrap().raw, -333_333);
    // 1 / 0.000001 == 1000000
    assert_eq!(fx(SCALE).try_div(fx(1)).unwrap().raw, 1_000_000 * SCALE);
    // the quotient can leave the range
    assert!(fx(MAX_RAW).try_div(fx(1)).is_none());
}

#[test]
fn sqrt_is_the_floor_square_root() {
    assert_eq!(fx(4 * SCALE).sqrt().raw, 2 * SCALE);
    // sqrt(2) == 1.414213...
    assert_eq!(fx(2 * SCALE).sqrt().raw, 1_414_213);
    assert_eq!(fx(0).sqrt().raw, 0);
}

#[test]
fn abs_and_lt() {
    assert_eq!(fx(-5).abs().raw, 5);
    assert_eq!(fx(5).abs().raw, 5);
    assert!(fx(-1).lt(fx(0)));
    assert!(!fx(3).lt(fx(3)));
}
