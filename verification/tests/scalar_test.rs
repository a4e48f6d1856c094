use raytracer::scalar::{is_equal, Scalar, EPSILON_RAW, LIMIT, SCALE};

fn s(x: f64) -> Scalar {
    let text = format!("{}", x);
    let (whole, fraction) = text.split_once('.').unwrap_or((text.as_str(), ""));
    let mut digits = format!("{}{:0<16}", whole, fraction);
    digits.truncate(whole.len() + 16);
    Scalar::from_raw(digits.parse::<i128>().unwrap())
}

fn f(x: Scalar) -> f64 {
    x.raw() as f64 / 1e16
}

#[test]
fn float_test_is_equal() {
    assert_eq!(is_equal(s(0.), s(0.)), true);
    assert_eq!(is_equal(s(0.), s(0.000005)), true);

    assert_eq!(is_equal(s(0.), s(1.)), false);
    assert_eq!(is_equal(s(0.), s(0.00001)), false);
}

#[test]
fn test_is_equal_either_way() {
    assert!(s(1.).is_equal(s(1.000009)));
    assert!(s(1.000009).is_equal(s(1.)));
    assert!(!s(1.).is_equal(s(0.99999)));
    assert!(s(-1.).is_equal(s(-1.000009)));
    assert!(!s(-0.000005).is_equal(s(0.000005)));
    assert!(!Scalar::infinity().is_equal(Scalar::neg_infinity()));
}

#[test]
fn test_from_raw_clamps() {
    assert_eq!(Scalar::from_raw(LIMIT + 1).raw(), LIMIT);
    assert_eq!(Scalar::from_raw(-LIMIT - 1).raw(), -LIMIT);
    assert_eq!(Scalar::from_raw(i128::MAX).raw(), LIMIT);
    assert_eq!(Scalar::from_raw(i128::MIN).raw(), -LIMIT);
    assert_eq!(Scalar::from_raw(12345).raw(), 12345);
}

#[test]
fn test_constants() {
    assert_eq!(Scalar::zero().raw(), 0);
    assert_eq!(Scalar::one().raw(), SCALE);
    assert_eq!(Scalar::epsilon().raw(), EPSILON_RAW);
    assert_eq!(Scalar::infinity().raw(), LIMIT);
    assert_eq!(Scalar::neg_infinity().raw(), -LIMIT);
    assert_eq!(Scalar::from_int(-7).raw(), -7 * SCALE);
    assert_eq!(Scalar::from_count(800).raw(), 800 * SCALE);
    assert_eq!(Scalar::pi().raw(), 31_415_926_535_897_932);
    assert_eq!(SCALE, 10_000_000_000_000_000);
    assert_eq!(EPSILON_RAW, SCALE / 100_000);
    assert_eq!(LIMIT, SCALE * 1_000_000_000_000_000_000);
    assert_eq!(Scalar::from_int(i64::MAX), Scalar::infinity());
    assert_eq!(Scalar::from_int(i64::MIN), Scalar::neg_infinity());
    assert_eq!(Scalar::from_int(1_000_000_000_000_000_000).raw(), LIMIT);
    assert_eq!(Scalar::from_int(999_999_999_999_999_999).raw(), LIMIT - SCALE);
    assert_eq!(Scalar::from_count(usize::MAX), Scalar::infinity());
}

#[test]
fn test_add_and_sub_saturate() {
    assert_eq!(s(1.5).add(s(2.25)), s(3.75));
    assert_eq!(s(1.5).sub(s(2.25)), s(-0.75));
    assert_eq!(Scalar::infinity().add(Scalar::one()), Scalar::infinity());
    assert_eq!(Scalar::neg_infinity().sub(Scalar::one()), Scalar::neg_infinity());
    assert_eq!(Scalar::infinity().add(Scalar::neg_infinity()), Scalar::zero());
}

#[test]
fn test_mul_truncates_toward_zero() {
    assert_eq!(s(1.5).mul(s(-2.5)), s(-3.75));
    assert_eq!(Scalar::from_raw(3).mul(s(0.5)).raw(), 1);
    assert_eq!(Scalar::from_raw(-3).mul(s(0.5)).raw(), -1);
    assert_eq!(Scalar::from_raw(1).mul(Scalar::from_raw(1)).raw(), 0);
    assert_eq!(s(0.).mul(Scalar::infinity()), Scalar::zero());
}

#[test]
fn test_mul_saturates() {
    assert_eq!(Scalar::infinity().mul(s(2.)), Scalar::infinity());
    assert_eq!(Scalar::infinity().mul(s(-2.)), Scalar::neg_infinity());
    assert_eq!(s(1e10).mul(s(1e10)), Scalar::infinity());
    assert_eq!(s(1e9).mul(s(1e9)).raw(), LIMIT);
    assert_eq!(s(1e9).mul(s(1e8)).raw(), LIMIT / 10);
    assert_eq!(s(123456789.123).mul(s(-987654.321)).raw(), -1_219_326_312_341_167_504_830_000_000_000);
    assert_eq!(Scalar::infinity().mul(Scalar::infinity()), Scalar::infinity());
    assert_eq!(Scalar::infinity().mul(Scalar::from_raw(1)).raw(), LIMIT / SCALE);
    assert_eq!(Scalar::infinity().mul(Scalar::from_raw(-3)).raw(), -3 * (LIMIT / SCALE));
}

#[test]
fn test_div() {
    assert_eq!(s(1.).div(s(4.)), s(0.25));
    assert_eq!(s(-1.).div(s(3.)).raw(), -3_333_333_333_333_333);
    assert_eq!(s(1.).div(s(-3.)).raw(), -3_333_333_333_333_333);
    assert_eq!(s(2.).div(s(3.)).raw(), 6_666_666_666_666_666);
    assert_eq!(s(1e17).div(s(0.5)), s(2e17));
    assert_eq!(s(1e17).div(s(0.001)), Scalar::infinity());
    assert_eq!(s(-1e17).div(s(0.001)), Scalar::neg_infinity());
    assert_eq!(Scalar::from_raw(1).div(Scalar::infinity()), Scalar::zero());
    assert_eq!(Scalar::infinity().div(Scalar::infinity()), s(1.));
    assert_eq!(Scalar::infinity().div(Scalar::from_raw(1)), Scalar::infinity());
}

#[test]
fn test_div_by_zero() {
    assert_eq!(s(1.).div(s(0.)), Scalar::infinity());
    assert_eq!(s(-1.).div(s(0.)), Scalar::neg_infinity());
    assert_eq!(s(0.).div(s(0.)), Scalar::zero());
}

#[test]
fn test_sqrt() {
    assert_eq!(s(4.).sqrt(), s(2.));
    assert_eq!(s(2.).sqrt().raw(), 14_142_135_623_730_950);
    assert_eq!(s(0.).sqrt(), s(0.));
    assert_eq!(s(-4.).sqrt(), s(0.));
    assert_eq!(Scalar::from_raw(1).sqrt().raw(), 100_000_000);
    assert_eq!(Scalar::from_raw(2).sqrt().raw(), 141_421_356);
    assert_eq!(Scalar::infinity().sqrt().raw(), 10_000_000_000_000_000_000_000_000);
}

#[test]
fn test_sqrt_is_rounded_down() {
    for raw in [1i128, 2, 3, 999_999_999, 1_000_000_001, 123_456_789_012_345, 99_999_999_999_999_999_999] {
        let r = Scalar::from_raw(raw).sqrt().raw();
        assert!(r * r <= raw * SCALE);
        assert!((r + 1) * (r + 1) > raw * SCALE);
    }
    let big = Scalar::from_raw(LIMIT - 1).sqrt().raw();
    assert_eq!(big, 9_999_999_999_999_999_999_999_999);
}

#[test]
fn test_neg_abs_min_max() {
    assert_eq!(s(1.5).neg(), s(-1.5));
    assert_eq!(s(-1.5).abs(), s(1.5));
    assert_eq!(s(1.5).abs(), s(1.5));
    assert_eq!(s(1.).max(s(2.)), s(2.));
    assert_eq!(s(1.).min(s(2.)), s(1.));
    assert_eq!(s(-1.).max(s(-2.)), s(-1.));
    assert_eq!(s(-1.).min(s(-2.)), s(-2.));
}

#[test]
fn test_comparisons() {
    assert!(s(1.).lt(s(2.)));
    assert!(!s(2.).lt(s(2.)));
    assert!(s(2.).le(s(2.)));
    assert!(s(3.).gt(s(2.)));
    assert!(!s(2.).gt(s(2.)));
    assert!(s(2.).ge(s(2.)));
    assert!(s(2.).equals(s(2.)));
    assert!(!s(2.).equals(Scalar::from_raw(2 * SCALE + 1)));
}

#[test]
fn test_floor() {
    assert_eq!(s(1.5).floor(), s(1.));
    assert_eq!(s(-1.5).floor(), s(-2.));
    assert_eq!(s(2.).floor(), s(2.));
    assert_eq!(s(-2.).floor(), s(-2.));
    assert_eq!(s(0.999999999).floor(), s(0.));
    assert_eq!(s(-1e17).sub(Scalar::from_raw(1)).floor().raw(), (-100_000_000_000_000_001) * SCALE);
    assert_eq!(Scalar::from_raw(-1).floor(), s(-1.));
    assert_eq!(Scalar::neg_infinity().floor(), Scalar::neg_infinity());
}

#[test]
fn test_has_even_floor() {
    assert!(s(0.5).has_even_floor());
    assert!(!s(1.5).has_even_floor());
    assert!(s(2.).has_even_floor());
    assert!(!s(-0.5).has_even_floor());
    assert!(s(-1.5).has_even_floor());
    assert!(!s(-1.).has_even_floor());
}

#[test]
fn test_powi() {
    assert_eq!(s(2.).powi(0), s(1.));
    assert_eq!(s(2.).powi(1), s(2.));
    assert_eq!(s(2.).powi(10), s(1024.));
    assert_eq!(s(-2.).powi(3), s(-8.));
    assert_eq!(s(0.5).powi(5), s(0.03125));
    assert_eq!(s(10.).powi(17), s(1e17));
    assert_eq!(s(10.).powi(25), Scalar::infinity());
}

#[test]
fn test_pow() {
    assert_eq!(s(2.).pow(s(3.)), s(8.));
    assert_eq!(s(4.).pow(s(0.5)), s(2.));
    assert_eq!(s(4.).pow(s(1.5)), s(8.));
    assert_eq!(s(2.).pow(s(-2.)), s(0.25));
    assert_eq!(s(7.).pow(s(0.)), s(1.));
    assert_eq!(s(1.).pow(s(200.)), s(1.));
    assert_eq!(s(0.).pow(s(2.)), s(0.));
    assert!((f(s(2.).pow(s(0.3))) - 2f64.powf(0.3)).abs() < 1e-12);
    assert!((f(s(0.9).pow(s(200.))) - 0.9f64.powf(200.)).abs() < 1e-12);
    assert!((f(s(0.7).pow(s(2.75))) - 0.7f64.powf(2.75)).abs() < 1e-12);
}

#[test]
fn test_sin_cos_tan() {
    let pi = std::f64::consts::PI;
    for x in [0., 0.1, 0.5, 1., pi / 6., pi / 5., pi / 4., pi / 3., pi / 2., 2., 3., pi, -0.3, -1.5, -pi / 2., 4., 7., -9., 100.] {
        assert!((f(s(x).sin()) - x.sin()).abs() < 1e-13, "sin {}", x);
        assert!((f(s(x).cos()) - x.cos()).abs() < 1e-13, "cos {}", x);
    }
    assert_eq!(s(0.).sin(), s(0.));
    assert_eq!(s(0.).cos(), s(1.));
    assert!(s(pi / 4.).tan().is_equal(s(1.)));
    assert!(s(-pi / 4.).tan().is_equal(s(-1.)));
    assert!(s(1.).tan().is_equal(s(1f64.tan())));
}
