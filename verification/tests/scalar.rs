use softbody::alg::scalar::{Scalar, ONE_RAW};

fn s(v: f64) -> Scalar {
    Scalar::from_raw((v * ONE_RAW as f64).round() as i64)
}

#[test]
fn one_has_thirty_two_fraction_bits() {
    assert_eq!(Scalar::one().raw, 1i64 << 32);
    assert_eq!(Scalar::from_int(1), Scalar::one());
    assert_eq!(Scalar::from_int(-3).raw, -3 * ONE_RAW);
    assert_eq!(Scalar::zero().raw, 0);
}

#[test]
fn product_of_halves_is_a_quarter() {
    let half = Scalar::from_raw(1 << 31);
    assert_eq!(half.mul(half).raw, 1 << 30);
}

#[test]
fn sum_and_difference_saturate() {
    let top = Scalar::from_raw(i64::MAX);
    let bottom = Scalar::from_raw(i64::MIN);
    assert_eq!(top.add(Scalar::one()).raw, i64::MAX);
    assert_eq!(bottom.sub(Scalar::one()).raw, i64::MIN);
    assert_eq!(bottom.neg().raw, i64::MAX);
    assert_eq!(top.double().raw, i64::MAX);
    assert_eq!(s(1.5).add(s(2.25)), s(3.75));
    assert_eq!(s(1.5).sub(s(2.25)), s(-0.75));
    assert_eq!(s(1.5).neg(), s(-1.5));
    assert_eq!(s(1.5).double(), s(3.0));
}

#[test]
fn product_rounds_down() {
    // One raw unit times a half is half a raw unit: down to zero, or to minus one.
    let tiny = Scalar::from_raw(1);
    assert_eq!(tiny.mul(s(0.5)).raw, 0);
    assert_eq!(tiny.neg().mul(s(0.5)).raw, -1);
    assert_eq!(s(-1.5).mul(s(2.0)), s(-3.0));
    assert_eq!(s(3.0).mul(s(-0.25)), s(-0.75));
}

#[test]
fn product_saturates() {
    let big = Scalar::from_int(100000);
    assert_eq!(big.mul(big).raw, i64::MAX);
    assert_eq!(big.mul(big.neg()).raw, i64::MIN);
}

#[test]
fn quotient_rounds_down() {
    assert_eq!(s(1.0).div(s(4.0)), s(0.25));
    assert_eq!(s(-1.0).div(s(4.0)), s(-0.25));
    assert_eq!(s(1.0).div(s(-4.0)), s(-0.25));
    // 1 / 3 = 0.333...: the raw value is the floor of 2^32 / 3.
    assert_eq!(Scalar::one().div(Scalar::from_int(3)).raw, 1431655765);
    assert_eq!(Scalar::one().neg().div(Scalar::from_int(3)).raw, -1431655766);
    assert_eq!(Scalar::one().div(Scalar::from_int(-3)).raw, -1431655766);
}

#[test]
fn division_by_zero_saturates() {
    assert_eq!(s(2.0).div(Scalar::zero()).raw, i64::MAX);
    assert_eq!(s(-2.0).div(Scalar::zero()).raw, i64::MIN);
    assert_eq!(Scalar::zero().div(Scalar::zero()).raw, 0);
}

#[test]
fn mul_div_rounds_once() {
    // 3 * 1 / 3 is exactly 1, though 1 / 3 is not a scalar.
    let three = Scalar::from_int(3);
    assert_eq!(three.mul_div(Scalar::one(), three), Scalar::one());
    assert_eq!(three.mul(Scalar::one().div(three)).raw, ONE_RAW - 1);
    assert_eq!(s(5.0).mul_div(s(-1.0), s(2.0)), s(-2.5));
    assert_eq!(Scalar::zero().mul_div(s(7.0), Scalar::zero()).raw, 0);
}

#[test]
fn square_roots() {
    assert_eq!(s(4.0).sqrt(), s(2.0));
    assert_eq!(s(0.25).sqrt(), s(0.5));
    assert_eq!(Scalar::zero().sqrt(), Scalar::zero());
    assert_eq!(s(-4.0).sqrt(), Scalar::zero());
    // sqrt(2) * 2^32 = 6074000999.95...
    assert_eq!(s(2.0).sqrt().raw, 6074000999);
    let top = Scalar::from_raw(i64::MAX);
    let root = top.sqrt().raw as i128;
    let wide = (i64::MAX as i128) << 32;
    assert!(root * root <= wide && wide < (root + 1) * (root + 1));
}

#[test]
fn comparisons() {
    assert!(s(1.0).lt(s(1.5)));
    assert!(!s(1.5).lt(s(1.5)));
    assert!(s(0.1).is_positive());
    assert!(!Scalar::zero().is_positive());
    assert!(!s(-0.1).is_positive());
}
