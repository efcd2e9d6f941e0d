//! Tests of the fixed-point scalar: exact arithmetic, rounding toward zero,
//! saturation at the range bounds, and the transcendental functions.

use micrograd::{Fx, E_RAW, SCALE};

#[test]
fn from_int_scales() {
    assert_eq!(Fx::from_int(2).raw(), 2 * SCALE);
    assert_eq!(Fx::from_int(-3).raw(), -3 * SCALE);
    assert_eq!(Fx::zero().raw(), 0);
    assert_eq!(Fx::one().raw(), SCALE);
}

#[test]
fn exact_products_and_sums() {
    let two = Fx::from_int(2);
    let three = Fx::from_int(3);
    assert_eq!(two.add(three), Fx::from_int(5));
    assert_eq!(two.sub(three), Fx::from_int(-1));
    assert_eq!(two.mul(three), Fx::from_int(6));
    assert_eq!(two.neg(), Fx::from_int(-2));
}

#[test]
fn division_rounds_toward_zero() {
    let two = Fx::from_int(2);
    let three = Fx::from_int(3);
    assert_eq!(two.div(three).raw(), 666_666);
    assert_eq!(two.neg().div(three).raw(), -666_666);
    assert_eq!(Fx::from_ratio(1, 3).raw(), 333_333);
    assert_eq!(Fx::from_ratio(-7, 2).raw(), -3_500_000);
}

#[test]
fn division_by_zero_saturates() {
    assert_eq!(Fx::from_int(5).div(Fx::zero()).raw(), i64::MAX);
    assert_eq!(Fx::from_int(-5).div(Fx::zero()).raw(), i64::MIN);
    assert_eq!(Fx::zero().div(Fx::zero()).raw(), 0);
}

#[test]
fn saturation_at_the_bounds() {
    let top = Fx::from_raw(i64::MAX);
    let bottom = Fx::from_raw(i64::MIN);
    assert_eq!(top.add(Fx::one()).raw(), i64::MAX);
    assert_eq!(bottom.sub(Fx::one()).raw(), i64::MIN);
    assert_eq!(bottom.neg().raw(), i64::MAX);
    assert_eq!(top.mul(top).raw(), i64::MAX);
    assert_eq!(top.mul(bottom).raw(), i64::MIN);
}

#[test]
fn trunc_takes_the_whole_part() {
    assert_eq!(Fx::from_ratio(7, 2).trunc(), 3);
    assert_eq!(Fx::from_ratio(-7, 2).trunc(), -3);
    assert_eq!(Fx::from_int(12).trunc(), 12);
    assert_eq!(Fx::from_raw(999_999).trunc(), 0);
}

#[test]
fn exp_of_zero_and_one() {
    assert_eq!(Fx::zero().exp(), Fx::one());
    assert_eq!(Fx::one().exp().raw(), E_RAW);
}

#[test]
fn exp_is_monotone_on_samples() {
    let a = Fx::from_ratio(1, 2).exp().raw();
    let b = Fx::one().exp().raw();
    let c = Fx::from_int(2).exp().raw();
    assert!(SCALE < a && a < b && b < c);
    // e^0.5 is about 1.648721, computed to a few fractional digits
    assert!((a - 1_648_721).abs() < 200);
    // a large argument saturates outright
    assert_eq!(Fx::from_int(50).exp().raw(), i64::MAX);
    // a very negative argument collapses to zero
    assert_eq!(Fx::from_int(-50).exp().raw(), 0);
}

#[test]
fn tanh_values() {
    assert_eq!(Fx::zero().tanh().raw(), 0);
    // tanh(1) is about 0.761594
    let t = Fx::one().tanh().raw();
    assert!((t - 761_594).abs() < 200);
    // odd symmetry within rounding
    let n = Fx::one().neg().tanh().raw();
    assert!((t + n).abs() < 5);
    // saturating tail
    let big = Fx::from_int(20).tanh().raw();
    assert!(999_000 <= big && big <= SCALE);
}

#[test]
fn relu_clamps_negatives() {
    assert_eq!(Fx::from_int(-4).relu(), Fx::zero());
    assert_eq!(Fx::from_int(4).relu(), Fx::from_int(4));
    assert_eq!(Fx::zero().relu(), Fx::zero());
}

#[test]
fn integer_powers() {
    assert_eq!(Fx::from_int(2).powi(10), Fx::from_int(1024));
    assert_eq!(Fx::from_int(2).powi(0), Fx::one());
    assert_eq!(Fx::from_int(2).powi(-1).raw(), 500_000);
    assert_eq!(Fx::from_int(2).powi(-2).raw(), 250_000);
    assert_eq!(Fx::from_int(-3).powi(3), Fx::from_int(-27));
}
