use balancer::amount::{Amount, MAX_MANTISSA, MAX_SCALE};

#[test]
fn new_keeps_mantissa_and_scale() {
    let a = Amount::new(-7825, 2);
    assert_eq!(a.mantissa(), -7825);
    assert_eq!(a.scale(), 2);
    assert!(!a.is_zero());
    assert!(Amount::zero().is_zero());
    assert_eq!(Amount::zero().scale(), 0);
}

#[test]
fn from_i128_with_scale_checks_the_range() {
    assert!(Amount::from_i128_with_scale(MAX_MANTISSA, MAX_SCALE).is_some());
    assert!(Amount::from_i128_with_scale(-MAX_MANTISSA, 0).is_some());
    assert!(Amount::from_i128_with_scale(MAX_MANTISSA + 1, 0).is_none());
    assert!(Amount::from_i128_with_scale(-MAX_MANTISSA - 1, 0).is_none());
    assert!(Amount::from_i128_with_scale(1, MAX_SCALE + 1).is_none());
}

#[test]
fn from_units_is_a_whole_number() {
    let a = Amount::from_units(u64::MAX);
    assert_eq!(a.mantissa(), u64::MAX as i128);
    assert_eq!(a.scale(), 0);
}

#[test]
fn equality_is_by_value() {
    assert_eq!(Amount::new(10, 1), Amount::new(1, 0));
    assert_eq!(Amount::new(65000, 2), Amount::new(650, 0));
    assert_eq!(Amount::new(0, 5), Amount::zero());
    assert_ne!(Amount::new(10, 1), Amount::new(10, 0));
    assert_ne!(Amount::new(1, 0), Amount::new(-1, 0));
    assert!(Amount::new(5, 1).same_value(Amount::new(50, 2)));
    assert!(!Amount::new(5, 1).same_value(Amount::new(51, 2)));
}

#[test]
fn exact_product_has_the_product_of_mantissas_and_the_sum_of_scales() {
    let p = Amount::new(3725, 2).times(Amount::from_units(5)).unwrap();
    assert_eq!(p.mantissa(), 18625);
    assert_eq!(p.scale(), 2);
    let q = Amount::new(-783412, 2).times(Amount::new(62, 2)).unwrap();
    assert_eq!(q.mantissa(), -48571544);
    assert_eq!(q.scale(), 4);
    let largest = Amount::from_i128_with_scale(MAX_MANTISSA, 14).unwrap();
    let r = largest.times(Amount::new(1, 14)).unwrap();
    assert_eq!(r.mantissa(), MAX_MANTISSA);
    assert_eq!(r.scale(), 28);
}

#[test]
fn product_with_zero_is_plain_zero() {
    let p = Amount::new(0, 7).times(Amount::new(3725, 2)).unwrap();
    assert_eq!(p.mantissa(), 0);
    assert_eq!(p.scale(), 0);
    let q = Amount::new(3725, 2).times(Amount::new(0, 28)).unwrap();
    assert_eq!(q.mantissa(), 0);
    assert_eq!(q.scale(), 0);
}

#[test]
fn product_out_of_range_is_none() {
    let largest = Amount::from_i128_with_scale(MAX_MANTISSA, 0).unwrap();
    assert_eq!(largest.times(Amount::new(2, 0)), None);
}

#[test]
fn product_beyond_the_precision_is_rounded() {
    let tiny = Amount::from_i128_with_scale(1, 28).unwrap();
    let p = tiny.times(Amount::new(5, 1)).unwrap();
    assert_eq!(p, Amount::zero());
}

#[test]
fn sum_and_difference() {
    assert_eq!(Amount::new(117375, 2).plus(Amount::new(3000, 0)), Some(Amount::new(417375, 2)));
    assert_eq!(Amount::new(10, 0).minus(Amount::new(1025, 2)), Some(Amount::new(-25, 2)));
    let largest = Amount::from_i128_with_scale(MAX_MANTISSA, 0).unwrap();
    assert_eq!(largest.plus(largest), None);
    assert_eq!(Amount::zero().minus(largest).unwrap().minus(largest), None);
}

#[test]
fn quotient() {
    assert_eq!(Amount::new(588000, 2).divided_by(Amount::new(7825, 2)).unwrap().to_whole_units(), Some(75));
    assert_eq!(Amount::new(1, 0).divided_by(Amount::new(4, 0)), Some(Amount::new(25, 2)));
    assert_eq!(Amount::new(1, 0).divided_by(Amount::zero()), None);
    assert_eq!(Amount::zero().divided_by(Amount::zero()), None);
    let q = Amount::new(0, 9).divided_by(Amount::new(4, 0)).unwrap();
    assert_eq!(q.mantissa(), 0);
    assert_eq!(q.scale(), 0);
    let largest = Amount::from_i128_with_scale(MAX_MANTISSA, 0).unwrap();
    assert_eq!(largest.divided_by(Amount::new(1, 1)), None);
}

#[test]
fn whole_units_are_cut_off_toward_zero() {
    assert_eq!(Amount::new(79, 1).to_whole_units(), Some(7));
    assert_eq!(Amount::new(-79, 1).to_whole_units(), Some(-7));
    assert_eq!(Amount::new(9, 1).to_whole_units(), Some(0));
    assert_eq!(Amount::new(-9, 1).to_whole_units(), Some(0));
    assert_eq!(Amount::new(10, 1).to_whole_units(), Some(1));
    assert_eq!(Amount::new(i64::MAX, 0).to_whole_units(), Some(i64::MAX));
    assert_eq!(Amount::new(i64::MIN, 0).to_whole_units(), Some(i64::MIN));
    let above = Amount::from_i128_with_scale(i64::MAX as i128 + 1, 0).unwrap();
    assert_eq!(above.to_whole_units(), None);
    let below = Amount::from_i128_with_scale(i64::MIN as i128 - 1, 0).unwrap();
    assert_eq!(below.to_whole_units(), None);
    let just_inside = Amount::from_i128_with_scale((i64::MAX as i128 + 1) * 10 - 1, 1).unwrap();
    assert_eq!(just_inside.to_whole_units(), Some(i64::MAX));
}

#[test]
fn what_is_left_after_the_whole_units_has_none() {
    let q = Amount::new(-75143, 3);
    let whole = q.to_whole_units().unwrap();
    assert_eq!(whole, -75);
    let rest = q.minus(Amount::new(whole, 0)).unwrap();
    assert_eq!(rest, Amount::new(-143, 3));
    assert_eq!(rest.to_whole_units(), Some(0));
}

#[test]
fn exact_product_of_wide_mantissas() {
    let a = Amount::from_i128_with_scale(1i128 << 40, 3).unwrap();
    let b = Amount::from_i128_with_scale(-(1i128 << 50), 20).unwrap();
    let p = a.times(b).unwrap();
    assert_eq!(p.mantissa(), -(1i128 << 90));
    assert_eq!(p.scale(), 23);
    let half = Amount::from_i128_with_scale((MAX_MANTISSA - 1) / 2, 27).unwrap();
    let q = Amount::new(-2, 1).times(half).unwrap();
    assert_eq!(q.mantissa(), -(MAX_MANTISSA - 1));
    assert_eq!(q.scale(), 28);
    let r = half.times(Amount::new(2, 0)).unwrap();
    assert_eq!(r.mantissa(), MAX_MANTISSA - 1);
    assert_eq!(r.scale(), 27);
    let wide = Amount::from_i128_with_scale(1i128 << 70, 0).unwrap();
    let s = wide.times(Amount::from_i128_with_scale(1i128 << 25, 28).unwrap()).unwrap();
    assert_eq!(s.mantissa(), 1i128 << 95);
    assert_eq!(s.scale(), 28);
}

#[test]
fn equality_across_the_widest_scales() {
    let one = Amount::from_i128_with_scale(10_000_000_000_000_000_000_000_000_000, 28).unwrap();
    assert_eq!(one, Amount::new(1, 0));
    let largest = Amount::from_i128_with_scale(MAX_MANTISSA, 0).unwrap();
    assert_ne!(largest, Amount::from_i128_with_scale(MAX_MANTISSA, 28).unwrap());
    assert_ne!(largest, Amount::from_i128_with_scale(1, 28).unwrap());
    assert_eq!(largest, largest);
    assert_ne!(largest, Amount::from_i128_with_scale(-MAX_MANTISSA, 0).unwrap());
}

#[test]
fn whole_units_of_the_longest_fraction() {
    let a = Amount::from_i128_with_scale(MAX_MANTISSA, 28).unwrap();
    assert_eq!(a.to_whole_units(), Some(7));
    let b = Amount::from_i128_with_scale(-MAX_MANTISSA, 28).unwrap();
    assert_eq!(b.to_whole_units(), Some(-7));
    let c = Amount::from_i128_with_scale(MAX_MANTISSA, 10).unwrap();
    assert_eq!(c.to_whole_units(), Some(7_922_816_251_426_433_759));
}
