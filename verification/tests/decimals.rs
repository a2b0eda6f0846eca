use orderbook::Dec;
use orderbook::Order;
use rust_decimal::Decimal;
use std::str::FromStr;

const MAX: i128 = 0xFFFF_FFFF_FFFF_FFFF_FFFF_FFFF;

fn dec(text: &str) -> Dec {
    let d = Decimal::from_str(text).unwrap();
    Dec::new(d.mantissa(), d.scale()).unwrap()
}

#[test]
fn new_keeps_mantissa_and_scale() {
    let d = Dec::new(-7358322, 8).unwrap();
    assert_eq!(d.mantissa(), -7358322);
    assert_eq!(d.scale(), 8);
}

#[test]
fn new_accepts_the_bounds() {
    assert!(Dec::new(MAX, 28).is_some());
    assert!(Dec::new(-MAX, 0).is_some());
    assert!(Dec::new(0, 28).is_some());
}

#[test]
fn new_refuses_what_is_out_of_bounds() {
    assert_eq!(Dec::new(MAX + 1, 0), None);
    assert_eq!(Dec::new(-MAX - 1, 0), None);
    assert_eq!(Dec::new(1, 29), None);
    assert_eq!(Dec::new(i128::MAX, 0), None);
    assert_eq!(Dec::new(i128::MIN, 0), None);
    assert_eq!(Dec::new(0, u32::MAX), None);
}

#[test]
fn zero_has_no_digits_behind_the_point() {
    assert_eq!(Dec::zero(), Dec::new(0, 0).unwrap());
    assert_eq!(Dec::zero().mantissa(), 0);
    assert_eq!(Dec::zero().scale(), 0);
}

#[test]
fn compare_is_by_value() {
    assert_eq!(dec("10").compare(&dec("10.5")), Order::Less);
    assert_eq!(dec("10.5").compare(&dec("10")), Order::Greater);
    assert_eq!(dec("0.07358322").compare(&dec("0.07357954")), Order::Greater);
    assert_eq!(dec("-1").compare(&dec("0.0001")), Order::Less);
    assert_eq!(dec("-0.5").compare(&dec("-0.01")), Order::Less);
    assert_eq!(dec("2").compare(&dec("2")), Order::Equal);
}

#[test]
fn compare_ignores_the_scale() {
    assert_eq!(dec("1.0").compare(&dec("1.00")), Order::Equal);
    assert_eq!(dec("1.50").compare(&dec("1.5")), Order::Equal);
    assert_eq!(Dec::new(0, 5).unwrap().compare(&Dec::zero()), Order::Equal);
    assert_ne!(dec("1.0"), dec("1.00"));
}

#[test]
fn compare_at_the_bounds() {
    let largest = Dec::new(MAX, 0).unwrap();
    let smallest = Dec::new(-MAX, 0).unwrap();
    let tiny = Dec::new(1, 28).unwrap();
    assert_eq!(largest.compare(&tiny), Order::Greater);
    assert_eq!(tiny.compare(&largest), Order::Less);
    assert_eq!(smallest.compare(&largest), Order::Less);
    assert_eq!(Dec::new(MAX, 28).unwrap().compare(&Dec::new(8, 0).unwrap()), Order::Less);
    assert_eq!(largest.compare(&largest), Order::Equal);
}

#[test]
fn checked_sub_gives_the_exact_difference() {
    assert_eq!(dec("11").checked_sub(&dec("10.5")), Some(dec("0.5")));
    assert_eq!(dec("10.5").checked_sub(&dec("11")), Some(dec("-0.5")));
    assert_eq!(dec("0.07366569").checked_sub(&dec("0.07358322")), Some(dec("0.00008247")));
    assert_eq!(dec("20.00").checked_sub(&dec("10.0")), Some(dec("10.00")));
}

#[test]
fn checked_sub_is_what_the_decimal_crate_computes() {
    let a = Decimal::from_str("1234.5678").unwrap();
    let b = Decimal::from_str("0.000000000123").unwrap();
    let expected = a.checked_sub(b).unwrap();
    let got = dec("1234.5678").checked_sub(&dec("0.000000000123")).unwrap();
    assert_eq!(got.mantissa(), expected.mantissa());
    assert_eq!(got.scale(), expected.scale());
}

#[test]
fn checked_sub_reports_overflow() {
    let largest = Dec::new(MAX, 0).unwrap();
    let smallest = Dec::new(-MAX, 0).unwrap();
    assert_eq!(largest.checked_sub(&smallest), None);
    assert_eq!(smallest.checked_sub(&largest), None);
    assert_eq!(largest.checked_sub(&largest), Some(Dec::zero()));
}
