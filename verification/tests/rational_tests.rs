use roboprec::rational::{Integer, Real};

fn num(text: &str) -> Real {
    Real::from_text(text).unwrap()
}

fn text(r: &Real) -> String {
    r.text().clone()
}

#[test]
fn test_real_from_text_reduces_fraction() {
    assert_eq!(text(&num("2/4")), "1/2");
    assert_eq!(text(&num("-6/3")), "-2");
    assert_eq!(text(&num("007")), "7");
    assert_eq!(text(&num("0/5")), "0");
    assert_eq!(text(&num("-0")), "0");
}

#[test]
fn test_real_from_text_rejects_other_texts() {
    assert!(Real::from_text("").is_none());
    assert!(Real::from_text("1/0").is_none());
    assert!(Real::from_text("1/").is_none());
    assert!(Real::from_text("/2").is_none());
    assert!(Real::from_text("1/2/3").is_none());
    assert!(Real::from_text("+1").is_none());
    assert!(Real::from_text("1.5").is_none());
    assert!(Real::from_text("-").is_none());
    assert!(Real::from_text(" 1").is_none());
    assert!(Real::from_text("1/-2").is_none());
    assert!(Real::from_text("1_000").is_none());
}

#[test]
fn test_real_constants() {
    assert_eq!(text(&Real::zero()), "0");
    assert_eq!(text(&Real::one()), "1");
    assert_eq!(text(&Real::from_i64(-42)), "-42");
    assert_eq!(text(&Real::from_i64(i64::MIN)), "-9223372036854775808");
    assert_eq!(text(&Real::from_u64(u64::MAX)), "18446744073709551615");
    assert_eq!(text(&Real::from_usize(17)), "17");
}

#[test]
fn test_real_arithmetic_is_exact() {
    let half = num("1/2");
    let third = num("1/3");
    assert_eq!(text(&half.add(&third)), "5/6");
    assert_eq!(text(&half.sub(&third)), "1/6");
    assert_eq!(text(&half.mul(&third)), "1/6");
    assert_eq!(text(&half.div(&third)), "3/2");
    assert_eq!(text(&half.neg()), "-1/2");
    assert_eq!(text(&half.neg().abs()), "1/2");
    assert_eq!(text(&half.abs()), "1/2");
}

#[test]
fn test_real_checked_div() {
    let one = Real::one();
    assert!(one.checked_div(&Real::zero()).is_none());
    assert_eq!(text(&one.checked_div(&num("4")).unwrap()), "1/4");
}

#[test]
fn test_real_floor() {
    assert_eq!(text(&num("33/10").floor()), "3");
    assert_eq!(text(&num("-37/10").floor()), "-4");
    assert_eq!(text(&num("5").floor()), "5");
    assert_eq!(num("33/10").floor_to_i64(), Some(3));
    assert_eq!(num("-37/10").floor_to_i64(), Some(-4));
    assert_eq!(num("9223372036854775808").floor_to_i64(), None);
    assert_eq!(num("-9223372036854775808").floor_to_i64(), Some(i64::MIN));
}

#[test]
fn test_real_floor_bits() {
    assert_eq!(Real::zero().floor_bits(), 0);
    assert_eq!(num("1").floor_bits(), 1);
    assert_eq!(num("4").floor_bits(), 3);
    assert_eq!(num("255").floor_bits(), 8);
    assert_eq!(num("256").floor_bits(), 9);
    assert_eq!(num("-8").floor_bits(), 4);
    assert_eq!(num("7/2").floor_bits(), 2);
}

#[test]
fn test_real_pow() {
    assert_eq!(text(&num("2/3").pow(3)), "8/27");
    assert_eq!(text(&num("2/3").pow(-2)), "9/4");
    assert_eq!(text(&num("5").pow(0)), "1");
    assert_eq!(text(&Real::zero().pow(0)), "1");
}

#[test]
fn test_real_order() {
    let a = num("1/3");
    let b = num("1/2");
    assert!(a.lt(&b));
    assert!(!b.lt(&a));
    assert!(!a.lt(&a));
    assert!(a.same(&num("2/6")));
    assert!(!a.same(&b));
    assert_eq!(text(&a.min(&b)), "1/3");
    assert_eq!(text(&a.max(&b)), "1/2");
    assert_eq!(text(&b.min(&a)), "1/3");
    assert_eq!(text(&b.max(&a)), "1/2");
    assert!(num("-1/7").lt(&Real::zero()));
    assert!(Real::zero().is_zero());
    assert!(!a.is_zero());
    assert!(a.is_positive());
    assert!(!Real::zero().is_positive());
    assert!(!num("-1").is_positive());
}

#[test]
fn test_real_nearest_integer() {
    assert_eq!(num("7/2").nearest_integer(), Some(4));
    assert_eq!(num("17/5").nearest_integer(), Some(3));
    assert_eq!(num("18/5").nearest_integer(), Some(4));
    assert_eq!(num("3").nearest_integer(), Some(3));
    assert_eq!(num("0").nearest_integer(), Some(0));
    assert_eq!(num("-1/4").nearest_integer(), Some(-1));
    assert_eq!(num("-7/2").nearest_integer(), Some(-4));
    assert_eq!(num("-3").nearest_integer(), Some(-3));
    assert_eq!(num("9223372036854775807").nearest_integer(), Some(i64::MAX));
    assert_eq!(num("18446744073709551615/2").nearest_integer(), None);
    assert_eq!(num("9223372036854775808").nearest_integer(), None);
}

#[test]
fn test_real_numer_denom() {
    let r = num("-6/8");
    assert_eq!(r.numer().to_i64(), -3);
    assert_eq!(r.denom().to_i64(), 4);
    assert_eq!(num("5").denom().to_i64(), 1);
    assert_eq!(num("5").numer().to_i64(), 5);
}

#[test]
fn test_real_to_integer_cuts_towards_zero() {
    assert_eq!(num("7/2").to_integer().to_i64(), 3);
    assert_eq!(num("-7/2").to_integer().to_i64(), -3);
    assert_eq!(num("-4").to_integer().to_i64(), -4);
    assert_eq!(num("0").to_integer().to_i64(), 0);
}

#[test]
fn test_integer() {
    let five = Integer::from_u32(5);
    assert_eq!(five.to_i64(), 5);
    assert_eq!(five.bits(), 3);
    assert!(five.is_positive());
    assert!(!five.is_zero());
    assert!(Integer::from_u32(0).is_zero());
    assert_eq!(Integer::from_u32(0).bits(), 0);
    assert_eq!(Integer::one().to_i64(), 1);
    assert_eq!(Integer::one().sub(&five).to_i64(), -4);
    assert!(!Integer::one().sub(&five).is_positive());
    assert_eq!(Integer::from_u32(u32::MAX).checked_to_i64(), Some(4294967295));
    assert_eq!(num("9223372036854775808").to_integer().checked_to_i64(), None);
    assert_eq!(five.clone().to_i64(), 5);
}

#[test]
fn test_real_clone_keeps_value() {
    let r = num("22/7");
    assert_eq!(text(&r.clone()), "22/7");
}

#[test]
fn test_integer_next_magnitude_and_text() {
    let forty_one = roboprec::rational::Integer::from_u32(41);
    assert_eq!(forty_one.to_text(), "41");
    assert_eq!(forty_one.next_magnitude().to_text(), "42");
    let zero = roboprec::rational::Integer::from_u32(0);
    assert_eq!(zero.to_text(), "0");
    assert_eq!(zero.next_magnitude().to_text(), "1");
    let minus_five = zero.sub(&roboprec::rational::Integer::from_u32(5));
    assert_eq!(minus_five.to_text(), "-5");
    assert_eq!(minus_five.next_magnitude().to_text(), "6");
    let large = roboprec::rational::Integer::from_u32(u32::MAX);
    assert_eq!(large.next_magnitude().to_text(), "4294967296");
}
