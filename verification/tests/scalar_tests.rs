use roboprec::rational::Real;
use roboprec::scalar::Scalar;
use roboprec::session::Session;

fn num(x: f64) -> Real {
    Real::from_text(&rug::Rational::from_f64(x).unwrap().to_string()).unwrap()
}

fn f64_of(r: &Real) -> f64 {
    r.text().parse::<rug::Rational>().unwrap().to_f64()
}

fn scalar(s: &mut Session, x: f64) -> Scalar {
    Scalar::new_rational(s, "scalar", num(x))
}

fn named_scalar(s: &mut Session, name: &str, x: f64) -> Scalar {
    Scalar::new_rational(s, name, num(x))
}

fn value_f64(x: &Scalar) -> f64 {
    f64_of(&x.value)
}

#[test]
fn test_scalar_new_constant() {
    let mut s = Session::new();
    let scalar = named_scalar(&mut s, "test_scalar", 3.14);
    assert_eq!(value_f64(&scalar), 3.14);
}

#[test]
fn test_scalar_from_scalar() {
    let mut s = Session::new();
    let original = named_scalar(&mut s, "original", 2.5);
    let copy = Scalar::from_scalar(&mut s, "copy", &original);
    assert_eq!(value_f64(&copy), 2.5);
}

#[test]
fn test_scalar_macro_constant() {
    let mut s = Session::new();
    let x = scalar(&mut s, 5.0);
    assert_eq!(value_f64(&x), 5.0);
}

#[test]
fn test_scalar_macro_from_scalar() {
    let mut s = Session::new();
    let original = scalar(&mut s, 7.5);
    let copy = Scalar::from_any(&mut s, "scalar", &original);
    assert_eq!(value_f64(&copy), 7.5);
}

#[test]
fn test_scalar_define() {
    let mut s = Session::new();
    let x = named_scalar(&mut s, "original", 1.0);
    x.define(&mut s, "redefined".to_string());
    assert_eq!(value_f64(&x), 1.0);
}

#[test]
fn test_scalar_arithmetic_add() {
    let mut s = Session::new();
    let a = scalar(&mut s, 2.0);
    let b = scalar(&mut s, 3.0);
    let result = a.add(&mut s, &b);
    assert_eq!(value_f64(&result), 5.0);
}

#[test]
fn test_scalar_arithmetic_subtract() {
    let mut s = Session::new();
    let a = scalar(&mut s, 5.0);
    let b = scalar(&mut s, 2.0);
    let result = a.sub(&mut s, &b);
    assert_eq!(value_f64(&result), 3.0);
}

#[test]
fn test_scalar_arithmetic_multiply() {
    let mut s = Session::new();
    let a = scalar(&mut s, 4.0);
    let b = scalar(&mut s, 3.0);
    let result = a.mul(&mut s, &b);
    assert_eq!(value_f64(&result), 12.0);
}

#[test]
fn test_scalar_arithmetic_divide() {
    let mut s = Session::new();
    let a = scalar(&mut s, 10.0);
    let b = scalar(&mut s, 2.0);
    let result = a.div(&mut s, &b);
    assert_eq!(value_f64(&result), 5.0);
}

#[test]
fn test_scalar_arithmetic_chain() {
    let mut s = Session::new();
    let a = scalar(&mut s, 2.0);
    let b = scalar(&mut s, 3.0);
    let c = scalar(&mut s, 4.0);
    let sum = a.add(&mut s, &b);
    let result = sum.mul(&mut s, &c);
    assert_eq!(value_f64(&result), 20.0);
}

#[test]
fn test_scalar_negation() {
    let mut s = Session::new();
    let a = scalar(&mut s, 5.0);
    let result = a.neg(&mut s);
    assert_eq!(value_f64(&result), -5.0);
}

#[test]
fn test_scalar_rational_creation() {
    let mut s = Session::new();
    let rational_val = num(3.14159);
    let x = Scalar::new_rational(&mut s, "pi", rational_val.clone());
    assert!((value_f64(&x) - 3.14159).abs() < 1e-10);
}

#[test]
fn test_scalar_zero_and_negative() {
    let mut s = Session::new();
    let zero = scalar(&mut s, 0.0);
    let negative = scalar(&mut s, -42.5);
    assert_eq!(value_f64(&zero), 0.0);
    assert_eq!(value_f64(&negative), -42.5);
}

#[test]
fn test_scalar_arithmetic_complex_chain() {
    let mut s = Session::new();
    let a = scalar(&mut s, 10.0);
    let b = scalar(&mut s, 5.0);
    let c = scalar(&mut s, 2.0);
    let quotient = a.div(&mut s, &b);
    let sum = quotient.add(&mut s, &c);
    let result = sum.mul(&mut s, &c);
    assert_eq!(value_f64(&result), 8.0);
}

#[test]
fn test_sine() {
    let mut s = Session::new();
    let x = scalar(&mut s, 1.55);
    let x2 = x.mul(&mut s, &x);
    let x3 = x2.mul(&mut s, &x);
    let x5 = x3.mul(&mut s, &x2);
    let x7 = x5.mul(&mut s, &x2);
    let six = scalar(&mut s, 6.0);
    let t3 = x3.div(&mut s, &six);
    let c120 = scalar(&mut s, 120.0);
    let t5 = x5.div(&mut s, &c120);
    let c5040 = scalar(&mut s, 5040.0);
    let t7 = x7.div(&mut s, &c5040);
    let a = x.sub(&mut s, &t3);
    let b = a.add(&mut s, &t5);
    let res = b.sub(&mut s, &t7);
    let expected = scalar(&mut s, 0.99964451926);
    let difference = res.sub(&mut s, &expected);
    assert!(
        value_f64(&difference).abs() < 1e-10,
        "Expected: {}, got: {}",
        value_f64(&expected),
        value_f64(&res)
    );
}

#[test]
fn test_scalar_operations_record_named_nodes() {
    let mut s = Session::new();
    let a = named_scalar(&mut s, "a", 2.0);
    let b = named_scalar(&mut s, "b", 3.0);
    assert_eq!(a.add(&mut s, &b).id.name, "a_plus_b");
    assert_eq!(a.sub(&mut s, &b).id.name, "a_minus_b");
    assert_eq!(a.mul(&mut s, &b).id.name, "a_mul_b");
    assert_eq!(a.div(&mut s, &b).id.name, "a_div_b");
    assert_eq!(a.neg(&mut s).id.name, "neg_a");
    assert_eq!(a.add(&mut s, &b).id.name, "r_1_a_plus_b");
    assert_eq!(s.program.get_body().len(), 8);
}
