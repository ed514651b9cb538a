use roboprec::matrix::Matrix;
use roboprec::rational::Real;
use roboprec::scalar::Scalar;
use roboprec::session::Session;

fn num(x: f64) -> Real {
    Real::from_text(&rug::Rational::from_f64(x).unwrap().to_string()).unwrap()
}

fn f64_of(r: &Real) -> f64 {
    r.text().parse::<rug::Rational>().unwrap().to_f64()
}

fn scalar(s: &mut Session, x: f64) -> Scalar {
    Scalar::new_rational(s, "scalar", num(x))
}

fn named_scalar(s: &mut Session, name: &str, x: f64) -> Scalar {
    Scalar::new_rational(s, name, num(x))
}

fn value_f64(x: &Scalar) -> f64 {
    f64_of(&x.value)
}

fn grid(values: Vec<Vec<f64>>) -> Vec<Vec<Real>> {
    values.into_iter().map(|row| row.into_iter().map(num).collect()).collect()
}

fn matrix(s: &mut Session, name: &str, values: Vec<Vec<f64>>) -> Matrix {
    Matrix::new_rational(s, name, grid(values))
}

fn matrix_f64(m: &Matrix) -> Vec<Vec<f64>> {
    m.value.iter().map(|row| row.iter().map(f64_of).collect()).collect()
}

fn cell_f64(m: &Matrix, row: usize, col: usize) -> Option<f64> {
    m.value.get(row).and_then(|r| r.get(col)).map(f64_of)
}

#[test]
fn test_scalar_arithmetic_operations() {
    let mut s = Session::new();
    let a = scalar(&mut s, 8.0);
    let b = scalar(&mut s, 2.0);
    let add_result = a.add(&mut s, &b);
    let sub_result = a.sub(&mut s, &b);
    let mul_result = a.mul(&mut s, &b);
    let div_result = a.div(&mut s, &b);
    let neg_result = a.neg(&mut s);
    assert_eq!(value_f64(&add_result), 10.0);
    assert_eq!(value_f64(&sub_result), 6.0);
    assert_eq!(value_f64(&mul_result), 16.0);
    assert_eq!(value_f64(&div_result), 4.0);
    assert_eq!(value_f64(&neg_result), -8.0);
}

#[test]
fn test_scalar_arithmetic_chaining() {
    let mut s = Session::new();
    let a = scalar(&mut s, 2.0);
    let b = scalar(&mut s, 3.0);
    let c = scalar(&mut s, 4.0);
    let ab = a.add(&mut s, &b);
    let result1 = ab.mul(&mut s, &c);
    let bc = b.mul(&mut s, &c);
    let result2 = a.add(&mut s, &bc);
    let ab2 = a.mul(&mut s, &b);
    let result3 = ab2.sub(&mut s, &c);
    assert_eq!(value_f64(&result1), 20.0);
    assert_eq!(value_f64(&result2), 14.0);
    assert_eq!(value_f64(&result3), 2.0);
}

#[test]
fn test_matrix_arithmetic_operations() {
    let mut s = Session::new();
    let m1 = matrix(&mut s, "matrix", vec![vec![1.0, 2.0], vec![3.0, 4.0]]);
    let m2 = matrix(&mut s, "matrix", vec![vec![5.0, 6.0], vec![7.0, 8.0]]);
    assert_eq!(matrix_f64(&m1), vec![vec![1.0, 2.0], vec![3.0, 4.0]]);
    assert_eq!(matrix_f64(&m2), vec![vec![5.0, 6.0], vec![7.0, 8.0]]);
}

#[test]
fn test_matrix_arithmetic_edge_cases() {
    let mut s = Session::new();
    let m = matrix(&mut s, "matrix", vec![vec![1.0, 0.0], vec![0.0, 1.0]]);
    let zero = matrix(&mut s, "matrix", vec![vec![0.0, 0.0], vec![0.0, 0.0]]);
    assert_eq!(matrix_f64(&m), vec![vec![1.0, 0.0], vec![0.0, 1.0]]);
    assert_eq!(matrix_f64(&zero), vec![vec![0.0, 0.0], vec![0.0, 0.0]]);
    let sub_self = m.sub(&mut s, &m);
    assert_eq!(matrix_f64(&sub_self), matrix_f64(&zero));
}

#[test]
fn test_mixed_scalar_matrix_operations() {
    let mut s = Session::new();
    let s1 = scalar(&mut s, 2.0);
    let s2 = scalar(&mut s, 3.0);
    let s3 = s1.add(&mut s, &s2);
    let s4 = s1.mul(&mut s, &s2);
    let m1 = Matrix::from_scalars(&mut s, "matrix", vec![vec![&s1, &s2], vec![&s3, &s4]]);
    assert_eq!(matrix_f64(&m1), vec![vec![2.0, 3.0], vec![5.0, 6.0]]);
    let m2 = matrix(&mut s, "matrix", vec![vec![1.0, 1.0], vec![1.0, 1.0]]);
    let result = m1.add(&mut s, &m2);
    assert_eq!(matrix_f64(&result), vec![vec![3.0, 4.0], vec![6.0, 7.0]]);
}

#[test]
fn test_arithmetic_precision() {
    let mut s = Session::new();
    let a = scalar(&mut s, 0.1);
    let b = scalar(&mut s, 0.2);
    let c = scalar(&mut s, 0.3);
    let sum = a.add(&mut s, &b);
    let diff = sum.sub(&mut s, &c);
    assert!(value_f64(&diff).abs() < 1e-15);
}
