use roboprec::matrix::Matrix;
use roboprec::rational::Real;
use roboprec::scalar::Scalar;
use roboprec::session::Session;

fn num(x: f64) -> Real {
    Real::from_text(&rug::Rational::from_f64(x).unwrap().to_string()).unwrap()
}

fn f64_of(r: &Real) -> f64 {
    r.text().parse::<rug::Rational>().unwrap().to_f64()
}

fn scalar(s: &mut Session, x: f64) -> Scalar {
    Scalar::new_rational(s, "scalar", num(x))
}

fn named_scalar(s: &mut Session, name: &str, x: f64) -> Scalar {
    Scalar::new_rational(s, name, num(x))
}

fn value_f64(x: &Scalar) -> f64 {
    f64_of(&x.value)
}

fn grid(values: Vec<Vec<f64>>) -> Vec<Vec<Real>> {
    values.into_iter().map(|row| row.into_iter().map(num).collect()).collect()
}

fn matrix(s: &mut Session, name: &str, values: Vec<Vec<f64>>) -> Matrix {
    Matrix::new_rational(s, name, grid(values))
}

fn matrix_f64(m: &Matrix) -> Vec<Vec<f64>> {
    m.value.iter().map(|row| row.iter().map(f64_of).collect()).collect()
}

fn cell_f64(m: &Matrix, row: usize, col: usize) -> Option<f64> {
    m.value.get(row).and_then(|r| r.get(col)).map(f64_of)
}

#[test]
fn test_scalar_matrix_integration() {
    let mut s = Session::new();
    let s1 = scalar(&mut s, 1.0);
    let s2 = named_scalar(&mut s, "s2", 2.0);
    let s3 = Scalar::from_any(&mut s, "scalar", &s1);
    let two = scalar(&mut s, 2.0);
    let s4 = s2.mul(&mut s, &two);
    let m = Matrix::from_scalars(&mut s, "matrix", vec![vec![&s1, &s2], vec![&s3, &s4]]);
    let expected = vec![vec![1.0, 2.0], vec![1.0, 4.0]];
    assert_eq!(matrix_f64(&m), expected);
}

#[test]
fn test_matrix_operations_with_scalars() {
    let mut s = Session::new();
    let a = scalar(&mut s, 1.0);
    let b = scalar(&mut s, 2.0);
    let c = scalar(&mut s, 3.0);
    let d = scalar(&mut s, 4.0);
    let m1 = Matrix::from_scalars(&mut s, "matrix", vec![vec![&a, &b], vec![&c, &d]]);
    let m2 = Matrix::from_matrix(&mut s, "matrix", &m1);
    let sum = m1.add(&mut s, &m2);
    let expected_sum = vec![vec![2.0, 4.0], vec![6.0, 8.0]];
    assert_eq!(matrix_f64(&sum), expected_sum);
}

#[test]
fn test_complex_matrix_concatenation() {
    let mut s = Session::new();
    let m1 = matrix(&mut s, "matrix", vec![vec![1.0, 2.0]]);
    let m2 = matrix(&mut s, "matrix", vec![vec![3.0, 4.0]]);
    let m3 = matrix(&mut s, "matrix", vec![vec![5.0, 6.0]]);
    assert_eq!(matrix_f64(&m3), vec![vec![5.0, 6.0]]);
    let vertical = Matrix::from_matrices_vertical(&mut s, "matrix", vec![&m1, &m2]);
    let right = matrix(&mut s, "matrix", vec![vec![7.0], vec![8.0]]);
    let horizontal = Matrix::from_matrices_horizontal(&mut s, "matrix", vec![&vertical, &right]);
    let expected = vec![vec![1.0, 2.0, 7.0], vec![3.0, 4.0, 8.0]];
    assert_eq!(matrix_f64(&horizontal), expected);
}

#[test]
fn test_mixed_construction_patterns() {
    let mut s = Session::new();
    let s1 = scalar(&mut s, 10.0);
    let s2 = scalar(&mut s, 20.0);
    let m_const = matrix(&mut s, "matrix", vec![vec![1.0, 2.0], vec![3.0, 4.0]]);
    let s3 = scalar(&mut s, 30.0);
    let s4 = scalar(&mut s, 40.0);
    let m_scalar = Matrix::from_scalars(&mut s, "matrix", vec![vec![&s1, &s2], vec![&s3, &s4]]);
    let result = Matrix::from_matrices_horizontal(&mut s, "matrix", vec![&m_const, &m_scalar]);
    let expected = vec![vec![1.0, 2.0, 10.0, 20.0], vec![3.0, 4.0, 30.0, 40.0]];
    assert_eq!(matrix_f64(&result), expected);
}

#[test]
fn test_arithmetic_with_constructed_elements() {
    let mut s = Session::new();
    let a = scalar(&mut s, 5.0);
    let b = scalar(&mut s, 3.0);
    let sum = a.add(&mut s, &b);
    let diff = a.sub(&mut s, &b);
    let prod = a.mul(&mut s, &b);
    let quot = a.div(&mut s, &b);
    let m = Matrix::from_scalars(&mut s, "matrix", vec![vec![&sum, &diff], vec![&prod, &quot]]);
    let result = matrix_f64(&m);
    assert_eq!(result[0][0], 8.0);
    assert_eq!(result[0][1], 2.0);
    assert_eq!(result[1][0], 15.0);
    assert!((result[1][1] - 5.0 / 3.0).abs() < 1e-10);
}
