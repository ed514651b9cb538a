use roboprec::matrix::Matrix;
use roboprec::rational::Real;
use roboprec::scalar::Scalar;
use roboprec::session::Session;

fn num(x: f64) -> Real {
    Real::from_text(&rug::Rational::from_f64(x).unwrap().to_string()).unwrap()
}

fn f64_of(r: &Real) -> f64 {
    r.text().parse::<rug::Rational>().unwrap().to_f64()
}

fn scalar(s: &mut Session, x: f64) -> Scalar {
    Scalar::new_rational(s, "scalar", num(x))
}

fn named_scalar(s: &mut Session, name: &str, x: f64) -> Scalar {
    Scalar::new_rational(s, name, num(x))
}

fn value_f64(x: &Scalar) -> f64 {
    f64_of(&x.value)
}

fn grid(values: Vec<Vec<f64>>) -> Vec<Vec<Real>> {
    values.into_iter().map(|row| row.into_iter().map(num).collect()).collect()
}

fn matrix(s: &mut Session, name: &str, values: Vec<Vec<f64>>) -> Matrix {
    Matrix::new_rational(s, name, grid(values))
}

fn matrix_f64(m: &Matrix) -> Vec<Vec<f64>> {
    m.value.iter().map(|row| row.iter().map(f64_of).collect()).collect()
}

#[test]
fn test_scalar_macro_patterns() {
    let mut s = Session::new();
    let s1 = scalar(&mut s, 3.14);
    assert_eq!(value_f64(&s1), 3.14);
    let s2 = Scalar::from_any(&mut s, "scalar", &s1);
    assert_eq!(value_f64(&s2), 3.14);
    let s3 = scalar(&mut s, 2.71);
    assert_eq!(value_f64(&s3), 2.71);
}

#[test]
fn test_matrix_macro_patterns() {
    let mut s = Session::new();
    let m1 = matrix(&mut s, "matrix", vec![vec![1.0, 2.0], vec![3.0, 4.0]]);
    assert_eq!(matrix_f64(&m1), vec![vec![1.0, 2.0], vec![3.0, 4.0]]);
    let s1 = scalar(&mut s, 5.0);
    let s2 = scalar(&mut s, 6.0);
    let s3 = scalar(&mut s, 7.0);
    let s4 = scalar(&mut s, 8.0);
    let m2 = Matrix::from_scalars(&mut s, "matrix", vec![vec![&s1, &s2], vec![&s3, &s4]]);
    assert_eq!(matrix_f64(&m2), vec![vec![5.0, 6.0], vec![7.0, 8.0]]);
    let m3 = Matrix::from_matrix(&mut s, "matrix", &m1);
    assert_eq!(matrix_f64(&m3), vec![vec![1.0, 2.0], vec![3.0, 4.0]]);
    let h_concat = Matrix::from_matrices_horizontal(&mut s, "matrix", vec![&m1, &m2]);
    let v_concat = Matrix::from_matrices_vertical(&mut s, "matrix", vec![&m1, &m2]);
    assert_eq!(
        matrix_f64(&h_concat),
        vec![vec![1.0, 2.0, 5.0, 6.0], vec![3.0, 4.0, 7.0, 8.0]]
    );
    assert_eq!(
        matrix_f64(&v_concat),
        vec![vec![1.0, 2.0], vec![3.0, 4.0], vec![5.0, 6.0], vec![7.0, 8.0]]
    );
}

#[test]
fn test_macro_with_expressions() {
    let mut s = Session::new();
    let s1 = scalar(&mut s, 6.0);
    assert_eq!(value_f64(&s1), 6.0);
    let m1 = matrix(&mut s, "matrix", vec![vec![1.0, 2.0], vec![3.0, 4.0]]);
    assert_eq!(matrix_f64(&m1), vec![vec![1.0, 2.0], vec![3.0, 4.0]]);
}

#[test]
fn test_macro_edge_cases() {
    let mut s = Session::new();
    let zero = scalar(&mut s, 0.0);
    let negative = scalar(&mut s, -1.5);
    assert_eq!(value_f64(&zero), 0.0);
    assert_eq!(value_f64(&negative), -1.5);
    let single = matrix(&mut s, "matrix", vec![vec![42.0]]);
    assert_eq!(matrix_f64(&single), vec![vec![42.0]]);
    let m1 = matrix(&mut s, "matrix", vec![vec![1.0]]);
    let m2 = matrix(&mut s, "matrix", vec![vec![2.0]]);
    let h_result = Matrix::from_matrices_horizontal(&mut s, "matrix", vec![&m1, &m2]);
    let v_result = Matrix::from_matrices_vertical(&mut s, "matrix", vec![&m1, &m2]);
    assert_eq!(matrix_f64(&h_result), vec![vec![1.0, 2.0]]);
    assert_eq!(matrix_f64(&v_result), vec![vec![1.0], vec![2.0]]);
}
