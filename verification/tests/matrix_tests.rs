use roboprec::matrix::Matrix;
use roboprec::rational::Real;
use roboprec::scalar::Scalar;
use roboprec::session::Session;
use roboprec::vector::Vector;

fn num(x: f64) -> Real {
    Real::from_text(&rug::Rational::from_f64(x).unwrap().to_string()).unwrap()
}

fn f64_of(r: &Real) -> f64 {
    r.text().parse::<rug::Rational>().unwrap().to_f64()
}

fn scalar(s: &mut Session, x: f64) -> Scalar {
    Scalar::new_rational(s, "scalar", num(x))
}

fn value_f64(x: &Scalar) -> f64 {
    f64_of(&x.value)
}

fn grid(values: Vec<Vec<f64>>) -> Vec<Vec<Real>> {
    values.into_iter().map(|row| row.into_iter().map(num).collect()).collect()
}

fn matrix(s: &mut Session, name: &str, values: Vec<Vec<f64>>) -> Matrix {
    Matrix::new_rational(s, name, grid(values))
}

fn matrix_f64(m: &Matrix) -> Vec<Vec<f64>> {
    m.value.iter().map(|row| row.iter().map(f64_of).collect()).collect()
}

fn cell_f64(m: &Matrix, row: usize, col: usize) -> Option<f64> {
    m.value.get(row).and_then(|r| r.get(col)).map(f64_of)
}

#[test]
fn test_matrix_new_constant() {
    let mut s = Session::new();
    let m = matrix(&mut s, "test_matrix", vec![vec![1.0, 2.0], vec![3.0, 4.0]]);
    let expected = vec![vec![1.0, 2.0], vec![3.0, 4.0]];
    assert_eq!(matrix_f64(&m), expected);
}

#[test]
fn test_matrix_from_scalars() {
    let mut s = Session::new();
    let s1 = scalar(&mut s, 1.0);
    let s2 = scalar(&mut s, 2.0);
    let s3 = scalar(&mut s, 3.0);
    let s4 = scalar(&mut s, 4.0);
    let m = Matrix::from_scalars(&mut s, "test", vec![vec![&s1, &s2], vec![&s3, &s4]]);
    let expected = vec![vec![1.0, 2.0], vec![3.0, 4.0]];
    assert_eq!(matrix_f64(&m), expected);
}

#[test]
fn test_matrix_from_matrix() {
    let mut s = Session::new();
    let original = matrix(&mut s, "original", vec![vec![1.0, 2.0], vec![3.0, 4.0]]);
    let copy = Matrix::from_matrix(&mut s, "copy", &original);
    assert_eq!(matrix_f64(&copy), matrix_f64(&original));
}

#[test]
fn test_matrix_from_matrices_horizontal() {
    let mut s = Session::new();
    let m1 = matrix(&mut s, "m1", vec![vec![1.0, 2.0], vec![3.0, 4.0]]);
    let m2 = matrix(&mut s, "m2", vec![vec![5.0, 6.0], vec![7.0, 8.0]]);
    let result = Matrix::from_matrices_horizontal(&mut s, "hcat", vec![&m1, &m2]);
    let expected = vec![vec![1.0, 2.0, 5.0, 6.0], vec![3.0, 4.0, 7.0, 8.0]];
    assert_eq!(matrix_f64(&result), expected);
}

#[test]
fn test_matrix_from_matrices_vertical() {
    let mut s = Session::new();
    let m1 = matrix(&mut s, "m1", vec![vec![1.0, 2.0], vec![3.0, 4.0]]);
    let m2 = matrix(&mut s, "m2", vec![vec![5.0, 6.0], vec![7.0, 8.0]]);
    let result = Matrix::from_matrices_vertical(&mut s, "vcat", vec![&m1, &m2]);
    let expected = vec![vec![1.0, 2.0], vec![3.0, 4.0], vec![5.0, 6.0], vec![7.0, 8.0]];
    assert_eq!(matrix_f64(&result), expected);
}

#[test]
fn test_matrix_macro_constant_array() {
    let mut s = Session::new();
    let m = matrix(&mut s, "matrix", vec![vec![1.0, 2.0], vec![3.0, 4.0]]);
    let expected = vec![vec![1.0, 2.0], vec![3.0, 4.0]];
    assert_eq!(matrix_f64(&m), expected);
}

#[test]
fn test_matrix_macro_from_scalars() {
    let mut s = Session::new();
    let s1 = scalar(&mut s, 1.0);
    let s2 = scalar(&mut s, 2.0);
    let s3 = scalar(&mut s, 3.0);
    let s4 = scalar(&mut s, 4.0);
    let m = Matrix::from_scalars(&mut s, "matrix", vec![vec![&s1, &s2], vec![&s3, &s4]]);
    let expected = vec![vec![1.0, 2.0], vec![3.0, 4.0]];
    assert_eq!(matrix_f64(&m), expected);
}

#[test]
fn test_matrix_macro_from_matrix() {
    let mut s = Session::new();
    let original = matrix(&mut s, "matrix", vec![vec![1.0, 2.0], vec![3.0, 4.0]]);
    let copy = Matrix::from_matrix(&mut s, "matrix", &original);
    let expected = vec![vec![1.0, 2.0], vec![3.0, 4.0]];
    assert_eq!(matrix_f64(&copy), expected);
}

#[test]
fn test_matrix_macro_horizontal_concatenation() {
    let mut s = Session::new();
    let m1 = matrix(&mut s, "matrix", vec![vec![1.0, 2.0], vec![3.0, 4.0]]);
    let m2 = matrix(&mut s, "matrix", vec![vec![5.0, 6.0], vec![7.0, 8.0]]);
    let result = Matrix::from_matrices_horizontal(&mut s, "matrix", vec![&m1, &m2]);
    let expected = vec![vec![1.0, 2.0, 5.0, 6.0], vec![3.0, 4.0, 7.0, 8.0]];
    assert_eq!(matrix_f64(&result), expected);
}

#[test]
fn test_matrix_macro_vertical_concatenation() {
    let mut s = Session::new();
    let m1 = matrix(&mut s, "matrix", vec![vec![1.0, 2.0], vec![3.0, 4.0]]);
    let m2 = matrix(&mut s, "matrix", vec![vec![5.0, 6.0], vec![7.0, 8.0]]);
    let result = Matrix::from_matrices_vertical(&mut s, "matrix", vec![&m1, &m2]);
    let expected = vec![vec![1.0, 2.0], vec![3.0, 4.0], vec![5.0, 6.0], vec![7.0, 8.0]];
    assert_eq!(matrix_f64(&result), expected);
}

#[test]
fn test_matrix_macro_multiple_horizontal_concatenation() {
    let mut s = Session::new();
    let m1 = matrix(&mut s, "matrix", vec![vec![1.0], vec![2.0]]);
    let m2 = matrix(&mut s, "matrix", vec![vec![3.0], vec![4.0]]);
    let m3 = matrix(&mut s, "matrix", vec![vec![5.0], vec![6.0]]);
    let result = Matrix::from_matrices_horizontal(&mut s, "matrix", vec![&m1, &m2, &m3]);
    let expected = vec![vec![1.0, 3.0, 5.0], vec![2.0, 4.0, 6.0]];
    assert_eq!(matrix_f64(&result), expected);
}

#[test]
fn test_matrix_macro_multiple_vertical_concatenation() {
    let mut s = Session::new();
    let m1 = matrix(&mut s, "matrix", vec![vec![1.0, 2.0]]);
    let m2 = matrix(&mut s, "matrix", vec![vec![3.0, 4.0]]);
    let m3 = matrix(&mut s, "matrix", vec![vec![5.0, 6.0]]);
    let result = Matrix::from_matrices_vertical(&mut s, "matrix", vec![&m1, &m2, &m3]);
    let expected = vec![vec![1.0, 2.0], vec![3.0, 4.0], vec![5.0, 6.0]];
    assert_eq!(matrix_f64(&result), expected);
}

#[test]
fn test_matrix_define() {
    let mut s = Session::new();
    let m = matrix(&mut s, "original", vec![vec![1.0, 2.0], vec![3.0, 4.0]]);
    let m = m.define(&mut s, "redefined".to_string());
    let expected = vec![vec![1.0, 2.0], vec![3.0, 4.0]];
    assert_eq!(matrix_f64(&m), expected);
}

#[test]
fn test_matrix_arithmetic_add() {
    let mut s = Session::new();
    let m1 = matrix(&mut s, "matrix", vec![vec![1.0, 2.0], vec![3.0, 4.0]]);
    let m2 = matrix(&mut s, "matrix", vec![vec![5.0, 6.0], vec![7.0, 8.0]]);
    let result = m1.add(&mut s, &m2);
    let expected = vec![vec![6.0, 8.0], vec![10.0, 12.0]];
    assert_eq!(matrix_f64(&result), expected);
}

#[test]
fn test_matrix_arithmetic_subtract() {
    let mut s = Session::new();
    let m1 = matrix(&mut s, "matrix", vec![vec![5.0, 6.0], vec![7.0, 8.0]]);
    let m2 = matrix(&mut s, "matrix", vec![vec![1.0, 2.0], vec![3.0, 4.0]]);
    let result = m1.sub(&mut s, &m2);
    let expected = vec![vec![4.0, 4.0], vec![4.0, 4.0]];
    assert_eq!(matrix_f64(&result), expected);
}

#[test]
fn test_matrix_scalar_combinations() {
    let mut s = Session::new();
    let s1 = scalar(&mut s, 2.0);
    let s2 = scalar(&mut s, 3.0);
    let s3 = s1.add(&mut s, &s2);
    let s4 = scalar(&mut s, 1.0);
    let m = Matrix::from_scalars(&mut s, "matrix", vec![vec![&s1, &s2], vec![&s3, &s4]]);
    let expected = vec![vec![2.0, 3.0], vec![5.0, 1.0]];
    assert_eq!(matrix_f64(&m), expected);
}

#[test]
fn test_matrix_single_element() {
    let mut s = Session::new();
    let m = matrix(&mut s, "matrix", vec![vec![42.0]]);
    let expected = vec![vec![42.0]];
    assert_eq!(matrix_f64(&m), expected);
}

#[test]
fn test_matrix_rectangular() {
    let mut s = Session::new();
    let m = matrix(&mut s, "matrix", vec![vec![1.0, 2.0, 3.0], vec![4.0, 5.0, 6.0]]);
    let expected = vec![vec![1.0, 2.0, 3.0], vec![4.0, 5.0, 6.0]];
    assert_eq!(matrix_f64(&m), expected);
}

#[test]
fn test_matrix_rational_creation() {
    let mut s = Session::new();
    let val1 = num(1.5);
    let val2 = num(2.5);
    let val3 = num(3.5);
    let val4 = num(4.5);
    let m = Matrix::new_rational(&mut s, "test", vec![vec![val1, val2], vec![val3, val4]]);
    let expected = vec![vec![1.5, 2.5], vec![3.5, 4.5]];
    assert_eq!(matrix_f64(&m), expected);
}

#[test]
fn test_matrix_size() {
    let mut s = Session::new();
    let m = matrix(&mut s, "test", vec![vec![1.0, 2.0, 3.0], vec![4.0, 5.0, 6.0]]);
    assert_eq!(m.size(), (2, 3));
}

#[test]
fn test_matrix_size_empty() {
    let mut s = Session::new();
    let m = matrix(&mut s, "empty", vec![]);
    assert_eq!(m.size(), (0, 0));
}

#[test]
fn test_matrix_size_single_row() {
    let mut s = Session::new();
    let m = matrix(&mut s, "single_row", vec![vec![1.0, 2.0, 3.0]]);
    assert_eq!(m.size(), (1, 3));
}

#[test]
fn test_matrix_size_single_column() {
    let mut s = Session::new();
    let m = matrix(&mut s, "single_col", vec![vec![1.0], vec![2.0], vec![3.0]]);
    assert_eq!(m.size(), (3, 1));
}

#[test]
fn test_matrix_get_element() {
    let mut s = Session::new();
    let m = matrix(
        &mut s,
        "test",
        vec![vec![1.0, 2.0, 3.0], vec![4.0, 5.0, 6.0], vec![7.0, 8.0, 9.0]],
    );
    assert_eq!(value_f64(&m.get(&mut s, 0, 0)), 1.0);
    assert_eq!(value_f64(&m.get(&mut s, 0, 1)), 2.0);
    assert_eq!(value_f64(&m.get(&mut s, 0, 2)), 3.0);
    assert_eq!(value_f64(&m.get(&mut s, 1, 0)), 4.0);
    assert_eq!(value_f64(&m.get(&mut s, 1, 1)), 5.0);
    assert_eq!(value_f64(&m.get(&mut s, 1, 2)), 6.0);
    assert_eq!(value_f64(&m.get(&mut s, 2, 0)), 7.0);
    assert_eq!(value_f64(&m.get(&mut s, 2, 1)), 8.0);
    assert_eq!(value_f64(&m.get(&mut s, 2, 2)), 9.0);
}

#[test]
fn test_matrix_get_element_single() {
    let mut s = Session::new();
    let m = matrix(&mut s, "single", vec![vec![42.0]]);
    let element = m.get(&mut s, 0, 0);
    assert_eq!(value_f64(&element), 42.0);
}

#[test]
fn test_matrix_get_f64() {
    let mut s = Session::new();
    let m = matrix(&mut s, "test", vec![vec![1.0, 2.0], vec![3.0, 4.0]]);
    assert_eq!(cell_f64(&m, 0, 0), Some(1.0));
    assert_eq!(cell_f64(&m, 0, 1), Some(2.0));
    assert_eq!(cell_f64(&m, 1, 0), Some(3.0));
    assert_eq!(cell_f64(&m, 1, 1), Some(4.0));
    assert_eq!(cell_f64(&m, 2, 0), None);
    assert_eq!(cell_f64(&m, 0, 2), None);
    assert_eq!(cell_f64(&m, 2, 2), None);
}

#[test]
fn test_matrix_get_f64_empty() {
    let mut s = Session::new();
    let m = matrix(&mut s, "empty", vec![]);
    assert_eq!(cell_f64(&m, 0, 0), None);
}

#[test]
fn test_matrix_get_name() {
    let mut s = Session::new();
    let m = matrix(&mut s, "test_name", vec![vec![1.0, 2.0], vec![3.0, 4.0]]);
    assert_eq!(m.get_name(), "test_name");
}

#[test]
fn test_matrix_indexing_with_fractional_values() {
    let mut s = Session::new();
    let m = matrix(&mut s, "fractional", vec![vec![1.5, 2.7], vec![3.14, 0.5]]);
    assert!((value_f64(&m.get(&mut s, 0, 0)) - 1.5).abs() < 1e-10);
    assert!((value_f64(&m.get(&mut s, 0, 1)) - 2.7).abs() < 1e-10);
    assert!((value_f64(&m.get(&mut s, 1, 0)) - 3.14).abs() < 1e-10);
    assert!((value_f64(&m.get(&mut s, 1, 1)) - 0.5).abs() < 1e-10);
}

#[test]
fn test_matrix_large_indexing() {
    let mut s = Session::new();
    let m = matrix(
        &mut s,
        "large",
        vec![
            vec![1.0, 2.0, 3.0, 4.0, 5.0],
            vec![6.0, 7.0, 8.0, 9.0, 10.0],
            vec![11.0, 12.0, 13.0, 14.0, 15.0],
            vec![16.0, 17.0, 18.0, 19.0, 20.0],
        ],
    );
    assert_eq!(m.size(), (4, 5));
    assert_eq!(value_f64(&m.get(&mut s, 0, 0)), 1.0);
    assert_eq!(value_f64(&m.get(&mut s, 0, 4)), 5.0);
    assert_eq!(value_f64(&m.get(&mut s, 3, 0)), 16.0);
    assert_eq!(value_f64(&m.get(&mut s, 3, 4)), 20.0);
    assert_eq!(value_f64(&m.get(&mut s, 1, 2)), 8.0);
    assert_eq!(value_f64(&m.at(&mut s, 2, 3)), 14.0);
}

#[test]
fn test_matrix_multiplication() {
    let mut s = Session::new();
    let m1 = matrix(&mut s, "m1", vec![vec![1.0, 2.0], vec![3.0, 4.0]]);
    let m2 = matrix(&mut s, "m2", vec![vec![5.0, 6.0], vec![7.0, 8.0]]);
    let result = m1.matmul(&mut s, &m2);
    let expected = vec![vec![19.0, 22.0], vec![43.0, 50.0]];
    assert_eq!(matrix_f64(&result), expected);
}

#[test]
fn test_matrix_multiplication2() {
    let mut s = Session::new();
    let m1 = matrix(&mut s, "m1", vec![vec![1.0, 2.0, 3.0], vec![4.0, 5.0, 6.0]]);
    let m2 = matrix(&mut s, "m2", vec![vec![7.0, 8.0], vec![9.0, 10.0], vec![11.0, 12.0]]);
    let result_matrix = m1.matmul(&mut s, &m2);
    let expected_matrix = vec![vec![58.0, 64.0], vec![139.0, 154.0]];
    assert_eq!(matrix_f64(&result_matrix), expected_matrix);
}

#[test]
fn test_matrix_multiplication_records_its_nodes() {
    let mut s = Session::new();
    let m1 = matrix(&mut s, "m1", vec![vec![1.0, 2.0], vec![3.0, 4.0]]);
    let m2 = matrix(&mut s, "m2", vec![vec![5.0, 6.0], vec![7.0, 8.0]]);
    let before = s.program.get_body().len();
    let result = m1.matmul(&mut s, &m2);
    // eight extractions, four gathered vectors, four dot products, the result
    assert_eq!(s.program.get_body().len() - before, 17);
    assert_eq!(result.get_name(), "m1_matmul_m2");
    assert_eq!(result.id.id, 2 + 17 + 1);
}

#[test]
fn test_matrix_times_vector() {
    let mut s = Session::new();
    let m = matrix(&mut s, "m", vec![vec![1.0, 2.0], vec![3.0, 4.0]]);
    let v = Vector::new_rational(&mut s, "v", vec![num(5.0), num(6.0)]);
    let result = m.matmul_vec(&mut s, &v);
    let values: Vec<f64> = result.value.iter().map(f64_of).collect();
    assert_eq!(values, vec![17.0, 39.0]);
}

#[test]
fn test_matrix_transpose() {
    let mut s = Session::new();
    let m = matrix(&mut s, "m", vec![vec![1.0, 2.0, 3.0], vec![4.0, 5.0, 6.0]]);
    let t = m.transpose(&mut s);
    assert_eq!(matrix_f64(&t), vec![vec![1.0, 4.0], vec![2.0, 5.0], vec![3.0, 6.0]]);
    assert_eq!(t.get_name(), "m_transpose");
    assert_eq!(
        t.id.size,
        roboprec::identifier::IdSize::Matrix { row_size: 3, col_size: 2 }
    );
    let back = t.transpose(&mut s);
    assert_eq!(matrix_f64(&back), matrix_f64(&m));
}

#[test]
fn test_matrix_set() {
    let mut s = Session::new();
    let mut m = matrix(&mut s, "m", vec![vec![1.0, 2.0], vec![3.0, 4.0]]);
    let x = scalar(&mut s, 9.0);
    m.set(&mut s, (1, 0), &x);
    assert_eq!(matrix_f64(&m), vec![vec![1.0, 2.0], vec![9.0, 4.0]]);
    assert_eq!(m.get_name(), "m_set_1_0");
}

#[test]
fn test_matrix_zero() {
    let mut s = Session::new();
    let z = Matrix::zero(&mut s, 2, 3);
    assert_eq!(matrix_f64(&z), vec![vec![0.0, 0.0, 0.0], vec![0.0, 0.0, 0.0]]);
    assert_eq!(z.get_name(), "zero_matrix_2_3");
}

#[test]
fn test_matrix_rows_and_columns() {
    let mut s = Session::new();
    let m = matrix(&mut s, "m", vec![vec![1.0, 2.0], vec![3.0, 4.0]]);
    let row = m.get_row(&mut s, 1);
    let values: Vec<f64> = row.value.iter().map(f64_of).collect();
    assert_eq!(values, vec![3.0, 4.0]);
    assert_eq!(row.get_name(), "m_row_1");
    let column = matrix(&mut s, "c", vec![vec![7.0], vec![8.0]]);
    let v = column.to_vector(&mut s);
    let values: Vec<f64> = v.value.iter().map(f64_of).collect();
    assert_eq!(values, vec![7.0, 8.0]);
}

#[test]
fn test_matrix_from_vectors() {
    let mut s = Session::new();
    let a = Vector::new_rational(&mut s, "a", vec![num(1.0), num(2.0)]);
    let b = Vector::new_rational(&mut s, "b", vec![num(3.0), num(4.0)]);
    let m = Matrix::from_vectors(&mut s, "m", vec![&a, &b]);
    assert_eq!(matrix_f64(&m), vec![vec![1.0, 2.0], vec![3.0, 4.0]]);
    let column = Matrix::from_vector(&mut s, "col", &a);
    assert_eq!(matrix_f64(&column), vec![vec![1.0], vec![2.0]]);
}

#[test]
fn test_matrix_with_scalar() {
    let mut s = Session::new();
    let m = matrix(&mut s, "m", vec![vec![1.0, 2.0], vec![3.0, 4.0]]);
    let k = scalar(&mut s, 2.0);
    assert_eq!(matrix_f64(&m.add_scalar(&mut s, &k)), vec![vec![3.0, 4.0], vec![5.0, 6.0]]);
    assert_eq!(matrix_f64(&m.sub_scalar(&mut s, &k)), vec![vec![-1.0, 0.0], vec![1.0, 2.0]]);
    assert_eq!(matrix_f64(&m.mul_scalar(&mut s, &k)), vec![vec![2.0, 4.0], vec![6.0, 8.0]]);
    assert_eq!(matrix_f64(&m.neg(&mut s)), vec![vec![-1.0, -2.0], vec![-3.0, -4.0]]);
}

#[test]
fn test_matrix_sin_and_cos_bind_nodes() {
    let mut s = Session::new();
    let m = matrix(&mut s, "angles", vec![vec![0.0, 0.5], vec![1.0, 1.5]]);
    let sines: Vec<Vec<f64>> = vec![vec![0.0f64.sin(), 0.5f64.sin()], vec![1.0f64.sin(), 1.5f64.sin()]];
    let cosines: Vec<Vec<f64>> = vec![vec![0.0f64.cos(), 0.5f64.cos()], vec![1.0f64.cos(), 1.5f64.cos()]];
    let before = s.program.get_body().len();
    let a = m.sin(&mut s, grid(sines.clone()));
    let b = m.cos(&mut s, grid(cosines.clone()));
    assert_eq!(a.get_name(), "angles_sin");
    assert_eq!(b.get_name(), "angles_cos");
    assert_eq!(a.size(), (2, 2));
    assert_eq!(matrix_f64(&a), sines);
    assert_eq!(matrix_f64(&b), cosines);
    let body = s.program.get_body();
    assert_eq!(body.len(), before + 2);
    assert!(matches!(
        &body[before],
        roboprec::expr::Expr::Let {
            opr: roboprec::expr::Opr::Unary { opr_type: roboprec::expr::OprUnary::Sine, .. },
            ..
        }
    ));
    assert!(matches!(
        &body[before + 1],
        roboprec::expr::Expr::Let {
            opr: roboprec::expr::Opr::Unary { opr_type: roboprec::expr::OprUnary::Cosine, .. },
            ..
        }
    ));
}

#[test]
fn test_transpose_twice_gives_the_values_back() {
    let mut s = Session::new();
    let m = matrix(&mut s, "m", vec![vec![1.0, 2.0, 3.0], vec![4.0, 5.0, 6.0]]);
    let t = m.transpose(&mut s);
    assert_eq!(matrix_f64(&t), vec![vec![1.0, 4.0], vec![2.0, 5.0], vec![3.0, 6.0]]);
    let back = t.transpose(&mut s);
    assert_eq!(matrix_f64(&back), matrix_f64(&m));
    assert_ne!(back.id.id, m.id.id);
}
