use roboprec::rational::Real;
use roboprec::scalar::Scalar;
use roboprec::session::Session;
use roboprec::vector::Vector;

fn num(x: f64) -> Real {
    Real::from_text(&rug::Rational::from_f64(x).unwrap().to_string()).unwrap()
}

fn f64_of(r: &Real) -> f64 {
    r.text().parse::<rug::Rational>().unwrap().to_f64()
}

fn scalar(s: &mut Session, x: f64) -> Scalar {
    Scalar::new_rational(s, "scalar", num(x))
}

fn named_scalar(s: &mut Session, name: &str, x: f64) -> Scalar {
    Scalar::new_rational(s, name, num(x))
}

fn value_f64(x: &Scalar) -> f64 {
    f64_of(&x.value)
}

fn reals(values: Vec<f64>) -> Vec<Real> {
    values.into_iter().map(num).collect()
}

fn vector(s: &mut Session, name: &str, values: Vec<f64>) -> Vector {
    Vector::new_rational(s, name, reals(values))
}

fn vector_f64(v: &Vector) -> Vec<f64> {
    v.value.iter().map(f64_of).collect()
}

fn get_f64(v: &Vector, index: usize) -> Option<f64> {
    v.value.get(index).map(f64_of)
}

#[test]
fn test_vector_new() {
    let mut s = Session::new();
    let vec = vector(&mut s, "test_vector", vec![1.0, 2.0, 3.0]);
    assert_eq!(vec.size(), 3);
    assert_eq!(vector_f64(&vec), vec![1.0, 2.0, 3.0]);
}

#[test]
fn test_vector_from_scalars() {
    let mut s = Session::new();
    let s1 = named_scalar(&mut s, "s1", 1.0);
    let s2 = named_scalar(&mut s, "s2", 2.0);
    let s3 = named_scalar(&mut s, "s3", 3.0);
    let vec = Vector::from_scalars(&mut s, "from_scalars", vec![&s1, &s2, &s3]);
    assert_eq!(vec.size(), 3);
    assert_eq!(vector_f64(&vec), vec![1.0, 2.0, 3.0]);
}

#[test]
fn test_vector_from_vector() {
    let mut s = Session::new();
    let original = vector(&mut s, "original", vec![1.0, 2.0, 3.0]);
    let copy = Vector::from_vector(&mut s, "copy", &original);
    assert_eq!(copy.size(), 3);
    assert_eq!(copy.size(), 3);
    assert_eq!(vector_f64(&copy), vec![1.0, 2.0, 3.0]);
}

#[test]
fn test_vector_get() {
    let mut s = Session::new();
    let vec = vector(&mut s, "test_vector", vec![1.0, 2.0, 3.0]);
    let elem0 = vec.get(&mut s, 0);
    let elem1 = vec.get(&mut s, 1);
    let elem2 = vec.at(&mut s, 2);
    assert_eq!(value_f64(&elem0), 1.0);
    assert_eq!(value_f64(&elem1), 2.0);
    assert_eq!(value_f64(&elem2), 3.0);
}

#[test]
fn test_vector_get_f64() {
    let mut s = Session::new();
    let vec = vector(&mut s, "test_vector", vec![1.0, 2.0, 3.0]);
    assert_eq!(get_f64(&vec, 0), Some(1.0));
    assert_eq!(get_f64(&vec, 1), Some(2.0));
    assert_eq!(get_f64(&vec, 2), Some(3.0));
    assert_eq!(get_f64(&vec, 3), None);
}

#[test]
fn test_vector_set_valid_index() {
    let mut s = Session::new();
    let mut vec = vector(&mut s, "test_vector", vec![1.0, 2.0, 3.0]);
    vec.set(&mut s, 1, num(10.0));
    assert_eq!(vector_f64(&vec), vec![1.0, 10.0, 3.0]);
}

#[test]
fn test_vector_set_first_element() {
    let mut s = Session::new();
    let mut vec = vector(&mut s, "test_vector", vec![1.0, 2.0, 3.0]);
    vec.set(&mut s, 0, num(99.0));
    assert_eq!(vector_f64(&vec), vec![99.0, 2.0, 3.0]);
}

#[test]
fn test_vector_set_last_element() {
    let mut s = Session::new();
    let mut vec = vector(&mut s, "test_vector", vec![1.0, 2.0, 3.0]);
    vec.set(&mut s, 2, num(88.0));
    assert_eq!(vector_f64(&vec), vec![1.0, 2.0, 88.0]);
}

#[test]
fn test_vector_set_single_element_vector() {
    let mut s = Session::new();
    let mut vec = vector(&mut s, "single", vec![42.0]);
    vec.set(&mut s, 0, num(77.0));
    assert_eq!(vector_f64(&vec), vec![77.0]);
}

#[test]
fn test_vector_push_f64_to_empty() {
    let mut s = Session::new();
    let mut vec = vector(&mut s, "empty", vec![]);
    vec.push_value(&mut s, num(5.0));
    assert_eq!(vec.size(), 1);
    assert_eq!(vector_f64(&vec), vec![5.0]);
}

#[test]
fn test_vector_push_f64_to_non_empty() {
    let mut s = Session::new();
    let mut vec = vector(&mut s, "test_vector", vec![1.0, 2.0]);
    vec.push_value(&mut s, num(3.0));
    assert_eq!(vec.size(), 3);
    assert_eq!(vector_f64(&vec), vec![1.0, 2.0, 3.0]);
}

#[test]
fn test_vector_push_f64_multiple() {
    let mut s = Session::new();
    let mut vec = vector(&mut s, "test_vector", vec![1.0]);
    vec.push_value(&mut s, num(2.0));
    vec.push_value(&mut s, num(3.0));
    vec.push_value(&mut s, num(4.0));
    assert_eq!(vec.size(), 4);
    assert_eq!(vector_f64(&vec), vec![1.0, 2.0, 3.0, 4.0]);
}

#[test]
fn test_vector_get_name() {
    let mut s = Session::new();
    let vec = vector(&mut s, "test_name", vec![1.0, 2.0]);
    assert_eq!(vec.get_name(), "test_name");
}

#[test]
fn test_vector_dot_product() {
    let mut s = Session::new();
    let v1 = vector(&mut s, "v1", vec![1.0, 2.0, 3.0]);
    let v2 = vector(&mut s, "v2", vec![4.0, 5.0, 6.0]);
    let dot = v1.dot(&mut s, &v2);
    assert_eq!(value_f64(&dot), 32.0);
}

#[test]
fn test_vector_dot_product_empty() {
    let mut s = Session::new();
    let v1 = vector(&mut s, "v1", vec![]);
    let v2 = vector(&mut s, "v2", vec![]);
    let dot = v1.dot(&mut s, &v2);
    assert_eq!(value_f64(&dot), 0.0);
}

#[test]
fn test_vector_dot_product_single_element() {
    let mut s = Session::new();
    let v1 = vector(&mut s, "v1", vec![3.0]);
    let v2 = vector(&mut s, "v2", vec![4.0]);
    let dot = v1.dot(&mut s, &v2);
    assert_eq!(value_f64(&dot), 12.0);
}

#[test]
fn test_vector_macro() {
    let mut s = Session::new();
    let vec = vector(&mut s, "vector", vec![1.0, 2.0, 3.0]);
    assert_eq!(vec.size(), 3);
    assert_eq!(vector_f64(&vec), vec![1.0, 2.0, 3.0]);
}

#[test]
fn test_vector_macro_single_element() {
    let mut s = Session::new();
    let vec = vector(&mut s, "vector", vec![42.0]);
    assert_eq!(vec.size(), 1);
    assert_eq!(vector_f64(&vec), vec![42.0]);
}

#[test]
fn test_vector_from_scalars_macro() {
    let mut s = Session::new();
    let s1 = named_scalar(&mut s, "s1", 1.0);
    let s2 = named_scalar(&mut s, "s2", 2.0);
    let s3 = named_scalar(&mut s, "s3", 3.0);
    let vec = Vector::from_scalars(&mut s, "vector", vec![&s1, &s2, &s3]);
    assert_eq!(vec.size(), 3);
    assert_eq!(vector_f64(&vec), vec![1.0, 2.0, 3.0]);
}

#[test]
fn test_vector_define() {
    let mut s = Session::new();
    let vec = vector(&mut s, "original", vec![1.0, 2.0]);
    let vec = vec.define(&mut s, "redefined".to_string());
    assert_eq!(vector_f64(&vec), vec![1.0, 2.0]);
    assert_eq!(vec.get_name(), "redefined");
}

#[test]
fn test_vector_clone() {
    let mut s = Session::new();
    let vec1 = vector(&mut s, "original", vec![1.0, 2.0, 3.0]);
    let vec2 = vec1.clone();
    assert_eq!(vec1.size(), vec2.size());
    assert_eq!(vector_f64(&vec1), vector_f64(&vec2));
}

#[test]
fn test_vector_edge_case_values() {
    let mut s = Session::new();
    let mut vec = vector(&mut s, "edge_cases", vec![0.0, -1.0, 1.5, -3.14]);
    vec.set(&mut s, 0, num(0.0));
    assert_eq!(get_f64(&vec, 0), Some(0.0));
    vec.push_value(&mut s, num(-99.9));
    assert_eq!(get_f64(&vec, 4), Some(-99.9));
    vec.set(&mut s, 2, num(0.123456));
    assert!((get_f64(&vec, 2).unwrap() - 0.123456).abs() < 1e-10);
}

#[test]
fn test_vector_pop() {
    let mut s = Session::new();
    let mut vec = vector(&mut s, "v", vec![1.0, 2.0]);
    assert_eq!(f64_of(&vec.pop(&mut s)), 2.0);
    assert_eq!(vector_f64(&vec), vec![1.0]);
    assert_eq!(vec.get_name(), "r_1_v");
    assert_eq!(f64_of(&vec.pop(&mut s)), 1.0);
    assert_eq!(vec.size(), 0);
}

#[test]
fn test_vector_cross_product() {
    let mut s = Session::new();
    let u = vector(&mut s, "u", vec![1.0, 2.0, 3.0]);
    let v = vector(&mut s, "v", vec![4.0, 5.0, 6.0]);
    let cross = u.cross(&mut s, &v);
    assert_eq!(vector_f64(&cross), vec![-3.0, 6.0, -3.0]);
    assert_eq!(cross.get_name(), "u_cross_v");
}

#[test]
fn test_vector_arithmetic() {
    let mut s = Session::new();
    let a = vector(&mut s, "a", vec![8.0, 6.0]);
    let b = vector(&mut s, "b", vec![2.0, 3.0]);
    let k = named_scalar(&mut s, "k", 2.0);
    assert_eq!(vector_f64(&a.add(&mut s, &b)), vec![10.0, 9.0]);
    assert_eq!(vector_f64(&a.sub(&mut s, &b)), vec![6.0, 3.0]);
    assert_eq!(vector_f64(&a.mul(&mut s, &b)), vec![16.0, 18.0]);
    assert_eq!(vector_f64(&a.div(&mut s, &b)), vec![4.0, 2.0]);
    assert_eq!(vector_f64(&a.add_scalar(&mut s, &k)), vec![10.0, 8.0]);
    assert_eq!(vector_f64(&a.sub_scalar(&mut s, &k)), vec![6.0, 4.0]);
    assert_eq!(vector_f64(&a.mul_scalar(&mut s, &k)), vec![16.0, 12.0]);
    assert_eq!(vector_f64(&a.div_scalar(&mut s, &k)), vec![4.0, 3.0]);
    assert_eq!(vector_f64(&a.neg(&mut s)), vec![-8.0, -6.0]);
}

#[test]
fn test_vector_sin_binds_a_sine_node() {
    let mut s = Session::new();
    let v = vector(&mut s, "angles", vec![0.0, 0.5]);
    let sines: Vec<f64> = vec![0.0f64.sin(), 0.5f64.sin()];
    let before = s.program.get_body().len();
    let r = v.sin(&mut s, reals(sines.clone()));
    assert_eq!(r.get_name(), "angles_sin");
    assert_eq!(r.size(), 2);
    assert_eq!(vector_f64(&r), sines);
    assert_eq!(s.program.get_body().len(), before + 1);
    match s.program.get_body().last().unwrap() {
        roboprec::expr::Expr::Let {
            id,
            opr: roboprec::expr::Opr::Unary { opr1, opr_type: roboprec::expr::OprUnary::Sine },
        } => {
            assert_eq!(id.id, r.id.id);
            assert_eq!(opr1.id, v.id.id);
        }
        other => panic!("unexpected node {:?}", other),
    }
}

#[test]
fn test_vector_cos_binds_a_cosine_node() {
    let mut s = Session::new();
    let v = vector(&mut s, "angles", vec![0.0, 0.5]);
    let cosines: Vec<f64> = vec![0.0f64.cos(), 0.5f64.cos()];
    let r = v.cos(&mut s, reals(cosines.clone()));
    assert_eq!(r.get_name(), "angles_cos");
    assert_eq!(vector_f64(&r), cosines);
    assert!(matches!(
        s.program.get_body().last().unwrap(),
        roboprec::expr::Expr::Let {
            opr: roboprec::expr::Opr::Unary { opr_type: roboprec::expr::OprUnary::Cosine, .. },
            ..
        }
    ));
}
