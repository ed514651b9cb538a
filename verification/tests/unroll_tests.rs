use roboprec::expr::{Expr, Opr, OprBinary, OprUnary};
use roboprec::identifier::{IdSize, Identifier, VarType};
use roboprec::matrix::{add_input_matrix, register_matrix_output, Matrix};
use roboprec::naming::Namer;
use roboprec::plan::UnrollError;
use roboprec::program::{Input, Program, ProgramInput, ProgramOutput};
use roboprec::rational::Real;
use roboprec::scalar::{add_input_scalar, register_scalar_output, Scalar};
use roboprec::session::Session;
use roboprec::unroll::unroll_ir;
use roboprec::vector::{add_input_vector, register_vector_output, Vector};
use std::collections::HashMap;

fn num(x: f64) -> Real {
    Real::from_text(&rug::Rational::from_f64(x).unwrap().to_string()).unwrap()
}

fn f64_of(r: &Real) -> f64 {
    r.text().parse::<rug::Rational>().unwrap().to_f64()
}

fn nums(values: Vec<f64>) -> Vec<Real> {
    values.into_iter().map(num).collect()
}

fn grid(values: Vec<Vec<f64>>) -> Vec<Vec<Real>> {
    values.into_iter().map(nums).collect()
}

fn range(lower: f64, upper: f64) -> (Real, Real) {
    (num(lower), num(upper))
}

/// Evaluates a scalar program; `inputs` gives the value of each input by
/// identifier number.
fn evaluate(program: &Program, inputs: &HashMap<usize, f64>) -> HashMap<usize, f64> {
    let mut env = inputs.clone();
    for expr in program.get_body().iter() {
        let Expr::Let { id, opr } = expr;
        let value = match opr {
            Opr::ConstantScalar { value } => f64_of(value),
            Opr::ConstructScalar { id } => env[&id.id],
            Opr::Unary { opr1, opr_type } => match opr_type {
                OprUnary::Neg => -env[&opr1.id],
                OprUnary::Assign | OprUnary::AssignNoOpt => env[&opr1.id],
                other => panic!("not a scalar operation: {:?}", other),
            },
            Opr::Binary { opr1, opr2, opr_type } => match opr_type {
                OprBinary::Add => env[&opr1.id] + env[&opr2.id],
                OprBinary::Sub => env[&opr1.id] - env[&opr2.id],
                OprBinary::Mul => env[&opr1.id] * env[&opr2.id],
                OprBinary::Div => env[&opr1.id] / env[&opr2.id],
                other => panic!("not a scalar operation: {:?}", other),
            },
            other => panic!("not a scalar node: {:?}", other),
        };
        assert_eq!(id.var_type, VarType::Scalar);
        env.insert(id.id, value);
    }
    env
}

fn output_values(program: &Program, env: &HashMap<usize, f64>, index: usize) -> Vec<Vec<f64>> {
    match program.get_outputs().value_at(index) {
        ProgramOutput::Scalar { info } => vec![vec![env[&info.id.id]]],
        ProgramOutput::Vector { info } => vec![info.iter().map(|leaf| env[&leaf.id.id]).collect()],
        ProgramOutput::Matrix { info } => info
            .iter()
            .map(|row| row.iter().map(|leaf| env[&leaf.id.id]).collect())
            .collect(),
    }
}

fn names(program: &Program) -> Vec<String> {
    program
        .get_body()
        .iter()
        .map(|expr| {
            let Expr::Let { id, .. } = expr;
            id.name.clone()
        })
        .collect()
}

fn describe(program: &Program) -> Vec<String> {
    program
        .get_body()
        .iter()
        .map(|expr| {
            let Expr::Let { id, opr } = expr;
            let rhs = match opr {
                Opr::ConstantScalar { value } => format!("{}", value.text()),
                Opr::Unary { opr1, opr_type } => format!("{:?} {}", opr_type, opr1.name),
                Opr::Binary { opr1, opr2, opr_type } => {
                    format!("{:?} {} {}", opr_type, opr1.name, opr2.name)
                }
                other => format!("{:?}", other),
            };
            format!("{} = {}", id.name, rhs)
        })
        .collect()
}

#[test]
fn test_unroll_empty_program() {
    let mut s = Session::new();
    let unrolled = unroll_ir(&mut s.namer, &s.program).unwrap();
    assert_eq!(unrolled.get_body().len(), 0);
    assert_eq!(unrolled.get_inputs().len(), 0);
    assert_eq!(unrolled.get_outputs().len(), 0);
}

#[test]
fn test_unroll_end_to_end_cube() {
    let mut s = Session::new();
    let x = add_input_scalar(&mut s, "x", range(0.0, 1.0), num(0.5));
    let x2 = x.mul(&mut s, &x);
    let mut x3 = x2.mul(&mut s, &x);
    register_scalar_output(&mut s, &mut x3, "output");
    assert_eq!(f64_of(&x3.value), 0.125);
    assert_eq!(x3.id.name, "output");

    let unrolled = unroll_ir(&mut s.namer, &s.program).unwrap();
    assert_eq!(unrolled.get_inputs().len(), 1);
    assert_eq!(unrolled.get_inputs().key_at(0).id, x.id.id);
    assert_eq!(unrolled.get_outputs().len(), 1);
    match unrolled.get_outputs().value_at(0) {
        ProgramOutput::Scalar { info } => {
            assert_eq!(info.id.id, x3.id.id);
            assert_eq!(info.id.name, "output");
            assert!(info.range.0.is_zero() && info.range.1.is_zero());
            assert!(info.error.0.is_zero() && info.error.1.is_zero());
        }
        other => panic!("not a scalar output: {:?}", other),
    }
    let multiplications = unrolled
        .get_body()
        .iter()
        .filter(|expr| {
            let Expr::Let { opr, .. } = expr;
            matches!(opr, Opr::Binary { opr_type: OprBinary::Mul, .. })
        })
        .count();
    assert_eq!(multiplications, 2);
    assert_eq!(
        describe(&unrolled),
        vec!["x_mul_x = Mul x x", "x_mul_x_mul_x = Mul x_mul_x x", "output = AssignNoOpt x_mul_x_mul_x"]
    );
    let mut inputs = HashMap::new();
    inputs.insert(x.id.id, 0.5);
    let env = evaluate(&unrolled, &inputs);
    assert_eq!(output_values(&unrolled, &env, 0), vec![vec![0.125]]);
}

#[test]
fn test_unroll_dot_product() {
    let mut s = Session::new();
    let u = Vector::new_rational(&mut s, "u", nums(vec![1.0, 2.0, 3.0]));
    let v = Vector::new_rational(&mut s, "v", nums(vec![4.0, 5.0, 6.0]));
    let mut dot = u.dot(&mut s, &v);
    register_scalar_output(&mut s, &mut dot, "d");
    let unrolled = unroll_ir(&mut s.namer, &s.program).unwrap();
    assert_eq!(
        describe(&unrolled),
        vec![
            "u_0 = 1",
            "u_1 = 2",
            "u_2 = 3",
            "v_0 = 4",
            "v_1 = 5",
            "v_2 = 6",
            "dot_0 = Mul u_0 v_0",
            "dot_1 = Mul u_1 v_1",
            "dot_2 = Mul u_2 v_2",
            "dot_sum_1 = Add dot_0 dot_1",
            "dot_sum_2 = Add dot_sum_1 dot_2",
            "u_dot_v = Assign dot_sum_2",
            "d = AssignNoOpt u_dot_v",
        ]
    );
    let env = evaluate(&unrolled, &HashMap::new());
    assert_eq!(output_values(&unrolled, &env, 0), vec![vec![32.0]]);
}

#[test]
fn test_unroll_dot_product_of_one_element() {
    let mut s = Session::new();
    let u = Vector::new_rational(&mut s, "u", nums(vec![3.0]));
    let v = Vector::new_rational(&mut s, "v", nums(vec![4.0]));
    let mut dot = u.dot(&mut s, &v);
    register_scalar_output(&mut s, &mut dot, "d");
    let unrolled = unroll_ir(&mut s.namer, &s.program).unwrap();
    assert_eq!(
        describe(&unrolled),
        vec!["u_0 = 3", "v_0 = 4", "dot_0 = Mul u_0 v_0", "u_dot_v = Assign dot_0", "d = AssignNoOpt u_dot_v"]
    );
    let env = evaluate(&unrolled, &HashMap::new());
    assert_eq!(output_values(&unrolled, &env, 0), vec![vec![12.0]]);
}

#[test]
fn test_unroll_cross_product() {
    let mut s = Session::new();
    let u = Vector::new_rational(&mut s, "u", nums(vec![1.0, 2.0, 3.0]));
    let v = Vector::new_rational(&mut s, "v", nums(vec![4.0, 5.0, 6.0]));
    let mut cross = u.cross(&mut s, &v);
    register_vector_output(&mut s, &mut cross, "c");
    let unrolled = unroll_ir(&mut s.namer, &s.program).unwrap();
    let lines = describe(&unrolled);
    assert_eq!(
        &lines[6..15],
        &[
            "cross_temp = Mul u_1 v_2",
            "cross_temp2 = Mul u_2 v_1",
            "u_cross_v_0 = Sub cross_temp cross_temp2",
            "cross_temp3 = Mul u_2 v_0",
            "cross_temp4 = Mul u_0 v_2",
            "u_cross_v_1 = Sub cross_temp3 cross_temp4",
            "cross_temp5 = Mul u_0 v_1",
            "cross_temp6 = Mul u_1 v_0",
            "u_cross_v_2 = Sub cross_temp5 cross_temp6",
        ]
    );
    assert_eq!(
        &lines[15..],
        &["c_0 = AssignNoOpt u_cross_v_0", "c_1 = AssignNoOpt u_cross_v_1", "c_2 = AssignNoOpt u_cross_v_2"]
    );
    let env = evaluate(&unrolled, &HashMap::new());
    assert_eq!(output_values(&unrolled, &env, 0), vec![vec![-3.0, 6.0, -3.0]]);
}

#[test]
fn test_unroll_matmul() {
    let mut s = Session::new();
    let a = Matrix::new_rational(&mut s, "a", grid(vec![vec![1.0, 2.0], vec![3.0, 4.0]]));
    let b = Matrix::new_rational(&mut s, "b", grid(vec![vec![5.0, 6.0], vec![7.0, 8.0]]));
    let mut product = a.matmul(&mut s, &b);
    register_matrix_output(&mut s, &mut product, "p");
    let unrolled = unroll_ir(&mut s.namer, &s.program).unwrap();
    let env = evaluate(&unrolled, &HashMap::new());
    assert_eq!(
        output_values(&unrolled, &env, 0),
        vec![vec![19.0, 22.0], vec![43.0, 50.0]]
    );
}

#[test]
fn test_unroll_transpose_twice_gives_the_values_back() {
    let mut s = Session::new();
    let values = vec![vec![1.0, 2.0, 3.0], vec![4.0, 5.0, 6.0]];
    let m = Matrix::new_rational(&mut s, "m", grid(values.clone()));
    let mut once = m.transpose(&mut s);
    let mut twice = once.transpose(&mut s);
    let mut plain = m.define(&mut s, "copy".to_string());
    register_matrix_output(&mut s, &mut once, "once");
    register_matrix_output(&mut s, &mut twice, "twice");
    register_matrix_output(&mut s, &mut plain, "plain");
    let unrolled = unroll_ir(&mut s.namer, &s.program).unwrap();
    let env = evaluate(&unrolled, &HashMap::new());
    assert_eq!(
        output_values(&unrolled, &env, 0),
        vec![vec![1.0, 4.0], vec![2.0, 5.0], vec![3.0, 6.0]]
    );
    assert_eq!(output_values(&unrolled, &env, 1), values);
    assert_eq!(output_values(&unrolled, &env, 2), values);
}

#[test]
fn test_unroll_inputs_are_split_by_element() {
    let mut s = Session::new();
    let x = add_input_scalar(&mut s, "x", range(0.0, 1.0), num(0.5));
    let v = add_input_vector(
        &mut s,
        "v",
        vec![range(-1.0, 1.0), range(-2.0, 2.0)],
        nums(vec![0.0, 0.0]),
    );
    let m = add_input_matrix(
        &mut s,
        "m",
        vec![vec![range(0.0, 1.0), range(0.0, 2.0)], vec![range(0.0, 3.0), range(0.0, 4.0)]],
        grid(vec![vec![0.0, 0.0], vec![0.0, 0.0]]),
    );
    let before = (x.id.id, v.id.id, m.id.id);
    assert_eq!(before, (1, 2, 3));
    let unrolled = unroll_ir(&mut s.namer, &s.program).unwrap();
    let inputs = unrolled.get_inputs();
    assert_eq!(inputs.len(), 7);
    let listed: Vec<(usize, String)> =
        (0..inputs.len()).map(|i| (inputs.key_at(i).id, inputs.key_at(i).name.clone())).collect();
    assert_eq!(
        listed,
        vec![
            (1, "x".to_string()),
            (4, "v_0".to_string()),
            (5, "v_1".to_string()),
            (6, "m_0_0".to_string()),
            (7, "m_0_1".to_string()),
            (8, "m_1_0".to_string()),
            (9, "m_1_1".to_string()),
        ]
    );
    match inputs.value_at(5) {
        ProgramInput::Scalar { info } => {
            assert_eq!(f64_of(&info.range.0), 0.0);
            assert_eq!(f64_of(&info.range.1), 3.0);
        }
        other => panic!("not scalar: {:?}", other),
    }
    for i in 0..inputs.len() {
        assert_eq!(inputs.key_at(i).size, IdSize::Scalar);
    }
    // the program that was lowered is left as it was
    assert_eq!(s.program.get_inputs().len(), 3);
}

#[test]
fn test_unroll_cardinality_and_new_identifiers() {
    let mut s = Session::new();
    let mut v = Vector::new_rational(&mut s, "v", nums(vec![1.0, 2.0, 3.0, 4.0]));
    let mut m = Matrix::new_rational(&mut s, "m", grid(vec![vec![1.0, 2.0, 3.0], vec![4.0, 5.0, 6.0]]));
    let mut w = v.neg(&mut s);
    register_vector_output(&mut s, &mut v, "vo");
    register_matrix_output(&mut s, &mut m, "mo");
    register_vector_output(&mut s, &mut w, "wo");
    let mut old_ids = Vec::new();
    for expr in s.program.get_body().iter() {
        let Expr::Let { id, .. } = expr;
        old_ids.push(id.id);
    }
    let highest = *old_ids.iter().max().unwrap();
    let unrolled = unroll_ir(&mut s.namer, &s.program).unwrap();
    let outputs = unrolled.get_outputs();
    let mut seen = Vec::new();
    let mut sizes = Vec::new();
    for i in 0..outputs.len() {
        let leaves: Vec<usize> = match outputs.value_at(i) {
            ProgramOutput::Scalar { info } => vec![info.id.id],
            ProgramOutput::Vector { info } => info.iter().map(|l| l.id.id).collect(),
            ProgramOutput::Matrix { info } => {
                assert_eq!(info.len(), 2);
                assert!(info.iter().all(|row| row.len() == 3));
                info.iter().flat_map(|row| row.iter().map(|l| l.id.id)).collect()
            }
        };
        sizes.push(leaves.len());
        for id in leaves {
            assert!(id > highest);
            assert!(!seen.contains(&id));
            seen.push(id);
        }
    }
    assert_eq!(sizes, vec![4, 6, 4]);
}

#[test]
fn test_unroll_broadcasts() {
    let mut s = Session::new();
    let v = Vector::new_rational(&mut s, "v", nums(vec![8.0, 6.0]));
    let k = Scalar::new_rational(&mut s, "k", num(2.0));
    let mut a = v.div_scalar(&mut s, &k);
    let mut b = v.add_scalar(&mut s, &k);
    let mut c = v.sub_scalar(&mut s, &k);
    let mut d = v.mul_scalar(&mut s, &k);
    register_vector_output(&mut s, &mut a, "a");
    register_vector_output(&mut s, &mut b, "b");
    register_vector_output(&mut s, &mut c, "c");
    register_vector_output(&mut s, &mut d, "d");
    let unrolled = unroll_ir(&mut s.namer, &s.program).unwrap();
    let env = evaluate(&unrolled, &HashMap::new());
    assert_eq!(output_values(&unrolled, &env, 0), vec![vec![4.0, 3.0]]);
    assert_eq!(output_values(&unrolled, &env, 1), vec![vec![10.0, 8.0]]);
    assert_eq!(output_values(&unrolled, &env, 2), vec![vec![6.0, 4.0]]);
    assert_eq!(output_values(&unrolled, &env, 3), vec![vec![16.0, 12.0]]);
}

#[test]
fn test_unroll_matrix_arithmetic_and_indexing() {
    let mut s = Session::new();
    let a = Matrix::new_rational(&mut s, "a", grid(vec![vec![1.0, 2.0], vec![3.0, 4.0]]));
    let b = Matrix::new_rational(&mut s, "b", grid(vec![vec![10.0, 20.0], vec![30.0, 40.0]]));
    let mut sum = a.add(&mut s, &b);
    let mut difference = b.sub(&mut s, &a);
    let mut negated = a.neg(&mut s);
    let mut cell = b.get(&mut s, 1, 0);
    let mut row = a.get_row(&mut s, 1);
    register_matrix_output(&mut s, &mut sum, "s");
    register_matrix_output(&mut s, &mut difference, "d");
    register_matrix_output(&mut s, &mut negated, "n");
    register_scalar_output(&mut s, &mut cell, "c");
    register_vector_output(&mut s, &mut row, "r");
    let unrolled = unroll_ir(&mut s.namer, &s.program).unwrap();
    let env = evaluate(&unrolled, &HashMap::new());
    assert_eq!(output_values(&unrolled, &env, 0), vec![vec![11.0, 22.0], vec![33.0, 44.0]]);
    assert_eq!(output_values(&unrolled, &env, 1), vec![vec![9.0, 18.0], vec![27.0, 36.0]]);
    assert_eq!(output_values(&unrolled, &env, 2), vec![vec![-1.0, -2.0], vec![-3.0, -4.0]]);
    assert_eq!(output_values(&unrolled, &env, 3), vec![vec![30.0]]);
    assert_eq!(output_values(&unrolled, &env, 4), vec![vec![3.0, 4.0]]);
}

fn identifier(id: usize, name: &str, size: IdSize) -> Identifier {
    Identifier { id, name: name.to_string(), var_type: size.var_type(), size }
}

fn program_of(body: Vec<Expr>) -> Program {
    let mut program = Program::new();
    program.set_body(body);
    program
}

fn constant_vector(id: usize, name: &str, values: Vec<f64>) -> Expr {
    Expr::Let {
        id: identifier(id, name, IdSize::Vector { len: values.len() }),
        opr: Opr::ConstantVector { value: nums(values) },
    }
}

fn error_of(body: Vec<Expr>) -> UnrollError {
    let mut namer = Namer::new();
    unroll_ir(&mut namer, &program_of(body)).err().unwrap()
}

#[test]
fn test_unroll_rejects_scalar_minus_vector() {
    let v = identifier(1, "v", IdSize::Vector { len: 2 });
    let k = identifier(2, "k", IdSize::Scalar);
    for kind in [OprBinary::Sub, OprBinary::Div] {
        let body = vec![
            constant_vector(1, "v", vec![1.0, 2.0]),
            Expr::Let {
                id: identifier(3, "r", IdSize::Vector { len: 2 }),
                opr: Opr::Binary { opr1: k.clone(), opr2: v.clone(), opr_type: kind },
            },
        ];
        assert_eq!(error_of(body), UnrollError::Unsupported);
    }
    let body = vec![
        constant_vector(1, "v", vec![1.0, 2.0]),
        Expr::Let {
            id: identifier(3, "r", IdSize::Vector { len: 2 }),
            opr: Opr::Binary { opr1: k.clone(), opr2: v.clone(), opr_type: OprBinary::Add },
        },
    ];
    let mut namer = Namer::new();
    assert!(unroll_ir(&mut namer, &program_of(body)).is_ok());
}

#[test]
fn test_unroll_errors() {
    let v = identifier(1, "v", IdSize::Vector { len: 2 });
    let w = identifier(2, "w", IdSize::Vector { len: 3 });
    let unknown = identifier(9, "u", IdSize::Vector { len: 2 });
    let m = identifier(5, "m", IdSize::Matrix { row_size: 1, col_size: 1 });
    let result = identifier(7, "r", IdSize::Scalar);
    let use_of = |opr: Opr| {
        vec![
            constant_vector(1, "v", vec![1.0, 2.0]),
            constant_vector(2, "w", vec![1.0, 2.0, 3.0]),
            Expr::Let { id: m.clone(), opr: Opr::ConstantMatrix { value: grid(vec![vec![1.0]]) } },
            Expr::Let { id: result.clone(), opr },
        ]
    };
    assert_eq!(
        error_of(use_of(Opr::Unary { opr1: unknown.clone(), opr_type: OprUnary::Neg })),
        UnrollError::UnknownOperand
    );
    assert_eq!(
        error_of(use_of(Opr::Unary { opr1: v.clone(), opr_type: OprUnary::Transpose })),
        UnrollError::Unsupported
    );
    assert_eq!(
        error_of(use_of(Opr::Unary {
            opr1: v.clone(),
            opr_type: OprUnary::Index { index: vec![0, 0] }
        })),
        UnrollError::IndexPath
    );
    assert_eq!(
        error_of(use_of(Opr::Unary { opr1: v.clone(), opr_type: OprUnary::Index { index: vec![2] } })),
        UnrollError::IndexOutOfBounds
    );
    assert_eq!(
        error_of(use_of(Opr::Unary {
            opr1: m.clone(),
            opr_type: OprUnary::Index { index: vec![0, 1] }
        })),
        UnrollError::IndexOutOfBounds
    );
    assert_eq!(
        error_of(use_of(Opr::Binary { opr1: v.clone(), opr2: w.clone(), opr_type: OprBinary::Add })),
        UnrollError::ShapeMismatch
    );
    assert_eq!(
        error_of(use_of(Opr::Binary { opr1: v.clone(), opr2: v.clone(), opr_type: OprBinary::Cross })),
        UnrollError::ShapeMismatch
    );
    assert_eq!(
        error_of(use_of(Opr::Binary { opr1: v.clone(), opr2: m.clone(), opr_type: OprBinary::Mul })),
        UnrollError::Unsupported
    );
    let empty = identifier(1, "e", IdSize::Vector { len: 0 });
    assert_eq!(
        error_of(vec![
            constant_vector(1, "e", vec![]),
            Expr::Let {
                id: result.clone(),
                opr: Opr::Binary { opr1: empty.clone(), opr2: empty.clone(), opr_type: OprBinary::Dot },
            },
        ]),
        UnrollError::EmptyOperand
    );
}

#[test]
fn test_unroll_rejects_input_of_wrong_size() {
    let mut program = Program::new();
    program.add_input(
        identifier(1, "v", IdSize::Vector { len: 3 }),
        ProgramInput::Vector { info: vec![Input { range: range(0.0, 1.0) }] },
    );
    let mut namer = Namer::new();
    assert_eq!(unroll_ir(&mut namer, &program).err(), Some(UnrollError::ShapeMismatch));
}

#[test]
fn test_unroll_output_that_was_never_bound() {
    let mut program = Program::new();
    let v = identifier(1, "v", IdSize::Vector { len: 1 });
    program.add_output(v.clone(), ProgramOutput::Vector { info: vec![] });
    let mut namer = Namer::new();
    assert_eq!(unroll_ir(&mut namer, &program).err(), Some(UnrollError::UnknownOperand));
}

#[test]
fn test_unroll_names_do_not_repeat() {
    let mut s = Session::new();
    let a = Vector::new_rational(&mut s, "v", nums(vec![1.0, 2.0]));
    let b = Vector::new_rational(&mut s, "v", nums(vec![3.0, 4.0]));
    let mut d1 = a.dot(&mut s, &b);
    let mut d2 = b.dot(&mut s, &a);
    register_scalar_output(&mut s, &mut d1, "d");
    register_scalar_output(&mut s, &mut d2, "d");
    let unrolled = unroll_ir(&mut s.namer, &s.program).unwrap();
    let all = names(&unrolled);
    for (i, name) in all.iter().enumerate() {
        assert!(!all[..i].contains(name), "{} occurs twice", name);
    }
    let env = evaluate(&unrolled, &HashMap::new());
    assert_eq!(output_values(&unrolled, &env, 0), vec![vec![11.0]]);
    assert_eq!(output_values(&unrolled, &env, 1), vec![vec![11.0]]);
}

#[test]
fn test_unroll_matrix_copy_keeps_shape_and_values() {
    let mut s = Session::new();
    let values = vec![vec![1.0, 2.0, 3.0]];
    let m = Matrix::new_rational(&mut s, "m", grid(values.clone()));
    let mut copy = Matrix::from_matrix(&mut s, "copy", &m);
    assert_eq!(copy.size(), (1, 3));
    assert_eq!(copy.id.size, IdSize::Matrix { row_size: 1, col_size: 3 });
    register_matrix_output(&mut s, &mut copy, "out");
    let unrolled = unroll_ir(&mut s.namer, &s.program).unwrap();
    match unrolled.get_outputs().value_at(0) {
        ProgramOutput::Matrix { info } => {
            assert_eq!(info.len(), 1);
            assert_eq!(info[0].len(), 3);
            assert!(info[0].iter().all(|leaf| leaf.id.var_type == VarType::Scalar));
        }
        other => panic!("not a matrix output: {:?}", other),
    }
    let env = evaluate(&unrolled, &HashMap::new());
    assert_eq!(output_values(&unrolled, &env, 0), values);
}

#[test]
fn test_unroll_matrix_concatenation_keeps_shape_and_values() {
    let mut s = Session::new();
    let a = Matrix::new_rational(&mut s, "a", grid(vec![vec![1.0, 2.0], vec![3.0, 4.0]]));
    let b = Matrix::new_rational(&mut s, "b", grid(vec![vec![5.0], vec![6.0]]));
    let c = Matrix::new_rational(&mut s, "c", grid(vec![vec![7.0, 8.0]]));
    let mut wide = Matrix::from_matrices_horizontal(&mut s, "wide", vec![&a, &b]);
    let mut tall = Matrix::from_matrices_vertical(&mut s, "tall", vec![&a, &c]);
    assert_eq!(wide.id.size, IdSize::Matrix { row_size: 2, col_size: 3 });
    assert_eq!(tall.id.size, IdSize::Matrix { row_size: 3, col_size: 2 });
    register_matrix_output(&mut s, &mut wide, "wide_out");
    register_matrix_output(&mut s, &mut tall, "tall_out");
    let unrolled = unroll_ir(&mut s.namer, &s.program).unwrap();
    let env = evaluate(&unrolled, &HashMap::new());
    assert_eq!(
        output_values(&unrolled, &env, 0),
        vec![vec![1.0, 2.0, 5.0], vec![3.0, 4.0, 6.0]]
    );
    assert_eq!(
        output_values(&unrolled, &env, 1),
        vec![vec![1.0, 2.0], vec![3.0, 4.0], vec![7.0, 8.0]]
    );
}

#[test]
fn test_unroll_refuses_a_gathered_matrix_identifier() {
    let m = identifier(1, "m", IdSize::Matrix { row_size: 1, col_size: 3 });
    let copy = identifier(2, "copy", IdSize::Matrix { row_size: 1, col_size: 1 });
    let v = identifier(3, "v", IdSize::Vector { len: 1 });
    let x = identifier(4, "x", IdSize::Scalar);
    let constant = Expr::Let {
        id: m.clone(),
        opr: Opr::ConstantMatrix { value: grid(vec![vec![1.0, 2.0, 3.0]]) },
    };
    assert_eq!(
        error_of(vec![
            constant.clone(),
            Expr::Let { id: copy, opr: Opr::ConstructMatrix { ids: vec![vec![m.clone()]] } },
        ]),
        UnrollError::ShapeMismatch
    );
    assert_eq!(
        error_of(vec![
            constant.clone(),
            Expr::Let { id: v, opr: Opr::ConstructVector { ids: vec![m.clone()] } },
        ]),
        UnrollError::ShapeMismatch
    );
    assert_eq!(
        error_of(vec![constant, Expr::Let { id: x, opr: Opr::ConstructScalar { id: m } }]),
        UnrollError::ShapeMismatch
    );
}
