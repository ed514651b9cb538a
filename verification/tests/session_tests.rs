use roboprec::config::Config;
use roboprec::expr::{Expr, Opr, OprBinary, OprUnary};
use roboprec::identifier::{IdSize, Identifier, VarType};
use roboprec::idmap::IdMap;
use roboprec::matrix::{add_input_matrix, register_matrix_output, Matrix};
use roboprec::precision::Precision;
use roboprec::program::{Input, Output, Program, ProgramInput, ProgramOutput};
use roboprec::rational::Real;
use roboprec::scalar::{add_input_scalar, register_scalar_output, IntoScalarValue, Scalar};
use roboprec::session::{
    clear_program, create_binary_matrix_expr, create_binary_scalar_expr,
    create_binary_vector_expr, create_construct_matrix_expr, create_construct_scalar_expr,
    create_construct_vector_expr, create_index_matrix_element_expr, create_index_matrix_row_expr,
    create_index_vector_expr, create_matrix_constant, create_scalar_constant,
    create_transpose_expr, create_unary_matrix_expr, create_unary_scalar_expr,
    create_unary_vector_expr, create_vector_constant, Session,
};
use roboprec::vector::{add_input_vector, register_vector_output, Vector};

fn rat(text: &str) -> Real {
    Real::from_text(text).unwrap()
}

fn last(s: &Session) -> &Expr {
    s.program.get_body().last().unwrap()
}

#[test]
fn test_config_default() {
    let config = Config::default();
    assert_eq!(config.precision, Precision::Float64);
    assert_eq!(config.output_dir, "output/");
    let copy = config.clone();
    assert_eq!(copy.precision, Precision::Float64);
    assert_eq!(copy.output_dir, "output/");
}

#[test]
fn test_create_constants() {
    let mut s = Session::new();
    let a = create_scalar_constant(&mut s, "a", rat("1/2"));
    let b = create_vector_constant(&mut s, "b", vec![rat("1"), rat("2")]);
    let c = create_matrix_constant(&mut s, "c", vec![vec![rat("1"), rat("2"), rat("3")]]);
    let d = create_matrix_constant(&mut s, "d", vec![]);
    assert_eq!((a.id, b.id, c.id, d.id), (1, 2, 3, 4));
    assert_eq!(a.size, IdSize::Scalar);
    assert_eq!(b.size, IdSize::Vector { len: 2 });
    assert_eq!(c.size, IdSize::Matrix { row_size: 1, col_size: 3 });
    assert_eq!(d.size, IdSize::Matrix { row_size: 0, col_size: 0 });
    assert_eq!(s.program.get_body().len(), 4);
    match &s.program.get_body()[0] {
        Expr::Let { id, opr: Opr::ConstantScalar { value } } => {
            assert_eq!(id.id, 1);
            assert_eq!(id.name, "a");
            assert_eq!(value.text(), "1/2");
        }
        other => panic!("{:?}", other),
    }
}

#[test]
fn test_create_unary_expressions() {
    let mut s = Session::new();
    let x = create_scalar_constant(&mut s, "x", rat("1"));
    let v = create_vector_constant(&mut s, "v", vec![rat("1"), rat("2")]);
    let m = create_matrix_constant(&mut s, "m", vec![vec![rat("1"), rat("2")]]);
    let a = create_unary_scalar_expr(&mut s, "a", x.clone(), OprUnary::Neg);
    assert_eq!(a.size, IdSize::Scalar);
    assert!(matches!(last(&s), Expr::Let { opr: Opr::Unary { opr_type: OprUnary::Neg, .. }, .. }));
    let b = create_unary_vector_expr(&mut s, "b", v.clone(), OprUnary::Assign);
    assert_eq!(b.size, IdSize::Vector { len: 2 });
    assert_eq!(b.var_type, VarType::Vector);
    let c = create_unary_matrix_expr(&mut s, "c", m.clone(), OprUnary::AssignNoOpt);
    assert_eq!(c.size, IdSize::Matrix { row_size: 1, col_size: 2 });
    let t = create_transpose_expr(&mut s, "t", m.clone());
    assert_eq!(t.size, IdSize::Matrix { row_size: 2, col_size: 1 });
    match last(&s) {
        Expr::Let { id, opr: Opr::Unary { opr1, opr_type: OprUnary::Transpose } } => {
            assert_eq!(id.id, t.id);
            assert_eq!(opr1.id, m.id);
        }
        other => panic!("{:?}", other),
    }
}

#[test]
fn test_create_binary_expressions() {
    let mut s = Session::new();
    let x = create_scalar_constant(&mut s, "x", rat("1"));
    let y = create_scalar_constant(&mut s, "y", rat("2"));
    let a = create_binary_scalar_expr(&mut s, "a", x.clone(), y.clone(), OprBinary::Div);
    assert_eq!(a.size, IdSize::Scalar);
    match last(&s) {
        Expr::Let { id, opr: Opr::Binary { opr1, opr2, opr_type } } => {
            assert_eq!(id.name, "a");
            assert_eq!((opr1.id, opr2.id), (x.id, y.id));
            assert_eq!(*opr_type, OprBinary::Div);
        }
        other => panic!("{:?}", other),
    }
    let b = create_binary_vector_expr(&mut s, "b", x.clone(), y.clone(), OprBinary::Add, 5);
    assert_eq!(b.size, IdSize::Vector { len: 5 });
    let c = create_binary_matrix_expr(&mut s, "c", x.clone(), y.clone(), OprBinary::Sub, 2, 3);
    assert_eq!(c.size, IdSize::Matrix { row_size: 2, col_size: 3 });
}

#[test]
fn test_create_construct_expressions() {
    let mut s = Session::new();
    let x = create_scalar_constant(&mut s, "x", rat("1"));
    let y = create_scalar_constant(&mut s, "y", rat("2"));
    let a = create_construct_scalar_expr(&mut s, "a", x.clone());
    assert_eq!(a.size, IdSize::Scalar);
    assert!(matches!(last(&s), Expr::Let { opr: Opr::ConstructScalar { .. }, .. }));
    let b = create_construct_vector_expr(&mut s, "b", vec![x.clone(), y.clone()]);
    assert_eq!(b.size, IdSize::Vector { len: 2 });
    let c = create_construct_matrix_expr(
        &mut s,
        "c",
        vec![vec![x.clone(), y.clone()], vec![y.clone(), x.clone()], vec![x.clone(), x.clone()]],
    );
    assert_eq!(c.size, IdSize::Matrix { row_size: 3, col_size: 2 });
    match last(&s) {
        Expr::Let { opr: Opr::ConstructMatrix { ids }, .. } => {
            assert_eq!(ids.len(), 3);
            assert_eq!(ids[1][0].id, y.id);
        }
        other => panic!("{:?}", other),
    }
}

#[test]
fn test_create_index_expressions() {
    let mut s = Session::new();
    let v = create_vector_constant(&mut s, "v", vec![rat("1"), rat("2")]);
    let m = create_matrix_constant(&mut s, "m", vec![vec![rat("1"), rat("2")], vec![rat("3"), rat("4")]]);
    let a = create_index_vector_expr(&mut s, "a", v.clone(), 1);
    assert_eq!(a.size, IdSize::Scalar);
    match last(&s) {
        Expr::Let { opr: Opr::Unary { opr1, opr_type: OprUnary::Index { index } }, .. } => {
            assert_eq!(opr1.id, v.id);
            assert_eq!(index, &vec![1]);
        }
        other => panic!("{:?}", other),
    }
    let b = create_index_matrix_element_expr(&mut s, "b", m.clone(), 1, 0);
    assert_eq!(b.size, IdSize::Scalar);
    match last(&s) {
        Expr::Let { opr: Opr::Unary { opr_type: OprUnary::Index { index }, .. }, .. } => {
            assert_eq!(index, &vec![1, 0]);
        }
        other => panic!("{:?}", other),
    }
    let before = s.program.get_body().len();
    let row = create_index_matrix_row_expr(&mut s, "row", m.clone(), 1);
    assert_eq!(row.size, IdSize::Vector { len: 2 });
    assert_eq!(row.name, "row");
    let body = s.program.get_body();
    assert_eq!(body.len(), before + 3);
    let names: Vec<String> = body[before..]
        .iter()
        .map(|e| {
            let Expr::Let { id, .. } = e;
            id.name.clone()
        })
        .collect();
    assert_eq!(names, vec!["row_row1_col0", "row_row1_col1", "row"]);
    match &body[before + 2] {
        Expr::Let { opr: Opr::ConstructVector { ids }, .. } => {
            assert_eq!(ids.len(), 2);
            assert_eq!(ids[0].name, "row_row1_col0");
        }
        other => panic!("{:?}", other),
    }
}

#[test]
fn test_clear_program_keeps_the_naming_service() {
    let mut s = Session::new();
    create_scalar_constant(&mut s, "x", rat("1"));
    add_input_scalar(&mut s, "i", (rat("0"), rat("1")), rat("0"));
    clear_program(&mut s);
    assert_eq!(s.program.get_body().len(), 0);
    assert_eq!(s.program.get_inputs().len(), 0);
    assert_eq!(s.program.get_outputs().len(), 0);
    let y = create_scalar_constant(&mut s, "x", rat("1"));
    assert_eq!(y.id, 3);
    assert_eq!(y.name, "r_1_x");
}

#[test]
fn test_inputs_are_declared_in_order() {
    let mut s = Session::new();
    let x = add_input_scalar(&mut s, "x", (rat("0"), rat("1")), rat("1/2"));
    let v = add_input_vector(
        &mut s,
        "v",
        vec![(rat("0"), rat("1")), (rat("-1"), rat("1"))],
        vec![rat("1"), rat("2"), rat("3")],
    );
    let m = add_input_matrix(
        &mut s,
        "m",
        vec![vec![(rat("0"), rat("1"))], vec![(rat("0"), rat("2"))]],
        vec![vec![rat("5")], vec![rat("6")]],
    );
    assert_eq!(x.value.text(), "1/2");
    assert_eq!(v.id.size, IdSize::Vector { len: 3 });
    assert_eq!(m.id.size, IdSize::Matrix { row_size: 2, col_size: 1 });
    assert_eq!(m.value[1][0].text(), "6");
    let inputs = s.program.get_inputs();
    assert_eq!(inputs.len(), 3);
    assert_eq!(inputs.key_at(0).name, "x");
    assert_eq!(inputs.key_at(1).name, "v");
    assert_eq!(inputs.key_at(2).name, "m");
    assert!(matches!(inputs.value_at(0), ProgramInput::Scalar { .. }));
    match inputs.value_at(1) {
        ProgramInput::Vector { info } => {
            assert_eq!(info.len(), 2);
            assert_eq!(info[1].range.0.text(), "-1");
        }
        other => panic!("{:?}", other),
    }
    match inputs.value_at(2) {
        ProgramInput::Matrix { info } => assert_eq!(info[1][0].range.1.text(), "2"),
        other => panic!("{:?}", other),
    }
    assert_eq!(s.program.get_body().len(), 0);
}

#[test]
fn test_register_outputs() {
    let mut s = Session::new();
    let mut x = Scalar::new_rational(&mut s, "x", rat("1"));
    let mut v = Vector::new_rational(&mut s, "v", vec![rat("1"), rat("2")]);
    let mut m = Matrix::new_rational(&mut s, "m", vec![vec![rat("1"), rat("2")]]);
    register_scalar_output(&mut s, &mut x, "ox");
    register_vector_output(&mut s, &mut v, "ov");
    register_matrix_output(&mut s, &mut m, "om");
    assert_eq!(x.id.name, "ox");
    assert_eq!(v.id.name, "ov");
    assert_eq!(m.id.name, "om");
    assert_eq!(s.program.get_body().len(), 6);
    assert!(matches!(
        last(&s),
        Expr::Let { opr: Opr::Unary { opr_type: OprUnary::AssignNoOpt, .. }, .. }
    ));
    let outputs = s.program.get_outputs();
    assert_eq!(outputs.len(), 3);
    assert_eq!(outputs.key_at(0).id, x.id.id);
    match outputs.value_at(1) {
        ProgramOutput::Vector { info } => {
            assert_eq!(info.len(), 2);
            assert_eq!(info[0].id.id, v.id.id);
            assert!(info[0].range.0.is_zero());
        }
        other => panic!("{:?}", other),
    }
    match outputs.value_at(2) {
        ProgramOutput::Matrix { info } => {
            assert_eq!(info.len(), 1);
            assert_eq!(info[0].len(), 2);
            assert_eq!(info[0][1].id.id, m.id.id);
        }
        other => panic!("{:?}", other),
    }
}

fn scalar_id(id: usize, name: &str) -> Identifier {
    Identifier { id, name: name.to_string(), var_type: VarType::Scalar, size: IdSize::Scalar }
}

#[test]
fn test_idmap_keeps_insertion_order_and_first_key() {
    let mut map: IdMap<u32> = IdMap::new();
    assert_eq!(map.len(), 0);
    map.insert(scalar_id(7, "seven"), 70);
    map.insert(scalar_id(3, "three"), 30);
    map.insert(scalar_id(5, "five"), 50);
    map.insert(scalar_id(3, "other_name"), 31);
    assert_eq!(map.len(), 3);
    assert_eq!(map.key_at(0).id, 7);
    assert_eq!(map.key_at(1).id, 3);
    assert_eq!(map.key_at(1).name, "three");
    assert_eq!(map.key_at(2).id, 5);
    assert_eq!(*map.value_at(1), 31);
    assert_eq!(map.get(&scalar_id(3, "x")), Some(&31));
    assert_eq!(map.get(&scalar_id(5, "x")), Some(&50));
    assert_eq!(map.get(&scalar_id(4, "x")), None);
    assert!(map.contains(&scalar_id(7, "")));
    assert!(!map.contains(&scalar_id(8, "")));
    map.clear();
    assert_eq!(map.len(), 0);
    assert_eq!(map.get(&scalar_id(7, "x")), None);
    map.insert(scalar_id(5, "again"), 1);
    assert_eq!(map.key_at(0).name, "again");
}

#[test]
fn test_program_setters() {
    let mut program = Program::new();
    let mut inputs = IdMap::new();
    inputs.insert(
        scalar_id(1, "x"),
        ProgramInput::Scalar { info: Input { range: (rat("0"), rat("1")) } },
    );
    let mut outputs = IdMap::new();
    outputs.insert(scalar_id(2, "y"), ProgramOutput::Scalar { info: Output::pending(scalar_id(2, "y")) });
    program.set_inputs(inputs);
    program.set_outputs(outputs);
    program.set_body(vec![Expr::Let {
        id: scalar_id(2, "y"),
        opr: Opr::Unary { opr1: scalar_id(1, "x"), opr_type: OprUnary::Neg },
    }]);
    assert_eq!(program.get_inputs().len(), 1);
    assert_eq!(program.get_outputs().len(), 1);
    assert_eq!(program.get_body().len(), 1);
    program.clear();
    assert_eq!(program.get_inputs().len(), 0);
    assert_eq!(program.get_outputs().len(), 0);
    assert_eq!(program.get_body().len(), 0);
}

#[test]
fn test_clones_keep_contents() {
    let expr = Expr::Let {
        id: scalar_id(2, "y"),
        opr: Opr::ConstructMatrix { ids: vec![vec![scalar_id(1, "x")], vec![scalar_id(3, "z")]] },
    };
    match expr.clone() {
        Expr::Let { id, opr: Opr::ConstructMatrix { ids } } => {
            assert_eq!(id.name, "y");
            assert_eq!(ids[1][0].name, "z");
        }
        other => panic!("{:?}", other),
    }
    let index = OprUnary::Index { index: vec![4, 2] };
    assert!(matches!(index.clone(), OprUnary::Index { index } if index == vec![4, 2]));
    let opr = Opr::ConstantMatrix { value: vec![vec![rat("1/3")]] };
    assert!(matches!(opr.clone(), Opr::ConstantMatrix { value } if value[0][0].text() == "1/3"));
    let input = ProgramInput::Matrix { info: vec![vec![Input { range: (rat("1"), rat("2")) }]] };
    assert!(matches!(input.clone(), ProgramInput::Matrix { info } if info[0][0].range.1.text() == "2"));
}

#[test]
fn test_scalar_from_trait() {
    let mut s = Session::new();
    let x = Scalar::new_rational(&mut s, "x", rat("5"));
    let y = (&x).into_scalar_with_name(&mut s, "y");
    assert_eq!(y.value.text(), "5");
    assert_eq!(y.id.name, "y");
    assert!(matches!(last(&s), Expr::Let { opr: Opr::ConstructScalar { .. }, .. }));
}

#[test]
fn test_program_declares_inputs_with_a_naming_service() {
    let mut namer = roboprec::naming::Namer::new();
    let mut program = roboprec::program::Program::new();
    let x = program.add_input_scalar(&mut namer, "x", (rat("0"), rat("1")), rat("1/2"));
    let v = program.add_input_vector(
        &mut namer,
        "v",
        vec![(rat("0"), rat("1")), (rat("-1"), rat("1"))],
        vec![rat("1/4"), rat("0")],
    );
    let m = program.add_input_matrix(
        &mut namer,
        "m",
        vec![vec![(rat("0"), rat("2"))], vec![(rat("0"), rat("3"))]],
        vec![vec![rat("1")], vec![rat("2")]],
    );
    assert_eq!((x.id.id, v.id.id, m.id.id), (1, 2, 3));
    assert_eq!(x.id.name(), "x");
    assert_eq!(v.id.size, roboprec::identifier::IdSize::Vector { len: 2 });
    assert_eq!(m.id.size, roboprec::identifier::IdSize::Matrix { row_size: 2, col_size: 1 });
    assert_eq!(program.get_inputs().len(), 3);
    assert!(program.get_body().is_empty());
    assert!(x.value.same(&rat("1/2")));
    assert_eq!(m.size(), (2, 1));
}
