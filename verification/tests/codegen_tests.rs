use roboprec::codegen_c::{fixed_precision_to_next_type, generate_c, precision_to_type, CodegenError};
use roboprec::codegen_dsl::generate_daisy_dsl;
use roboprec::expr::{Expr, Opr, OprBinary, OprUnary};
use roboprec::identifier::{IdSize, Identifier};
use roboprec::namemap::NameMap;
use roboprec::precision::Precision;
use roboprec::program::{Input, Output, Program, ProgramInput, ProgramOutput};
use roboprec::rational::Real;

fn rat(text: &str) -> Real {
    Real::from_text(text).unwrap()
}

fn scalar_id(id: usize, name: &str) -> Identifier {
    Identifier { id, name: name.to_string(), var_type: IdSize::Scalar.var_type(), size: IdSize::Scalar }
}

fn fixed(total_bits: i32, fractional_bits: i32) -> Precision {
    Precision::Fixed { total_bits, fractional_bits }
}

fn binary(id: usize, name: &str, a: &Identifier, b: &Identifier, kind: OprBinary) -> Expr {
    Expr::Let {
        id: scalar_id(id, name),
        opr: Opr::Binary { opr1: a.clone(), opr2: b.clone(), opr_type: kind },
    }
}

fn unary(id: usize, name: &str, a: &Identifier, kind: OprUnary) -> Expr {
    Expr::Let { id: scalar_id(id, name), opr: Opr::Unary { opr1: a.clone(), opr_type: kind } }
}

fn formats(entries: Vec<(&str, Precision)>) -> NameMap<Precision> {
    let mut map = NameMap::new();
    for (name, p) in entries {
        map.insert(name.to_string(), p);
    }
    map
}

fn small_program() -> Program {
    let x = scalar_id(1, "x");
    let c = scalar_id(2, "c");
    let y = scalar_id(3, "y");
    let z = scalar_id(4, "z");
    let mut program = Program::new();
    program.add_input(x.clone(), ProgramInput::Scalar { info: Input { range: (rat("0"), rat("1")) } });
    program.add_expr(Expr::Let { id: c.clone(), opr: Opr::ConstantScalar { value: rat("3/2") } });
    program.add_expr(binary(3, "y", &x, &c, OprBinary::Mul));
    program.add_expr(binary(4, "z", &y, &x, OprBinary::Add));
    program.add_output(z.clone(), ProgramOutput::Scalar { info: Output::pending(z) });
    program
}

#[test]
fn test_generate_c_small_program() {
    let precisions = formats(vec![
        ("x", fixed(16, 8)),
        ("c", fixed(16, 8)),
        ("y", fixed(16, 10)),
        ("z", fixed(16, 8)),
    ]);
    let code = generate_c(&small_program(), &precisions, "f").unwrap();
    let expected = "#include <math.h>\n\
\n\
typedef struct {\n    int16_t z;\n} f_output_t;\n\
\n\
f_output_t f(\n    int16_t x\n) {\n    int16_t c = 384;\n    int16_t y = (int16_t) ((((int32_t) (x) * (int32_t) (c)) >> 6));\n    int16_t z = ((y >> 2) + x);\n\
\n    return {\n        z,\n    };\n}\n";
    assert_eq!(code, expected);
}

#[test]
fn test_generate_c_operations() {
    let a = scalar_id(1, "a");
    let b = scalar_id(2, "b");
    let mut program = Program::new();
    program.add_input(a.clone(), ProgramInput::Scalar { info: Input { range: (rat("0"), rat("1")) } });
    program.add_input(b.clone(), ProgramInput::Scalar { info: Input { range: (rat("0"), rat("1")) } });
    program.add_expr(binary(3, "d", &a, &b, OprBinary::Sub));
    program.add_expr(binary(4, "q", &a, &b, OprBinary::Div));
    program.add_expr(unary(5, "n", &a, OprUnary::Neg));
    program.add_expr(unary(6, "e", &a, OprUnary::Assign));
    program.add_expr(unary(7, "k", &a, OprUnary::AssignNoOpt));
    program.add_expr(unary(8, "s", &a, OprUnary::Sine));
    program.add_expr(unary(9, "t", &a, OprUnary::Cosine));
    program.add_expr(Expr::Let { id: scalar_id(10, "g"), opr: Opr::ConstructScalar { id: b.clone() } });
    program.add_expr(Expr::Let { id: scalar_id(11, "m"), opr: Opr::ConstantScalar { value: rat("-7/2") } });
    program.add_expr(Expr::Let { id: scalar_id(12, "h"), opr: Opr::ConstantScalar { value: rat("7/2") } });
    let precisions = formats(vec![
        ("a", fixed(8, 4)),
        ("b", fixed(32, 6)),
        ("d", fixed(64, 5)),
        ("q", fixed(16, 3)),
        ("n", fixed(8, 4)),
        ("e", fixed(8, 4)),
        ("k", fixed(8, 4)),
        ("s", fixed(8, 4)),
        ("t", Precision::Float64),
        ("g", Precision::Float32),
        ("m", fixed(8, 0)),
        ("h", fixed(8, 0)),
    ]);
    let code = generate_c(&program, &precisions, "kernel").unwrap();
    let expected = "#include <math.h>\n\
\n\
typedef struct {\n} kernel_output_t;\n\
\n\
kernel_output_t kernel(\n    int8_t a,\n    int32_t b\n) {\n    int64_t d = ((a << 1) - (b >> 1));\n    int16_t q = (((int16_t) (a) << 5) / b);\n    int8_t n = -(a);\n    int8_t e = a;\n    int8_t k = a;\n   // Sine with fixed precision is not supported in C codegen    int8_t s = sin(a);\n    double t = cos(a);\n    float g = b;\n    int8_t m = -4;\n    int8_t h = 4;\n\
\n    return {\n    };\n}\n";
    assert_eq!(code, expected);
}

#[test]
fn test_generate_c_struct_of_vector_and_matrix_outputs() {
    let v = Identifier {
        id: 1,
        name: "v".to_string(),
        var_type: IdSize::Vector { len: 2 }.var_type(),
        size: IdSize::Vector { len: 2 },
    };
    let m = Identifier {
        id: 2,
        name: "m".to_string(),
        var_type: IdSize::Matrix { row_size: 1, col_size: 2 }.var_type(),
        size: IdSize::Matrix { row_size: 1, col_size: 2 },
    };
    let mut program = Program::new();
    program.add_output(
        v,
        ProgramOutput::Vector {
            info: vec![Output::pending(scalar_id(3, "p")), Output::pending(scalar_id(4, "q"))],
        },
    );
    program.add_output(
        m,
        ProgramOutput::Matrix {
            info: vec![vec![Output::pending(scalar_id(5, "r")), Output::pending(scalar_id(6, "s"))]],
        },
    );
    let precisions = formats(vec![
        ("p", fixed(8, 1)),
        ("q", fixed(9, 1)),
        ("r", fixed(17, 1)),
        ("s", fixed(33, 1)),
    ]);
    let code = generate_c(&program, &precisions, "f").unwrap();
    let expected = "#include <math.h>\n\
\n\
typedef struct {\n    int8_t v_0;\n    int16_t v_1;\n    int32_t m_0_0;\n    int64_t m_0_1;\n} f_output_t;\n\
\n\
f_output_t f(\n\n) {\n\
\n    return {\n        p,\n        q,\n        r,\n        s,\n    };\n}\n";
    assert_eq!(code, expected);
}

fn error_text(e: CodegenError) -> String {
    format!("{:?}", e)
}

#[test]
fn test_generate_c_errors() {
    let all = vec![("x", fixed(16, 8)), ("c", fixed(16, 8)), ("y", fixed(16, 10)), ("z", fixed(16, 8))];
    let without = |name: &str| {
        formats(all.iter().filter(|(n, _)| *n != name).cloned().collect())
    };
    let with = |name: &'static str, p: Precision| {
        formats(all.iter().map(|(n, q)| if *n == name { (*n, p) } else { (*n, *q) }).collect())
    };
    let program = small_program();
    for name in ["x", "c", "y", "z"] {
        match generate_c(&program, &without(name), "f") {
            Err(CodegenError::MissingPrecision { name: missing }) => assert_eq!(missing, name),
            other => panic!("{:?}", other.map_err(error_text)),
        }
    }
    assert!(matches!(
        generate_c(&program, &with("z", fixed(65, 8)), "f"),
        Err(CodegenError::UnsupportedWidth)
    ));
    assert!(matches!(
        generate_c(&program, &with("x", fixed(33, 8)), "f"),
        Err(CodegenError::UnsupportedWidth)
    ));
    assert!(matches!(
        generate_c(&program, &with("c", Precision::Float64), "f"),
        Err(CodegenError::FloatUnsupported)
    ));
    assert!(matches!(
        generate_c(&program, &with("y", Precision::Float64), "f"),
        Err(CodegenError::MixedPrecision)
    ));
    assert!(matches!(
        generate_c(&program, &with("c", fixed(16, 63)), "f"),
        Err(CodegenError::ConstantOutOfRange)
    ));
    assert!(matches!(
        generate_c(&program, &with("c", fixed(16, -1)), "f"),
        Err(CodegenError::ConstantOutOfRange)
    ));
    let mut large = Program::new();
    large.add_expr(Expr::Let { id: scalar_id(1, "c"), opr: Opr::ConstantScalar { value: rat("4") } });
    assert!(matches!(
        generate_c(&large, &formats(vec![("c", fixed(64, 62))]), "f"),
        Err(CodegenError::ConstantOutOfRange)
    ));
    let mut fitting = Program::new();
    fitting.add_expr(Expr::Let { id: scalar_id(1, "c"), opr: Opr::ConstantScalar { value: rat("-2") } });
    let code = generate_c(&fitting, &formats(vec![("c", fixed(64, 62))]), "f").unwrap();
    assert!(code.contains("    int64_t c = -9223372036854775808;\n"));
    let floats = formats(vec![
        ("x", Precision::Float32),
        ("c", fixed(16, 8)),
        ("y", Precision::Float32),
        ("z", Precision::Float32),
    ]);
    assert!(matches!(generate_c(&program, &floats, "f"), Err(CodegenError::MixedPrecision)));
}

#[test]
fn test_generate_c_rejects_program_that_is_not_scalar() {
    let v = Identifier {
        id: 1,
        name: "v".to_string(),
        var_type: IdSize::Vector { len: 1 }.var_type(),
        size: IdSize::Vector { len: 1 },
    };
    let mut program = Program::new();
    program.add_input(
        v.clone(),
        ProgramInput::Vector { info: vec![Input { range: (rat("0"), rat("1")) }] },
    );
    let precisions = formats(vec![("v", fixed(16, 8))]);
    assert!(matches!(generate_c(&program, &precisions, "f"), Err(CodegenError::NotScalar)));
    let mut program = Program::new();
    program.add_expr(Expr::Let { id: v.clone(), opr: Opr::ConstantVector { value: vec![rat("1")] } });
    assert!(matches!(generate_c(&program, &precisions, "f"), Err(CodegenError::NotScalar)));
    let x = scalar_id(2, "x");
    let mut program = Program::new();
    program.add_expr(binary(3, "d", &x, &x, OprBinary::Dot));
    let precisions = formats(vec![("x", fixed(16, 8)), ("d", fixed(16, 8))]);
    assert!(matches!(generate_c(&program, &precisions, "f"), Err(CodegenError::NotScalar)));
}

#[test]
fn test_precision_to_type() {
    assert_eq!(precision_to_type(&fixed(8, 0)).unwrap(), "int8_t");
    assert_eq!(precision_to_type(&fixed(-3, 0)).unwrap(), "int8_t");
    assert_eq!(precision_to_type(&fixed(9, 0)).unwrap(), "int16_t");
    assert_eq!(precision_to_type(&fixed(16, 0)).unwrap(), "int16_t");
    assert_eq!(precision_to_type(&fixed(17, 0)).unwrap(), "int32_t");
    assert_eq!(precision_to_type(&fixed(32, 0)).unwrap(), "int32_t");
    assert_eq!(precision_to_type(&fixed(33, 0)).unwrap(), "int64_t");
    assert_eq!(precision_to_type(&fixed(64, 0)).unwrap(), "int64_t");
    assert!(matches!(precision_to_type(&fixed(65, 0)), Err(CodegenError::UnsupportedWidth)));
    assert_eq!(precision_to_type(&Precision::Float32).unwrap(), "float");
    assert_eq!(precision_to_type(&Precision::Float64).unwrap(), "double");
}

#[test]
fn test_fixed_precision_to_next_type() {
    assert_eq!(fixed_precision_to_next_type(&fixed(8, 0)).unwrap(), "int16_t");
    assert_eq!(fixed_precision_to_next_type(&fixed(16, 0)).unwrap(), "int32_t");
    assert_eq!(fixed_precision_to_next_type(&fixed(32, 0)).unwrap(), "int64_t");
    assert!(matches!(
        fixed_precision_to_next_type(&fixed(33, 0)),
        Err(CodegenError::UnsupportedWidth)
    ));
    assert!(matches!(
        fixed_precision_to_next_type(&fixed(64, 0)),
        Err(CodegenError::UnsupportedWidth)
    ));
    assert!(matches!(
        fixed_precision_to_next_type(&fixed(65, 0)),
        Err(CodegenError::UnsupportedWidth)
    ));
    assert_eq!(fixed_precision_to_next_type(&Precision::Float32).unwrap(), "float");
    assert_eq!(fixed_precision_to_next_type(&Precision::Float64).unwrap(), "double");
}

#[test]
fn test_generate_daisy_dsl_small_program() {
    let bounds = vec![("0".to_string(), "1".to_string())];
    let constants = vec!["1.5".to_string()];
    let text = generate_daisy_dsl(&small_program(), "f", &bounds, &constants).unwrap();
    let expected = "import daisy.lang._\nimport Real._\nobject f {\ndef f(\n  x: Real\n): Real = {\nrequire (\nx > 0 && x < 1 \n)\nval c: Real = 1.5\nval y: Real = x * c\nval z: Real = y + x\nz\n}\n}\n";
    assert_eq!(text, expected);
}

#[test]
fn test_generate_daisy_dsl_operations() {
    let a = scalar_id(1, "a");
    let b = scalar_id(2, "b");
    let mut program = Program::new();
    program.add_input(a.clone(), ProgramInput::Scalar { info: Input { range: (rat("0"), rat("1")) } });
    program.add_input(b.clone(), ProgramInput::Scalar { info: Input { range: (rat("0"), rat("1")) } });
    program.add_expr(Expr::Let { id: scalar_id(3, "c1"), opr: Opr::ConstantScalar { value: rat("1") } });
    program.add_expr(binary(4, "d", &a, &b, OprBinary::Sub));
    program.add_expr(binary(5, "q", &a, &b, OprBinary::Div));
    program.add_expr(unary(6, "n", &a, OprUnary::Neg));
    program.add_expr(unary(7, "e", &a, OprUnary::Assign));
    program.add_expr(unary(8, "k", &a, OprUnary::AssignNoOpt));
    program.add_expr(unary(9, "s", &a, OprUnary::Sine));
    program.add_expr(unary(10, "t", &a, OprUnary::Cosine));
    program.add_expr(Expr::Let { id: scalar_id(11, "c2"), opr: Opr::ConstantScalar { value: rat("2") } });
    let bounds = vec![
        ("-1".to_string(), "1".to_string()),
        ("0.5".to_string(), "2e3".to_string()),
    ];
    let constants = vec!["1".to_string(), "2".to_string()];
    let text = generate_daisy_dsl(&program, "g", &bounds, &constants).unwrap();
    let expected = "import daisy.lang._\nimport Real._\nobject g {\ndef g(\n  a: Real\n,   b: Real\n): Real = {\nrequire (\na > -1 && a < 1 \n && b > 0.5 && b < 2e3 \n)\nval c1: Real = 1\nval d: Real = a - b\nval q: Real = a / b\nval n: Real = -a\nval e: Real = a\nval k: Real = a\nval s: Real = sin(a)\nval t: Real = cos(a)\nval c2: Real = 2\nc2\n}\n}\n";
    assert_eq!(text, expected);
}

#[test]
fn test_generate_daisy_dsl_errors() {
    let program = small_program();
    let bounds = vec![("0".to_string(), "1".to_string())];
    let constants = vec!["1.5".to_string()];
    assert!(matches!(
        generate_daisy_dsl(&program, "f", &vec![], &constants),
        Err(CodegenError::MissingNumber)
    ));
    assert!(matches!(
        generate_daisy_dsl(&program, "f", &bounds, &vec![]),
        Err(CodegenError::MissingNumber)
    ));
    assert!(matches!(
        generate_daisy_dsl(&Program::new(), "f", &bounds, &constants),
        Err(CodegenError::EmptyBody)
    ));
    let x = scalar_id(1, "x");
    let mut program = Program::new();
    program.add_expr(binary(2, "d", &x, &x, OprBinary::Cross));
    assert!(matches!(
        generate_daisy_dsl(&program, "f", &bounds, &constants),
        Err(CodegenError::NotScalar)
    ));
    let mut program = Program::new();
    program.add_expr(Expr::Let { id: scalar_id(2, "g"), opr: Opr::ConstructScalar { id: x.clone() } });
    assert!(matches!(
        generate_daisy_dsl(&program, "f", &bounds, &constants),
        Err(CodegenError::NotScalar)
    ));
    let v = Identifier {
        id: 3,
        name: "v".to_string(),
        var_type: IdSize::Vector { len: 1 }.var_type(),
        size: IdSize::Vector { len: 1 },
    };
    let mut program = Program::new();
    program.add_input(v, ProgramInput::Vector { info: vec![Input { range: (rat("0"), rat("1")) }] });
    assert!(matches!(
        generate_daisy_dsl(&program, "f", &bounds, &constants),
        Err(CodegenError::NotScalar)
    ));
}
