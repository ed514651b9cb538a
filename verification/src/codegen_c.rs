//! The C emitter: one output struct and one function for a scalar program
//! whose every identifier has a number format.

use vstd::prelude::*;
use vstd::string::*;
use crate::expr::{body_view, Expr, ExprView, Opr, OprBinary, OprUnary, OprView, UnaryView};
use crate::identifier::{IdentView, Identifier};
use crate::idmap::IdMap;
use crate::lowering::element_name;
use crate::namemap::{has_name, named, NameMap};
use crate::precision::Precision;
use crate::program::{inputs_view, outputs_grid_view, outputs_row_view, outputs_view, Output, Program, ProgramInput, ProgramInputView, ProgramOutput, ProgramOutputView, ProgramView};
use crate::rational::{nearest, Real};
use crate::text::{concat, concat3, i64_to_text, int_text, usize_to_text};

verus! {

/// Why no C code can be emitted.
#[derive(Debug)]
pub enum CodegenError {
    /// No number format is known for the identifier of this name.
    MissingPrecision { name: String },
    /// A fixed-point format is wider than the widest C integer that can hold
    /// it, or than the widest that can hold its products.
    UnsupportedWidth,
    /// Constants and arithmetic in floating point are not emitted.
    FloatUnsupported,
    /// The formats of a result and its operands are not all fixed point.
    MixedPrecision,
    /// An input or a node is not scalar: the program was not lowered.
    NotScalar,
    /// A constant scaled by its fractional bits does not fit 64 bits.
    ConstantOutOfRange,
    /// The program has no node whose value could be returned.
    EmptyBody,
    /// Fewer rendered numbers were handed over than the program holds.
    MissingNumber,
}

/// A reason as contracts see it.
pub enum CodegenErrorView {
    MissingPrecision(Seq<char>),
    UnsupportedWidth,
    FloatUnsupported,
    MixedPrecision,
    NotScalar,
    ConstantOutOfRange,
    EmptyBody,
    MissingNumber,
}

impl View for CodegenError {
    type V = CodegenErrorView;

    open spec fn view(&self) -> CodegenErrorView {
        match *self {
            CodegenError::MissingPrecision { name } => CodegenErrorView::MissingPrecision(name@),
            CodegenError::UnsupportedWidth => CodegenErrorView::UnsupportedWidth,
            CodegenError::FloatUnsupported => CodegenErrorView::FloatUnsupported,
            CodegenError::MixedPrecision => CodegenErrorView::MixedPrecision,
            CodegenError::NotScalar => CodegenErrorView::NotScalar,
            CodegenError::ConstantOutOfRange => CodegenErrorView::ConstantOutOfRange,
            CodegenError::EmptyBody => CodegenErrorView::EmptyBody,
            CodegenError::MissingNumber => CodegenErrorView::MissingNumber,
        }
    }
}

/// A piece of text, or the reason why there is none.
pub type Piece = Result<Seq<char>, CodegenErrorView>;

/// The view of emitted text or of the reason why there is none.
pub open spec fn piece_view(r: Result<String, CodegenError>) -> Piece {
    match r {
        Ok(s) => Ok(s@),
        Err(e) => Err(e@),
    }
}

/// The number formats by name, as contracts see them.
pub open spec fn precisions_view(map: &NameMap<Precision>) -> Seq<(Seq<char>, Precision)> {
    map.entries_with(|p: Precision| p)
}

/// The first `n` pieces joined in order, or the reason why the first piece
/// that is missing is missing.
pub open spec fn join(parts: spec_fn(int) -> Piece, n: nat) -> Piece
    decreases n,
{
    if n == 0 {
        Ok(Seq::empty())
    } else {
        match join(parts, (n - 1) as nat) {
            Err(e) => Err(e),
            Ok(text) => match parts(n - 1) {
                Err(e) => Err(e),
                Ok(piece) => Ok(text + piece),
            },
        }
    }
}

/// Two to the power `n`.
pub open spec fn two_to(n: nat) -> int
    decreases n,
{
    if n == 0 {
        1
    } else {
        2 * two_to((n - 1) as nat)
    }
}

/// The number format recorded for `name`.
pub open spec fn precision_of(precisions: Seq<(Seq<char>, Precision)>, name: Seq<char>) -> Result<
    Precision,
    CodegenErrorView,
> {
    if has_name(precisions, name) {
        Ok(named(precisions, name))
    } else {
        Err(CodegenErrorView::MissingPrecision(name))
    }
}

/// The C type of a number format: the narrowest of the four signed integer
/// types that holds the total bits of a fixed-point format.
pub open spec fn c_type(p: Precision) -> Piece {
    match p {
        Precision::Fixed { total_bits, fractional_bits } => if total_bits <= 8 {
            Ok("int8_t"@)
        } else if total_bits <= 16 {
            Ok("int16_t"@)
        } else if total_bits <= 32 {
            Ok("int32_t"@)
        } else if total_bits <= 64 {
            Ok("int64_t"@)
        } else {
            Err(CodegenErrorView::UnsupportedWidth)
        },
        Precision::Float32 => Ok("float"@),
        Precision::Float64 => Ok("double"@),
    }
}

/// The C type in which values of a number format are multiplied and divided:
/// the next wider integer type for fixed point.
pub open spec fn c_next_type(p: Precision) -> Piece {
    match p {
        Precision::Fixed { total_bits, fractional_bits } => if total_bits <= 8 {
            Ok("int16_t"@)
        } else if total_bits <= 16 {
            Ok("int32_t"@)
        } else if total_bits <= 32 {
            Ok("int64_t"@)
        } else {
            Err(CodegenErrorView::UnsupportedWidth)
        },
        Precision::Float32 => Ok("float"@),
        Precision::Float64 => Ok("double"@),
    }
}

/// One field of the output struct: the type of the leaf named `leaf`, and
/// the field's name.
pub open spec fn field_line(
    precisions: Seq<(Seq<char>, Precision)>,
    leaf: Seq<char>,
    field: Seq<char>,
) -> Piece {
    match precision_of(precisions, leaf) {
        Err(e) => Err(e),
        Ok(p) => match c_type(p) {
            Err(e) => Err(e),
            Ok(t) => Ok("    "@ + t + " "@ + field + ";\n"@),
        },
    }
}

/// The fields of one output: one for a scalar, one per element or cell
/// otherwise, named after the output and the position.
pub open spec fn output_fields(
    precisions: Seq<(Seq<char>, Precision)>,
    id: IdentView,
    output: ProgramOutputView,
) -> Piece {
    match output {
        ProgramOutputView::Scalar(_) => field_line(precisions, id.name, id.name),
        ProgramOutputView::Vector(leaves) => join(
            |i: int| field_line(precisions, leaves[i].id.name, element_name(id.name, i)),
            leaves.len(),
        ),
        ProgramOutputView::Matrix(rows) => join(
            |i: int|
                join(
                    |j: int|
                        field_line(
                            precisions,
                            rows[i][j].id.name,
                            element_name(element_name(id.name, i), j),
                        ),
                    rows[i].len(),
                ),
            rows.len(),
        ),
    }
}

/// One parameter of the function: type and name, and a comma unless it is
/// the last.
pub open spec fn parameter(
    precisions: Seq<(Seq<char>, Precision)>,
    inputs: Seq<(IdentView, ProgramInputView)>,
    i: int,
) -> Piece {
    match inputs[i].1 {
        ProgramInputView::Scalar(_) => match precision_of(precisions, inputs[i].0.name) {
            Err(e) => Err(e),
            Ok(p) => match c_type(p) {
                Err(e) => Err(e),
                Ok(t) => Ok(
                    "    "@ + t + " "@ + inputs[i].0.name + (if i != inputs.len() - 1 {
                        ",\n"@
                    } else {
                        Seq::empty()
                    }),
                ),
            },
        },
        _ => Err(CodegenErrorView::NotScalar),
    }
}

/// A fixed-point constant: the value scaled by two to the fractional bits
/// and rounded, where the scale and the result fit 64 bits.
pub open spec fn constant_text(value: real, fractional_bits: int) -> Piece {
    if fractional_bits < 0 || fractional_bits > 62 {
        Err(CodegenErrorView::ConstantOutOfRange)
    } else {
        let scaled = nearest(value * (two_to(fractional_bits as nat) as real));
        if i64::MIN <= scaled <= i64::MAX {
            Ok(int_text(scaled))
        } else {
            Err(CodegenErrorView::ConstantOutOfRange)
        }
    }
}

/// An operand shifted so that its fractional bits become those of the
/// result.
pub open spec fn aligned(name: Seq<char>, bits: int, goal: int) -> Seq<char> {
    if bits < goal {
        "("@ + name + " << "@ + int_text(goal - bits) + ")"@
    } else if bits > goal {
        "("@ + name + " >> "@ + int_text(bits - goal) + ")"@
    } else {
        name
    }
}

/// The fractional bits of the result and of both operands of an arithmetic
/// node, which must all be fixed point.
pub open spec fn fixed_bits(goal: Precision, pa: Precision, pb: Precision) -> Result<
    (int, int, int),
    CodegenErrorView,
> {
    match (goal, pa, pb) {
        (
            Precision::Fixed { total_bits: _, fractional_bits: g },
            Precision::Fixed { total_bits: _, fractional_bits: b1 },
            Precision::Fixed { total_bits: _, fractional_bits: b2 },
        ) => Ok((g as int, b1 as int, b2 as int)),
        (Precision::Float32, Precision::Float32, Precision::Float32) => Err(
            CodegenErrorView::FloatUnsupported,
        ),
        (Precision::Float64, Precision::Float64, Precision::Float64) => Err(
            CodegenErrorView::FloatUnsupported,
        ),
        _ => Err(CodegenErrorView::MixedPrecision),
    }
}

/// The product of two fixed-point operands: both widened, multiplied, and
/// shifted back to the fractional bits of the result.
pub open spec fn product_text(
    goal: Precision,
    pa: Precision,
    pb: Precision,
    n1: Seq<char>,
    n2: Seq<char>,
    bits: (int, int, int),
) -> Piece {
    match c_type(goal) {
        Err(e) => Err(e),
        Ok(t) => match c_next_type(pa) {
            Err(e) => Err(e),
            Ok(w1) => match c_next_type(pb) {
                Err(e) => Err(e),
                Ok(w2) => Ok(
                    "("@ + t + ") "@ + "(((("@ + w1 + ") ("@ + n1 + ")"@ + " * "@ + "("@ + w2
                        + ") ("@ + n2 + "))"@ + " >> "@ + int_text(bits.1 + bits.2 - bits.0)
                        + "))"@,
                ),
            },
        },
    }
}

/// The quotient of two fixed-point operands: the dividend widened and
/// shifted up before the division.
pub open spec fn quotient_text(pa: Precision, n1: Seq<char>, n2: Seq<char>, bits: (int, int, int)) -> Piece {
    match c_next_type(pa) {
        Err(e) => Err(e),
        Ok(w1) => Ok(
            "((("@ + w1 + ") ("@ + n1 + ") << "@ + int_text(bits.0 + bits.2 - bits.1) + ")"@
                + " / "@ + n2 + ")"@,
        ),
    }
}

/// The right-hand side of an arithmetic node.
pub open spec fn arithmetic_text(
    precisions: Seq<(Seq<char>, Precision)>,
    goal: Precision,
    opr1: IdentView,
    opr2: IdentView,
    kind: OprBinary,
) -> Piece {
    match precision_of(precisions, opr1.name) {
        Err(e) => Err(e),
        Ok(pa) => match precision_of(precisions, opr2.name) {
            Err(e) => Err(e),
            Ok(pb) => if kind == OprBinary::Cross || kind == OprBinary::Dot {
                Err(CodegenErrorView::NotScalar)
            } else {
                match fixed_bits(goal, pa, pb) {
                    Err(e) => Err(e),
                    Ok(bits) => match kind {
                        OprBinary::Add => Ok(
                            "("@ + aligned(opr1.name, bits.1, bits.0) + " + "@ + aligned(
                                opr2.name,
                                bits.2,
                                bits.0,
                            ) + ")"@,
                        ),
                        OprBinary::Sub => Ok(
                            "("@ + aligned(opr1.name, bits.1, bits.0) + " - "@ + aligned(
                                opr2.name,
                                bits.2,
                                bits.0,
                            ) + ")"@,
                        ),
                        OprBinary::Mul => product_text(goal, pa, pb, opr1.name, opr2.name, bits),
                        _ => quotient_text(pa, opr1.name, opr2.name, bits),
                    },
                }
            },
        },
    }
}

/// The note that goes before a sine or cosine in fixed point.
pub open spec fn trig_note(goal: Precision, note: Seq<char>) -> Seq<char> {
    if goal is Fixed {
        note
    } else {
        Seq::empty()
    }
}

/// The note, if any, that goes before the statement of a node.
pub open spec fn statement_note(goal: Precision, opr: OprView) -> Seq<char> {
    match opr {
        OprView::Unary(_, UnaryView::Sine) => trig_note(
            goal,
            "   // Sine with fixed precision is not supported in C codegen"@,
        ),
        OprView::Unary(_, UnaryView::Cosine) => trig_note(
            goal,
            "   // Cosine with fixed precision is not supported in C codegen"@,
        ),
        _ => Seq::empty(),
    }
}

/// The right-hand side of the statement of a node.
pub open spec fn rhs_text(precisions: Seq<(Seq<char>, Precision)>, goal: Precision, opr: OprView) -> Piece {
    match opr {
        OprView::ConstantScalar(value) => match goal {
            Precision::Fixed { total_bits, fractional_bits } => constant_text(
                value,
                fractional_bits as int,
            ),
            _ => Err(CodegenErrorView::FloatUnsupported),
        },
        OprView::ConstructScalar(id) => Ok(id.name),
        OprView::Unary(opr1, kind) => match kind {
            UnaryView::Neg => Ok("-("@ + opr1.name + ")"@),
            UnaryView::Assign => Ok(opr1.name),
            UnaryView::AssignNoOpt => Ok(opr1.name),
            UnaryView::Sine => Ok("sin("@ + opr1.name + ")"@),
            UnaryView::Cosine => Ok("cos("@ + opr1.name + ")"@),
            _ => Err(CodegenErrorView::NotScalar),
        },
        OprView::Binary(opr1, opr2, kind) => arithmetic_text(precisions, goal, opr1, opr2, kind),
        _ => Err(CodegenErrorView::NotScalar),
    }
}

/// The statement of a node: its type, its name and its right-hand side.
pub open spec fn statement(precisions: Seq<(Seq<char>, Precision)>, expr: ExprView) -> Piece {
    match precision_of(precisions, expr.id.name) {
        Err(e) => Err(e),
        Ok(goal) => match rhs_text(precisions, goal, expr.opr) {
            Err(e) => Err(e),
            Ok(rhs) => match c_type(goal) {
                Err(e) => Err(e),
                Ok(t) => Ok(
                    statement_note(goal, expr.opr) + "    "@ + t + " "@ + expr.id.name + " = "@
                        + rhs + ";\n"@,
                ),
            },
        },
    }
}

/// One line of the returned aggregate.
pub open spec fn return_line(name: Seq<char>) -> Seq<char> {
    "        "@ + name + ",\n"@
}

/// The lines of the returned aggregate for one output: one per leaf.
pub open spec fn output_returns(output: ProgramOutputView) -> Piece {
    match output {
        ProgramOutputView::Scalar(leaf) => Ok(return_line(leaf.id.name)),
        ProgramOutputView::Vector(leaves) => join(
            |i: int| Ok::<Seq<char>, CodegenErrorView>(return_line(leaves[i].id.name)),
            leaves.len(),
        ),
        ProgramOutputView::Matrix(rows) => join(
            |i: int|
                join(
                    |j: int| Ok::<Seq<char>, CodegenErrorView>(return_line(rows[i][j].id.name)),
                    rows[i].len(),
                ),
            rows.len(),
        ),
    }
}

/// The C source for a program: the struct of its outputs, then the function
/// with one parameter per input, one statement per node and the returned
/// aggregate. The first identifier without a usable number format, or the
/// first input or node that is not scalar, is the reason why there is none.
pub open spec fn c_source(
    program: ProgramView,
    precisions: Seq<(Seq<char>, Precision)>,
    func_name: Seq<char>,
) -> Piece {
    match join(
        |i: int| output_fields(precisions, program.outputs[i].0, program.outputs[i].1),
        program.outputs.len(),
    ) {
        Err(e) => Err(e),
        Ok(fields) => match join(
            |i: int| parameter(precisions, program.inputs, i),
            program.inputs.len(),
        ) {
            Err(e) => Err(e),
            Ok(parameters) => match join(
                |i: int| statement(precisions, program.body[i]),
                program.body.len(),
            ) {
                Err(e) => Err(e),
                Ok(statements) => match join(
                    |i: int| output_returns(program.outputs[i].1),
                    program.outputs.len(),
                ) {
                    Err(e) => Err(e),
                    Ok(leaves) => Ok(
                        "#include <math.h>\n"@ + "\ntypedef struct {\n"@ + fields + "} "@
                            + func_name + "_output_t;\n"@ + "\n"@ + func_name + "_output_t "@
                            + func_name + "(\n"@ + parameters + "\n) {\n"@ + statements
                            + "\n    return {\n"@ + leaves + "    };\n"@ + "}\n"@,
                    ),
                },
            },
        },
    }
}

/// Once a piece is missing, joining more pieces fails in the same way.
pub proof fn lemma_join_fails(parts: spec_fn(int) -> Piece, n: nat, m: nat)
    requires
        n <= m,
        join(parts, n) is Err,
    ensures
        join(parts, m) == join(parts, n),
    decreases m - n,
{
    if n < m {
        lemma_join_fails(parts, n, (m - 1) as nat);
    }
}

/// The number format recorded for `name`.
fn lookup(precisions: &NameMap<Precision>, name: &String) -> (r: Result<Precision, CodegenError>)
    requires
        precisions.wf(),
    ensures
        match precision_of(precisions_view(precisions), name@) {
            Ok(p) => r matches Ok(q) && q == p,
            Err(e) => r matches Err(f) && f@ == e,
        },
{
    proof {
        precisions.lemma_entries_with(|p: Precision| p);
    }
    match precisions.get(name.as_str()) {
        Some(p) => Ok(*p),
        None => Err(CodegenError::MissingPrecision { name: name.clone() }),
    }
}

/// The C type of a number format.
pub fn precision_to_type(precision: &Precision) -> (r: Result<String, CodegenError>)
    ensures
        piece_view(r) == c_type(*precision),
{
    match precision {
        Precision::Fixed { total_bits, fractional_bits: _ } => {
            if *total_bits <= 8 {
                Ok(String::from_str("int8_t"))
            } else if *total_bits <= 16 {
                Ok(String::from_str("int16_t"))
            } else if *total_bits <= 32 {
                Ok(String::from_str("int32_t"))
            } else if *total_bits <= 64 {
                Ok(String::from_str("int64_t"))
            } else {
                Err(CodegenError::UnsupportedWidth)
            }
        },
        Precision::Float32 => Ok(String::from_str("float")),
        Precision::Float64 => Ok(String::from_str("double")),
    }
}

/// The C type in which values of a number format are multiplied and divided.
pub fn fixed_precision_to_next_type(precision: &Precision) -> (r: Result<String, CodegenError>)
    ensures
        piece_view(r) == c_next_type(*precision),
{
    match precision {
        Precision::Fixed { total_bits, fractional_bits: _ } => {
            if *total_bits <= 8 {
                Ok(String::from_str("int16_t"))
            } else if *total_bits <= 16 {
                Ok(String::from_str("int32_t"))
            } else if *total_bits <= 32 {
                Ok(String::from_str("int64_t"))
            } else {
                Err(CodegenError::UnsupportedWidth)
            }
        },
        Precision::Float32 => Ok(String::from_str("float")),
        Precision::Float64 => Ok(String::from_str("double")),
    }
}

/// Two to a larger power is not smaller.
pub proof fn lemma_two_to_monotone(a: nat, b: nat)
    requires
        a <= b,
    ensures
        1 <= two_to(a) <= two_to(b),
    decreases b,
{
    if a < b {
        lemma_two_to_monotone(a, (b - 1) as nat);
    } else if a > 0 {
        lemma_two_to_monotone((a - 1) as nat, (a - 1) as nat);
    }
}

/// Two to the power 62.
pub proof fn lemma_two_to_62()
    ensures
        two_to(62) == 0x4000_0000_0000_0000,
{
    assert(two_to(8) == 256) by {
        reveal_with_fuel(two_to, 9);
    }
    assert(two_to(16) == 65536) by {
        lemma_two_to_add(8, 8);
    }
    assert(two_to(32) == 0x1_0000_0000) by {
        lemma_two_to_add(16, 16);
    }
    assert(two_to(48) == 0x1_0000_0000_0000) by {
        lemma_two_to_add(32, 16);
    }
    assert(two_to(56) == 0x100_0000_0000_0000) by {
        lemma_two_to_add(48, 8);
    }
    assert(two_to(6) == 64) by {
        reveal_with_fuel(two_to, 7);
    }
    lemma_two_to_add(56, 6);
}

/// Powers of two multiply as their exponents add.
pub proof fn lemma_two_to_add(a: nat, b: nat)
    ensures
        two_to(a + b) == two_to(a) * two_to(b),
    decreases b,
{
    if b > 0 {
        lemma_two_to_add(a, (b - 1) as nat);
        assert(two_to(a + b) == 2 * two_to((a + b - 1) as nat));
        assert(2 * (two_to(a) * two_to((b - 1) as nat)) == two_to(a) * (2 * two_to(
            (b - 1) as nat,
        ))) by (nonlinear_arith);
    } else {
        assert(two_to(a) * 1 == two_to(a));
    }
}

/// Two to the power `n`.
fn power_of_two(n: u32) -> (r: i64)
    requires
        n <= 62,
    ensures
        r == two_to(n as nat),
{
    let mut value: i64 = 1;
    let mut i: u32 = 0;
    while i < n
        invariant
            i <= n <= 62,
            value == two_to(i as nat),
        decreases n - i,
    {
        proof {
            lemma_two_to_62();
            lemma_two_to_monotone((i + 1) as nat, 62);
        }
        value = value * 2;
        i += 1;
    }
    value
}

/// One field of the output struct.
fn emit_field(precisions: &NameMap<Precision>, leaf: &String, field: &str) -> (r: Result<
    String,
    CodegenError,
>)
    requires
        precisions.wf(),
    ensures
        piece_view(r) == field_line(precisions_view(precisions), leaf@, field@),
{
    let p = match lookup(precisions, leaf) {
        Ok(p) => p,
        Err(e) => {
            return Err(e);
        },
    };
    let t = match precision_to_type(&p) {
        Ok(t) => t,
        Err(e) => {
            return Err(e);
        },
    };
    let mut out = concat("    ", t.as_str());
    out.append(" ");
    out.append(field);
    out.append(";\n");
    Ok(out)
}

/// `base`, an underscore and `i`.
fn indexed(base: &str, i: usize) -> (r: String)
    ensures
        r@ == element_name(base@, i as int),
{
    let index = usize_to_text(i);
    let name = concat3(base, "_", index.as_str());
    proof {
        reveal_strlit("_");
        assert("_"@ =~= seq!['_']);
        assert(name@ =~= element_name(base@, i as int));
    }
    name
}

/// The fields of the leaves of one row, named after `base` and the position.
fn emit_row_fields(precisions: &NameMap<Precision>, leaves: &Vec<Output>, base: &str) -> (r:
    Result<String, CodegenError>)
    requires
        precisions.wf(),
    ensures
        piece_view(r) == join(
            |i: int|
                field_line(
                    precisions_view(precisions),
                    outputs_row_view(leaves@)[i].id.name,
                    element_name(base@, i),
                ),
            leaves@.len(),
        ),
{
    let ghost parts = |i: int|
        field_line(
            precisions_view(precisions),
            outputs_row_view(leaves@)[i].id.name,
            element_name(base@, i),
        );
    let mut out = String::new();
    let mut i: usize = 0;
    while i < leaves.len()
        invariant
            i <= leaves.len(),
            precisions.wf(),
            parts == |i: int|
                field_line(
                    precisions_view(precisions),
                    outputs_row_view(leaves@)[i].id.name,
                    element_name(base@, i),
                ),
            join(parts, i as nat) == Ok::<Seq<char>, CodegenErrorView>(out@),
        decreases leaves.len() - i,
    {
        let field = indexed(base, i);
        match emit_field(precisions, &leaves[i].id.name, field.as_str()) {
            Ok(line) => {
                out.append(line.as_str());
            },
            Err(e) => {
                proof {
                    lemma_join_fails(parts, (i + 1) as nat, leaves@.len());
                }
                return Err(e);
            },
        }
        i += 1;
    }
    Ok(out)
}

/// The fields of one output.
fn emit_output_fields(precisions: &NameMap<Precision>, id: &Identifier, output: &ProgramOutput) -> (r:
    Result<String, CodegenError>)
    requires
        precisions.wf(),
    ensures
        piece_view(r) == output_fields(precisions_view(precisions), id@, output@),
{
    match output {
        ProgramOutput::Scalar { .. } => emit_field(precisions, &id.name, id.name.as_str()),
        ProgramOutput::Vector { info } => emit_row_fields(precisions, info, id.name.as_str()),
        ProgramOutput::Matrix { info } => {
            let ghost rows = outputs_grid_view(info@);
            let ghost parts = |i: int|
                join(
                    |j: int|
                        field_line(
                            precisions_view(precisions),
                            rows[i][j].id.name,
                            element_name(element_name(id@.name, i), j),
                        ),
                    rows[i].len(),
                );
            let mut out = String::new();
            let mut i: usize = 0;
            while i < info.len()
                invariant
                    i <= info.len(),
                    precisions.wf(),
                    rows == outputs_grid_view(info@),
                    output@ == ProgramOutputView::Matrix(rows),
                    parts == |i: int|
                        join(
                            |j: int|
                                field_line(
                                    precisions_view(precisions),
                                    rows[i][j].id.name,
                                    element_name(element_name(id@.name, i), j),
                                ),
                            rows[i].len(),
                        ),
                    join(parts, i as nat) == Ok::<Seq<char>, CodegenErrorView>(out@),
                decreases info.len() - i,
            {
                let base = indexed(id.name.as_str(), i);
                let row = emit_row_fields(precisions, &info[i], base.as_str());
                proof {
                    assert(rows[i as int] == outputs_row_view(info@[i as int]@));
                    assert((|j: int|
                        field_line(
                            precisions_view(precisions),
                            rows[i as int][j].id.name,
                            element_name(element_name(id@.name, i as int), j),
                        )) =~= (|j: int|
                        field_line(
                            precisions_view(precisions),
                            outputs_row_view(info@[i as int]@)[j].id.name,
                            element_name(base@, j),
                        )));
                    assert(rows[i as int].len() == info@[i as int]@.len());
                    assert(parts(i as int) == piece_view(row));
                }
                match row {
                    Ok(lines) => {
                        out.append(lines.as_str());
                    },
                    Err(e) => {
                        proof {
                            lemma_join_fails(parts, (i + 1) as nat, info@.len());
                        }
                        return Err(e);
                    },
                }
                i += 1;
            }
            Ok(out)
        },
    }
}

/// The fields of the output struct.
fn emit_fields(precisions: &NameMap<Precision>, outputs: &IdMap<ProgramOutput>) -> (r: Result<
    String,
    CodegenError,
>)
    requires
        precisions.wf(),
        outputs.wf(),
    ensures
        piece_view(r) == join(
            |i: int|
                output_fields(
                    precisions_view(precisions),
                    outputs_view(outputs)[i].0,
                    outputs_view(outputs)[i].1,
                ),
            outputs_view(outputs).len(),
        ),
{
    let ghost parts = |i: int|
        output_fields(
            precisions_view(precisions),
            outputs_view(outputs)[i].0,
            outputs_view(outputs)[i].1,
        );
    let n = outputs.len();
    let mut out = String::new();
    let mut i: usize = 0;
    while i < n
        invariant
            i <= n,
            n == outputs_view(outputs).len(),
            precisions.wf(),
            outputs.wf(),
            parts == |i: int|
                output_fields(
                    precisions_view(precisions),
                    outputs_view(outputs)[i].0,
                    outputs_view(outputs)[i].1,
                ),
            join(parts, i as nat) == Ok::<Seq<char>, CodegenErrorView>(out@),
        decreases n - i,
    {
        let key = outputs.key_at(i);
        let value = outputs.value_at(i);
        assert(outputs_view(outputs)[i as int] == (key@, value@));
        match emit_output_fields(precisions, key, value) {
            Ok(lines) => {
                out.append(lines.as_str());
            },
            Err(e) => {
                proof {
                    lemma_join_fails(parts, (i + 1) as nat, n as nat);
                }
                return Err(e);
            },
        }
        i += 1;
    }
    Ok(out)
}

/// The parameters of the function.
fn emit_parameters(precisions: &NameMap<Precision>, inputs: &IdMap<ProgramInput>) -> (r: Result<
    String,
    CodegenError,
>)
    requires
        precisions.wf(),
        inputs.wf(),
    ensures
        piece_view(r) == join(
            |i: int| parameter(precisions_view(precisions), inputs_view(inputs), i),
            inputs_view(inputs).len(),
        ),
{
    let ghost parts = |i: int| parameter(precisions_view(precisions), inputs_view(inputs), i);
    let n = inputs.len();
    let mut out = String::new();
    let mut i: usize = 0;
    while i < n
        invariant
            i <= n,
            n == inputs_view(inputs).len(),
            precisions.wf(),
            inputs.wf(),
            parts == |i: int| parameter(precisions_view(precisions), inputs_view(inputs), i),
            join(parts, i as nat) == Ok::<Seq<char>, CodegenErrorView>(out@),
        decreases n - i,
    {
        let key = inputs.key_at(i);
        let value = inputs.value_at(i);
        assert(inputs_view(inputs)[i as int] == (key@, value@));
        let ghost before = out@;
        match value {
            ProgramInput::Scalar { .. } => {
                let p = match lookup(precisions, &key.name) {
                    Ok(p) => p,
                    Err(e) => {
                        proof {
                            lemma_join_fails(parts, (i + 1) as nat, n as nat);
                        }
                        return Err(e);
                    },
                };
                let t = match precision_to_type(&p) {
                    Ok(t) => t,
                    Err(e) => {
                        proof {
                            lemma_join_fails(parts, (i + 1) as nat, n as nat);
                        }
                        return Err(e);
                    },
                };
                let mut line = concat("    ", t.as_str());
                line.append(" ");
                line.append(key.name.as_str());
                if i != n - 1 {
                    line.append(",\n");
                } else {
                    assert(line@ + Seq::<char>::empty() =~= line@);
                }
                out.append(line.as_str());
            },
            _ => {
                proof {
                    lemma_join_fails(parts, (i + 1) as nat, n as nat);
                }
                return Err(CodegenError::NotScalar);
            },
        }
        i += 1;
    }
    Ok(out)
}

/// A fixed-point constant.
fn emit_constant(value: &Real, fractional_bits: i32) -> (r: Result<String, CodegenError>)
    ensures
        piece_view(r) == constant_text(value@, fractional_bits as int),
{
    if fractional_bits < 0 || fractional_bits > 62 {
        return Err(CodegenError::ConstantOutOfRange);
    }
    let scale = Real::from_i64(power_of_two(fractional_bits as u32));
    let scaled = value.mul(&scale);
    match scaled.nearest_integer() {
        Some(n) => Ok(i64_to_text(n)),
        None => Err(CodegenError::ConstantOutOfRange),
    }
}

/// An operand shifted so that its fractional bits become those of the
/// result.
fn emit_aligned(name: &str, bits: i32, goal: i32) -> (r: String)
    ensures
        r@ == aligned(name@, bits as int, goal as int),
{
    if bits < goal {
        let amount = i64_to_text(goal as i64 - bits as i64);
        let mut out = concat("(", name);
        out.append(" << ");
        out.append(amount.as_str());
        out.append(")");
        out
    } else if bits > goal {
        let amount = i64_to_text(bits as i64 - goal as i64);
        let mut out = concat("(", name);
        out.append(" >> ");
        out.append(amount.as_str());
        out.append(")");
        out
    } else {
        String::from_str(name)
    }
}

/// The fractional bits of the result and of both operands.
fn get_fixed_bits(goal: &Precision, pa: &Precision, pb: &Precision) -> (r: Result<
    (i32, i32, i32),
    CodegenError,
>)
    ensures
        match fixed_bits(*goal, *pa, *pb) {
            Ok(bits) => r matches Ok(b) && b.0 == bits.0 && b.1 == bits.1 && b.2 == bits.2,
            Err(e) => r matches Err(f) && f@ == e,
        },
{
    match (goal, pa, pb) {
        (
            Precision::Fixed { total_bits: _, fractional_bits: g },
            Precision::Fixed { total_bits: _, fractional_bits: b1 },
            Precision::Fixed { total_bits: _, fractional_bits: b2 },
        ) => Ok((*g, *b1, *b2)),
        (Precision::Float32, Precision::Float32, Precision::Float32) => Err(
            CodegenError::FloatUnsupported,
        ),
        (Precision::Float64, Precision::Float64, Precision::Float64) => Err(
            CodegenError::FloatUnsupported,
        ),
        _ => Err(CodegenError::MixedPrecision),
    }
}

/// The product of two fixed-point operands.
fn emit_product(
    goal: &Precision,
    pa: &Precision,
    pb: &Precision,
    n1: &str,
    n2: &str,
    bits: (i32, i32, i32),
) -> (r: Result<String, CodegenError>)
    ensures
        piece_view(r) == product_text(
            *goal,
            *pa,
            *pb,
            n1@,
            n2@,
            (bits.0 as int, bits.1 as int, bits.2 as int),
        ),
{
    let t = match precision_to_type(goal) {
        Ok(t) => t,
        Err(e) => {
            return Err(e);
        },
    };
    let w1 = match fixed_precision_to_next_type(pa) {
        Ok(t) => t,
        Err(e) => {
            return Err(e);
        },
    };
    let w2 = match fixed_precision_to_next_type(pb) {
        Ok(t) => t,
        Err(e) => {
            return Err(e);
        },
    };
    let amount = i64_to_text(bits.1 as i64 + bits.2 as i64 - bits.0 as i64);
    let mut out = concat("(", t.as_str());
    out.append(") ");
    out.append("((((");
    out.append(w1.as_str());
    out.append(") (");
    out.append(n1);
    out.append(")");
    out.append(" * ");
    out.append("(");
    out.append(w2.as_str());
    out.append(") (");
    out.append(n2);
    out.append("))");
    out.append(" >> ");
    out.append(amount.as_str());
    out.append("))");
    Ok(out)
}

/// The quotient of two fixed-point operands.
fn emit_quotient(pa: &Precision, n1: &str, n2: &str, bits: (i32, i32, i32)) -> (r: Result<
    String,
    CodegenError,
>)
    ensures
        piece_view(r) == quotient_text(
            *pa,
            n1@,
            n2@,
            (bits.0 as int, bits.1 as int, bits.2 as int),
        ),
{
    let w1 = match fixed_precision_to_next_type(pa) {
        Ok(t) => t,
        Err(e) => {
            return Err(e);
        },
    };
    let amount = i64_to_text(bits.0 as i64 + bits.2 as i64 - bits.1 as i64);
    let mut out = concat("(((", w1.as_str());
    out.append(") (");
    out.append(n1);
    out.append(") << ");
    out.append(amount.as_str());
    out.append(")");
    out.append(" / ");
    out.append(n2);
    out.append(")");
    Ok(out)
}

/// The right-hand side of an arithmetic node.
fn emit_arithmetic(
    precisions: &NameMap<Precision>,
    goal: &Precision,
    opr1: &Identifier,
    opr2: &Identifier,
    kind: OprBinary,
) -> (r: Result<String, CodegenError>)
    requires
        precisions.wf(),
    ensures
        piece_view(r) == arithmetic_text(precisions_view(precisions), *goal, opr1@, opr2@, kind),
{
    let pa = match lookup(precisions, &opr1.name) {
        Ok(p) => p,
        Err(e) => {
            return Err(e);
        },
    };
    let pb = match lookup(precisions, &opr2.name) {
        Ok(p) => p,
        Err(e) => {
            return Err(e);
        },
    };
    if kind == OprBinary::Cross || kind == OprBinary::Dot {
        return Err(CodegenError::NotScalar);
    }
    let bits = match get_fixed_bits(goal, &pa, &pb) {
        Ok(bits) => bits,
        Err(e) => {
            return Err(e);
        },
    };
    match kind {
        OprBinary::Add => {
            let a = emit_aligned(opr1.name.as_str(), bits.1, bits.0);
            let b = emit_aligned(opr2.name.as_str(), bits.2, bits.0);
            let mut out = concat("(", a.as_str());
            out.append(" + ");
            out.append(b.as_str());
            out.append(")");
            Ok(out)
        },
        OprBinary::Sub => {
            let a = emit_aligned(opr1.name.as_str(), bits.1, bits.0);
            let b = emit_aligned(opr2.name.as_str(), bits.2, bits.0);
            let mut out = concat("(", a.as_str());
            out.append(" - ");
            out.append(b.as_str());
            out.append(")");
            Ok(out)
        },
        OprBinary::Mul => emit_product(
            goal,
            &pa,
            &pb,
            opr1.name.as_str(),
            opr2.name.as_str(),
            bits,
        ),
        _ => emit_quotient(&pa, opr1.name.as_str(), opr2.name.as_str(), bits),
    }
}

/// The right-hand side of the statement of a node.
fn emit_rhs(precisions: &NameMap<Precision>, goal: &Precision, opr: &Opr) -> (r: Result<
    String,
    CodegenError,
>)
    requires
        precisions.wf(),
    ensures
        piece_view(r) == rhs_text(precisions_view(precisions), *goal, opr@),
{
    match opr {
        Opr::ConstantScalar { value } => match goal {
            Precision::Fixed { total_bits: _, fractional_bits } => emit_constant(
                value,
                *fractional_bits,
            ),
            _ => Err(CodegenError::FloatUnsupported),
        },
        Opr::ConstructScalar { id } => Ok(id.name.clone()),
        Opr::Unary { opr1, opr_type } => match opr_type {
            OprUnary::Neg => Ok(concat3("-(", opr1.name.as_str(), ")")),
            OprUnary::Assign => Ok(opr1.name.clone()),
            OprUnary::AssignNoOpt => Ok(opr1.name.clone()),
            OprUnary::Sine => Ok(concat3("sin(", opr1.name.as_str(), ")")),
            OprUnary::Cosine => Ok(concat3("cos(", opr1.name.as_str(), ")")),
            _ => Err(CodegenError::NotScalar),
        },
        Opr::Binary { opr1, opr2, opr_type } => emit_arithmetic(
            precisions,
            goal,
            opr1,
            opr2,
            *opr_type,
        ),
        _ => Err(CodegenError::NotScalar),
    }
}

/// The note, if any, that goes before the statement of a node.
fn emit_note(goal: &Precision, opr: &Opr) -> (r: &'static str)
    ensures
        r@ == statement_note(*goal, opr@),
{
    let fixed = match goal {
        Precision::Fixed { .. } => true,
        _ => false,
    };
    proof {
        reveal_strlit("");
        assert(""@ =~= Seq::<char>::empty());
    }
    match opr {
        Opr::Unary { opr1: _, opr_type } => match opr_type {
            OprUnary::Sine => if fixed {
                "   // Sine with fixed precision is not supported in C codegen"
            } else {
                ""
            },
            OprUnary::Cosine => if fixed {
                "   // Cosine with fixed precision is not supported in C codegen"
            } else {
                ""
            },
            _ => "",
        },
        _ => "",
    }
}

/// The statement of a node.
fn emit_statement(precisions: &NameMap<Precision>, expr: &Expr) -> (r: Result<
    String,
    CodegenError,
>)
    requires
        precisions.wf(),
    ensures
        piece_view(r) == statement(precisions_view(precisions), expr@),
{
    match expr {
        Expr::Let { id, opr } => {
            let goal = match lookup(precisions, &id.name) {
                Ok(p) => p,
                Err(e) => {
                    return Err(e);
                },
            };
            let rhs = match emit_rhs(precisions, &goal, opr) {
                Ok(text) => text,
                Err(e) => {
                    return Err(e);
                },
            };
            let t = match precision_to_type(&goal) {
                Ok(t) => t,
                Err(e) => {
                    return Err(e);
                },
            };
            let mut out = concat(emit_note(&goal, opr), "    ");
            out.append(t.as_str());
            out.append(" ");
            out.append(id.name.as_str());
            out.append(" = ");
            out.append(rhs.as_str());
            out.append(";\n");
            Ok(out)
        },
    }
}

/// The statements of the function.
fn emit_statements(precisions: &NameMap<Precision>, body: &Vec<Expr>) -> (r: Result<
    String,
    CodegenError,
>)
    requires
        precisions.wf(),
    ensures
        piece_view(r) == join(
            |i: int| statement(precisions_view(precisions), body_view(body@)[i]),
            body@.len(),
        ),
{
    let ghost parts = |i: int| statement(precisions_view(precisions), body_view(body@)[i]);
    let mut out = String::new();
    let mut i: usize = 0;
    while i < body.len()
        invariant
            i <= body.len(),
            precisions.wf(),
            parts == |i: int| statement(precisions_view(precisions), body_view(body@)[i]),
            join(parts, i as nat) == Ok::<Seq<char>, CodegenErrorView>(out@),
        decreases body.len() - i,
    {
        assert(body_view(body@)[i as int] == body@[i as int]@);
        match emit_statement(precisions, &body[i]) {
            Ok(line) => {
                out.append(line.as_str());
            },
            Err(e) => {
                proof {
                    lemma_join_fails(parts, (i + 1) as nat, body@.len());
                }
                return Err(e);
            },
        }
        i += 1;
    }
    Ok(out)
}

/// The lines of the returned aggregate for the leaves of one row.
fn emit_row_returns(leaves: &Vec<Output>) -> (r: String)
    ensures
        Ok::<Seq<char>, CodegenErrorView>(r@) == join(
            |i: int|
                Ok::<Seq<char>, CodegenErrorView>(
                    return_line(outputs_row_view(leaves@)[i].id.name),
                ),
            leaves@.len(),
        ),
{
    let ghost parts = |i: int|
        Ok::<Seq<char>, CodegenErrorView>(return_line(outputs_row_view(leaves@)[i].id.name));
    let mut out = String::new();
    let mut i: usize = 0;
    while i < leaves.len()
        invariant
            i <= leaves.len(),
            parts == |i: int|
                Ok::<Seq<char>, CodegenErrorView>(
                    return_line(outputs_row_view(leaves@)[i].id.name),
                ),
            join(parts, i as nat) == Ok::<Seq<char>, CodegenErrorView>(out@),
        decreases leaves.len() - i,
    {
        let ghost before = out@;
        out.append("        ");
        out.append(leaves[i].id.name.as_str());
        out.append(",\n");
        assert(out@ =~= before + return_line(leaves@[i as int]@.id.name));
        i += 1;
    }
    out
}

/// The lines of the returned aggregate for one output.
fn emit_output_returns(output: &ProgramOutput) -> (r: String)
    ensures
        Ok::<Seq<char>, CodegenErrorView>(r@) == output_returns(output@),
{
    match output {
        ProgramOutput::Scalar { info } => concat3("        ", info.id.name.as_str(), ",\n"),
        ProgramOutput::Vector { info } => emit_row_returns(info),
        ProgramOutput::Matrix { info } => {
            let ghost rows = outputs_grid_view(info@);
            let ghost parts = |i: int|
                join(
                    |j: int| Ok::<Seq<char>, CodegenErrorView>(return_line(rows[i][j].id.name)),
                    rows[i].len(),
                );
            let mut out = String::new();
            let mut i: usize = 0;
            while i < info.len()
                invariant
                    i <= info.len(),
                    rows == outputs_grid_view(info@),
                    parts == |i: int|
                        join(
                            |j: int|
                                Ok::<Seq<char>, CodegenErrorView>(
                                    return_line(rows[i][j].id.name),
                                ),
                            rows[i].len(),
                        ),
                    join(parts, i as nat) == Ok::<Seq<char>, CodegenErrorView>(out@),
                decreases info.len() - i,
            {
                let row = emit_row_returns(&info[i]);
                proof {
                    assert(rows[i as int] == outputs_row_view(info@[i as int]@));
                    assert((|j: int|
                        Ok::<Seq<char>, CodegenErrorView>(
                            return_line(rows[i as int][j].id.name),
                        )) =~= (|j: int|
                        Ok::<Seq<char>, CodegenErrorView>(
                            return_line(outputs_row_view(info@[i as int]@)[j].id.name),
                        )));
                }
                out.append(row.as_str());
                i += 1;
            }
            out
        },
    }
}

/// The lines of the returned aggregate.
fn emit_returns(outputs: &IdMap<ProgramOutput>) -> (r: String)
    requires
        outputs.wf(),
    ensures
        Ok::<Seq<char>, CodegenErrorView>(r@) == join(
            |i: int| output_returns(outputs_view(outputs)[i].1),
            outputs_view(outputs).len(),
        ),
{
    let ghost parts = |i: int| output_returns(outputs_view(outputs)[i].1);
    let n = outputs.len();
    let mut out = String::new();
    let mut i: usize = 0;
    while i < n
        invariant
            i <= n,
            n == outputs_view(outputs).len(),
            outputs.wf(),
            parts == |i: int| output_returns(outputs_view(outputs)[i].1),
            join(parts, i as nat) == Ok::<Seq<char>, CodegenErrorView>(out@),
        decreases n - i,
    {
        let value = outputs.value_at(i);
        assert(outputs_view(outputs)[i as int].1 == value@);
        let lines = emit_output_returns(value);
        out.append(lines.as_str());
        i += 1;
    }
    out
}

/// Emits the C source for `program`: the struct of its outputs and the
/// function `func_name` that computes them, every value in the number format
/// that `precisions` gives for its name.
pub fn generate_c(program: &Program, precisions: &NameMap<Precision>, func_name: &str) -> (r:
    Result<String, CodegenError>)
    requires
        program.wf(),
        precisions.wf(),
    ensures
        piece_view(r) == c_source(program@, precisions_view(precisions), func_name@),
{
    let outputs = program.get_outputs();
    let inputs = program.get_inputs();
    let body = program.get_body();
    let fields = match emit_fields(precisions, outputs) {
        Ok(text) => text,
        Err(e) => {
            return Err(e);
        },
    };
    let parameters = match emit_parameters(precisions, inputs) {
        Ok(text) => text,
        Err(e) => {
            return Err(e);
        },
    };
    let statements = match emit_statements(precisions, body) {
        Ok(text) => text,
        Err(e) => {
            return Err(e);
        },
    };
    let leaves = emit_returns(outputs);
    let mut out = concat("#include <math.h>\n", "\ntypedef struct {\n");
    out.append(fields.as_str());
    out.append("} ");
    out.append(func_name);
    out.append("_output_t;\n");
    out.append("\n");
    out.append(func_name);
    out.append("_output_t ");
    out.append(func_name);
    out.append("(\n");
    out.append(parameters.as_str());
    out.append("\n) {\n");
    out.append(statements.as_str());
    out.append("\n    return {\n");
    out.append(leaves.as_str());
    out.append("    };\n");
    out.append("}\n");
    Ok(out)
}

} // verus!
