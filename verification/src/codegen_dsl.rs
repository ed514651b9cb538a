//! The text that the range analyser reads: one function whose parameters are
//! the scalar inputs, whose precondition holds their ranges, and whose body
//! declares one value per node.
//!
//! Numbers are written as the caller renders them: the ranges of the inputs
//! and the constants of the body are handed over as text, in program order.

use vstd::prelude::*;
use vstd::string::*;
use crate::codegen_c::{join, lemma_join_fails, piece_view, CodegenError, CodegenErrorView, Piece};
use crate::expr::{body_view, Expr, ExprView, Opr, OprBinary, OprUnary, OprView, UnaryView};
use crate::identifier::IdentView;
use crate::idmap::IdMap;
use crate::program::{inputs_view, Program, ProgramInput, ProgramInputView, ProgramView};
use crate::text::{concat, concat3};

verus! {

/// The rendered bounds of the inputs, as contracts see them.
pub open spec fn bounds_view(bounds: Seq<(String, String)>) -> Seq<(Seq<char>, Seq<char>)> {
    Seq::new(bounds.len(), |i: int| (bounds[i].0@, bounds[i].1@))
}

/// The rendered constants, as contracts see them.
pub open spec fn texts_view(texts: Seq<String>) -> Seq<Seq<char>> {
    Seq::new(texts.len(), |i: int| texts[i]@)
}

/// The number of constant nodes among the first `n` nodes.
pub open spec fn constants_before(body: Seq<ExprView>, n: nat) -> nat
    decreases n,
{
    if n == 0 {
        0
    } else {
        constants_before(body, (n - 1) as nat) + (if body[n - 1].opr is ConstantScalar {
            1nat
        } else {
            0nat
        })
    }
}

/// What goes between two inputs, and not after the last.
pub open spec fn separator(i: int, n: int, text: Seq<char>) -> Seq<char> {
    if i < n - 1 {
        text
    } else {
        Seq::empty()
    }
}

/// One parameter of the function: the name of a scalar input and its type.
pub open spec fn dsl_parameter(inputs: Seq<(IdentView, ProgramInputView)>, i: int) -> Piece {
    match inputs[i].1 {
        ProgramInputView::Scalar(_) => Ok(
            "  "@ + inputs[i].0.name + ": Real\n"@ + separator(i, inputs.len() as int, ", "@),
        ),
        _ => Err(CodegenErrorView::NotScalar),
    }
}

/// The range of one input in the precondition: the name above the rendered
/// lower bound and below the rendered upper bound.
pub open spec fn dsl_range(
    inputs: Seq<(IdentView, ProgramInputView)>,
    bounds: Seq<(Seq<char>, Seq<char>)>,
    i: int,
) -> Piece {
    if i >= bounds.len() {
        Err(CodegenErrorView::MissingNumber)
    } else {
        Ok(
            inputs[i].0.name + " > "@ + bounds[i].0 + " && "@ + inputs[i].0.name + " < "@
                + bounds[i].1 + " \n"@ + separator(i, inputs.len() as int, " && "@),
        )
    }
}

/// The sign of an arithmetic operation.
pub open spec fn operator_sign(kind: OprBinary) -> Piece {
    match kind {
        OprBinary::Add => Ok("+"@),
        OprBinary::Sub => Ok("-"@),
        OprBinary::Mul => Ok("*"@),
        OprBinary::Div => Ok("/"@),
        _ => Err(CodegenErrorView::NotScalar),
    }
}

/// The expression of a node; `constant` is the rendered value of a constant
/// node, if one was handed over for it.
pub open spec fn dsl_expression(opr: OprView, constant: Option<Seq<char>>) -> Piece {
    match opr {
        OprView::ConstantScalar(_) => match constant {
            Some(text) => Ok(text),
            None => Err(CodegenErrorView::MissingNumber),
        },
        OprView::Unary(opr1, kind) => match kind {
            UnaryView::Neg => Ok("-"@ + opr1.name),
            UnaryView::Assign => Ok(opr1.name),
            UnaryView::AssignNoOpt => Ok(opr1.name),
            UnaryView::Sine => Ok("sin("@ + opr1.name + ")"@),
            UnaryView::Cosine => Ok("cos("@ + opr1.name + ")"@),
            _ => Err(CodegenErrorView::NotScalar),
        },
        OprView::Binary(opr1, opr2, kind) => match operator_sign(kind) {
            Err(e) => Err(e),
            Ok(sign) => Ok(opr1.name + " "@ + sign + " "@ + opr2.name),
        },
        _ => Err(CodegenErrorView::NotScalar),
    }
}

/// The rendered constant for node `i`, if enough were handed over.
pub open spec fn constant_for(body: Seq<ExprView>, constants: Seq<Seq<char>>, i: int) -> Option<
    Seq<char>,
> {
    if constants_before(body, i as nat) < constants.len() {
        Some(constants[constants_before(body, i as nat) as int])
    } else {
        None
    }
}

/// The declaration of node `i`.
pub open spec fn dsl_declaration(body: Seq<ExprView>, constants: Seq<Seq<char>>, i: int) -> Piece {
    match dsl_expression(body[i].opr, constant_for(body, constants, i)) {
        Err(e) => Err(e),
        Ok(expression) => Ok("val "@ + body[i].id.name + ": Real = "@ + expression + "\n"@),
    }
}

/// The text for the analyser: imports, the object and function named
/// `func_name`, the parameters, the precondition, one declaration per node,
/// and the name of the last node as the result.
pub open spec fn dsl_source(
    program: ProgramView,
    func_name: Seq<char>,
    bounds: Seq<(Seq<char>, Seq<char>)>,
    constants: Seq<Seq<char>>,
) -> Piece {
    match join(|i: int| dsl_parameter(program.inputs, i), program.inputs.len()) {
        Err(e) => Err(e),
        Ok(parameters) => match join(
            |i: int| dsl_range(program.inputs, bounds, i),
            program.inputs.len(),
        ) {
            Err(e) => Err(e),
            Ok(ranges) => match join(
                |i: int| dsl_declaration(program.body, constants, i),
                program.body.len(),
            ) {
                Err(e) => Err(e),
                Ok(declarations) => if program.body.len() == 0 {
                    Err(CodegenErrorView::EmptyBody)
                } else {
                    Ok(
                        "import daisy.lang._\n"@ + "import Real._\n"@ + "object "@ + func_name
                            + " {\ndef "@ + func_name + "(\n"@ + parameters + "): Real = {\n"@
                            + "require (\n"@ + ranges + ")\n"@ + declarations
                            + program.body.last().id.name + "\n"@ + "}\n}\n"@,
                    )
                },
            },
        },
    }
}

/// What goes between two inputs, and not after the last.
fn emit_separator(i: usize, n: usize, text: &'static str) -> (r: &'static str)
    requires
        i < n,
    ensures
        r@ == separator(i as int, n as int, text@),
{
    proof {
        reveal_strlit("");
        assert(""@ =~= Seq::<char>::empty());
    }
    if i < n - 1 {
        text
    } else {
        ""
    }
}

/// The parameters of the function.
fn emit_parameters(inputs: &IdMap<ProgramInput>) -> (r: Result<String, CodegenError>)
    requires
        inputs.wf(),
    ensures
        piece_view(r) == join(
            |i: int| dsl_parameter(inputs_view(inputs), i),
            inputs_view(inputs).len(),
        ),
{
    let ghost parts = |i: int| dsl_parameter(inputs_view(inputs), i);
    let n = inputs.len();
    let mut out = String::new();
    let mut i: usize = 0;
    while i < n
        invariant
            i <= n,
            n == inputs_view(inputs).len(),
            inputs.wf(),
            parts == |i: int| dsl_parameter(inputs_view(inputs), i),
            join(parts, i as nat) == Ok::<Seq<char>, CodegenErrorView>(out@),
        decreases n - i,
    {
        let key = inputs.key_at(i);
        let value = inputs.value_at(i);
        assert(inputs_view(inputs)[i as int] == (key@, value@));
        match value {
            ProgramInput::Scalar { .. } => {
                let mut line = concat3("  ", key.name.as_str(), ": Real\n");
                line.append(emit_separator(i, n, ", "));
                out.append(line.as_str());
            },
            _ => {
                proof {
                    lemma_join_fails(parts, (i + 1) as nat, n as nat);
                }
                return Err(CodegenError::NotScalar);
            },
        }
        i += 1;
    }
    Ok(out)
}

/// The ranges of the precondition.
fn emit_ranges(inputs: &IdMap<ProgramInput>, bounds: &Vec<(String, String)>) -> (r: Result<
    String,
    CodegenError,
>)
    requires
        inputs.wf(),
    ensures
        piece_view(r) == join(
            |i: int| dsl_range(inputs_view(inputs), bounds_view(bounds@), i),
            inputs_view(inputs).len(),
        ),
{
    let ghost parts = |i: int| dsl_range(inputs_view(inputs), bounds_view(bounds@), i);
    let n = inputs.len();
    let mut out = String::new();
    let mut i: usize = 0;
    while i < n
        invariant
            i <= n,
            n == inputs_view(inputs).len(),
            inputs.wf(),
            parts == |i: int| dsl_range(inputs_view(inputs), bounds_view(bounds@), i),
            join(parts, i as nat) == Ok::<Seq<char>, CodegenErrorView>(out@),
        decreases n - i,
    {
        let key = inputs.key_at(i);
        assert(inputs_view(inputs)[i as int].0 == key@);
        if i >= bounds.len() {
            proof {
                lemma_join_fails(parts, (i + 1) as nat, n as nat);
            }
            return Err(CodegenError::MissingNumber);
        }
        assert(bounds_view(bounds@)[i as int] == (bounds@[i as int].0@, bounds@[i as int].1@));
        let mut line = concat3(key.name.as_str(), " > ", bounds[i].0.as_str());
        line.append(" && ");
        line.append(key.name.as_str());
        line.append(" < ");
        line.append(bounds[i].1.as_str());
        line.append(" \n");
        line.append(emit_separator(i, n, " && "));
        out.append(line.as_str());
        i += 1;
    }
    Ok(out)
}

/// The sign of an arithmetic operation.
fn emit_sign(kind: OprBinary) -> (r: Result<&'static str, CodegenError>)
    ensures
        match operator_sign(kind) {
            Ok(sign) => r matches Ok(s) && s@ == sign,
            Err(e) => r matches Err(f) && f@ == e,
        },
{
    match kind {
        OprBinary::Add => Ok("+"),
        OprBinary::Sub => Ok("-"),
        OprBinary::Mul => Ok("*"),
        OprBinary::Div => Ok("/"),
        _ => Err(CodegenError::NotScalar),
    }
}

/// The expression of a node.
fn emit_expression(opr: &Opr, constant: Option<&String>) -> (r: Result<String, CodegenError>)
    ensures
        piece_view(r) == dsl_expression(
            opr@,
            match constant {
                Some(text) => Some(text@),
                None => None,
            },
        ),
{
    match opr {
        Opr::ConstantScalar { .. } => match constant {
            Some(text) => Ok(text.clone()),
            None => Err(CodegenError::MissingNumber),
        },
        Opr::Unary { opr1, opr_type } => match opr_type {
            OprUnary::Neg => Ok(concat("-", opr1.name.as_str())),
            OprUnary::Assign => Ok(opr1.name.clone()),
            OprUnary::AssignNoOpt => Ok(opr1.name.clone()),
            OprUnary::Sine => Ok(concat3("sin(", opr1.name.as_str(), ")")),
            OprUnary::Cosine => Ok(concat3("cos(", opr1.name.as_str(), ")")),
            _ => Err(CodegenError::NotScalar),
        },
        Opr::Binary { opr1, opr2, opr_type } => {
            let sign = match emit_sign(*opr_type) {
                Ok(s) => s,
                Err(e) => {
                    return Err(e);
                },
            };
            let mut out = concat3(opr1.name.as_str(), " ", sign);
            out.append(" ");
            out.append(opr2.name.as_str());
            Ok(out)
        },
        _ => Err(CodegenError::NotScalar),
    }
}

/// The declarations of the body.
fn emit_declarations(body: &Vec<Expr>, constants: &Vec<String>) -> (r: Result<
    String,
    CodegenError,
>)
    ensures
        piece_view(r) == join(
            |i: int| dsl_declaration(body_view(body@), texts_view(constants@), i),
            body@.len(),
        ),
{
    let ghost parts = |i: int| dsl_declaration(body_view(body@), texts_view(constants@), i);
    let mut out = String::new();
    let mut used: usize = 0;
    let mut i: usize = 0;
    while i < body.len()
        invariant
            i <= body.len(),
            used == constants_before(body_view(body@), i as nat),
            used <= i,
            parts == |i: int| dsl_declaration(body_view(body@), texts_view(constants@), i),
            join(parts, i as nat) == Ok::<Seq<char>, CodegenErrorView>(out@),
        decreases body.len() - i,
    {
        assert(body_view(body@)[i as int] == body@[i as int]@);
        let constant = if used < constants.len() {
            assert(texts_view(constants@)[used as int] == constants@[used as int]@);
            Some(&constants[used])
        } else {
            None
        };
        match &body[i] {
            Expr::Let { id, opr } => {
                match emit_expression(opr, constant) {
                    Ok(expression) => {
                        let mut line = concat3("val ", id.name.as_str(), ": Real = ");
                        line.append(expression.as_str());
                        line.append("\n");
                        out.append(line.as_str());
                    },
                    Err(e) => {
                        proof {
                            lemma_join_fails(parts, (i + 1) as nat, body@.len());
                        }
                        return Err(e);
                    },
                }
                match opr {
                    Opr::ConstantScalar { .. } => {
                        used += 1;
                    },
                    _ => {},
                }
            },
        }
        i += 1;
    }
    Ok(out)
}

/// Renders `program` for the analyser as the function `func_name`. `bounds`
/// holds the rendered lower and upper bound of each input in declaration
/// order, `constants` the rendered value of each constant node in body
/// order.
pub fn generate_daisy_dsl(
    program: &Program,
    func_name: &str,
    bounds: &Vec<(String, String)>,
    constants: &Vec<String>,
) -> (r: Result<String, CodegenError>)
    requires
        program.wf(),
    ensures
        piece_view(r) == dsl_source(
            program@,
            func_name@,
            bounds_view(bounds@),
            texts_view(constants@),
        ),
{
    let inputs = program.get_inputs();
    let body = program.get_body();
    let parameters = match emit_parameters(inputs) {
        Ok(text) => text,
        Err(e) => {
            return Err(e);
        },
    };
    let ranges = match emit_ranges(inputs, bounds) {
        Ok(text) => text,
        Err(e) => {
            return Err(e);
        },
    };
    let declarations = match emit_declarations(body, constants) {
        Ok(text) => text,
        Err(e) => {
            return Err(e);
        },
    };
    if body.len() == 0 {
        return Err(CodegenError::EmptyBody);
    }
    let last = match &body[body.len() - 1] {
        Expr::Let { id, .. } => id,
    };
    assert(program@.body.last() == body@[body@.len() - 1]@);
    let mut out = concat("import daisy.lang._\n", "import Real._\n");
    out.append("object ");
    out.append(func_name);
    out.append(" {\ndef ");
    out.append(func_name);
    out.append("(\n");
    out.append(parameters.as_str());
    out.append("): Real = {\n");
    out.append("require (\n");
    out.append(ranges.as_str());
    out.append(")\n");
    out.append(declarations.as_str());
    out.append(last.name.as_str());
    out.append("\n");
    out.append("}\n}\n");
    Ok(out)
}

} // verus!
