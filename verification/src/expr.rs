//! The nodes of a program: one operation bound to one identifier.

use vstd::prelude::*;
use crate::identifier::{grid_view, idents_view, IdentView, Identifier};
use crate::rational::Real;

verus! {

/// Operations on one operand.
#[derive(Debug)]
pub enum OprUnary {
    /// Negation.
    Neg,
    /// The operand under another name; a later pass may fold it away.
    Assign,
    /// The operand under another name; kept as it is by every pass.
    AssignNoOpt,
    /// One element of a vector (one coordinate) or a matrix (two).
    Index { index: Vec<usize> },
    /// The transpose of a matrix.
    Transpose,
    Sine,
    Cosine,
}

/// Operations on two operands.
#[derive(Debug, Clone, Copy, PartialEq, Eq, Structural)]
pub enum OprBinary {
    Add,
    Sub,
    Mul,
    Div,
    /// Cross product of two vectors of three elements.
    Cross,
    /// Dot product of two vectors of equal length.
    Dot,
}

/// What a node computes.
#[derive(Debug)]
#[allow(inconsistent_fields)]
pub enum Opr {
    ConstantScalar { value: Real },
    ConstantVector { value: Vec<Real> },
    ConstantMatrix { value: Vec<Vec<Real>> },
    Unary { opr1: Identifier, opr_type: OprUnary },
    Binary { opr1: Identifier, opr2: Identifier, opr_type: OprBinary },
    /// A scalar made from an existing scalar.
    ConstructScalar { id: Identifier },
    /// A vector gathered from existing scalars.
    ConstructVector { ids: Vec<Identifier> },
    /// A matrix gathered from existing scalars, row by row.
    ConstructMatrix { ids: Vec<Vec<Identifier>> },
}

/// One node: the identifier it binds and the operation that gives its value.
#[derive(Debug)]
pub enum Expr {
    Let { id: Identifier, opr: Opr },
}

/// A unary operation as contracts see it.
pub enum UnaryView {
    Neg,
    Assign,
    AssignNoOpt,
    Index(Seq<usize>),
    Transpose,
    Sine,
    Cosine,
}

/// An operation as contracts see it.
pub enum OprView {
    ConstantScalar(real),
    ConstantVector(Seq<real>),
    ConstantMatrix(Seq<Seq<real>>),
    Unary(IdentView, UnaryView),
    Binary(IdentView, IdentView, OprBinary),
    ConstructScalar(IdentView),
    ConstructVector(Seq<IdentView>),
    ConstructMatrix(Seq<Seq<IdentView>>),
}

/// A node as contracts see it.
pub struct ExprView {
    pub id: IdentView,
    pub opr: OprView,
}

/// The values of a list of numbers.
pub open spec fn reals_view(values: Seq<Real>) -> Seq<real> {
    Seq::new(values.len(), |i: int| values[i]@)
}

/// The values of a grid of numbers.
pub open spec fn real_grid_view(rows: Seq<Vec<Real>>) -> Seq<Seq<real>> {
    Seq::new(rows.len(), |i: int| reals_view(rows[i]@))
}

/// The views of a list of nodes.
pub open spec fn body_view(body: Seq<Expr>) -> Seq<ExprView> {
    Seq::new(body.len(), |i: int| body[i]@)
}

impl View for OprUnary {
    type V = UnaryView;

    open spec fn view(&self) -> UnaryView {
        match *self {
            OprUnary::Neg => UnaryView::Neg,
            OprUnary::Assign => UnaryView::Assign,
            OprUnary::AssignNoOpt => UnaryView::AssignNoOpt,
            OprUnary::Index { index } => UnaryView::Index(index@),
            OprUnary::Transpose => UnaryView::Transpose,
            OprUnary::Sine => UnaryView::Sine,
            OprUnary::Cosine => UnaryView::Cosine,
        }
    }
}

impl View for Opr {
    type V = OprView;

    open spec fn view(&self) -> OprView {
        match *self {
            Opr::ConstantScalar { value } => OprView::ConstantScalar(value@),
            Opr::ConstantVector { value } => OprView::ConstantVector(reals_view(value@)),
            Opr::ConstantMatrix { value } => OprView::ConstantMatrix(real_grid_view(value@)),
            Opr::Unary { opr1, opr_type } => OprView::Unary(opr1@, opr_type@),
            Opr::Binary { opr1, opr2, opr_type } => OprView::Binary(opr1@, opr2@, opr_type),
            Opr::ConstructScalar { id } => OprView::ConstructScalar(id@),
            Opr::ConstructVector { ids } => OprView::ConstructVector(idents_view(ids@)),
            Opr::ConstructMatrix { ids } => OprView::ConstructMatrix(grid_view(ids@)),
        }
    }
}

impl View for Expr {
    type V = ExprView;

    open spec fn view(&self) -> ExprView {
        match *self {
            Expr::Let { id, opr } => ExprView { id: id@, opr: opr@ },
        }
    }
}

/// Copies a list of numbers.
pub fn clone_reals(values: &Vec<Real>) -> (r: Vec<Real>)
    ensures
        r@ == values@,
{
    let mut out: Vec<Real> = Vec::new();
    let mut i: usize = 0;
    while i < values.len()
        invariant
            i <= values.len(),
            out@ == values@.subrange(0, i as int),
        decreases values.len() - i,
    {
        out.push(values[i].clone());
        assert(out@ =~= values@.subrange(0, i + 1));
        i += 1;
    }
    assert(out@ =~= values@);
    out
}

/// Copies a grid of numbers.
pub fn clone_real_grid(rows: &Vec<Vec<Real>>) -> (r: Vec<Vec<Real>>)
    ensures
        real_grid_view(r@) == real_grid_view(rows@),
        r@.len() == rows@.len(),
        forall|i: int| 0 <= i < rows@.len() ==> (#[trigger] r@[i])@ == rows@[i]@,
{
    let mut out: Vec<Vec<Real>> = Vec::new();
    let mut i: usize = 0;
    while i < rows.len()
        invariant
            i <= rows.len(),
            out@.len() == i,
            forall|k: int| 0 <= k < i ==> (#[trigger] out@[k])@ == rows@[k]@,
        decreases rows.len() - i,
    {
        out.push(clone_reals(&rows[i]));
        i += 1;
    }
    assert(real_grid_view(out@) =~= real_grid_view(rows@));
    out
}

/// Copies a grid of identifiers.
pub fn clone_grid(rows: &Vec<Vec<Identifier>>) -> (r: Vec<Vec<Identifier>>)
    ensures
        grid_view(r@) == grid_view(rows@),
        r@.len() == rows@.len(),
        forall|i: int| 0 <= i < rows@.len() ==> (#[trigger] r@[i])@ == rows@[i]@,
{
    let mut out: Vec<Vec<Identifier>> = Vec::new();
    let mut i: usize = 0;
    while i < rows.len()
        invariant
            i <= rows.len(),
            out@.len() == i,
            forall|k: int| 0 <= k < i ==> (#[trigger] out@[k])@ == rows@[k]@,
        decreases rows.len() - i,
    {
        out.push(crate::identifier::clone_idents(&rows[i]));
        i += 1;
    }
    assert(grid_view(out@) =~= grid_view(rows@));
    out
}

/// Copies a list of indices.
fn clone_indices(index: &Vec<usize>) -> (r: Vec<usize>)
    ensures
        r@ == index@,
{
    let mut out: Vec<usize> = Vec::new();
    let mut i: usize = 0;
    while i < index.len()
        invariant
            i <= index.len(),
            out@ == index@.subrange(0, i as int),
        decreases index.len() - i,
    {
        out.push(index[i]);
        assert(out@ =~= index@.subrange(0, i + 1));
        i += 1;
    }
    assert(out@ =~= index@);
    out
}

impl Clone for OprUnary {
    fn clone(&self) -> (r: Self)
        ensures
            r@ == self@,
    {
        match self {
            OprUnary::Neg => OprUnary::Neg,
            OprUnary::Assign => OprUnary::Assign,
            OprUnary::AssignNoOpt => OprUnary::AssignNoOpt,
            OprUnary::Index { index } => OprUnary::Index { index: clone_indices(index) },
            OprUnary::Transpose => OprUnary::Transpose,
            OprUnary::Sine => OprUnary::Sine,
            OprUnary::Cosine => OprUnary::Cosine,
        }
    }
}

impl Clone for Opr {
    fn clone(&self) -> (r: Self)
        ensures
            r@ == self@,
    {
        match self {
            Opr::ConstantScalar { value } => Opr::ConstantScalar { value: value.clone() },
            Opr::ConstantVector { value } => Opr::ConstantVector { value: clone_reals(value) },
            Opr::ConstantMatrix { value } => Opr::ConstantMatrix { value: clone_real_grid(value) },
            Opr::Unary { opr1, opr_type } => Opr::Unary {
                opr1: opr1.clone(),
                opr_type: opr_type.clone(),
            },
            Opr::Binary { opr1, opr2, opr_type } => Opr::Binary {
                opr1: opr1.clone(),
                opr2: opr2.clone(),
                opr_type: *opr_type,
            },
            Opr::ConstructScalar { id } => Opr::ConstructScalar { id: id.clone() },
            Opr::ConstructVector { ids } => Opr::ConstructVector {
                ids: crate::identifier::clone_idents(ids),
            },
            Opr::ConstructMatrix { ids } => Opr::ConstructMatrix { ids: clone_grid(ids) },
        }
    }
}

impl Clone for Expr {
    fn clone(&self) -> (r: Self)
        ensures
            r@ == self@,
    {
        match self {
            Expr::Let { id, opr } => Expr::Let { id: id.clone(), opr: opr.clone() },
        }
    }
}

} // verus!
