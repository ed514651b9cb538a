//! What each node of a program lowers to: the table of operators and operand
//! shapes, without any naming.

use vstd::prelude::*;
use crate::expr::{reals_view, real_grid_view, Expr, ExprView, Opr, OprBinary, OprUnary, OprView, UnaryView};
use crate::identifier::{clone_idents, grid_view, idents_view, IdSize, IdentView, Identifier, VarType};
use crate::idmap::{entry_value, has_entry};
use crate::lowering::{cells, opr_grid_view, oprs_view, Lowering, LoweringView};
use crate::naming::Namer;
use crate::rational::Real;

verus! {

/// Why a program cannot be lowered to scalars.
#[derive(Debug, Clone, Copy, PartialEq, Eq, Structural)]
pub enum UnrollError {
    /// The naming service cannot create the identifiers that a node needs.
    OutOfIdentifiers,
    /// A vector or matrix is used before anything was recorded for it.
    UnknownOperand,
    /// The elements at hand do not fit the declared shape, or the shapes of
    /// two operands do not fit each other.
    ShapeMismatch,
    /// An index has the wrong number of coordinates for its operand.
    IndexPath,
    /// An index points outside its operand.
    IndexOutOfBounds,
    /// A dot product of vectors without elements, or an operation on a matrix
    /// without rows.
    EmptyOperand,
    /// The operation is not defined for operands of these kinds.
    Unsupported,
}

/// One constant node for each value.
pub open spec fn constants_row(values: Seq<real>) -> Seq<OprView> {
    Seq::new(values.len(), |i: int| OprView::ConstantScalar(values[i]))
}

/// One constant node for each cell.
pub open spec fn constants_grid(values: Seq<Seq<real>>) -> Seq<Seq<OprView>> {
    Seq::new(values.len(), |i: int| constants_row(values[i]))
}

/// The unary operation `kind` on each element.
pub open spec fn unary_row(src: Seq<IdentView>, kind: UnaryView) -> Seq<OprView> {
    Seq::new(src.len(), |i: int| OprView::Unary(src[i], kind))
}

/// The unary operation `kind` on each cell.
pub open spec fn unary_grid(src: Seq<Seq<IdentView>>, kind: UnaryView) -> Seq<Seq<OprView>> {
    Seq::new(src.len(), |i: int| unary_row(src[i], kind))
}

/// The binary operation `kind` on the first `n` pairs of elements.
pub open spec fn zip_row(a: Seq<IdentView>, b: Seq<IdentView>, kind: OprBinary, n: nat) -> Seq<
    OprView,
> {
    Seq::new(n, |i: int| OprView::Binary(a[i], b[i], kind))
}

/// The binary operation `kind` on the pairs of cells of the first `rows` rows
/// and `cols` columns.
pub open spec fn zip_grid(
    a: Seq<Seq<IdentView>>,
    b: Seq<Seq<IdentView>>,
    kind: OprBinary,
    rows: nat,
    cols: nat,
) -> Seq<Seq<OprView>> {
    Seq::new(rows, |i: int| zip_row(a[i], b[i], kind, cols))
}

/// Each element of `a` combined with the scalar `s` on its right.
pub open spec fn scalar_right_row(a: Seq<IdentView>, s: IdentView, kind: OprBinary) -> Seq<
    OprView,
> {
    Seq::new(a.len(), |i: int| OprView::Binary(a[i], s, kind))
}

/// Each cell of `a` combined with the scalar `s` on its right.
pub open spec fn scalar_right_grid(a: Seq<Seq<IdentView>>, s: IdentView, kind: OprBinary) -> Seq<
    Seq<OprView>,
> {
    Seq::new(a.len(), |i: int| scalar_right_row(a[i], s, kind))
}

/// Each element of `b` combined with the scalar `s` on its left.
pub open spec fn scalar_left_row(s: IdentView, b: Seq<IdentView>, kind: OprBinary) -> Seq<
    OprView,
> {
    Seq::new(b.len(), |i: int| OprView::Binary(s, b[i], kind))
}

/// Each cell of `b` combined with the scalar `s` on its left.
pub open spec fn scalar_left_grid(s: IdentView, b: Seq<Seq<IdentView>>, kind: OprBinary) -> Seq<
    Seq<OprView>,
> {
    Seq::new(b.len(), |i: int| scalar_left_row(s, b[i], kind))
}

/// Every one of the first `rows` rows has at least `cols` cells.
pub open spec fn rows_reach<T>(grid: Seq<Seq<T>>, rows: nat, cols: nat) -> bool {
    rows <= grid.len() && forall|i: int| 0 <= i < rows ==> (#[trigger] grid[i]).len() >= cols
}

/// Every row has exactly `cols` cells.
pub open spec fn rows_are<T>(grid: Seq<Seq<T>>, cols: nat) -> bool {
    forall|i: int| 0 <= i < grid.len() ==> (#[trigger] grid[i]).len() == cols
}

/// What a node lowers to.
pub enum PlanView {
    /// The node is already scalar and is copied.
    Keep,
    /// One node that binds the node's own identifier.
    Rebind(OprView),
    /// One new scalar for each operation, recorded as the node's vector.
    Row(Seq<OprView>),
    /// One new scalar for each operation, recorded as the node's matrix.
    Grid(Seq<Seq<OprView>>),
    /// One new scalar for each operation, recorded as the node's matrix with
    /// rows and columns exchanged; the number is that of the columns.
    Transposed(Seq<Seq<OprView>>, nat),
    /// The cross product of two vectors of three elements.
    Cross(Seq<IdentView>, Seq<IdentView>),
    /// The dot product of the first elements of two vectors, as many as the
    /// number says.
    Dot(Seq<IdentView>, Seq<IdentView>, nat),
}

impl PlanView {
    /// The operands of the plan have the elements that carrying it out reads.
    pub open spec fn valid(self) -> bool {
        match self {
            PlanView::Transposed(grid, cols) => rows_reach(grid, grid.len(), cols),
            PlanView::Cross(a, b) => a.len() == 3 && b.len() == 3,
            PlanView::Dot(a, b, n) => 1 <= n <= a.len() && n <= b.len(),
            _ => true,
        }
    }

    /// How many new identifiers the plan needs.
    pub open spec fn needed(self) -> nat {
        match self {
            PlanView::Keep => 0,
            PlanView::Rebind(_) => 0,
            PlanView::Row(oprs) => oprs.len(),
            PlanView::Grid(grid) => cells(grid),
            PlanView::Transposed(grid, _) => cells(grid),
            PlanView::Cross(_, _) => 9,
            PlanView::Dot(_, _, n) => (2 * n - 1) as nat,
        }
    }
}

/// Every identifier of the list is a scalar.
pub open spec fn row_of_scalars(ids: Seq<IdentView>) -> bool {
    forall|k: int| 0 <= k < ids.len() ==> (#[trigger] ids[k]).var_type == VarType::Scalar
}

/// Every identifier of the grid is a scalar.
pub open spec fn grid_of_scalars(ids: Seq<Seq<IdentView>>) -> bool {
    forall|i: int| 0 <= i < ids.len() ==> row_of_scalars(#[trigger] ids[i])
}

/// Whether every identifier of the list is a scalar.
pub fn check_row_of_scalars(ids: &Vec<Identifier>) -> (r: bool)
    ensures
        r == row_of_scalars(idents_view(ids@)),
{
    let mut k: usize = 0;
    while k < ids.len()
        invariant
            k <= ids.len(),
            forall|a: int| 0 <= a < k ==> (#[trigger] idents_view(ids@)[a]).var_type == VarType::Scalar,
        decreases ids.len() - k,
    {
        match ids[k].var_type {
            VarType::Scalar => {},
            _ => {
                assert(idents_view(ids@)[k as int].var_type != VarType::Scalar);
                return false;
            },
        }
        assert(idents_view(ids@)[k as int].var_type == VarType::Scalar);
        k += 1;
    }
    true
}

/// Whether every identifier of the grid is a scalar.
pub fn check_grid_of_scalars(ids: &Vec<Vec<Identifier>>) -> (r: bool)
    ensures
        r == grid_of_scalars(grid_view(ids@)),
{
    let mut i: usize = 0;
    while i < ids.len()
        invariant
            i <= ids.len(),
            forall|a: int| 0 <= a < i ==> row_of_scalars(#[trigger] grid_view(ids@)[a]),
        decreases ids.len() - i,
    {
        assert(grid_view(ids@)[i as int] == idents_view(ids@[i as int]@));
        if !check_row_of_scalars(&ids[i]) {
            return false;
        }
        i += 1;
    }
    true
}

impl LoweringView {
    /// Whether elements were recorded for the vector `id`.
    pub open spec fn knows_vector(self, id: IdentView) -> bool {
        has_entry(self.vectors, id.id)
    }

    /// The elements recorded for the vector `id`.
    pub open spec fn vector(self, id: IdentView) -> Seq<IdentView> {
        entry_value(self.vectors, id.id)
    }

    /// Whether cells were recorded for the matrix `id`.
    pub open spec fn knows_matrix(self, id: IdentView) -> bool {
        has_entry(self.matrices, id.id)
    }

    /// The cells recorded for the matrix `id`.
    pub open spec fn matrix(self, id: IdentView) -> Seq<Seq<IdentView>> {
        entry_value(self.matrices, id.id)
    }

    /// A unary operation on a vector: an index picks the recorded element, a
    /// transpose is refused, anything else applies to each element.
    pub open spec fn plan_unary_vector(self, opr1: IdentView, kind: UnaryView) -> Result<
        PlanView,
        UnrollError,
    > {
        if !self.knows_vector(opr1) {
            Err(UnrollError::UnknownOperand)
        } else {
            let src = self.vector(opr1);
            match kind {
                UnaryView::Transpose => Err(UnrollError::Unsupported),
                UnaryView::Index(path) => if path.len() != 1 {
                    Err(UnrollError::IndexPath)
                } else if path[0] >= src.len() {
                    Err(UnrollError::IndexOutOfBounds)
                } else {
                    Ok(PlanView::Rebind(OprView::Unary(src[path[0] as int], UnaryView::Assign)))
                },
                _ => Ok(PlanView::Row(unary_row(src, kind))),
            }
        }
    }

    /// A unary operation on a matrix, which must have a row: an index picks
    /// the recorded cell, a transpose copies each cell and exchanges rows and
    /// columns, anything else applies to each cell.
    pub open spec fn plan_unary_matrix(self, opr1: IdentView, kind: UnaryView) -> Result<
        PlanView,
        UnrollError,
    > {
        if !self.knows_matrix(opr1) {
            Err(UnrollError::UnknownOperand)
        } else {
            let src = self.matrix(opr1);
            if src.len() == 0 {
                Err(UnrollError::EmptyOperand)
            } else {
                match kind {
                    UnaryView::Transpose => if !rows_reach(src, src.len(), src[0].len()) {
                        Err(UnrollError::ShapeMismatch)
                    } else {
                        Ok(
                            PlanView::Transposed(
                                unary_grid(src, UnaryView::Assign),
                                src[0].len(),
                            ),
                        )
                    },
                    UnaryView::Index(path) => if path.len() != 2 {
                        Err(UnrollError::IndexPath)
                    } else if path[0] >= src.len() || path[1] >= src[path[0] as int].len() {
                        Err(UnrollError::IndexOutOfBounds)
                    } else {
                        Ok(
                            PlanView::Rebind(
                                OprView::Unary(
                                    src[path[0] as int][path[1] as int],
                                    UnaryView::Assign,
                                ),
                            ),
                        )
                    },
                    _ => Ok(PlanView::Grid(unary_grid(src, kind))),
                }
            }
        }
    }

    /// The cross product: both operands must be recorded with exactly three
    /// elements.
    pub open spec fn plan_cross(self, opr1: IdentView, opr2: IdentView) -> Result<
        PlanView,
        UnrollError,
    > {
        if !self.knows_vector(opr1) || !self.knows_vector(opr2) {
            Err(UnrollError::UnknownOperand)
        } else if self.vector(opr1).len() != 3 || self.vector(opr2).len() != 3 {
            Err(UnrollError::ShapeMismatch)
        } else {
            Ok(PlanView::Cross(self.vector(opr1), self.vector(opr2)))
        }
    }

    /// The dot product: both operands must be recorded, declared as vectors
    /// of one length, hold that many elements, and not be empty.
    pub open spec fn plan_dot(self, opr1: IdentView, opr2: IdentView) -> Result<
        PlanView,
        UnrollError,
    > {
        if !self.knows_vector(opr1) || !self.knows_vector(opr2) {
            Err(UnrollError::UnknownOperand)
        } else if opr1.size != opr2.size || !(opr1.size is Vector) {
            Err(UnrollError::ShapeMismatch)
        } else if self.vector(opr1).len() < opr1.size->len || self.vector(opr2).len()
            < opr1.size->len {
            Err(UnrollError::ShapeMismatch)
        } else if opr1.size->len == 0 {
            Err(UnrollError::EmptyOperand)
        } else {
            Ok(PlanView::Dot(self.vector(opr1), self.vector(opr2), opr1.size->len as nat))
        }
    }

    /// Two vectors: element by element, over the declared length.
    pub open spec fn plan_vector_vector(self, opr1: IdentView, opr2: IdentView, kind: OprBinary) -> Result<
        PlanView,
        UnrollError,
    > {
        if opr1.size != opr2.size || !(opr1.size is Vector) {
            Err(UnrollError::ShapeMismatch)
        } else if !self.knows_vector(opr1) || !self.knows_vector(opr2) {
            Err(UnrollError::UnknownOperand)
        } else if self.vector(opr1).len() < opr1.size->len || self.vector(opr2).len()
            < opr1.size->len {
            Err(UnrollError::ShapeMismatch)
        } else {
            Ok(
                PlanView::Row(
                    zip_row(self.vector(opr1), self.vector(opr2), kind, opr1.size->len as nat),
                ),
            )
        }
    }

    /// Two matrices: cell by cell, over the declared shape, row by row.
    pub open spec fn plan_matrix_matrix(self, opr1: IdentView, opr2: IdentView, kind: OprBinary) -> Result<
        PlanView,
        UnrollError,
    > {
        if opr1.size != opr2.size || !(opr1.size is Matrix) {
            Err(UnrollError::ShapeMismatch)
        } else if !self.knows_matrix(opr1) || !self.knows_matrix(opr2) {
            Err(UnrollError::UnknownOperand)
        } else if !rows_reach(
            self.matrix(opr1),
            opr1.size->row_size as nat,
            opr1.size->col_size as nat,
        ) || !rows_reach(
            self.matrix(opr2),
            opr1.size->row_size as nat,
            opr1.size->col_size as nat,
        ) {
            Err(UnrollError::ShapeMismatch)
        } else {
            Ok(
                PlanView::Grid(
                    zip_grid(
                        self.matrix(opr1),
                        self.matrix(opr2),
                        kind,
                        opr1.size->row_size as nat,
                        opr1.size->col_size as nat,
                    ),
                ),
            )
        }
    }

    /// Addition, subtraction, multiplication and division, by the kinds of
    /// the two operands. A scalar on the left of a vector or matrix is spread
    /// over the elements for addition and multiplication only.
    pub open spec fn plan_arithmetic(self, opr1: IdentView, opr2: IdentView, kind: OprBinary) -> Result<
        PlanView,
        UnrollError,
    > {
        match (opr1.var_type, opr2.var_type) {
            (VarType::Scalar, VarType::Scalar) => Ok(PlanView::Keep),
            (VarType::Vector, VarType::Vector) => self.plan_vector_vector(opr1, opr2, kind),
            (VarType::Matrix, VarType::Matrix) => self.plan_matrix_matrix(opr1, opr2, kind),
            (VarType::Vector, VarType::Scalar) => if !self.knows_vector(opr1) {
                Err(UnrollError::UnknownOperand)
            } else {
                Ok(PlanView::Row(scalar_right_row(self.vector(opr1), opr2, kind)))
            },
            (VarType::Matrix, VarType::Scalar) => if !self.knows_matrix(opr1) {
                Err(UnrollError::UnknownOperand)
            } else {
                Ok(PlanView::Grid(scalar_right_grid(self.matrix(opr1), opr2, kind)))
            },
            (VarType::Scalar, VarType::Vector) => if kind == OprBinary::Sub || kind
                == OprBinary::Div {
                Err(UnrollError::Unsupported)
            } else if !self.knows_vector(opr2) {
                Err(UnrollError::UnknownOperand)
            } else {
                Ok(PlanView::Row(scalar_left_row(opr1, self.vector(opr2), kind)))
            },
            (VarType::Scalar, VarType::Matrix) => if kind == OprBinary::Sub || kind
                == OprBinary::Div {
                Err(UnrollError::Unsupported)
            } else if !self.knows_matrix(opr2) {
                Err(UnrollError::UnknownOperand)
            } else {
                Ok(PlanView::Grid(scalar_left_grid(opr1, self.matrix(opr2), kind)))
            },
            _ => Err(UnrollError::Unsupported),
        }
    }

    /// What the node lowers to, or why it cannot be lowered.
    pub open spec fn plan(self, expr: ExprView) -> Result<PlanView, UnrollError> {
        match expr.opr {
            OprView::ConstantScalar(_) => Ok(PlanView::Keep),
            OprView::ConstantVector(values) => Ok(PlanView::Row(constants_row(values))),
            OprView::ConstantMatrix(values) => Ok(PlanView::Grid(constants_grid(values))),
            OprView::ConstructScalar(id) => if id.var_type == VarType::Scalar {
                Ok(PlanView::Rebind(OprView::Unary(id, UnaryView::Assign)))
            } else {
                Err(UnrollError::ShapeMismatch)
            },
            OprView::ConstructVector(ids) => if row_of_scalars(ids) {
                Ok(PlanView::Row(unary_row(ids, UnaryView::Assign)))
            } else {
                Err(UnrollError::ShapeMismatch)
            },
            OprView::ConstructMatrix(ids) => if grid_of_scalars(ids) {
                Ok(PlanView::Grid(unary_grid(ids, UnaryView::Assign)))
            } else {
                Err(UnrollError::ShapeMismatch)
            },
            OprView::Unary(opr1, kind) => match opr1.var_type {
                VarType::Scalar => Ok(PlanView::Keep),
                VarType::Vector => self.plan_unary_vector(opr1, kind),
                VarType::Matrix => self.plan_unary_matrix(opr1, kind),
            },
            OprView::Binary(opr1, opr2, kind) => match kind {
                OprBinary::Cross => self.plan_cross(opr1, opr2),
                OprBinary::Dot => self.plan_dot(opr1, opr2),
                _ => self.plan_arithmetic(opr1, opr2, kind),
            },
        }
    }
}

/// Every plan that a node lowers to is valid.
pub proof fn lemma_plan_valid(state: LoweringView, expr: ExprView)
    ensures
        state.plan(expr) matches Ok(plan) ==> plan.valid(),
{
    match expr.opr {
        OprView::Unary(opr1, kind) => {
            if opr1.var_type == VarType::Matrix && state.knows_matrix(opr1) {
                let src = state.matrix(opr1);
                if src.len() > 0 && rows_reach(src, src.len(), src[0].len()) {
                    let grid = unary_grid(src, UnaryView::Assign);
                    assert forall|i: int| 0 <= i < grid.len() implies (#[trigger] grid[i]).len()
                        >= src[0].len() by {
                        assert(src[i].len() >= src[0].len());
                    }
                }
            }
        },
        _ => {},
    }
}

/// What a node lowers to.
pub enum Plan {
    Keep,
    Rebind(Opr),
    Row(Vec<Opr>),
    Grid(Vec<Vec<Opr>>),
    Transposed(Vec<Vec<Opr>>, usize),
    Cross(Vec<Identifier>, Vec<Identifier>),
    Dot(Vec<Identifier>, Vec<Identifier>, usize),
}

impl View for Plan {
    type V = PlanView;

    open spec fn view(&self) -> PlanView {
        match *self {
            Plan::Keep => PlanView::Keep,
            Plan::Rebind(opr) => PlanView::Rebind(opr@),
            Plan::Row(oprs) => PlanView::Row(oprs_view(oprs@)),
            Plan::Grid(grid) => PlanView::Grid(opr_grid_view(grid@)),
            Plan::Transposed(grid, cols) => PlanView::Transposed(opr_grid_view(grid@), cols as nat),
            Plan::Cross(a, b) => PlanView::Cross(idents_view(a@), idents_view(b@)),
            Plan::Dot(a, b, n) => PlanView::Dot(idents_view(a@), idents_view(b@), n as nat),
        }
    }
}

/// The view of a plan or of the reason why there is none.
pub open spec fn plan_result_view(r: Result<Plan, UnrollError>) -> Result<PlanView, UnrollError> {
    match r {
        Ok(plan) => Ok(plan@),
        Err(e) => Err(e),
    }
}

fn make_constants_row(values: &Vec<Real>) -> (r: Vec<Opr>)
    ensures
        oprs_view(r@) == constants_row(reals_view(values@)),
{
    let mut out: Vec<Opr> = Vec::new();
    let mut i: usize = 0;
    while i < values.len()
        invariant
            i <= values.len(),
            out@.len() == i,
            forall|k: int| 0 <= k < i ==> (#[trigger] out@[k])@ == OprView::ConstantScalar(values@[k]@),
        decreases values.len() - i,
    {
        out.push(Opr::ConstantScalar { value: values[i].clone() });
        i += 1;
    }
    assert(oprs_view(out@) =~= constants_row(reals_view(values@)));
    out
}

fn make_constants_grid(values: &Vec<Vec<Real>>) -> (r: Vec<Vec<Opr>>)
    ensures
        opr_grid_view(r@) == constants_grid(real_grid_view(values@)),
{
    let mut out: Vec<Vec<Opr>> = Vec::new();
    let mut i: usize = 0;
    while i < values.len()
        invariant
            i <= values.len(),
            out@.len() == i,
            forall|k: int|
                0 <= k < i ==> oprs_view((#[trigger] out@[k])@) == constants_row(
                    reals_view(values@[k]@),
                ),
        decreases values.len() - i,
    {
        out.push(make_constants_row(&values[i]));
        i += 1;
    }
    assert(opr_grid_view(out@) =~= constants_grid(real_grid_view(values@)));
    out
}

fn make_unary_row(src: &Vec<Identifier>, kind: &OprUnary) -> (r: Vec<Opr>)
    ensures
        oprs_view(r@) == unary_row(idents_view(src@), kind@),
{
    let mut out: Vec<Opr> = Vec::new();
    let mut i: usize = 0;
    while i < src.len()
        invariant
            i <= src.len(),
            out@.len() == i,
            forall|k: int| 0 <= k < i ==> (#[trigger] out@[k])@ == OprView::Unary(src@[k]@, kind@),
        decreases src.len() - i,
    {
        out.push(Opr::Unary { opr1: src[i].clone(), opr_type: kind.clone() });
        i += 1;
    }
    assert(oprs_view(out@) =~= unary_row(idents_view(src@), kind@));
    out
}

fn make_unary_grid(src: &Vec<Vec<Identifier>>, kind: &OprUnary) -> (r: Vec<Vec<Opr>>)
    ensures
        opr_grid_view(r@) == unary_grid(grid_view(src@), kind@),
{
    let mut out: Vec<Vec<Opr>> = Vec::new();
    let mut i: usize = 0;
    while i < src.len()
        invariant
            i <= src.len(),
            out@.len() == i,
            forall|k: int|
                0 <= k < i ==> oprs_view((#[trigger] out@[k])@) == unary_row(
                    idents_view(src@[k]@),
                    kind@,
                ),
        decreases src.len() - i,
    {
        out.push(make_unary_row(&src[i], kind));
        i += 1;
    }
    assert(opr_grid_view(out@) =~= unary_grid(grid_view(src@), kind@));
    out
}

pub fn make_zip_row(a: &Vec<Identifier>, b: &Vec<Identifier>, kind: OprBinary, n: usize) -> (r: Vec<
    Opr,
>)
    requires
        n <= a@.len(),
        n <= b@.len(),
    ensures
        oprs_view(r@) == zip_row(idents_view(a@), idents_view(b@), kind, n as nat),
{
    let mut out: Vec<Opr> = Vec::new();
    let mut i: usize = 0;
    while i < n
        invariant
            i <= n,
            n <= a@.len(),
            n <= b@.len(),
            out@.len() == i,
            forall|k: int|
                0 <= k < i ==> (#[trigger] out@[k])@ == OprView::Binary(a@[k]@, b@[k]@, kind),
        decreases n - i,
    {
        out.push(Opr::Binary { opr1: a[i].clone(), opr2: b[i].clone(), opr_type: kind });
        i += 1;
    }
    assert(oprs_view(out@) =~= zip_row(idents_view(a@), idents_view(b@), kind, n as nat));
    out
}

fn make_zip_grid(
    a: &Vec<Vec<Identifier>>,
    b: &Vec<Vec<Identifier>>,
    kind: OprBinary,
    rows: usize,
    cols: usize,
) -> (r: Vec<Vec<Opr>>)
    requires
        rows_reach(grid_view(a@), rows as nat, cols as nat),
        rows_reach(grid_view(b@), rows as nat, cols as nat),
    ensures
        opr_grid_view(r@) == zip_grid(grid_view(a@), grid_view(b@), kind, rows as nat, cols as nat),
{
    let mut out: Vec<Vec<Opr>> = Vec::new();
    let mut i: usize = 0;
    while i < rows
        invariant
            i <= rows,
            rows_reach(grid_view(a@), rows as nat, cols as nat),
            rows_reach(grid_view(b@), rows as nat, cols as nat),
            out@.len() == i,
            forall|k: int|
                0 <= k < i ==> oprs_view((#[trigger] out@[k])@) == zip_row(
                    idents_view(a@[k]@),
                    idents_view(b@[k]@),
                    kind,
                    cols as nat,
                ),
        decreases rows - i,
    {
        assert(grid_view(a@)[i as int].len() >= cols);
        assert(grid_view(b@)[i as int].len() >= cols);
        out.push(make_zip_row(&a[i], &b[i], kind, cols));
        i += 1;
    }
    assert(opr_grid_view(out@) =~= zip_grid(
        grid_view(a@),
        grid_view(b@),
        kind,
        rows as nat,
        cols as nat,
    ));
    out
}

fn make_scalar_right_row(a: &Vec<Identifier>, s: &Identifier, kind: OprBinary) -> (r: Vec<Opr>)
    ensures
        oprs_view(r@) == scalar_right_row(idents_view(a@), s@, kind),
{
    let mut out: Vec<Opr> = Vec::new();
    let mut i: usize = 0;
    while i < a.len()
        invariant
            i <= a.len(),
            out@.len() == i,
            forall|k: int|
                0 <= k < i ==> (#[trigger] out@[k])@ == OprView::Binary(a@[k]@, s@, kind),
        decreases a.len() - i,
    {
        out.push(Opr::Binary { opr1: a[i].clone(), opr2: s.clone(), opr_type: kind });
        i += 1;
    }
    assert(oprs_view(out@) =~= scalar_right_row(idents_view(a@), s@, kind));
    out
}

fn make_scalar_right_grid(a: &Vec<Vec<Identifier>>, s: &Identifier, kind: OprBinary) -> (r: Vec<
    Vec<Opr>,
>)
    ensures
        opr_grid_view(r@) == scalar_right_grid(grid_view(a@), s@, kind),
{
    let mut out: Vec<Vec<Opr>> = Vec::new();
    let mut i: usize = 0;
    while i < a.len()
        invariant
            i <= a.len(),
            out@.len() == i,
            forall|k: int|
                0 <= k < i ==> oprs_view((#[trigger] out@[k])@) == scalar_right_row(
                    idents_view(a@[k]@),
                    s@,
                    kind,
                ),
        decreases a.len() - i,
    {
        out.push(make_scalar_right_row(&a[i], s, kind));
        i += 1;
    }
    assert(opr_grid_view(out@) =~= scalar_right_grid(grid_view(a@), s@, kind));
    out
}

fn make_scalar_left_row(s: &Identifier, b: &Vec<Identifier>, kind: OprBinary) -> (r: Vec<Opr>)
    ensures
        oprs_view(r@) == scalar_left_row(s@, idents_view(b@), kind),
{
    let mut out: Vec<Opr> = Vec::new();
    let mut i: usize = 0;
    while i < b.len()
        invariant
            i <= b.len(),
            out@.len() == i,
            forall|k: int|
                0 <= k < i ==> (#[trigger] out@[k])@ == OprView::Binary(s@, b@[k]@, kind),
        decreases b.len() - i,
    {
        out.push(Opr::Binary { opr1: s.clone(), opr2: b[i].clone(), opr_type: kind });
        i += 1;
    }
    assert(oprs_view(out@) =~= scalar_left_row(s@, idents_view(b@), kind));
    out
}

fn make_scalar_left_grid(s: &Identifier, b: &Vec<Vec<Identifier>>, kind: OprBinary) -> (r: Vec<
    Vec<Opr>,
>)
    ensures
        opr_grid_view(r@) == scalar_left_grid(s@, grid_view(b@), kind),
{
    let mut out: Vec<Vec<Opr>> = Vec::new();
    let mut i: usize = 0;
    while i < b.len()
        invariant
            i <= b.len(),
            out@.len() == i,
            forall|k: int|
                0 <= k < i ==> oprs_view((#[trigger] out@[k])@) == scalar_left_row(
                    s@,
                    idents_view(b@[k]@),
                    kind,
                ),
        decreases b.len() - i,
    {
        out.push(make_scalar_left_row(s, &b[i], kind));
        i += 1;
    }
    assert(opr_grid_view(out@) =~= scalar_left_grid(s@, grid_view(b@), kind));
    out
}

/// Whether each of the first `rows` rows has at least `cols` cells.
pub fn check_rows_reach(grid: &Vec<Vec<Identifier>>, rows: usize, cols: usize) -> (r: bool)
    ensures
        r == rows_reach(grid_view(grid@), rows as nat, cols as nat),
{
    if rows > grid.len() {
        return false;
    }
    let mut i: usize = 0;
    while i < rows
        invariant
            i <= rows <= grid.len(),
            forall|k: int| 0 <= k < i ==> (#[trigger] grid_view(grid@)[k]).len() >= cols,
        decreases rows - i,
    {
        if grid[i].len() < cols {
            assert(grid_view(grid@)[i as int].len() < cols);
            return false;
        }
        assert(grid_view(grid@)[i as int].len() >= cols);
        i += 1;
    }
    true
}

impl Lowering {
    /// The elements recorded for the vector `id`, if any.
    pub fn vector_of(&self, namer: &Namer, id: &Identifier) -> (r: Option<&Vec<Identifier>>)
        requires
            self.wf(),
        ensures
            r is Some <==> self.view_with(namer@).knows_vector(id@),
            r matches Some(v) ==> idents_view(v@) == self.view_with(namer@).vector(id@),
    {
        proof {
            self.vectors.lemma_entries_with(|v: Vec<Identifier>| idents_view(v@));
        }
        self.vectors.get(id)
    }

    /// The cells recorded for the matrix `id`, if any.
    pub fn matrix_of(&self, namer: &Namer, id: &Identifier) -> (r: Option<&Vec<Vec<Identifier>>>)
        requires
            self.wf(),
        ensures
            r is Some <==> self.view_with(namer@).knows_matrix(id@),
            r matches Some(v) ==> grid_view(v@) == self.view_with(namer@).matrix(id@),
    {
        proof {
            self.matrices.lemma_entries_with(|v: Vec<Vec<Identifier>>| grid_view(v@));
        }
        self.matrices.get(id)
    }

    fn plan_unary_vector(&self, namer: &Namer, opr1: &Identifier, kind: &OprUnary) -> (r: Result<
        Plan,
        UnrollError,
    >)
        requires
            self.wf(),
        ensures
            plan_result_view(r) == self.view_with(namer@).plan_unary_vector(opr1@, kind@),
    {
        let src = match self.vector_of(namer, opr1) {
            Some(v) => v,
            None => {
                return Err(UnrollError::UnknownOperand);
            },
        };
        match kind {
            OprUnary::Transpose => Err(UnrollError::Unsupported),
            OprUnary::Index { index } => {
                if index.len() != 1 {
                    Err(UnrollError::IndexPath)
                } else if index[0] >= src.len() {
                    Err(UnrollError::IndexOutOfBounds)
                } else {
                    Ok(
                        Plan::Rebind(
                            Opr::Unary { opr1: src[index[0]].clone(), opr_type: OprUnary::Assign },
                        ),
                    )
                }
            },
            _ => Ok(Plan::Row(make_unary_row(src, kind))),
        }
    }

    fn plan_unary_matrix(&self, namer: &Namer, opr1: &Identifier, kind: &OprUnary) -> (r: Result<
        Plan,
        UnrollError,
    >)
        requires
            self.wf(),
        ensures
            plan_result_view(r) == self.view_with(namer@).plan_unary_matrix(opr1@, kind@),
    {
        let src = match self.matrix_of(namer, opr1) {
            Some(v) => v,
            None => {
                return Err(UnrollError::UnknownOperand);
            },
        };
        if src.len() == 0 {
            return Err(UnrollError::EmptyOperand);
        }
        assert(grid_view(src@)[0].len() == src@[0]@.len());
        match kind {
            OprUnary::Transpose => {
                let cols = src[0].len();
                if !check_rows_reach(src, src.len(), cols) {
                    Err(UnrollError::ShapeMismatch)
                } else {
                    let assign = OprUnary::Assign;
                    Ok(Plan::Transposed(make_unary_grid(src, &assign), cols))
                }
            },
            OprUnary::Index { index } => {
                if index.len() != 2 {
                    Err(UnrollError::IndexPath)
                } else if index[0] >= src.len() {
                    Err(UnrollError::IndexOutOfBounds)
                } else {
                    assert(grid_view(src@)[index@[0] as int].len() == src@[index@[0] as int]@.len());
                    if index[1] >= src[index[0]].len() {
                        Err(UnrollError::IndexOutOfBounds)
                    } else {
                        Ok(
                            Plan::Rebind(
                                Opr::Unary {
                                    opr1: src[index[0]][index[1]].clone(),
                                    opr_type: OprUnary::Assign,
                                },
                            ),
                        )
                    }
                }
            },
            _ => Ok(Plan::Grid(make_unary_grid(src, kind))),
        }
    }

    fn plan_cross(&self, namer: &Namer, opr1: &Identifier, opr2: &Identifier) -> (r: Result<
        Plan,
        UnrollError,
    >)
        requires
            self.wf(),
        ensures
            plan_result_view(r) == self.view_with(namer@).plan_cross(opr1@, opr2@),
    {
        let a = match self.vector_of(namer, opr1) {
            Some(v) => v,
            None => {
                return Err(UnrollError::UnknownOperand);
            },
        };
        let b = match self.vector_of(namer, opr2) {
            Some(v) => v,
            None => {
                return Err(UnrollError::UnknownOperand);
            },
        };
        if a.len() != 3 || b.len() != 3 {
            return Err(UnrollError::ShapeMismatch);
        }
        Ok(Plan::Cross(clone_idents(a), clone_idents(b)))
    }

    fn plan_dot(&self, namer: &Namer, opr1: &Identifier, opr2: &Identifier) -> (r: Result<
        Plan,
        UnrollError,
    >)
        requires
            self.wf(),
        ensures
            plan_result_view(r) == self.view_with(namer@).plan_dot(opr1@, opr2@),
    {
        let a = match self.vector_of(namer, opr1) {
            Some(v) => v,
            None => {
                return Err(UnrollError::UnknownOperand);
            },
        };
        let b = match self.vector_of(namer, opr2) {
            Some(v) => v,
            None => {
                return Err(UnrollError::UnknownOperand);
            },
        };
        if opr1.size != opr2.size {
            return Err(UnrollError::ShapeMismatch);
        }
        let n = match opr1.size {
            IdSize::Vector { len } => len,
            _ => {
                return Err(UnrollError::ShapeMismatch);
            },
        };
        if a.len() < n || b.len() < n {
            return Err(UnrollError::ShapeMismatch);
        }
        if n == 0 {
            return Err(UnrollError::EmptyOperand);
        }
        Ok(Plan::Dot(clone_idents(a), clone_idents(b), n))
    }

    fn plan_vector_vector(
        &self,
        namer: &Namer,
        opr1: &Identifier,
        opr2: &Identifier,
        kind: OprBinary,
    ) -> (r: Result<Plan, UnrollError>)
        requires
            self.wf(),
        ensures
            plan_result_view(r) == self.view_with(namer@).plan_vector_vector(opr1@, opr2@, kind),
    {
        if opr1.size != opr2.size {
            return Err(UnrollError::ShapeMismatch);
        }
        let n = match opr1.size {
            IdSize::Vector { len } => len,
            _ => {
                return Err(UnrollError::ShapeMismatch);
            },
        };
        let a = match self.vector_of(namer, opr1) {
            Some(v) => v,
            None => {
                return Err(UnrollError::UnknownOperand);
            },
        };
        let b = match self.vector_of(namer, opr2) {
            Some(v) => v,
            None => {
                return Err(UnrollError::UnknownOperand);
            },
        };
        if a.len() < n || b.len() < n {
            return Err(UnrollError::ShapeMismatch);
        }
        Ok(Plan::Row(make_zip_row(a, b, kind, n)))
    }

    fn plan_matrix_matrix(
        &self,
        namer: &Namer,
        opr1: &Identifier,
        opr2: &Identifier,
        kind: OprBinary,
    ) -> (r: Result<Plan, UnrollError>)
        requires
            self.wf(),
        ensures
            plan_result_view(r) == self.view_with(namer@).plan_matrix_matrix(opr1@, opr2@, kind),
    {
        if opr1.size != opr2.size {
            return Err(UnrollError::ShapeMismatch);
        }
        let (rows, cols) = match opr1.size {
            IdSize::Matrix { row_size, col_size } => (row_size, col_size),
            _ => {
                return Err(UnrollError::ShapeMismatch);
            },
        };
        let a = match self.matrix_of(namer, opr1) {
            Some(v) => v,
            None => {
                return Err(UnrollError::UnknownOperand);
            },
        };
        let b = match self.matrix_of(namer, opr2) {
            Some(v) => v,
            None => {
                return Err(UnrollError::UnknownOperand);
            },
        };
        if !check_rows_reach(a, rows, cols) || !check_rows_reach(b, rows, cols) {
            return Err(UnrollError::ShapeMismatch);
        }
        Ok(Plan::Grid(make_zip_grid(a, b, kind, rows, cols)))
    }

    fn plan_arithmetic(
        &self,
        namer: &Namer,
        opr1: &Identifier,
        opr2: &Identifier,
        kind: OprBinary,
    ) -> (r: Result<Plan, UnrollError>)
        requires
            self.wf(),
        ensures
            plan_result_view(r) == self.view_with(namer@).plan_arithmetic(opr1@, opr2@, kind),
    {
        match (opr1.var_type, opr2.var_type) {
            (VarType::Scalar, VarType::Scalar) => Ok(Plan::Keep),
            (VarType::Vector, VarType::Vector) => self.plan_vector_vector(namer, opr1, opr2, kind),
            (VarType::Matrix, VarType::Matrix) => self.plan_matrix_matrix(namer, opr1, opr2, kind),
            (VarType::Vector, VarType::Scalar) => match self.vector_of(namer, opr1) {
                Some(a) => Ok(Plan::Row(make_scalar_right_row(a, opr2, kind))),
                None => Err(UnrollError::UnknownOperand),
            },
            (VarType::Matrix, VarType::Scalar) => match self.matrix_of(namer, opr1) {
                Some(a) => Ok(Plan::Grid(make_scalar_right_grid(a, opr2, kind))),
                None => Err(UnrollError::UnknownOperand),
            },
            (VarType::Scalar, VarType::Vector) => {
                if kind == OprBinary::Sub || kind == OprBinary::Div {
                    return Err(UnrollError::Unsupported);
                }
                match self.vector_of(namer, opr2) {
                    Some(b) => Ok(Plan::Row(make_scalar_left_row(opr1, b, kind))),
                    None => Err(UnrollError::UnknownOperand),
                }
            },
            (VarType::Scalar, VarType::Matrix) => {
                if kind == OprBinary::Sub || kind == OprBinary::Div {
                    return Err(UnrollError::Unsupported);
                }
                match self.matrix_of(namer, opr2) {
                    Some(b) => Ok(Plan::Grid(make_scalar_left_grid(opr1, b, kind))),
                    None => Err(UnrollError::UnknownOperand),
                }
            },
            _ => Err(UnrollError::Unsupported),
        }
    }

    /// What the node lowers to, or why it cannot be lowered.
    pub fn plan(&self, namer: &Namer, expr: &Expr) -> (r: Result<Plan, UnrollError>)
        requires
            self.wf(),
        ensures
            plan_result_view(r) == self.view_with(namer@).plan(expr@),
    {
        match expr {
            Expr::Let { id: _, opr } => match opr {
                Opr::ConstantScalar { .. } => Ok(Plan::Keep),
                Opr::ConstantVector { value } => Ok(Plan::Row(make_constants_row(value))),
                Opr::ConstantMatrix { value } => Ok(Plan::Grid(make_constants_grid(value))),
                Opr::ConstructScalar { id } => match id.var_type {
                    VarType::Scalar => Ok(
                        Plan::Rebind(Opr::Unary { opr1: id.clone(), opr_type: OprUnary::Assign }),
                    ),
                    _ => Err(UnrollError::ShapeMismatch),
                },
                Opr::ConstructVector { ids } => {
                    if !check_row_of_scalars(ids) {
                        return Err(UnrollError::ShapeMismatch);
                    }
                    let assign = OprUnary::Assign;
                    Ok(Plan::Row(make_unary_row(ids, &assign)))
                },
                Opr::ConstructMatrix { ids } => {
                    if !check_grid_of_scalars(ids) {
                        return Err(UnrollError::ShapeMismatch);
                    }
                    let assign = OprUnary::Assign;
                    Ok(Plan::Grid(make_unary_grid(ids, &assign)))
                },
                Opr::Unary { opr1, opr_type } => match opr1.var_type {
                    VarType::Scalar => Ok(Plan::Keep),
                    VarType::Vector => self.plan_unary_vector(namer, opr1, opr_type),
                    VarType::Matrix => self.plan_unary_matrix(namer, opr1, opr_type),
                },
                Opr::Binary { opr1, opr2, opr_type } => match opr_type {
                    OprBinary::Cross => self.plan_cross(namer, opr1, opr2),
                    OprBinary::Dot => self.plan_dot(namer, opr1, opr2),
                    _ => self.plan_arithmetic(namer, opr1, opr2, *opr_type),
                },
            },
        }
    }
}

} // verus!
