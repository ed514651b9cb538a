//! One analysis run: the naming service and the program under construction,
//! and the functions that append nodes to it.

use vstd::prelude::*;
use vstd::string::*;
use crate::expr::{real_grid_view, reals_view, Expr, ExprView, Opr, OprBinary, OprUnary, OprView, UnaryView};
use crate::identifier::{grid_view, idents_view, IdSize, IdentView, Identifier};
use crate::naming::{Namer, NamerState};
use crate::program::{Program, ProgramView};
use crate::rational::Real;
use crate::text::{concat, nat_text, usize_to_text};

verus! {

/// The state that graph construction works on. A run starts with `new`,
/// grows by the functions below, and is reused after `clear_program` and
/// `clear_all_names`.
pub struct Session {
    pub namer: Namer,
    pub program: Program,
}

/// A session as contracts see it.
pub struct SessionView {
    pub namer: NamerState,
    pub program: ProgramView,
}

impl View for Session {
    type V = SessionView;

    open spec fn view(&self) -> SessionView {
        SessionView { namer: self.namer@, program: self.program@ }
    }
}

impl SessionView {
    /// The session after a node for `opr` was bound to a new identifier of
    /// shape `size` made from `name`.
    pub open spec fn bind(self, name: Seq<char>, size: IdSize, opr: OprView) -> SessionView {
        SessionView {
            namer: self.namer.after_identifier(name),
            program: ProgramView {
                body: self.program.body.push(
                    ExprView { id: self.namer.fresh_identifier(name, size), opr },
                ),
                ..self.program
            },
        }
    }

    /// The identifier that `bind` creates.
    pub open spec fn bound(self, name: Seq<char>, size: IdSize) -> IdentView {
        self.namer.fresh_identifier(name, size)
    }
}

impl Session {
    /// The program of the session is well formed.
    pub open spec fn wf(&self) -> bool {
        self.program.wf()
    }

    /// A session with an empty program and a naming service that has issued
    /// nothing.
    pub fn new() -> (r: Session)
        ensures
            r.wf(),
            r@ == (SessionView { namer: NamerState::initial(), program: ProgramView::empty() }),
    {
        Session { namer: Namer::new(), program: Program::new() }
    }

    /// Binds a node for `opr` to a new identifier of shape `size`.
    fn bind(&mut self, name: &str, size: IdSize, opr: Opr) -> (r: Identifier)
        requires
            old(self).wf(),
            old(self)@.namer.room() >= 1,
        ensures
            final(self).wf(),
            r@ == old(self)@.bound(name@, size),
            final(self)@ == old(self)@.bind(name@, size, opr@),
            final(self)@.namer.room() >= old(self)@.namer.room() - 1,
    {
        let new_id = match size {
            IdSize::Scalar => Identifier::new_scalar(&mut self.namer, name),
            IdSize::Vector { len } => Identifier::new_vector(&mut self.namer, name, len),
            IdSize::Matrix { row_size, col_size } => Identifier::new_matrix(
                &mut self.namer,
                name,
                row_size,
                col_size,
            ),
        };
        let expr = Expr::Let { id: new_id.clone(), opr };
        self.program.add_expr(expr);
        new_id
    }
}

/// Removes all inputs, outputs and nodes of the session's program.
pub fn clear_program(session: &mut Session)
    ensures
        final(session).wf(),
        final(session)@ == (SessionView { program: ProgramView::empty(), ..old(session)@ }),
{
    session.program.clear();
}

/// The shape of a matrix given by its rows: as many columns as the first row
/// has elements, none for a matrix without rows.
pub open spec fn grid_size<T>(rows: Seq<Vec<T>>) -> IdSize {
    IdSize::Matrix {
        row_size: rows.len() as usize,
        col_size: if rows.len() == 0 {
            0
        } else {
            rows[0]@.len() as usize
        },
    }
}

/// Binds a scalar constant.
pub fn create_scalar_constant(session: &mut Session, name: &str, value: Real) -> (r: Identifier)
    requires
        old(session).wf(),
        old(session)@.namer.room() >= 1,
    ensures
        final(session).wf(),
        r@ == old(session)@.bound(name@, IdSize::Scalar),
        final(session)@ == old(session)@.bind(
            name@,
            IdSize::Scalar,
            OprView::ConstantScalar(value@),
        ),
        final(session)@.namer.room() >= old(session)@.namer.room() - 1,
{
    session.bind(name, IdSize::Scalar, Opr::ConstantScalar { value })
}

/// Binds a vector constant.
pub fn create_vector_constant(session: &mut Session, name: &str, value: Vec<Real>) -> (r:
    Identifier)
    requires
        old(session).wf(),
        old(session)@.namer.room() >= 1,
    ensures
        final(session).wf(),
        r@ == old(session)@.bound(name@, IdSize::Vector { len: value@.len() as usize }),
        final(session)@ == old(session)@.bind(
            name@,
            IdSize::Vector { len: value@.len() as usize },
            OprView::ConstantVector(reals_view(value@)),
        ),
        final(session)@.namer.room() >= old(session)@.namer.room() - 1,
{
    let size = value.len();
    session.bind(name, IdSize::Vector { len: size }, Opr::ConstantVector { value })
}

/// Binds a matrix constant. The number of columns is that of the first row.
pub fn create_matrix_constant(session: &mut Session, name: &str, value: Vec<Vec<Real>>) -> (r:
    Identifier)
    requires
        old(session).wf(),
        old(session)@.namer.room() >= 1,
    ensures
        final(session).wf(),
        r@ == old(session)@.bound(name@, grid_size(value@)),
        final(session)@ == old(session)@.bind(
            name@,
            grid_size(value@),
            OprView::ConstantMatrix(real_grid_view(value@)),
        ),
        final(session)@.namer.room() >= old(session)@.namer.room() - 1,
{
    let size0 = value.len();
    let size1 = if size0 == 0 {
        0
    } else {
        value[0].len()
    };
    session.bind(
        name,
        IdSize::Matrix { row_size: size0, col_size: size1 },
        Opr::ConstantMatrix { value },
    )
}

/// Binds a unary operation whose result is a scalar.
pub fn create_unary_scalar_expr(
    session: &mut Session,
    name: &str,
    opr1: Identifier,
    opr_type: OprUnary,
) -> (r: Identifier)
    requires
        old(session).wf(),
        old(session)@.namer.room() >= 1,
    ensures
        final(session).wf(),
        r@ == old(session)@.bound(name@, IdSize::Scalar),
        final(session)@ == old(session)@.bind(
            name@,
            IdSize::Scalar,
            OprView::Unary(opr1@, opr_type@),
        ),
        final(session)@.namer.room() >= old(session)@.namer.room() - 1,
{
    session.bind(name, IdSize::Scalar, Opr::Unary { opr1, opr_type })
}

/// Binds a unary operation on a vector whose result is a vector of the same
/// length.
pub fn create_unary_vector_expr(
    session: &mut Session,
    name: &str,
    opr1: Identifier,
    opr_type: OprUnary,
) -> (r: Identifier)
    requires
        old(session).wf(),
        old(session)@.namer.room() >= 1,
        opr1.size is Vector,
    ensures
        final(session).wf(),
        r@ == old(session)@.bound(name@, opr1.size),
        final(session)@ == old(session)@.bind(name@, opr1.size, OprView::Unary(opr1@, opr_type@)),
        final(session)@.namer.room() >= old(session)@.namer.room() - 1,
{
    let size = opr1.size;
    session.bind(name, size, Opr::Unary { opr1, opr_type })
}

/// Binds a unary operation on a matrix whose result has the operand's shape,
/// whatever the operation.
pub fn create_unary_matrix_expr(
    session: &mut Session,
    name: &str,
    opr1: Identifier,
    opr_type: OprUnary,
) -> (r: Identifier)
    requires
        old(session).wf(),
        old(session)@.namer.room() >= 1,
        opr1.size is Matrix,
    ensures
        final(session).wf(),
        r@ == old(session)@.bound(name@, opr1.size),
        final(session)@ == old(session)@.bind(name@, opr1.size, OprView::Unary(opr1@, opr_type@)),
        final(session)@.namer.room() >= old(session)@.namer.room() - 1,
{
    let size = opr1.size;
    session.bind(name, size, Opr::Unary { opr1, opr_type })
}

/// Binds a binary operation whose result is a scalar.
pub fn create_binary_scalar_expr(
    session: &mut Session,
    name: &str,
    opr1: Identifier,
    opr2: Identifier,
    opr_type: OprBinary,
) -> (r: Identifier)
    requires
        old(session).wf(),
        old(session)@.namer.room() >= 1,
    ensures
        final(session).wf(),
        r@ == old(session)@.bound(name@, IdSize::Scalar),
        final(session)@ == old(session)@.bind(
            name@,
            IdSize::Scalar,
            OprView::Binary(opr1@, opr2@, opr_type),
        ),
        final(session)@.namer.room() >= old(session)@.namer.room() - 1,
{
    session.bind(name, IdSize::Scalar, Opr::Binary { opr1, opr2, opr_type })
}

/// Binds a binary operation whose result is a vector of `len` elements.
pub fn create_binary_vector_expr(
    session: &mut Session,
    name: &str,
    opr1: Identifier,
    opr2: Identifier,
    opr_type: OprBinary,
    len: usize,
) -> (r: Identifier)
    requires
        old(session).wf(),
        old(session)@.namer.room() >= 1,
    ensures
        final(session).wf(),
        r@ == old(session)@.bound(name@, IdSize::Vector { len }),
        final(session)@ == old(session)@.bind(
            name@,
            IdSize::Vector { len },
            OprView::Binary(opr1@, opr2@, opr_type),
        ),
        final(session)@.namer.room() >= old(session)@.namer.room() - 1,
{
    session.bind(name, IdSize::Vector { len }, Opr::Binary { opr1, opr2, opr_type })
}

/// Binds a binary operation whose result is a matrix of the given shape.
pub fn create_binary_matrix_expr(
    session: &mut Session,
    name: &str,
    opr1: Identifier,
    opr2: Identifier,
    opr_type: OprBinary,
    row_size: usize,
    col_size: usize,
) -> (r: Identifier)
    requires
        old(session).wf(),
        old(session)@.namer.room() >= 1,
    ensures
        final(session).wf(),
        r@ == old(session)@.bound(name@, IdSize::Matrix { row_size, col_size }),
        final(session)@ == old(session)@.bind(
            name@,
            IdSize::Matrix { row_size, col_size },
            OprView::Binary(opr1@, opr2@, opr_type),
        ),
        final(session)@.namer.room() >= old(session)@.namer.room() - 1,
{
    session.bind(
        name,
        IdSize::Matrix { row_size, col_size },
        Opr::Binary { opr1, opr2, opr_type },
    )
}

/// Binds a scalar made from the scalar `id`.
pub fn create_construct_scalar_expr(session: &mut Session, name: &str, id: Identifier) -> (r:
    Identifier)
    requires
        old(session).wf(),
        old(session)@.namer.room() >= 1,
    ensures
        final(session).wf(),
        r@ == old(session)@.bound(name@, IdSize::Scalar),
        final(session)@ == old(session)@.bind(
            name@,
            IdSize::Scalar,
            OprView::ConstructScalar(id@),
        ),
        final(session)@.namer.room() >= old(session)@.namer.room() - 1,
{
    session.bind(name, IdSize::Scalar, Opr::ConstructScalar { id })
}

/// Binds a vector gathered from the scalars `ids`.
pub fn create_construct_vector_expr(session: &mut Session, name: &str, ids: Vec<Identifier>) -> (r:
    Identifier)
    requires
        old(session).wf(),
        old(session)@.namer.room() >= 1,
    ensures
        final(session).wf(),
        r@ == old(session)@.bound(name@, IdSize::Vector { len: ids@.len() as usize }),
        final(session)@ == old(session)@.bind(
            name@,
            IdSize::Vector { len: ids@.len() as usize },
            OprView::ConstructVector(idents_view(ids@)),
        ),
        final(session)@.namer.room() >= old(session)@.namer.room() - 1,
{
    let size = ids.len();
    session.bind(name, IdSize::Vector { len: size }, Opr::ConstructVector { ids })
}

/// Binds a matrix gathered from the rows `ids`, of which there is at least
/// one. The number of columns is that of the first row.
pub fn create_construct_matrix_expr(
    session: &mut Session,
    name: &str,
    ids: Vec<Vec<Identifier>>,
) -> (r: Identifier)
    requires
        old(session).wf(),
        old(session)@.namer.room() >= 1,
        ids@.len() > 0,
    ensures
        final(session).wf(),
        r@ == old(session)@.bound(name@, grid_size(ids@)),
        final(session)@ == old(session)@.bind(
            name@,
            grid_size(ids@),
            OprView::ConstructMatrix(grid_view(ids@)),
        ),
        final(session)@.namer.room() >= old(session)@.namer.room() - 1,
{
    let size0 = ids.len();
    let size1 = ids[0].len();
    session.bind(
        name,
        IdSize::Matrix { row_size: size0, col_size: size1 },
        Opr::ConstructMatrix { ids },
    )
}

/// Binds the element of the vector `opr1` at `index`.
pub fn create_index_vector_expr(session: &mut Session, name: &str, opr1: Identifier, index: usize) -> (r:
    Identifier)
    requires
        old(session).wf(),
        old(session)@.namer.room() >= 1,
    ensures
        final(session).wf(),
        r@ == old(session)@.bound(name@, IdSize::Scalar),
        final(session)@ == old(session)@.bind(
            name@,
            IdSize::Scalar,
            OprView::Unary(opr1@, UnaryView::Index(seq![index])),
        ),
        final(session)@.namer.room() >= old(session)@.namer.room() - 1,
{
    let mut path: Vec<usize> = Vec::new();
    path.push(index);
    assert(path@ =~= seq![index]);
    session.bind(
        name,
        IdSize::Scalar,
        Opr::Unary { opr1, opr_type: OprUnary::Index { index: path } },
    )
}

/// Binds the element of the matrix `opr1` at row `row_index` and column
/// `col_index`.
pub fn create_index_matrix_element_expr(
    session: &mut Session,
    name: &str,
    opr1: Identifier,
    row_index: usize,
    col_index: usize,
) -> (r: Identifier)
    requires
        old(session).wf(),
        old(session)@.namer.room() >= 1,
    ensures
        final(session).wf(),
        r@ == old(session)@.bound(name@, IdSize::Scalar),
        final(session)@ == old(session)@.bind(
            name@,
            IdSize::Scalar,
            OprView::Unary(opr1@, UnaryView::Index(seq![row_index, col_index])),
        ),
        final(session)@.namer.room() >= old(session)@.namer.room() - 1,
{
    let mut path: Vec<usize> = Vec::new();
    path.push(row_index);
    path.push(col_index);
    assert(path@ =~= seq![row_index, col_index]);
    session.bind(
        name,
        IdSize::Scalar,
        Opr::Unary { opr1, opr_type: OprUnary::Index { index: path } },
    )
}

/// The name of the element of row `row` at column `col` that a row
/// extraction under `name` binds: `name`, `_row`, the row, `_col`, the column.
pub open spec fn row_element_name(name: Seq<char>, row: usize, col: int) -> Seq<char> {
    name + seq!['_', 'r', 'o', 'w'] + nat_text(row as nat) + seq!['_', 'c', 'o', 'l'] + nat_text(
        col as nat,
    )
}

impl SessionView {
    /// The session after the first `cols` elements of row `row` of the matrix
    /// `opr1` were bound, one index node each, in column order.
    pub open spec fn index_row(self, name: Seq<char>, opr1: IdentView, row: usize, cols: nat) -> SessionView
        decreases cols,
    {
        if cols == 0 {
            self
        } else {
            self.index_row(name, opr1, row, (cols - 1) as nat).bind(
                row_element_name(name, row, cols - 1),
                IdSize::Scalar,
                OprView::Unary(opr1, UnaryView::Index(seq![row, (cols - 1) as usize])),
            )
        }
    }

    /// The identifiers that `index_row` binds, in column order.
    pub open spec fn index_row_ids(self, name: Seq<char>, opr1: IdentView, row: usize, cols: nat) -> Seq<IdentView>
        decreases cols,
    {
        if cols == 0 {
            Seq::empty()
        } else {
            self.index_row_ids(name, opr1, row, (cols - 1) as nat).push(
                self.index_row(name, opr1, row, (cols - 1) as nat).bound(
                    row_element_name(name, row, cols - 1),
                    IdSize::Scalar,
                ),
            )
        }
    }
}

/// Binds row `row_index` of the matrix `opr1` as a vector: one index node for
/// each column, then a node that gathers them.
pub fn create_index_matrix_row_expr(
    session: &mut Session,
    name: &str,
    opr1: Identifier,
    row_index: usize,
) -> (r: Identifier)
    requires
        old(session).wf(),
        opr1.size is Matrix,
        old(session)@.namer.room() >= opr1.size->col_size + 1,
    ensures
        final(session).wf(),
        final(session)@ == old(session)@.index_row(
            name@,
            opr1@,
            row_index,
            opr1.size->col_size as nat,
        ).bind(
            name@,
            IdSize::Vector { len: opr1.size->col_size },
            OprView::ConstructVector(
                old(session)@.index_row_ids(name@, opr1@, row_index, opr1.size->col_size as nat),
            ),
        ),
        r@ == old(session)@.index_row(name@, opr1@, row_index, opr1.size->col_size as nat).bound(
            name@,
            IdSize::Vector { len: opr1.size->col_size },
        ),
        final(session)@.namer.room() >= old(session)@.namer.room() - opr1.size->col_size - 1,
{
    let size1 = match opr1.size {
        IdSize::Matrix { row_size: _, col_size } => col_size,
        _ => 0,
    };
    let row_text = usize_to_text(row_index);
    let mut prefix = concat(name, "_row");
    prefix.append(row_text.as_str());
    prefix.append("_col");
    proof {
        reveal_strlit("_row");
        reveal_strlit("_col");
        assert("_row"@ =~= seq!['_', 'r', 'o', 'w']);
        assert("_col"@ =~= seq!['_', 'c', 'o', 'l']);
    }
    let mut element_ids: Vec<Identifier> = Vec::new();
    let mut col_index: usize = 0;
    while col_index < size1
        invariant
            col_index <= size1,
            size1 == opr1.size->col_size,
            session.wf(),
            prefix@ == name@ + seq!['_', 'r', 'o', 'w'] + nat_text(row_index as nat) + seq![
                '_',
                'c',
                'o',
                'l',
            ],
            session@ == old(session)@.index_row(name@, opr1@, row_index, col_index as nat),
            idents_view(element_ids@) == old(session)@.index_row_ids(
                name@,
                opr1@,
                row_index,
                col_index as nat,
            ),
            session@.namer.room() >= old(session)@.namer.room() - col_index,
            old(session)@.namer.room() >= size1 + 1,
            element_ids@.len() == col_index,
        decreases size1 - col_index,
    {
        let col_text = usize_to_text(col_index);
        let element_name = concat(prefix.as_str(), col_text.as_str());
        assert(element_name@ =~= row_element_name(name@, row_index, col_index as int));
        let element_id = create_index_matrix_element_expr(
            session,
            element_name.as_str(),
            opr1.clone(),
            row_index,
            col_index,
        );
        element_ids.push(element_id);
        assert(idents_view(element_ids@) =~= old(session)@.index_row_ids(
            name@,
            opr1@,
            row_index,
            (col_index + 1) as nat,
        ));
        col_index += 1;
    }
    assert(element_ids@.len() == idents_view(element_ids@).len());
    create_construct_vector_expr(session, name, element_ids)
}

/// The shape of the transpose of a matrix of shape `size`.
pub open spec fn transposed_size(size: IdSize) -> IdSize {
    match size {
        IdSize::Matrix { row_size, col_size } => IdSize::Matrix {
            row_size: col_size,
            col_size: row_size,
        },
        other => other,
    }
}

/// Binds the transpose of the matrix `opr1`: a matrix with as many rows as
/// the operand has columns.
pub fn create_transpose_expr(session: &mut Session, name: &str, opr1: Identifier) -> (r: Identifier)
    requires
        old(session).wf(),
        old(session)@.namer.room() >= 1,
        opr1.size is Matrix,
    ensures
        final(session).wf(),
        r@ == old(session)@.bound(name@, transposed_size(opr1.size)),
        final(session)@ == old(session)@.bind(
            name@,
            transposed_size(opr1.size),
            OprView::Unary(opr1@, UnaryView::Transpose),
        ),
        final(session)@.namer.room() >= old(session)@.namer.room() - 1,
{
    let size = match opr1.size {
        IdSize::Matrix { row_size, col_size } => IdSize::Matrix {
            row_size: col_size,
            col_size: row_size,
        },
        other => other,
    };
    session.bind(name, size, Opr::Unary { opr1, opr_type: OprUnary::Transpose })
}

} // verus!
