//! Symbolic matrices.

use vstd::prelude::*;
use vstd::string::*;
use crate::expr::{clone_real_grid, clone_reals, real_grid_view, reals_view, OprBinary, OprUnary, OprView, UnaryView};
use crate::identifier::{grid_view, idents_view, IdSize, IdentView, Identifier, VarType};
use crate::idmap::upsert;
use crate::naming::Namer;
use crate::program::{inputs_grid_view, inputs_row_view, outputs_grid_view, outputs_row_view, pending_output, Input, InputView, Output, OutputView, Program, ProgramInput, ProgramInputView, ProgramOutput, ProgramOutputView, ProgramView};
use crate::rational::Real;
use crate::scalar::{appended, Scalar};
use crate::session::{create_binary_matrix_expr, create_construct_matrix_expr, create_index_matrix_element_expr, create_index_matrix_row_expr, create_matrix_constant, create_transpose_expr, create_unary_matrix_expr, grid_size, transposed_size, Session, SessionView};
use crate::text::{concat, concat3, nat_text, usize_to_text};
use crate::values::{column, combine_grids, combine_spread_grid, defined_on, dot_value, is_grid, negate_grid, negated_grid, same_shape, spread_right_grid, zip_grid_values, Request};
use crate::vector::{gather, ids_of, values_of, vector_size, Vector};

verus! {

/// A matrix of the program under construction: its identifier, and the
/// values that its cells take when every input has its default value, row
/// by row.
#[derive(Debug)]
pub struct Matrix {
    pub id: Identifier,
    pub value: Vec<Vec<Real>>,
}

impl Clone for Matrix {
    fn clone(&self) -> (r: Self)
        ensures
            r.id == self.id,
            real_grid_view(r.value@) == real_grid_view(self.value@),
    {
        Matrix { id: self.id.clone(), value: clone_real_grid(&self.value) }
    }
}

/// The shape of a grid of values: as many columns as the first row has
/// cells, none for a grid without rows.
pub open spec fn shape_of(values: Seq<Seq<real>>) -> IdSize {
    IdSize::Matrix {
        row_size: values.len() as usize,
        col_size: if values.len() == 0 {
            0
        } else {
            values[0].len() as usize
        },
    }
}

/// The node that extracts the cell in row `i` and column `j` of the matrix
/// `m`: named after the matrix and the position.
pub open spec fn cell_request(m: IdentView, i: int, j: int) -> Request {
    Request {
        name: m.name + "_elem_"@ + nat_text(i as nat) + "_"@ + nat_text(j as nat),
        size: IdSize::Scalar,
        opr: OprView::Unary(m, UnaryView::Index(seq![i as usize, j as usize])),
    }
}

/// The identifiers of a grid of scalars.
pub open spec fn scalar_grid_ids(rows: Seq<Vec<&Scalar>>) -> Seq<Seq<IdentView>> {
    Seq::new(rows.len(), |i: int| crate::vector::scalar_ids(rows[i]@))
}

/// The values of a grid of scalars.
pub open spec fn scalar_grid_values(rows: Seq<Vec<&Scalar>>) -> Seq<Seq<real>> {
    Seq::new(rows.len(), |i: int| crate::vector::scalar_values(rows[i]@))
}

/// A grid with rows and columns exchanged, for as many columns as the first
/// row has.
pub open spec fn transposed_values(values: Seq<Seq<real>>) -> Seq<Seq<real>> {
    Seq::new(
        if values.len() == 0 {
            0
        } else {
            values[0].len()
        },
        |j: int| Seq::new(values.len(), |i: int| values[i][j]),
    )
}

/// The transpose of the transpose of a grid is the grid, when the grid has a
/// cell and all its rows have one length.
pub proof fn lemma_transpose_involutive(values: Seq<Seq<real>>)
    requires
        values.len() > 0,
        values[0].len() > 0,
        forall|i: int| 0 <= i < values.len() ==> (#[trigger] values[i]).len() == values[0].len(),
    ensures
        transposed_values(transposed_values(values)) == values,
{
    let once = transposed_values(values);
    let twice = transposed_values(once);
    assert(once[0].len() == values.len());
    assert forall|i: int| 0 <= i < values.len() implies twice[i] =~= values[i] by {
        assert(values[i].len() == values[0].len());
        assert forall|j: int| 0 <= j < values[0].len() implies twice[i][j] == values[i][j] by {
            assert(once[j][i] == values[i][j]);
        }
    }
    assert(twice =~= values);
}

/// The extractions of the first `cols` cells of row `i` of `m`.
pub open spec fn row_requests(m: IdentView, i: int, cols: nat) -> Seq<Request> {
    Seq::new(cols, |j: int| cell_request(m, i, j))
}

/// The extractions of the first `rows` cells of column `j` of `m`.
pub open spec fn column_requests(m: IdentView, j: int, rows: nat) -> Seq<Request> {
    Seq::new(rows, |i: int| cell_request(m, i, j))
}

/// The extractions of the cells of `m`, row by row.
pub open spec fn grid_requests(m: IdentView, rows: nat, cols: nat) -> Seq<Seq<Request>> {
    Seq::new(rows, |i: int| row_requests(m, i, cols))
}

/// The extractions of the cells of `m`, column by column.
pub open spec fn columns_requests(m: IdentView, rows: nat, cols: nat) -> Seq<Seq<Request>> {
    Seq::new(cols, |j: int| column_requests(m, j, rows))
}

/// The identifiers of a grid of scalars.
pub open spec fn grid_ids_of(rows: Seq<Vec<Scalar>>) -> Seq<Seq<IdentView>> {
    Seq::new(rows.len(), |i: int| ids_of(rows[i]@))
}

/// The values of a grid of scalars.
pub open spec fn grid_values_of(rows: Seq<Vec<Scalar>>) -> Seq<Seq<real>> {
    Seq::new(rows.len(), |i: int| values_of(rows[i]@))
}

/// Every one of the first `rows` rows has at least `cols` cells.
pub open spec fn covers(values: Seq<Vec<Real>>, rows: nat, cols: nat) -> bool {
    rows <= values.len() && forall|i: int| 0 <= i < rows ==> (#[trigger] values[i])@.len() >= cols
}

/// Gathers a grid of scalars, which has a row, into a matrix named `name`.
pub fn gather_grid(session: &mut Session, name: &str, grid: &Vec<Vec<Scalar>>) -> (r: Matrix)
    requires
        old(session).wf(),
        old(session)@.namer.room() >= 1,
        grid@.len() > 0,
    ensures
        final(session).wf(),
        final(session)@.namer.room() >= old(session)@.namer.room() - 1,
        real_grid_view(r.value@) == grid_values_of(grid@),
        appended(
            old(session)@,
            final(session)@,
            r.id@,
            name@,
            IdSize::Matrix { row_size: grid@.len() as usize, col_size: grid@[0]@.len() as usize },
            OprView::ConstructMatrix(grid_ids_of(grid@)),
        ),
{
    let mut ids: Vec<Vec<Identifier>> = Vec::new();
    let mut values: Vec<Vec<Real>> = Vec::new();
    let mut i: usize = 0;
    while i < grid.len()
        invariant
            i <= grid.len(),
            ids@.len() == i,
            values@.len() == i,
            forall|k: int| 0 <= k < i ==> idents_view((#[trigger] ids@[k])@) == ids_of(grid@[k]@),
            forall|k: int|
                0 <= k < i ==> reals_view((#[trigger] values@[k])@) == values_of(grid@[k]@),
        decreases grid.len() - i,
    {
        let row = &grid[i];
        let mut row_ids: Vec<Identifier> = Vec::new();
        let mut row_values: Vec<Real> = Vec::new();
        let mut j: usize = 0;
        while j < row.len()
            invariant
                j <= row.len(),
                row_ids@.len() == j,
                row_values@.len() == j,
                forall|k: int| 0 <= k < j ==> (#[trigger] row_ids@[k])@ == row@[k].id@,
                forall|k: int| 0 <= k < j ==> (#[trigger] row_values@[k])@ == row@[k].value@,
            decreases row.len() - j,
        {
            row_ids.push(row[j].id.clone());
            row_values.push(row[j].value.clone());
            j += 1;
        }
        assert(idents_view(row_ids@) =~= ids_of(row@));
        assert(reals_view(row_values@) =~= values_of(row@));
        ids.push(row_ids);
        values.push(row_values);
        i += 1;
    }
    assert(grid_view(ids@) =~= grid_ids_of(grid@));
    assert(real_grid_view(values@) =~= grid_values_of(grid@));
    assert(ids@[0]@.len() == idents_view(ids@[0]@).len());
    let new_id = create_construct_matrix_expr(session, name, ids);
    Matrix { id: new_id, value: values }
}

impl Matrix {
    /// A constant matrix.
    pub fn new_rational(session: &mut Session, name: &str, values: Vec<Vec<Real>>) -> (r: Matrix)
        requires
            old(session).wf(),
            old(session)@.namer.room() >= 1,
        ensures
            final(session).wf(),
            final(session)@.namer.room() >= old(session)@.namer.room() - 1,
            r.value@ == values@,
            appended(
                old(session)@,
                final(session)@,
                r.id@,
                name@,
                grid_size(values@),
                OprView::ConstantMatrix(real_grid_view(values@)),
            ),
    {
        let new_id = create_matrix_constant(session, name, clone_real_grid(&values));
        Matrix { id: new_id, value: values }
    }

    /// The same matrix under the name `new_name`, bound by a node that no
    /// pass folds away. The matrix's identifier must say that it is one.
    pub fn define(&self, session: &mut Session, new_name: String) -> (r: Matrix)
        requires
            old(session).wf(),
            old(session)@.namer.room() >= 1,
            self.id.size is Matrix,
        ensures
            final(session).wf(),
            final(session)@.namer.room() >= old(session)@.namer.room() - 1,
            real_grid_view(r.value@) == real_grid_view(self.value@),
            appended(
                old(session)@,
                final(session)@,
                r.id@,
                new_name@,
                self.id.size,
                OprView::Unary(self.id@, UnaryView::AssignNoOpt),
            ),
    {
        let new_id = create_unary_matrix_expr(
            session,
            new_name.as_str(),
            self.id.clone(),
            OprUnary::AssignNoOpt,
        );
        Matrix { id: new_id, value: clone_real_grid(&self.value) }
    }

    /// The matrix whose cells are the given scalars, row by row; there is at
    /// least one row.
    pub fn from_scalars(session: &mut Session, name: &str, scalars: Vec<Vec<&Scalar>>) -> (r:
        Matrix)
        requires
            old(session).wf(),
            old(session)@.namer.room() >= 1,
            scalars@.len() > 0,
        ensures
            final(session).wf(),
            final(session)@.namer.room() >= old(session)@.namer.room() - 1,
            real_grid_view(r.value@) == scalar_grid_values(scalars@),
            appended(
                old(session)@,
                final(session)@,
                r.id@,
                name@,
                IdSize::Matrix {
                    row_size: scalars@.len() as usize,
                    col_size: scalars@[0]@.len() as usize,
                },
                OprView::ConstructMatrix(scalar_grid_ids(scalars@)),
            ),
    {
        let mut ids: Vec<Vec<Identifier>> = Vec::new();
        let mut values: Vec<Vec<Real>> = Vec::new();
        let mut i: usize = 0;
        while i < scalars.len()
            invariant
                i <= scalars.len(),
                ids@.len() == i,
                values@.len() == i,
                forall|k: int|
                    0 <= k < i ==> idents_view((#[trigger] ids@[k])@) == crate::vector::scalar_ids(
                        scalars@[k]@,
                    ),
                forall|k: int|
                    0 <= k < i ==> reals_view((#[trigger] values@[k])@)
                        == crate::vector::scalar_values(scalars@[k]@),
            decreases scalars.len() - i,
        {
            let row = &scalars[i];
            let mut row_ids: Vec<Identifier> = Vec::new();
            let mut row_values: Vec<Real> = Vec::new();
            let mut j: usize = 0;
            while j < row.len()
                invariant
                    j <= row.len(),
                    row_ids@.len() == j,
                    row_values@.len() == j,
                    forall|k: int| 0 <= k < j ==> (#[trigger] row_ids@[k])@ == row@[k].id@,
                    forall|k: int| 0 <= k < j ==> (#[trigger] row_values@[k])@ == row@[k].value@,
                decreases row.len() - j,
            {
                row_ids.push(row[j].id.clone());
                row_values.push(row[j].value.clone());
                j += 1;
            }
            assert(idents_view(row_ids@) =~= crate::vector::scalar_ids(row@));
            assert(reals_view(row_values@) =~= crate::vector::scalar_values(row@));
            ids.push(row_ids);
            values.push(row_values);
            i += 1;
        }
        assert(grid_view(ids@) =~= scalar_grid_ids(scalars@));
        assert(real_grid_view(values@) =~= scalar_grid_values(scalars@));
        assert(ids@[0]@.len() == idents_view(ids@[0]@).len());
        let new_id = create_construct_matrix_expr(session, name, ids);
        Matrix { id: new_id, value: values }
    }

    /// A copy of `matrix`, which has a row and rows of one length: every
    /// cell is extracted, one node each, and the extractions are gathered
    /// in a matrix of the same shape.
    pub fn from_matrix(session: &mut Session, name: &str, matrix: &Matrix) -> (r: Matrix)
        requires
            old(session).wf(),
            regular(matrix),
            old(session)@.namer.room() >= matrix.value@.len() * matrix.value@[0]@.len() + 1,
        ensures
            final(session).wf(),
            final(session)@.namer.room() >= old(session)@.namer.room() - matrix.value@.len()
                * matrix.value@[0]@.len() - 1,
            real_grid_view(r.value@) == real_grid_view(matrix.value@),
            r.id@.size == shape_of(real_grid_view(r.value@)),
            ({
                let rows = matrix.value@.len();
                let ids = old(session)@.bound_rows(all_cells(matrix), rows);
                &&& all_scalars(ids)
                &&& appended(
                    old(session)@.bind_rows(all_cells(matrix), rows),
                    final(session)@,
                    r.id@,
                    name@,
                    shape_of(real_grid_view(matrix.value@)),
                    OprView::ConstructMatrix(ids),
                )
            }),
    {
        let (rows, cols) = matrix.size();
        proof {
            assert forall|i: int| 0 <= i < rows implies (#[trigger] matrix.value@[i])@.len()
                >= cols by {
                assert(real_grid_view(matrix.value@)[i].len() == cols);
            }
            lemma_bound_cells_are_scalars(session@, matrix.id@, rows as nat, cols as nat);
        }
        let cells = matrix.extract_grid(session, rows, cols);
        let result = gather_grid(session, name, &cells);
        proof {
            assert(real_grid_view(result.value@) =~= real_grid_view(matrix.value@)) by {
                assert forall|i: int| 0 <= i < rows implies real_grid_view(result.value@)[i]
                    =~= real_grid_view(matrix.value@)[i] by {
                    assert(cells@[i]@.len() == cols);
                    assert(real_grid_view(matrix.value@)[i].len() == cols);
                    assert forall|k: int| 0 <= k < cols implies values_of(cells@[i]@)[k]
                        == real_grid_view(matrix.value@)[i][k] by {
                        assert(cells@[i]@[k].value == matrix.value@[i]@[k]);
                    }
                }
            }
            assert(cells@[0]@.len() == cols);
        }
        result
    }

    /// The number of rows, and the number of cells of the first row.
    pub fn size(&self) -> (r: (usize, usize))
        ensures
            r.0 == self.value@.len(),
            r.1 == (if self.value@.len() == 0 {
                0
            } else {
                self.value@[0]@.len()
            }),
    {
        let rows = self.value.len();
        if rows == 0 {
            return (0, 0);
        }
        (rows, self.value[0].len())
    }

    /// The matrix's name.
    pub fn get_name(&self) -> (r: &str)
        ensures
            r@ == self.id@.name,
    {
        self.id.name.as_str()
    }

    /// The cell in row `row_index` and column `col_index` as a scalar.
    pub fn get(&self, session: &mut Session, row_index: usize, col_index: usize) -> (r: Scalar)
        requires
            old(session).wf(),
            old(session)@.namer.room() >= 1,
            row_index < self.value@.len(),
            col_index < self.value@[row_index as int]@.len(),
        ensures
            final(session).wf(),
            final(session)@.namer.room() >= old(session)@.namer.room() - 1,
            r.value == self.value@[row_index as int]@[col_index as int],
            appended(
                old(session)@,
                final(session)@,
                r.id@,
                cell_request(self.id@, row_index as int, col_index as int).name,
                IdSize::Scalar,
                cell_request(self.id@, row_index as int, col_index as int).opr,
            ),
    {
        let row_text = usize_to_text(row_index);
        let col_text = usize_to_text(col_index);
        let mut name = concat3(self.id.name.as_str(), "_elem_", row_text.as_str());
        name.append("_");
        name.append(col_text.as_str());
        let new_id = create_index_matrix_element_expr(
            session,
            name.as_str(),
            self.id.clone(),
            row_index,
            col_index,
        );
        Scalar { id: new_id, value: self.value[row_index][col_index].clone() }
    }

    /// The cell in row `row_index` and column `col_index` as a scalar.
    pub fn at(&self, session: &mut Session, row_index: usize, col_index: usize) -> (r: Scalar)
        requires
            old(session).wf(),
            old(session)@.namer.room() >= 1,
            row_index < self.value@.len(),
            col_index < self.value@[row_index as int]@.len(),
        ensures
            final(session).wf(),
            final(session)@.namer.room() >= old(session)@.namer.room() - 1,
            r.value == self.value@[row_index as int]@[col_index as int],
            appended(
                old(session)@,
                final(session)@,
                r.id@,
                cell_request(self.id@, row_index as int, col_index as int).name,
                IdSize::Scalar,
                cell_request(self.id@, row_index as int, col_index as int).opr,
            ),
    {
        self.get(session, row_index, col_index)
    }

    /// Row `row_index` as a vector: one extraction per column that the
    /// matrix's identifier declares, and a node that gathers them.
    pub fn get_row(&self, session: &mut Session, row_index: usize) -> (r: Vector)
        requires
            old(session).wf(),
            self.id.size is Matrix,
            row_index < self.value@.len(),
            old(session)@.namer.room() >= self.id.size->col_size + 1,
        ensures
            final(session).wf(),
            final(session)@.namer.room() >= old(session)@.namer.room() - self.id.size->col_size
                - 1,
            r.value@ == self.value@[row_index as int]@,
            ({
                let name = self.id@.name + "_row_"@ + nat_text(row_index as nat);
                let cols = self.id.size->col_size as nat;
                let extracted = old(session)@.index_row(name, self.id@, row_index, cols);
                appended(
                    extracted,
                    final(session)@,
                    r.id@,
                    name,
                    IdSize::Vector { len: self.id.size->col_size },
                    OprView::ConstructVector(
                        old(session)@.index_row_ids(name, self.id@, row_index, cols),
                    ),
                )
            }),
    {
        let number = usize_to_text(row_index);
        let name = concat3(self.id.name.as_str(), "_row_", number.as_str());
        let new_id = create_index_matrix_row_expr(
            session,
            name.as_str(),
            self.id.clone(),
            row_index,
        );
        Vector { id: new_id, value: clone_reals(&self.value[row_index]) }
    }

    /// The transpose: cell `(i, j)` of the result has the value of cell
    /// `(j, i)`. Every row has at least as many cells as the first.
    pub fn transpose(&self, session: &mut Session) -> (r: Matrix)
        requires
            old(session).wf(),
            old(session)@.namer.room() >= 1,
            self.id.size is Matrix,
            self.value@.len() > 0 ==> covers(
                self.value@,
                self.value@.len(),
                self.value@[0]@.len(),
            ),
        ensures
            final(session).wf(),
            final(session)@.namer.room() >= old(session)@.namer.room() - 1,
            real_grid_view(r.value@) == transposed_values(real_grid_view(self.value@)),
            appended(
                old(session)@,
                final(session)@,
                r.id@,
                self.id@.name + "_transpose"@,
                transposed_size(self.id.size),
                OprView::Unary(self.id@, UnaryView::Transpose),
            ),
    {
        let (rows, cols) = self.size();
        let name = concat(self.id.name.as_str(), "_transpose");
        let new_id = create_transpose_expr(session, name.as_str(), self.id.clone());
        let mut value: Vec<Vec<Real>> = Vec::new();
        let mut j: usize = 0;
        while j < cols
            invariant
                j <= cols,
                rows == self.value@.len(),
                rows > 0 ==> cols == self.value@[0]@.len(),
                rows == 0 ==> cols == 0,
                rows > 0 ==> covers(self.value@, rows as nat, cols as nat),
                value@.len() == j,
                forall|k: int|
                    0 <= k < j ==> reals_view((#[trigger] value@[k])@) == Seq::new(
                        rows as nat,
                        |i: int| self.value@[i]@[k]@,
                    ),
            decreases cols - j,
        {
            let mut column: Vec<Real> = Vec::new();
            let mut i: usize = 0;
            while i < rows
                invariant
                    i <= rows,
                    j < cols,
                    rows == self.value@.len(),
                    covers(self.value@, rows as nat, cols as nat),
                    column@.len() == i,
                    forall|k: int| 0 <= k < i ==> (#[trigger] column@[k])@ == self.value@[k]@[j as int]@,
                decreases rows - i,
            {
                assert(self.value@[i as int]@.len() >= cols);
                column.push(self.value[i][j].clone());
                i += 1;
            }
            assert(reals_view(column@) =~= Seq::new(
                rows as nat,
                |i: int| self.value@[i]@[j as int]@,
            ));
            value.push(column);
            j += 1;
        }
        proof {
            let views = real_grid_view(self.value@);
            let expected = transposed_values(views);
            assert(real_grid_view(value@).len() == expected.len());
            assert forall|k: int| 0 <= k < value@.len() implies real_grid_view(value@)[k]
                =~= expected[k] by {
                assert forall|i: int| 0 <= i < rows implies real_grid_view(value@)[k][i]
                    == expected[k][i] by {
                    assert(views[i][k] == self.value@[i]@[k]@);
                }
            }
            assert(real_grid_view(value@) =~= expected);
        }
        Matrix { id: new_id, value }
    }

    /// A matrix of `row` rows and `col` columns of the constant zero.
    pub fn zero(session: &mut Session, row: usize, col: usize) -> (r: Matrix)
        requires
            old(session).wf(),
            old(session)@.namer.room() >= 1,
        ensures
            final(session).wf(),
            final(session)@.namer.room() >= old(session)@.namer.room() - 1,
            real_grid_view(r.value@) == Seq::new(
                row as nat,
                |i: int| Seq::new(col as nat, |j: int| 0real),
            ),
            appended(
                old(session)@,
                final(session)@,
                r.id@,
                "zero_matrix_"@ + nat_text(row as nat) + "_"@ + nat_text(col as nat),
                IdSize::Matrix {
                    row_size: row,
                    col_size: if row == 0 {
                        0
                    } else {
                        col
                    },
                },
                OprView::ConstantMatrix(
                    Seq::new(row as nat, |i: int| Seq::new(col as nat, |j: int| 0real)),
                ),
            ),
    {
        let row_text = usize_to_text(row);
        let col_text = usize_to_text(col);
        let mut name = concat("zero_matrix_", row_text.as_str());
        name.append("_");
        name.append(col_text.as_str());
        let mut value: Vec<Vec<Real>> = Vec::new();
        let mut i: usize = 0;
        while i < row
            invariant
                i <= row,
                value@.len() == i,
                forall|k: int|
                    0 <= k < i ==> reals_view((#[trigger] value@[k])@) == Seq::new(
                        col as nat,
                        |j: int| 0real,
                    ),
            decreases row - i,
        {
            let mut zeros: Vec<Real> = Vec::new();
            let mut j: usize = 0;
            while j < col
                invariant
                    j <= col,
                    zeros@.len() == j,
                    forall|k: int| 0 <= k < j ==> (#[trigger] zeros@[k])@ == 0real,
                decreases col - j,
            {
                zeros.push(Real::zero());
                j += 1;
            }
            assert(reals_view(zeros@) =~= Seq::new(col as nat, |j: int| 0real));
            value.push(zeros);
            i += 1;
        }
        assert(real_grid_view(value@) =~= Seq::new(
            row as nat,
            |i: int| Seq::new(col as nat, |j: int| 0real),
        ));
        proof {
            if row > 0 {
                assert(reals_view(value@[0]@).len() == col);
            }
        }
        let result = Matrix::new_rational(session, name.as_str(), value);
        result
    }

    /// An operation cell by cell on two matrices of one shape, which have a
    /// row; the result's identifier has the shape `shape`.
    fn operate(
        &self,
        session: &mut Session,
        other: &Matrix,
        kind: OprBinary,
        word: &str,
        rows: usize,
        cols: usize,
    ) -> (r: Matrix)
        requires
            old(session).wf(),
            old(session)@.namer.room() >= 1,
            same_shape(real_grid_view(self.value@), real_grid_view(other.value@)),
            crate::values::defined_on_grid(kind, real_grid_view(other.value@)),
        ensures
            final(session).wf(),
            final(session)@.namer.room() >= old(session)@.namer.room() - 1,
            real_grid_view(r.value@) == zip_grid_values(
                kind,
                real_grid_view(self.value@),
                real_grid_view(other.value@),
            ),
            appended(
                old(session)@,
                final(session)@,
                r.id@,
                self.id@.name + word@ + other.id@.name,
                IdSize::Matrix { row_size: rows, col_size: cols },
                OprView::Binary(self.id@, other.id@, kind),
            ),
    {
        let name = concat3(self.id.name.as_str(), word, other.id.name.as_str());
        let new_id = create_binary_matrix_expr(
            session,
            name.as_str(),
            self.id.clone(),
            other.id.clone(),
            kind,
            rows,
            cols,
        );
        Matrix { id: new_id, value: combine_grids(kind, &self.value, &other.value) }
    }

    /// The sum of two matrices of one shape, cell by cell; they have a row.
    pub fn add(&self, session: &mut Session, other: &Matrix) -> (r: Matrix)
        requires
            old(session).wf(),
            old(session)@.namer.room() >= 1,
            self.value@.len() > 0,
            same_shape(real_grid_view(self.value@), real_grid_view(other.value@)),
        ensures
            final(session).wf(),
            final(session)@.namer.room() >= old(session)@.namer.room() - 1,
            real_grid_view(r.value@) == zip_grid_values(
                OprBinary::Add,
                real_grid_view(self.value@),
                real_grid_view(other.value@),
            ),
            appended(
                old(session)@,
                final(session)@,
                r.id@,
                self.id@.name + "_plus_"@ + other.id@.name,
                shape_of(real_grid_view(self.value@)),
                OprView::Binary(self.id@, other.id@, OprBinary::Add),
            ),
    {
        let rows = self.value.len();
        let cols = self.value[0].len();
        assert(real_grid_view(self.value@)[0].len() == cols);
        self.operate(session, other, OprBinary::Add, "_plus_", rows, cols)
    }

    /// The difference of two matrices of one shape, cell by cell; they have
    /// a row.
    pub fn sub(&self, session: &mut Session, other: &Matrix) -> (r: Matrix)
        requires
            old(session).wf(),
            old(session)@.namer.room() >= 1,
            self.value@.len() > 0,
            same_shape(real_grid_view(self.value@), real_grid_view(other.value@)),
        ensures
            final(session).wf(),
            final(session)@.namer.room() >= old(session)@.namer.room() - 1,
            real_grid_view(r.value@) == zip_grid_values(
                OprBinary::Sub,
                real_grid_view(self.value@),
                real_grid_view(other.value@),
            ),
            appended(
                old(session)@,
                final(session)@,
                r.id@,
                self.id@.name + "_minus_"@ + other.id@.name,
                shape_of(real_grid_view(self.value@)),
                OprView::Binary(self.id@, other.id@, OprBinary::Sub),
            ),
    {
        let rows = other.value.len();
        assert(real_grid_view(self.value@)[0].len() == real_grid_view(other.value@)[0].len());
        let cols = other.value[0].len();
        self.operate(session, other, OprBinary::Sub, "_minus_", rows, cols)
    }

    /// An operation with `scalar` on each cell of the matrix, which has a
    /// row.
    fn spread(
        &self,
        session: &mut Session,
        scalar: &Scalar,
        kind: OprBinary,
        name: &str,
        scalar_first: bool,
    ) -> (r: Matrix)
        requires
            old(session).wf(),
            old(session)@.namer.room() >= 1,
            self.value@.len() > 0,
            defined_on(kind, scalar.value@),
        ensures
            final(session).wf(),
            final(session)@.namer.room() >= old(session)@.namer.room() - 1,
            real_grid_view(r.value@) == spread_right_grid(
                kind,
                real_grid_view(self.value@),
                scalar.value@,
            ),
            appended(
                old(session)@,
                final(session)@,
                r.id@,
                name@,
                shape_of(real_grid_view(self.value@)),
                if scalar_first {
                    OprView::Binary(scalar.id@, self.id@, kind)
                } else {
                    OprView::Binary(self.id@, scalar.id@, kind)
                },
            ),
    {
        let rows = self.value.len();
        let cols = self.value[0].len();
        assert(real_grid_view(self.value@)[0].len() == cols);
        let new_id = if scalar_first {
            create_binary_matrix_expr(
                session,
                name,
                scalar.id.clone(),
                self.id.clone(),
                kind,
                rows,
                cols,
            )
        } else {
            create_binary_matrix_expr(
                session,
                name,
                self.id.clone(),
                scalar.id.clone(),
                kind,
                rows,
                cols,
            )
        };
        Matrix { id: new_id, value: combine_spread_grid(kind, &self.value, &scalar.value) }
    }

    /// The matrix with `scalar` added to each cell. The node has the scalar
    /// as its first operand. The matrix has a row.
    pub fn add_scalar(&self, session: &mut Session, scalar: &Scalar) -> (r: Matrix)
        requires
            old(session).wf(),
            old(session)@.namer.room() >= 1,
            self.value@.len() > 0,
        ensures
            final(session).wf(),
            final(session)@.namer.room() >= old(session)@.namer.room() - 1,
            real_grid_view(r.value@) == spread_right_grid(
                OprBinary::Add,
                real_grid_view(self.value@),
                scalar.value@,
            ),
            appended(
                old(session)@,
                final(session)@,
                r.id@,
                scalar.id@.name + "_plus_"@ + self.id@.name,
                shape_of(real_grid_view(self.value@)),
                OprView::Binary(scalar.id@, self.id@, OprBinary::Add),
            ),
    {
        let name = concat3(scalar.id.name.as_str(), "_plus_", self.id.name.as_str());
        self.spread(session, scalar, OprBinary::Add, name.as_str(), true)
    }

    /// The matrix with `scalar` subtracted from each cell. The matrix has a
    /// row.
    pub fn sub_scalar(&self, session: &mut Session, scalar: &Scalar) -> (r: Matrix)
        requires
            old(session).wf(),
            old(session)@.namer.room() >= 1,
            self.value@.len() > 0,
        ensures
            final(session).wf(),
            final(session)@.namer.room() >= old(session)@.namer.room() - 1,
            real_grid_view(r.value@) == spread_right_grid(
                OprBinary::Sub,
                real_grid_view(self.value@),
                scalar.value@,
            ),
            appended(
                old(session)@,
                final(session)@,
                r.id@,
                self.id@.name + "_minus_"@ + scalar.id@.name,
                shape_of(real_grid_view(self.value@)),
                OprView::Binary(self.id@, scalar.id@, OprBinary::Sub),
            ),
    {
        let name = concat3(self.id.name.as_str(), "_minus_", scalar.id.name.as_str());
        self.spread(session, scalar, OprBinary::Sub, name.as_str(), false)
    }

    /// The matrix with each cell multiplied by `scalar`. The node has the
    /// scalar as its first operand. The matrix has a row.
    pub fn mul_scalar(&self, session: &mut Session, scalar: &Scalar) -> (r: Matrix)
        requires
            old(session).wf(),
            old(session)@.namer.room() >= 1,
            self.value@.len() > 0,
        ensures
            final(session).wf(),
            final(session)@.namer.room() >= old(session)@.namer.room() - 1,
            real_grid_view(r.value@) == spread_right_grid(
                OprBinary::Mul,
                real_grid_view(self.value@),
                scalar.value@,
            ),
            appended(
                old(session)@,
                final(session)@,
                r.id@,
                scalar.id@.name + "_mul_"@ + self.id@.name,
                shape_of(real_grid_view(self.value@)),
                OprView::Binary(scalar.id@, self.id@, OprBinary::Mul),
            ),
    {
        let name = concat3(scalar.id.name.as_str(), "_mul_", self.id.name.as_str());
        self.spread(session, scalar, OprBinary::Mul, name.as_str(), true)
    }

    /// The matrix with the sign of each cell changed. The matrix's
    /// identifier must say that it is one.
    pub fn neg(&self, session: &mut Session) -> (r: Matrix)
        requires
            old(session).wf(),
            old(session)@.namer.room() >= 1,
            self.id.size is Matrix,
        ensures
            final(session).wf(),
            final(session)@.namer.room() >= old(session)@.namer.room() - 1,
            real_grid_view(r.value@) == negated_grid(real_grid_view(self.value@)),
            appended(
                old(session)@,
                final(session)@,
                r.id@,
                "matrix_neg"@,
                self.id.size,
                OprView::Unary(self.id@, UnaryView::Neg),
            ),
    {
        let new_id = create_unary_matrix_expr(
            session,
            "matrix_neg",
            self.id.clone(),
            OprUnary::Neg,
        );
        Matrix { id: new_id, value: negate_grid(&self.value) }
    }

    /// The sine of each cell: binds a sine node named after the matrix and
    /// holds `values`. The library computes with exact rationals only, so
    /// the caller supplies the sines, one row for each row.
    pub fn sin(&self, session: &mut Session, values: Vec<Vec<Real>>) -> (r: Matrix)
        requires
            old(session).wf(),
            old(session)@.namer.room() >= 1,
            self.id.size is Matrix,
            values@.len() == self.value@.len(),
        ensures
            final(session).wf(),
            final(session)@.namer.room() >= old(session)@.namer.room() - 1,
            r.value == values,
            appended(
                old(session)@,
                final(session)@,
                r.id@,
                self.id@.name + "_sin"@,
                self.id.size,
                OprView::Unary(self.id@, UnaryView::Sine),
            ),
    {
        let name = concat(self.id.name.as_str(), "_sin");
        let new_id = create_unary_matrix_expr(
            session,
            name.as_str(),
            self.id.clone(),
            OprUnary::Sine,
        );
        Matrix { id: new_id, value: values }
    }

    /// The cosine of each cell: binds a cosine node named after the matrix
    /// and holds `values`, the cosines that the caller supplies, one row for
    /// each row.
    pub fn cos(&self, session: &mut Session, values: Vec<Vec<Real>>) -> (r: Matrix)
        requires
            old(session).wf(),
            old(session)@.namer.room() >= 1,
            self.id.size is Matrix,
            values@.len() == self.value@.len(),
        ensures
            final(session).wf(),
            final(session)@.namer.room() >= old(session)@.namer.room() - 1,
            r.value == values,
            appended(
                old(session)@,
                final(session)@,
                r.id@,
                self.id@.name + "_cos"@,
                self.id.size,
                OprView::Unary(self.id@, UnaryView::Cosine),
            ),
    {
        let name = concat(self.id.name.as_str(), "_cos");
        let new_id = create_unary_matrix_expr(
            session,
            name.as_str(),
            self.id.clone(),
            OprUnary::Cosine,
        );
        Matrix { id: new_id, value: values }
    }
}

/// The nodes that gather each row of `ids` into a vector of `len` elements
/// under the name `name`.
pub open spec fn gather_requests(name: Seq<char>, len: nat, ids: Seq<Seq<IdentView>>) -> Seq<
    Request,
> {
    Seq::new(
        ids.len(),
        |i: int|
            Request { name, size: vector_size(len), opr: OprView::ConstructVector(ids[i]) },
    )
}

/// The nodes that bind the dot product of each of `rows` with each of
/// `cols`, row by row, each named after its two operands.
pub open spec fn dot_requests(rows: Seq<IdentView>, cols: Seq<IdentView>) -> Seq<Seq<Request>> {
    Seq::new(
        rows.len(),
        |i: int|
            Seq::new(
                cols.len(),
                |j: int|
                    Request {
                        name: rows[i].name + "_dot_"@ + cols[j].name,
                        size: IdSize::Scalar,
                        opr: OprView::Binary(rows[i], cols[j], OprBinary::Dot),
                    },
            ),
    )
}

/// The values of a matrix product: cell `(i, j)` is the dot product of row
/// `i` of `a` and column `j` of `b` over `inner` elements.
pub open spec fn product_values(a: Seq<Seq<real>>, b: Seq<Seq<real>>, inner: nat, cols: nat) -> Seq<
    Seq<real>,
> {
    Seq::new(a.len(), |i: int| Seq::new(cols, |j: int| dot_value(a[i], column(b, j), inner)))
}

impl SessionView {
    /// The session after one more identifier was made from `name` without a
    /// node for it.
    pub open spec fn reserve(self, name: Seq<char>) -> SessionView {
        SessionView { namer: self.namer.after_identifier(name), ..self }
    }

    /// The session after the cells of the matrix `m` in column `0` were
    /// extracted and gathered into a vector under the matrix's name, and
    /// that vector's identifier.
    pub open spec fn matrix_as_vector(self, m: IdentView, rows: nat) -> (SessionView, IdentView) {
        let requests = column_requests(m, 0, rows);
        let extracted = self.bind_all(requests, rows);
        (
            extracted.bind(
                m.name,
                vector_size(rows),
                OprView::ConstructVector(self.bound_all(requests, rows)),
            ),
            extracted.bound(m.name, vector_size(rows)),
        )
    }

    /// The session after each of the `n` elements of the vector `v` was
    /// extracted twice and every first extraction was gathered as the one
    /// cell of a row, and the identifier of the matrix of these rows.
    pub open spec fn vector_as_matrix(self, name: Seq<char>, v: IdentView, n: nat) -> (
        SessionView,
        IdentView,
    ) {
        let requests = Seq::new(2 * n, |k: int| crate::vector::element_request(v, k / 2));
        let extracted = self.bind_all(requests, 2 * n);
        let bound = self.bound_all(requests, 2 * n);
        let size = IdSize::Matrix { row_size: n as usize, col_size: 1 };
        (
            extracted.bind(
                name,
                size,
                OprView::ConstructMatrix(Seq::new(n, |i: int| seq![bound[2 * i]])),
            ),
            extracted.bound(name, size),
        )
    }

    /// The session after the product of the matrices `a` and `b` was built,
    /// and the product's identifier: every cell of `a` is extracted row by
    /// row and every cell of `b` column by column, the rows and the columns
    /// are gathered into vectors, one spare identifier is made, one dot
    /// product is bound per cell of the result, and the dot products are
    /// gathered into the result.
    pub open spec fn matmul(self, a: IdentView, b: IdentView, rows: nat, inner: nat, cols: nat) -> (
        SessionView,
        IdentView,
    ) {
        let a_requests = grid_requests(a, rows, inner);
        let s1 = self.bind_rows(a_requests, rows);
        let a_ids = self.bound_rows(a_requests, rows);
        let b_requests = columns_requests(b, inner, cols);
        let s2 = s1.bind_rows(b_requests, cols);
        let b_ids = s1.bound_rows(b_requests, cols);
        let row_requests = gather_requests("row_vector"@, inner, a_ids);
        let s3 = s2.bind_all(row_requests, rows);
        let row_ids = s2.bound_all(row_requests, rows);
        let col_requests = gather_requests("col_vector"@, inner, b_ids);
        let s4 = s3.bind_all(col_requests, cols);
        let col_ids = s3.bound_all(col_requests, cols);
        let s5 = s4.reserve("bos"@);
        let dots = dot_requests(row_ids, col_ids);
        let s6 = s5.bind_rows(dots, rows);
        let dot_ids = s5.bound_rows(dots, rows);
        let size = IdSize::Matrix { row_size: rows as usize, col_size: cols as usize };
        let name = a.name + "_matmul_"@ + b.name;
        (s6.bind(name, size, OprView::ConstructMatrix(dot_ids)), s6.bound(name, size))
    }
}

/// Binding whole rows of requests creates one identifier per request.
pub proof fn lemma_bound_all_len(start: SessionView, requests: Seq<Request>, n: nat)
    ensures
        start.bound_all(requests, n).len() == n,
    decreases n,
{
    if n > 0 {
        lemma_bound_all_len(start, requests, (n - 1) as nat);
    }
}

/// Binding rows of requests creates one row of identifiers per row.
pub proof fn lemma_bound_rows_len(start: SessionView, rows: Seq<Seq<Request>>, n: nat)
    ensures
        start.bound_rows(rows, n).len() == n,
    decreases n,
{
    if n > 0 {
        lemma_bound_rows_len(start, rows, (n - 1) as nat);
    }
}

/// The dot product over `n` elements reads only the first `n` elements of
/// both operands.
pub proof fn lemma_dot_value_reads(
    a1: Seq<real>,
    b1: Seq<real>,
    a2: Seq<real>,
    b2: Seq<real>,
    n: nat,
)
    requires
        forall|k: int| 0 <= k < n ==> a1[k] == a2[k] && b1[k] == b2[k],
    ensures
        dot_value(a1, b1, n) == dot_value(a2, b2, n),
    decreases n,
{
    if n > 0 {
        lemma_dot_value_reads(a1, b1, a2, b2, (n - 1) as nat);
    }
}

impl Matrix {
    /// Extracts the first `cols` cells of row `i`, one node each.
    pub fn extract_row(&self, session: &mut Session, i: usize, cols: usize) -> (r: Vec<Scalar>)
        requires
            old(session).wf(),
            i < self.value@.len(),
            cols <= self.value@[i as int]@.len(),
            old(session)@.namer.room() >= cols,
        ensures
            final(session).wf(),
            final(session)@.namer.room() >= old(session)@.namer.room() - cols,
            r@.len() == cols,
            final(session)@ == old(session)@.bind_all(
                row_requests(self.id@, i as int, cols as nat),
                cols as nat,
            ),
            ids_of(r@) == old(session)@.bound_all(
                row_requests(self.id@, i as int, cols as nat),
                cols as nat,
            ),
            forall|k: int| 0 <= k < cols ==> (#[trigger] r@[k]).value == self.value@[i as int]@[k],
    {
        let ghost start = session@;
        let ghost requests = row_requests(self.id@, i as int, cols as nat);
        let mut scalars: Vec<Scalar> = Vec::new();
        let mut j: usize = 0;
        while j < cols
            invariant
                j <= cols,
                i < self.value@.len(),
                cols <= self.value@[i as int]@.len(),
                session.wf(),
                requests == row_requests(self.id@, i as int, cols as nat),
                start.namer.room() >= cols,
                session@.namer.room() >= start.namer.room() - j,
                scalars@.len() == j,
                session@ == start.bind_all(requests, j as nat),
                ids_of(scalars@) == start.bound_all(requests, j as nat),
                forall|k: int|
                    0 <= k < j ==> (#[trigger] scalars@[k]).value == self.value@[i as int]@[k],
            decreases cols - j,
        {
            let scalar = self.get(session, i, j);
            scalars.push(scalar);
            assert(ids_of(scalars@) =~= start.bound_all(requests, (j + 1) as nat));
            j += 1;
        }
        scalars
    }

    /// Extracts the first `rows` cells of column `j`, one node each.
    pub fn extract_column(&self, session: &mut Session, j: usize, rows: usize) -> (r: Vec<Scalar>)
        requires
            old(session).wf(),
            j < usize::MAX,
            covers(self.value@, rows as nat, (j + 1) as nat),
            old(session)@.namer.room() >= rows,
        ensures
            final(session).wf(),
            final(session)@.namer.room() >= old(session)@.namer.room() - rows,
            r@.len() == rows,
            final(session)@ == old(session)@.bind_all(
                column_requests(self.id@, j as int, rows as nat),
                rows as nat,
            ),
            ids_of(r@) == old(session)@.bound_all(
                column_requests(self.id@, j as int, rows as nat),
                rows as nat,
            ),
            forall|k: int| 0 <= k < rows ==> (#[trigger] r@[k]).value == self.value@[k]@[j as int],
    {
        let ghost start = session@;
        let ghost requests = column_requests(self.id@, j as int, rows as nat);
        let mut scalars: Vec<Scalar> = Vec::new();
        let mut i: usize = 0;
        while i < rows
            invariant
                i <= rows,
                j < usize::MAX,
                covers(self.value@, rows as nat, (j + 1) as nat),
                session.wf(),
                requests == column_requests(self.id@, j as int, rows as nat),
                start.namer.room() >= rows,
                session@.namer.room() >= start.namer.room() - i,
                scalars@.len() == i,
                session@ == start.bind_all(requests, i as nat),
                ids_of(scalars@) == start.bound_all(requests, i as nat),
                forall|k: int|
                    0 <= k < i ==> (#[trigger] scalars@[k]).value == self.value@[k]@[j as int],
            decreases rows - i,
        {
            assert(self.value@[i as int]@.len() >= j + 1);
            let scalar = self.get(session, i, j);
            scalars.push(scalar);
            assert(ids_of(scalars@) =~= start.bound_all(requests, (i + 1) as nat));
            i += 1;
        }
        scalars
    }

    /// Extracts the first `cols` cells of each of the first `rows` rows, row
    /// by row.
    pub fn extract_grid(&self, session: &mut Session, rows: usize, cols: usize) -> (r: Vec<
        Vec<Scalar>,
    >)
        requires
            old(session).wf(),
            covers(self.value@, rows as nat, cols as nat),
            old(session)@.namer.room() >= rows * cols,
        ensures
            final(session).wf(),
            final(session)@.namer.room() >= old(session)@.namer.room() - rows * cols,
            r@.len() == rows,
            final(session)@ == old(session)@.bind_rows(
                grid_requests(self.id@, rows as nat, cols as nat),
                rows as nat,
            ),
            grid_ids_of(r@) == old(session)@.bound_rows(
                grid_requests(self.id@, rows as nat, cols as nat),
                rows as nat,
            ),
            forall|i: int| 0 <= i < rows ==> (#[trigger] r@[i])@.len() == cols,
            forall|i: int, k: int|
                0 <= i < rows && 0 <= k < cols ==> (#[trigger] r@[i]@[k]).value
                    == self.value@[i]@[k],
    {
        let ghost start = session@;
        let ghost requests = grid_requests(self.id@, rows as nat, cols as nat);
        let mut grid: Vec<Vec<Scalar>> = Vec::new();
        let mut i: usize = 0;
        while i < rows
            invariant
                i <= rows,
                covers(self.value@, rows as nat, cols as nat),
                session.wf(),
                requests == grid_requests(self.id@, rows as nat, cols as nat),
                start.namer.room() >= rows * cols,
                session@.namer.room() >= start.namer.room() - i * cols,
                grid@.len() == i,
                session@ == start.bind_rows(requests, i as nat),
                grid_ids_of(grid@) == start.bound_rows(requests, i as nat),
                forall|a: int| 0 <= a < i ==> (#[trigger] grid@[a])@.len() == cols,
                forall|a: int, k: int|
                    0 <= a < i && 0 <= k < cols ==> (#[trigger] grid@[a]@[k]).value
                        == self.value@[a]@[k],
            decreases rows - i,
        {
            proof {
                assert((i + 1) * cols == i * cols + cols) by (nonlinear_arith);
                assert((i + 1) * cols <= rows * cols) by (nonlinear_arith)
                    requires
                        i + 1 <= rows,
                ;
                assert(self.value@[i as int]@.len() >= cols);
                assert(requests[i as int].len() == cols);
            }
            let row = self.extract_row(session, i, cols);
            grid.push(row);
            assert(grid_ids_of(grid@) =~= start.bound_rows(requests, (i + 1) as nat));
            i += 1;
        }
        grid
    }

    /// Extracts the first `rows` cells of each of the first `cols` columns,
    /// column by column.
    pub fn extract_columns(&self, session: &mut Session, rows: usize, cols: usize) -> (r: Vec<
        Vec<Scalar>,
    >)
        requires
            old(session).wf(),
            covers(self.value@, rows as nat, cols as nat),
            old(session)@.namer.room() >= cols * rows,
        ensures
            final(session).wf(),
            final(session)@.namer.room() >= old(session)@.namer.room() - cols * rows,
            r@.len() == cols,
            final(session)@ == old(session)@.bind_rows(
                columns_requests(self.id@, rows as nat, cols as nat),
                cols as nat,
            ),
            grid_ids_of(r@) == old(session)@.bound_rows(
                columns_requests(self.id@, rows as nat, cols as nat),
                cols as nat,
            ),
            forall|j: int| 0 <= j < cols ==> (#[trigger] r@[j])@.len() == rows,
            forall|j: int, k: int|
                0 <= j < cols && 0 <= k < rows ==> (#[trigger] r@[j]@[k]).value
                    == self.value@[k]@[j],
    {
        let ghost start = session@;
        let ghost requests = columns_requests(self.id@, rows as nat, cols as nat);
        let mut grid: Vec<Vec<Scalar>> = Vec::new();
        let mut j: usize = 0;
        while j < cols
            invariant
                j <= cols,
                covers(self.value@, rows as nat, cols as nat),
                session.wf(),
                requests == columns_requests(self.id@, rows as nat, cols as nat),
                start.namer.room() >= cols * rows,
                session@.namer.room() >= start.namer.room() - j * rows,
                grid@.len() == j,
                session@ == start.bind_rows(requests, j as nat),
                grid_ids_of(grid@) == start.bound_rows(requests, j as nat),
                forall|a: int| 0 <= a < j ==> (#[trigger] grid@[a])@.len() == rows,
                forall|a: int, k: int|
                    0 <= a < j && 0 <= k < rows ==> (#[trigger] grid@[a]@[k]).value
                        == self.value@[k]@[a],
            decreases cols - j,
        {
            proof {
                assert((j + 1) * rows == j * rows + rows) by (nonlinear_arith);
                assert((j + 1) * rows <= cols * rows) by (nonlinear_arith)
                    requires
                        j + 1 <= cols,
                ;
                assert(requests[j as int].len() == rows);
                assert forall|a: int| 0 <= a < rows implies (#[trigger] self.value@[a])@.len()
                    >= j + 1 by {}
            }
            let column = self.extract_column(session, j, rows);
            grid.push(column);
            assert(grid_ids_of(grid@) =~= start.bound_rows(requests, (j + 1) as nat));
            j += 1;
        }
        grid
    }

    /// The matrix of one column as a vector: each cell of the column is
    /// extracted, and the extractions are gathered under the matrix's name.
    /// The matrix has a row, the first row has one cell, and no row is
    /// empty.
    pub fn to_vector(&self, session: &mut Session) -> (r: Vector)
        requires
            old(session).wf(),
            self.value@.len() > 0,
            self.value@[0]@.len() == 1,
            covers(self.value@, self.value@.len(), 1),
            old(session)@.namer.room() >= self.value@.len() + 1,
        ensures
            final(session).wf(),
            final(session)@.namer.room() >= old(session)@.namer.room() - self.value@.len() - 1,
            reals_view(r.value@) == column(real_grid_view(self.value@), 0),
            r.value@.len() == self.value@.len(),
            (final(session)@, r.id@) == old(session)@.matrix_as_vector(
                self.id@,
                self.value@.len(),
            ),
    {
        let rows = self.value.len();
        let cells = self.extract_column(session, 0, rows);
        let result = gather(session, self.id.name.as_str(), &cells);
        assert(reals_view(result.value@) =~= column(real_grid_view(self.value@), 0));
        result
    }

    /// The vector `vector`, which is not empty, as a matrix of one column.
    /// Every element is extracted twice; the first extraction becomes the
    /// cell.
    pub fn from_vector(session: &mut Session, name: &str, vector: &Vector) -> (r: Matrix)
        requires
            old(session).wf(),
            vector.value@.len() > 0,
            old(session)@.namer.room() >= 2 * vector.value@.len() + 1,
        ensures
            final(session).wf(),
            final(session)@.namer.room() >= old(session)@.namer.room() - 2 * vector.value@.len()
                - 1,
            real_grid_view(r.value@) == Seq::new(
                vector.value@.len(),
                |i: int| seq![vector.value@[i]@],
            ),
            r.value@.len() == vector.value@.len(),
            forall|i: int| 0 <= i < r.value@.len() ==> (#[trigger] r.value@[i])@.len() == 1,
            (final(session)@, r.id@) == old(session)@.vector_as_matrix(
                name@,
                vector.id@,
                vector.value@.len(),
            ),
    {
        let n = vector.size();
        let ghost start = session@;
        let ghost requests = Seq::new(
            2 * n as nat,
            |k: int| crate::vector::element_request(vector.id@, k / 2),
        );
        let mut grid: Vec<Vec<Scalar>> = Vec::new();
        let mut i: usize = 0;
        while i < n
            invariant
                i <= n,
                n == vector.value@.len(),
                session.wf(),
                requests == Seq::new(
                    2 * n as nat,
                    |k: int| crate::vector::element_request(vector.id@, k / 2),
                ),
                start.namer.room() >= 2 * n + 1,
                session@.namer.room() >= start.namer.room() - 2 * i,
                grid@.len() == i,
                session@ == start.bind_all(requests, (2 * i) as nat),
                forall|a: int| 0 <= a < i ==> (#[trigger] grid@[a])@.len() == 1,
                forall|a: int|
                    0 <= a < i ==> (#[trigger] grid@[a])@[0].id@ == start.bound_all(
                        requests,
                        (2 * n) as nat,
                    )[2 * a],
                forall|a: int| 0 <= a < i ==> (#[trigger] grid@[a])@[0].value@ == vector.value@[a]@,
            decreases n - i,
        {
            proof {
                assert((2 * i) / 2 == i);
                assert((2 * i + 1) / 2 == i);
                assert(requests[2 * i as int] == crate::vector::element_request(
                    vector.id@,
                    i as int,
                ));
                assert(requests[2 * i + 1] == crate::vector::element_request(
                    vector.id@,
                    i as int,
                ));
                lemma_bound_all_index(start, requests, (2 * n) as nat, 2 * i as int);
            }
            let first = vector.get(session, i);
            assert(session@ == start.bind_all(requests, (2 * i + 1) as nat));
            let second = vector.get(session, i);
            assert(session@ == start.bind_all(requests, (2 * i + 2) as nat));
            let mut row: Vec<Scalar> = Vec::new();
            row.push(Scalar { id: first.id, value: second.value });
            grid.push(row);
            i += 1;
        }
        let result = gather_grid(session, name, &grid);
        proof {
            let bound = start.bound_all(requests, (2 * n) as nat);
            assert(grid_ids_of(grid@) =~= Seq::new(n as nat, |i: int| seq![bound[2 * i]])) by {
                assert forall|a: int| 0 <= a < n implies grid_ids_of(grid@)[a] =~= seq![
                    bound[2 * a],
                ] by {
                    assert(grid@[a]@.len() == 1);
                }
            }
            assert(real_grid_view(result.value@) =~= Seq::new(
                n as nat,
                |i: int| seq![vector.value@[i]@],
            )) by {
                assert forall|a: int| 0 <= a < n implies real_grid_view(result.value@)[a]
                    =~= seq![vector.value@[a]@] by {
                    assert(grid@[a]@.len() == 1);
                }
            }
            assert forall|a: int| 0 <= a < result.value@.len() implies (
            #[trigger] result.value@[a])@.len() == 1 by {
                assert(real_grid_view(result.value@)[a].len() == 1);
            }
        }
        result
    }
}

/// The `i`-th identifier that binding `n` requests creates is the one that
/// the `i`-th request is bound to.
pub proof fn lemma_bound_all_index(start: SessionView, requests: Seq<Request>, n: nat, i: int)
    requires
        0 <= i < n,
    ensures
        start.bound_all(requests, n)[i] == start.bind_all(requests, i as nat).bound(
            requests[i].name,
            requests[i].size,
        ),
        start.bound_all(requests, n).len() == n,
    decreases n,
{
    lemma_bound_all_len(start, requests, n);
    lemma_bound_all_len(start, requests, (n - 1) as nat);
    if i < n - 1 {
        lemma_bound_all_index(start, requests, (n - 1) as nat, i);
    }
}

/// The values of a list of matrices.
pub open spec fn matrix_values(matrices: Seq<&Matrix>) -> Seq<Seq<Seq<real>>> {
    Seq::new(matrices.len(), |i: int| real_grid_view(matrices[i].value@))
}

/// Row `r` of the first `n` grids side by side; a grid without such a row
/// adds nothing.
pub open spec fn joined_row<T>(matrices: Seq<Seq<Seq<T>>>, r: int, n: nat) -> Seq<T>
    decreases n,
{
    if n == 0 {
        Seq::empty()
    } else {
        joined_row(matrices, r, (n - 1) as nat) + (if r < matrices[n - 1].len() {
            matrices[n - 1][r]
        } else {
            Seq::empty()
        })
    }
}

/// The grids side by side, with as many rows as the first has; nothing for
/// no grid.
pub open spec fn side_by_side<T>(matrices: Seq<Seq<Seq<T>>>) -> Seq<Seq<T>> {
    if matrices.len() == 0 {
        Seq::empty()
    } else {
        Seq::new(matrices[0].len(), |r: int| joined_row(matrices, r, matrices.len()))
    }
}

/// The rows of the first `n` grids, one grid below the other.
pub open spec fn stacked<T>(matrices: Seq<Seq<Seq<T>>>, n: nat) -> Seq<Seq<T>>
    decreases n,
{
    if n == 0 {
        Seq::empty()
    } else {
        stacked(matrices, (n - 1) as nat) + matrices[n - 1]
    }
}

/// The matrix has a row, and all its rows have the length of the first.
pub open spec fn regular(m: &Matrix) -> bool {
    m.value@.len() > 0 && is_grid(real_grid_view(m.value@), m.value@[0]@.len())
}

/// The extractions of every cell of the matrix, row by row.
pub open spec fn all_cells(m: &Matrix) -> Seq<Seq<Request>> {
    grid_requests(m.id@, m.value@.len(), m.value@[0]@.len())
}

/// The number of cells of the first `n` matrices.
pub open spec fn total_cells(matrices: Seq<&Matrix>, n: nat) -> nat
    decreases n,
{
    if n == 0 {
        0
    } else {
        total_cells(matrices, (n - 1) as nat) + matrices[n - 1].value@.len() * matrices[n
            - 1].value@[0]@.len()
    }
}

/// The session after every cell of the first `n` matrices was extracted,
/// matrix by matrix and row by row.
pub open spec fn extracted(start: SessionView, matrices: Seq<&Matrix>, n: nat) -> SessionView
    decreases n,
{
    if n == 0 {
        start
    } else {
        extracted(start, matrices, (n - 1) as nat).bind_rows(
            all_cells(matrices[n - 1]),
            matrices[n - 1].value@.len(),
        )
    }
}

/// The scalars that `extracted` creates: one grid for each matrix.
pub open spec fn extractions(start: SessionView, matrices: Seq<&Matrix>, n: nat) -> Seq<
    Seq<Seq<IdentView>>,
>
    decreases n,
{
    if n == 0 {
        Seq::empty()
    } else {
        extractions(start, matrices, (n - 1) as nat).push(
            extracted(start, matrices, (n - 1) as nat).bound_rows(
                all_cells(matrices[n - 1]),
                matrices[n - 1].value@.len(),
            ),
        )
    }
}

/// Every identifier of the grid is a scalar.
pub open spec fn all_scalars(ids: Seq<Seq<IdentView>>) -> bool {
    forall|i: int, j: int|
        0 <= i < ids.len() && 0 <= j < ids[i].len() ==> (#[trigger] ids[i][j]).var_type
            == VarType::Scalar && ids[i][j].size == IdSize::Scalar
}

/// The grids of a list of grids of scalars.
pub open spec fn scalar_grids(cells: Seq<Vec<Vec<Scalar>>>) -> Seq<Seq<Seq<Scalar>>> {
    Seq::new(cells.len(), |m: int| Seq::new(cells[m]@.len(), |i: int| cells[m]@[i]@))
}

/// The identifier of a scalar.
pub open spec fn by_id() -> spec_fn(Scalar) -> IdentView {
    |s: Scalar| s.id@
}

/// The value of a scalar.
pub open spec fn by_value() -> spec_fn(Scalar) -> real {
    |s: Scalar| s.value@
}

/// A grid with `f` applied to every cell.
pub open spec fn map_grid<A, B>(grid: Seq<Seq<A>>, f: spec_fn(A) -> B) -> Seq<Seq<B>> {
    Seq::new(grid.len(), |i: int| Seq::new(grid[i].len(), |k: int| f(grid[i][k])))
}

/// Grids with `f` applied to every cell.
pub open spec fn map_grids<A, B>(grids: Seq<Seq<Seq<A>>>, f: spec_fn(A) -> B) -> Seq<
    Seq<Seq<B>>,
> {
    Seq::new(grids.len(), |m: int| map_grid(grids[m], f))
}

/// Applying `f` to every cell of joined rows is joining the rows of the
/// grids with `f` applied.
pub proof fn lemma_joined_row_map<A, B>(grids: Seq<Seq<Seq<A>>>, r: int, n: nat, f: spec_fn(A) -> B)
    requires
        n <= grids.len(),
        0 <= r,
    ensures
        Seq::new(joined_row(grids, r, n).len(), |k: int| f(joined_row(grids, r, n)[k]))
            == joined_row(map_grids(grids, f), r, n),
    decreases n,
{
    if n > 0 {
        lemma_joined_row_map(grids, r, (n - 1) as nat, f);
        let left = joined_row(grids, r, (n - 1) as nat);
        let whole = joined_row(grids, r, n);
        let mapped = joined_row(map_grids(grids, f), r, n);
        let mapped_left = joined_row(map_grids(grids, f), r, (n - 1) as nat);
        assert(mapped_left.len() == left.len());
        assert(Seq::new(whole.len(), |k: int| f(whole[k])) =~= mapped) by {
            assert(map_grids(grids, f)[n - 1].len() == grids[n - 1].len());
            if r < grids[n - 1].len() {
                assert(map_grids(grids, f)[n - 1][r].len() == grids[n - 1][r].len());
                assert forall|k: int| 0 <= k < whole.len() implies f(whole[k]) == mapped[k] by {
                    if k < left.len() {
                        assert(mapped_left[k] == f(left[k]));
                    } else {
                        assert(whole[k] == grids[n - 1][r][k - left.len()]);
                        assert(mapped[k] == map_grids(grids, f)[n - 1][r][k - left.len()]);
                    }
                }
            } else {
                assert(whole =~= left);
                assert(mapped =~= mapped_left);
                assert forall|k: int| 0 <= k < whole.len() implies f(whole[k]) == mapped[k] by {
                    assert(mapped_left[k] == f(left[k]));
                }
            }
        }
    } else {
        assert(Seq::new(0nat, |k: int| f(joined_row(grids, r, n)[k])) =~= joined_row(
            map_grids(grids, f),
            r,
            n,
        ));
    }
}

/// Applying `f` to every cell of grids side by side is putting side by side
/// the grids with `f` applied.
pub proof fn lemma_side_by_side_map<A, B>(grids: Seq<Seq<Seq<A>>>, f: spec_fn(A) -> B)
    ensures
        map_grid(side_by_side(grids), f) == side_by_side(map_grids(grids, f)),
{
    if grids.len() > 0 {
        assert(map_grids(grids, f)[0].len() == grids[0].len());
        assert forall|r: int| 0 <= r < grids[0].len() implies map_grid(side_by_side(grids), f)[r]
            == side_by_side(map_grids(grids, f))[r] by {
            lemma_joined_row_map(grids, r, grids.len(), f);
        }
        assert(map_grid(side_by_side(grids), f) =~= side_by_side(map_grids(grids, f)));
    } else {
        assert(map_grid(side_by_side(grids), f) =~= side_by_side(map_grids(grids, f)));
    }
}

/// Applying `f` to every cell of stacked grids is stacking the grids with
/// `f` applied.
pub proof fn lemma_stacked_map<A, B>(grids: Seq<Seq<Seq<A>>>, n: nat, f: spec_fn(A) -> B)
    requires
        n <= grids.len(),
    ensures
        map_grid(stacked(grids, n), f) == stacked(map_grids(grids, f), n),
    decreases n,
{
    if n > 0 {
        lemma_stacked_map(grids, (n - 1) as nat, f);
        let upper = stacked(grids, (n - 1) as nat);
        let mapped_upper = stacked(map_grids(grids, f), (n - 1) as nat);
        assert(mapped_upper.len() == upper.len()) by {
            assert(map_grid(upper, f).len() == upper.len());
        }
        assert(map_grid(stacked(grids, n), f) =~= stacked(map_grids(grids, f), n)) by {
            assert forall|i: int| 0 <= i < stacked(grids, n).len() implies map_grid(
                stacked(grids, n),
                f,
            )[i] == stacked(map_grids(grids, f), n)[i] by {
                if i < upper.len() {
                    assert(map_grid(upper, f)[i] == mapped_upper[i]);
                } else {
                    assert(stacked(grids, n)[i] == grids[n - 1][i - upper.len()]);
                }
            }
        }
    } else {
        assert(map_grid(stacked(grids, n), f) =~= stacked(map_grids(grids, f), n));
    }
}

/// The identifiers that bound requests for scalars create are scalars.
pub proof fn lemma_bound_cells_are_scalars(start: SessionView, m: IdentView, rows: nat, cols: nat)
    ensures
        all_scalars(start.bound_rows(grid_requests(m, rows, cols), rows)),
        start.bound_rows(grid_requests(m, rows, cols), rows).len() == rows,
        forall|i: int|
            0 <= i < rows ==> (#[trigger] start.bound_rows(
                grid_requests(m, rows, cols),
                rows,
            )[i]).len() == cols,
{
    let requests = grid_requests(m, rows, cols);
    lemma_bound_rows_len(start, requests, rows);
    assert forall|i: int| 0 <= i < rows implies (#[trigger] start.bound_rows(requests, rows)[i]).len()
        == cols && (forall|j: int|
        0 <= j < cols ==> (#[trigger] start.bound_rows(requests, rows)[i][j]).var_type
            == VarType::Scalar && start.bound_rows(requests, rows)[i][j].size == IdSize::Scalar) by {
        lemma_bound_rows_index(start, requests, rows, i);
        let before = start.bind_rows(requests, i as nat);
        lemma_bound_all_len(before, requests[i], cols);
        assert forall|j: int| 0 <= j < cols implies (#[trigger] before.bound_all(
            requests[i],
            cols,
        )[j]).var_type == VarType::Scalar && before.bound_all(requests[i], cols)[j].size
            == IdSize::Scalar by {
            lemma_bound_all_index(before, requests[i], cols, j);
        }
    }
}

/// Row `i` of the identifiers that binding `n` rows creates is what binding
/// row `i` creates after the rows before it.
pub proof fn lemma_bound_rows_index(start: SessionView, rows: Seq<Seq<Request>>, n: nat, i: int)
    requires
        0 <= i < n,
    ensures
        start.bound_rows(rows, n)[i] == start.bind_rows(rows, i as nat).bound_all(
            rows[i],
            rows[i].len(),
        ),
    decreases n,
{
    lemma_bound_rows_len(start, rows, (n - 1) as nat);
    if i < n - 1 {
        lemma_bound_rows_index(start, rows, (n - 1) as nat, i);
    }
}

/// The cells of fewer matrices are not more.
pub proof fn lemma_total_cells_monotone(matrices: Seq<&Matrix>, a: nat, b: nat)
    requires
        a <= b,
    ensures
        total_cells(matrices, a) <= total_cells(matrices, b),
    decreases b - a,
{
    if a < b {
        lemma_total_cells_monotone(matrices, a, (b - 1) as nat);
        assert(matrices[b - 1].value@.len() * matrices[b - 1].value@[0]@.len() >= 0) by (nonlinear_arith);
    }
}

/// Copies a list of scalars.
fn clone_scalars(row: &Vec<Scalar>) -> (r: Vec<Scalar>)
    ensures
        r@ == row@,
{
    let mut out: Vec<Scalar> = Vec::new();
    let mut k: usize = 0;
    while k < row.len()
        invariant
            k <= row.len(),
            out@ == row@.subrange(0, k as int),
        decreases row.len() - k,
    {
        out.push(row[k].clone());
        assert(out@ =~= row@.subrange(0, k + 1));
        k += 1;
    }
    assert(row@.subrange(0, row@.len() as int) =~= row@);
    out
}

/// Extracts every cell of every matrix, matrix by matrix and row by row.
pub fn extract_all(session: &mut Session, matrices: &Vec<&Matrix>) -> (r: Vec<Vec<Vec<Scalar>>>)
    requires
        old(session).wf(),
        forall|m: int| 0 <= m < matrices@.len() ==> regular(#[trigger] matrices@[m]),
        old(session)@.namer.room() >= total_cells(matrices@, matrices@.len()),
    ensures
        final(session).wf(),
        final(session)@.namer.room() >= old(session)@.namer.room() - total_cells(
            matrices@,
            matrices@.len(),
        ),
        final(session)@ == extracted(old(session)@, matrices@, matrices@.len()),
        r@.len() == matrices@.len(),
        map_grids(scalar_grids(r@), by_id()) == extractions(
            old(session)@,
            matrices@,
            matrices@.len(),
        ),
        map_grids(scalar_grids(r@), by_value()) == matrix_values(matrices@),
        forall|m: int| 0 <= m < r@.len() ==> (#[trigger] r@[m])@.len() == matrices@[m].value@.len(),
        forall|m: int, i: int|
            0 <= m < r@.len() && 0 <= i < r@[m]@.len() ==> (#[trigger] r@[m]@[i])@.len()
                == matrices@[m].value@[0]@.len(),
        forall|m: int|
            0 <= m < r@.len() ==> all_scalars(
                #[trigger] map_grids(scalar_grids(r@), by_id())[m],
            ),
{
    let count = matrices.len();
    let ghost start = session@;
    let mut cells: Vec<Vec<Vec<Scalar>>> = Vec::new();
    let mut m: usize = 0;
    assert(map_grids(scalar_grids(cells@), by_id()) =~= extractions(start, matrices@, 0));
    while m < count
        invariant
            m <= count,
            count == matrices@.len(),
            forall|a: int| 0 <= a < matrices@.len() ==> regular(#[trigger] matrices@[a]),
            session.wf(),
            start.namer.room() >= total_cells(matrices@, count as nat),
            session@.namer.room() >= start.namer.room() - total_cells(matrices@, m as nat),
            session@ == extracted(start, matrices@, m as nat),
            cells@.len() == m,
            map_grids(scalar_grids(cells@), by_id()) == extractions(start, matrices@, m as nat),
            forall|a: int|
                0 <= a < m ==> map_grid(#[trigger] scalar_grids(cells@)[a], by_value())
                    == real_grid_view(matrices@[a].value@),
            forall|a: int| 0 <= a < m ==> (#[trigger] cells@[a])@.len() == matrices@[a].value@.len(),
            forall|a: int, i: int|
                0 <= a < m && 0 <= i < cells@[a]@.len() ==> (#[trigger] cells@[a]@[i])@.len()
                    == matrices@[a].value@[0]@.len(),
            forall|a: int|
                0 <= a < m ==> all_scalars(
                    #[trigger] map_grids(scalar_grids(cells@), by_id())[a],
                ),
        decreases count - m,
    {
        let matrix = matrices[m];
        assert(regular(matrices@[m as int]));
        let (rows, cols) = matrix.size();
        let ghost before = session@;
        let ghost earlier = scalar_grids(cells@);
        proof {
            lemma_total_cells_monotone(matrices@, (m + 1) as nat, count as nat);
            assert forall|i: int| 0 <= i < rows implies (#[trigger] matrix.value@[i])@.len()
                >= cols by {
                assert(real_grid_view(matrix.value@)[i].len() == cols);
            }
            lemma_bound_cells_are_scalars(before, matrix.id@, rows as nat, cols as nat);
        }
        let grid = matrix.extract_grid(session, rows, cols);
        proof {
            let ids = before.bound_rows(all_cells(matrix), rows as nat);
            assert(grid_ids_of(grid@) == ids);
            let added = Seq::new(grid@.len(), |i: int| grid@[i]@);
            assert(map_grid(added, by_id()) =~= ids) by {
                assert forall|i: int| 0 <= i < rows implies map_grid(added, by_id())[i]
                    =~= ids[i] by {
                    assert(grid_ids_of(grid@)[i] == ids_of(grid@[i]@));
                }
            }
            assert(map_grid(added, by_value()) =~= real_grid_view(matrix.value@)) by {
                assert forall|i: int| 0 <= i < rows implies map_grid(added, by_value())[i]
                    =~= real_grid_view(matrix.value@)[i] by {
                    assert(grid@[i]@.len() == cols);
                    assert(real_grid_view(matrix.value@)[i].len() == cols);
                    assert forall|k: int| 0 <= k < cols implies map_grid(added, by_value())[i][k]
                        == real_grid_view(matrix.value@)[i][k] by {
                        assert(grid@[i]@[k].value == matrix.value@[i]@[k]);
                    }
                }
            }
        }
        cells.push(grid);
        proof {
            let now = scalar_grids(cells@);
            assert(now =~= earlier.push(Seq::new(grid@.len(), |i: int| grid@[i]@))) by {
                assert forall|a: int| 0 <= a < now.len() implies now[a] =~= earlier.push(
                    Seq::new(grid@.len(), |i: int| grid@[i]@),
                )[a] by {}
            }
            assert(map_grids(now, by_id()) =~= extractions(start, matrices@, (m + 1) as nat)) by {
                assert forall|a: int| 0 <= a < m implies map_grids(now, by_id())[a] == map_grids(
                    earlier,
                    by_id(),
                )[a] by {
                    assert(now[a] == earlier[a]);
                }
            }
            assert forall|a: int| 0 <= a < m + 1 implies map_grid(
                #[trigger] scalar_grids(cells@)[a],
                by_value(),
            ) == real_grid_view(matrices@[a].value@) by {
                if a < m {
                    assert(now[a] == earlier[a]);
                }
            }
            assert forall|a: int| 0 <= a < m + 1 implies all_scalars(
                #[trigger] map_grids(scalar_grids(cells@), by_id())[a],
            ) by {
                if a < m {
                    assert(now[a] == earlier[a]);
                    assert(map_grids(now, by_id())[a] == map_grids(earlier, by_id())[a]);
                }
            }
        }
        m += 1;
    }
    assert(map_grids(scalar_grids(cells@), by_value()) =~= matrix_values(matrices@));
    cells
}

/// The extractions of the first `len` elements of each vector.
pub open spec fn vectors_requests(vectors: Seq<&Vector>, len: nat) -> Seq<Seq<Request>> {
    Seq::new(vectors.len(), |v: int| crate::vector::element_requests(vectors[v].id@, len))
}

impl Matrix {
    /// The matrix whose rows are the given vectors, of which there is at
    /// least one, all of one length: every element of every vector is
    /// extracted, and the extractions are gathered.
    pub fn from_vectors(session: &mut Session, name: &str, vectors: Vec<&Vector>) -> (r: Matrix)
        requires
            old(session).wf(),
            vectors@.len() > 0,
            forall|v: int|
                0 <= v < vectors@.len() ==> (#[trigger] vectors@[v]).value@.len()
                    == vectors@[0].value@.len(),
            old(session)@.namer.room() >= vectors@.len() * vectors@[0].value@.len() + 1,
        ensures
            final(session).wf(),
            final(session)@.namer.room() >= old(session)@.namer.room() - vectors@.len()
                * vectors@[0].value@.len() - 1,
            real_grid_view(r.value@) == Seq::new(
                vectors@.len(),
                |v: int| reals_view(vectors@[v].value@),
            ),
            ({
                let len = vectors@[0].value@.len();
                let requests = vectors_requests(vectors@, len);
                appended(
                    old(session)@.bind_rows(requests, vectors@.len()),
                    final(session)@,
                    r.id@,
                    name@,
                    IdSize::Matrix { row_size: vectors@.len() as usize, col_size: len as usize },
                    OprView::ConstructMatrix(
                        old(session)@.bound_rows(requests, vectors@.len()),
                    ),
                )
            }),
    {
        let len = vectors[0].size();
        let count = vectors.len();
        let ghost start = session@;
        let ghost requests = vectors_requests(vectors@, len as nat);
        let mut grid: Vec<Vec<Scalar>> = Vec::new();
        let mut v: usize = 0;
        while v < count
            invariant
                v <= count,
                count == vectors@.len(),
                len == vectors@[0].value@.len(),
                forall|a: int|
                    0 <= a < vectors@.len() ==> (#[trigger] vectors@[a]).value@.len() == len,
                session.wf(),
                requests == vectors_requests(vectors@, len as nat),
                start.namer.room() >= count * len + 1,
                session@.namer.room() >= start.namer.room() - v * len,
                grid@.len() == v,
                session@ == start.bind_rows(requests, v as nat),
                grid_ids_of(grid@) == start.bound_rows(requests, v as nat),
                forall|a: int| 0 <= a < v ==> (#[trigger] grid@[a])@.len() == len,
                forall|a: int, k: int|
                    0 <= a < v && 0 <= k < len ==> (#[trigger] grid@[a]@[k]).value
                        == vectors@[a].value@[k],
            decreases count - v,
        {
            proof {
                assert((v + 1) * len == v * len + len) by (nonlinear_arith);
                assert((v + 1) * len <= count * len) by (nonlinear_arith)
                    requires
                        v + 1 <= count,
                ;
                assert(requests[v as int].len() == len);
                assert(vectors@[v as int].value@.len() == len);
            }
            let row = vectors[v].extract(session, len);
            grid.push(row);
            assert(grid_ids_of(grid@) =~= start.bound_rows(requests, (v + 1) as nat));
            v += 1;
        }
        let result = gather_grid(session, name, &grid);
        proof {
            assert(real_grid_view(result.value@) =~= Seq::new(
                vectors@.len(),
                |v: int| reals_view(vectors@[v].value@),
            )) by {
                assert forall|a: int| 0 <= a < count implies real_grid_view(result.value@)[a]
                    =~= reals_view(vectors@[a].value@) by {
                    assert(grid@[a]@.len() == len);
                    assert(vectors@[a].value@.len() == len);
                }
            }
        }
        result
    }

    /// The matrices side by side: there is at least one, each has a row and
    /// rows of one length, and all have as many rows as the first. Every
    /// cell of every matrix is extracted, one node each, and the extractions
    /// are gathered row by row.
    pub fn from_matrices_horizontal(session: &mut Session, name: &str, matrices: Vec<&Matrix>) -> (r:
        Matrix)
        requires
            old(session).wf(),
            matrices@.len() > 0,
            forall|m: int| 0 <= m < matrices@.len() ==> regular(#[trigger] matrices@[m]),
            forall|m: int|
                0 <= m < matrices@.len() ==> (#[trigger] matrices@[m]).value@.len()
                    == matrices@[0].value@.len(),
            old(session)@.namer.room() >= total_cells(matrices@, matrices@.len()) + 1,
        ensures
            final(session).wf(),
            final(session)@.namer.room() >= old(session)@.namer.room() - total_cells(
                matrices@,
                matrices@.len(),
            ) - 1,
            real_grid_view(r.value@) == side_by_side(matrix_values(matrices@)),
            r.id@.size == shape_of(real_grid_view(r.value@)),
            ({
                let ids = side_by_side(extractions(old(session)@, matrices@, matrices@.len()));
                &&& all_scalars(ids)
                &&& appended(
                    extracted(old(session)@, matrices@, matrices@.len()),
                    final(session)@,
                    r.id@,
                    name@,
                    shape_of(side_by_side(matrix_values(matrices@))),
                    OprView::ConstructMatrix(ids),
                )
            }),
    {
        let count = matrices.len();
        let rows = matrices[0].value.len();
        let ghost start = session@;
        let cells = extract_all(session, &matrices);
        let ghost grids = scalar_grids(cells@);
        let mut grid: Vec<Vec<Scalar>> = Vec::new();
        let mut r: usize = 0;
        while r < rows
            invariant
                r <= rows,
                count == matrices@.len(),
                count > 0,
                cells@.len() == count,
                rows == matrices@[0].value@.len(),
                grids == scalar_grids(cells@),
                forall|m: int|
                    0 <= m < count ==> (#[trigger] cells@[m])@.len() == matrices@[m].value@.len(),
                forall|m: int|
                    0 <= m < count ==> (#[trigger] matrices@[m]).value@.len() == rows,
                forall|m: int| 0 <= m < count ==> all_scalars(#[trigger] map_grids(grids, by_id())[m]),
                grid@.len() == r,
                forall|a: int| 0 <= a < r ==> (#[trigger] grid@[a])@ == joined_row(
                    grids,
                    a,
                    count as nat,
                ),
                forall|a: int, k: int|
                    0 <= a < r && 0 <= k < grid@[a]@.len() ==> (#[trigger] grid@[a]@[k]).id@.var_type
                        == VarType::Scalar && grid@[a]@[k].id@.size == IdSize::Scalar,
            decreases rows - r,
        {
            let mut joined: Vec<Scalar> = Vec::new();
            assert(joined@ =~= joined_row(grids, r as int, 0));
            let mut m: usize = 0;
            while m < count
                invariant
                    m <= count,
                    r < rows,
                    count == matrices@.len(),
                    cells@.len() == count,
                    grids == scalar_grids(cells@),
                    forall|a: int|
                        0 <= a < count ==> (#[trigger] cells@[a])@.len()
                            == matrices@[a].value@.len(),
                    forall|a: int|
                        0 <= a < count ==> (#[trigger] matrices@[a]).value@.len() == rows,
                    forall|a: int|
                        0 <= a < count ==> all_scalars(#[trigger] map_grids(grids, by_id())[a]),
                    joined@ == joined_row(grids, r as int, m as nat),
                    forall|k: int|
                        0 <= k < joined@.len() ==> (#[trigger] joined@[k]).id@.var_type
                            == VarType::Scalar && joined@[k].id@.size == IdSize::Scalar,
                decreases count - m,
            {
                assert(cells@[m as int]@.len() == matrices@[m as int].value@.len());
                assert(matrices@[m as int].value@.len() == rows);
                let source = &cells[m][r];
                let ghost before = joined@;
                assert(grids[m as int][r as int] == source@);
                proof {
                    assert(all_scalars(map_grids(grids, by_id())[m as int]));
                    assert forall|k: int| 0 <= k < source@.len() implies (#[trigger] source@[k]).id@.var_type
                        == VarType::Scalar && source@[k].id@.size == IdSize::Scalar by {
                        assert(map_grids(grids, by_id())[m as int][r as int][k] == source@[k].id@);
                    }
                }
                let mut k: usize = 0;
                while k < source.len()
                    invariant
                        k <= source.len(),
                        joined@ == before + source@.subrange(0, k as int),
                        forall|a: int|
                            0 <= a < before.len() ==> (#[trigger] before[a]).id@.var_type
                                == VarType::Scalar && before[a].id@.size == IdSize::Scalar,
                        forall|a: int|
                            0 <= a < source@.len() ==> (#[trigger] source@[a]).id@.var_type
                                == VarType::Scalar && source@[a].id@.size == IdSize::Scalar,
                    decreases source.len() - k,
                {
                    joined.push(source[k].clone());
                    assert(joined@ =~= before + source@.subrange(0, k + 1));
                    k += 1;
                }
                assert(source@.subrange(0, source@.len() as int) =~= source@);
                m += 1;
            }
            grid.push(joined);
            r += 1;
        }
        proof {
            assert(grids[0].len() == rows);
            assert(Seq::new(grid@.len(), |i: int| grid@[i]@) =~= side_by_side(grids));
            lemma_side_by_side_map(grids, by_id());
            lemma_side_by_side_map(grids, by_value());
            assert(grid_ids_of(grid@) =~= map_grid(side_by_side(grids), by_id())) by {
                assert forall|i: int| 0 <= i < grid@.len() implies grid_ids_of(grid@)[i]
                    =~= map_grid(side_by_side(grids), by_id())[i] by {}
            }
            assert(grid_values_of(grid@) =~= map_grid(side_by_side(grids), by_value())) by {
                assert forall|i: int| 0 <= i < grid@.len() implies grid_values_of(grid@)[i]
                    =~= map_grid(side_by_side(grids), by_value())[i] by {}
            }
            assert(all_scalars(grid_ids_of(grid@))) by {
                assert forall|i: int, j: int|
                    0 <= i < grid_ids_of(grid@).len() && 0 <= j < grid_ids_of(
                        grid@,
                    )[i].len() implies (#[trigger] grid_ids_of(grid@)[i][j]).var_type
                    == VarType::Scalar && grid_ids_of(grid@)[i][j].size == IdSize::Scalar by {
                    assert(grid_ids_of(grid@)[i][j] == grid@[i]@[j].id@);
                }
            }
        }
        let result = gather_grid(session, name, &grid);
        assert(grid_values_of(grid@)[0].len() == grid@[0]@.len());
        result
    }

    /// The matrices one below the other: there is at least one, each has a
    /// row and rows of one length, and all have as many columns as the
    /// first. Every cell of every matrix is extracted, one node each, and
    /// the extractions are gathered row by row.
    pub fn from_matrices_vertical(session: &mut Session, name: &str, matrices: Vec<&Matrix>) -> (r:
        Matrix)
        requires
            old(session).wf(),
            matrices@.len() > 0,
            forall|m: int| 0 <= m < matrices@.len() ==> regular(#[trigger] matrices@[m]),
            forall|m: int|
                0 <= m < matrices@.len() ==> (#[trigger] matrices@[m]).value@[0]@.len()
                    == matrices@[0].value@[0]@.len(),
            old(session)@.namer.room() >= total_cells(matrices@, matrices@.len()) + 1,
        ensures
            final(session).wf(),
            final(session)@.namer.room() >= old(session)@.namer.room() - total_cells(
                matrices@,
                matrices@.len(),
            ) - 1,
            real_grid_view(r.value@) == stacked(matrix_values(matrices@), matrices@.len()),
            r.id@.size == shape_of(real_grid_view(r.value@)),
            ({
                let ids = stacked(
                    extractions(old(session)@, matrices@, matrices@.len()),
                    matrices@.len(),
                );
                &&& all_scalars(ids)
                &&& appended(
                    extracted(old(session)@, matrices@, matrices@.len()),
                    final(session)@,
                    r.id@,
                    name@,
                    shape_of(stacked(matrix_values(matrices@), matrices@.len())),
                    OprView::ConstructMatrix(ids),
                )
            }),
    {
        let count = matrices.len();
        let ghost start = session@;
        let cells = extract_all(session, &matrices);
        let ghost grids = scalar_grids(cells@);
        let mut grid: Vec<Vec<Scalar>> = Vec::new();
        assert(Seq::new(grid@.len(), |i: int| grid@[i]@) =~= stacked(grids, 0));
        let mut m: usize = 0;
        while m < count
            invariant
                m <= count,
                count == matrices@.len(),
                cells@.len() == count,
                grids == scalar_grids(cells@),
                forall|a: int|
                    0 <= a < count ==> (#[trigger] cells@[a])@.len() == matrices@[a].value@.len(),
                forall|a: int| 0 <= a < count ==> regular(#[trigger] matrices@[a]),
                forall|a: int| 0 <= a < count ==> all_scalars(#[trigger] map_grids(grids, by_id())[a]),
                Seq::new(grid@.len(), |i: int| grid@[i]@) == stacked(grids, m as nat),
                m > 0 ==> grid@.len() > 0,
                forall|a: int, k: int|
                    0 <= a < grid@.len() && 0 <= k < grid@[a]@.len() ==> (#[trigger] grid@[a]@[k]).id@.var_type
                        == VarType::Scalar && grid@[a]@[k].id@.size == IdSize::Scalar,
            decreases count - m,
        {
            let source = &cells[m];
            let ghost before = Seq::new(grid@.len(), |i: int| grid@[i]@);
            assert(regular(matrices@[m as int]));
            assert(source@.len() == matrices@[m as int].value@.len());
            proof {
                assert(all_scalars(map_grids(grids, by_id())[m as int]));
                assert forall|i: int, k: int|
                    0 <= i < source@.len() && 0 <= k < source@[i]@.len() implies (
                #[trigger] source@[i]@[k]).id@.var_type == VarType::Scalar
                    && source@[i]@[k].id@.size == IdSize::Scalar by {
                    assert(map_grids(grids, by_id())[m as int][i][k] == source@[i]@[k].id@);
                }
            }
            let ghost block = grids[m as int];
            assert(block =~= Seq::new(source@.len(), |a: int| source@[a]@));
            let mut i: usize = 0;
            while i < source.len()
                invariant
                    i <= source.len(),
                    Seq::new(grid@.len(), |a: int| grid@[a]@) == before + block.subrange(
                        0,
                        i as int,
                    ),
                    block == Seq::new(source@.len(), |a: int| source@[a]@),
                    forall|a: int, k: int|
                        0 <= a < source@.len() && 0 <= k < source@[a]@.len() ==> (
                        #[trigger] source@[a]@[k]).id@.var_type == VarType::Scalar
                            && source@[a]@[k].id@.size == IdSize::Scalar,
                    forall|a: int, k: int|
                        0 <= a < grid@.len() && 0 <= k < grid@[a]@.len() ==> (
                        #[trigger] grid@[a]@[k]).id@.var_type == VarType::Scalar
                            && grid@[a]@[k].id@.size == IdSize::Scalar,
                decreases source.len() - i,
            {
                let ghost earlier = grid@;
                grid.push(clone_scalars(&source[i]));
                assert(Seq::new(grid@.len(), |a: int| grid@[a]@) =~= before + block.subrange(
                    0,
                    i + 1,
                )) by {
                    let old_deep = Seq::new(earlier.len(), |b: int| earlier[b]@);
                    assert(old_deep == before + block.subrange(0, i as int));
                    assert(earlier.len() == before.len() + i);
                    assert forall|a: int| 0 <= a < grid@.len() implies grid@[a]@ == (before
                        + block.subrange(0, i + 1))[a] by {
                        if a < earlier.len() {
                            assert(grid@[a] == earlier[a]);
                            assert(old_deep[a] == earlier[a]@);
                        } else {
                            assert(grid@[a]@ == source@[i as int]@);
                            assert(block[i as int] == source@[i as int]@);
                        }
                    }
                }
                assert forall|a: int, k: int|
                    0 <= a < grid@.len() && 0 <= k < grid@[a]@.len() implies (
                #[trigger] grid@[a]@[k]).id@.var_type == VarType::Scalar
                    && grid@[a]@[k].id@.size == IdSize::Scalar by {
                    if a < earlier.len() {
                        assert(grid@[a] == earlier[a]);
                    } else {
                        assert(grid@[a]@[k] == source@[i as int]@[k]);
                    }
                }
                i += 1;
            }
            assert(block.subrange(0, source@.len() as int) =~= block);
            m += 1;
        }
        proof {
            lemma_stacked_map(grids, count as nat, by_id());
            lemma_stacked_map(grids, count as nat, by_value());
            let whole = stacked(grids, count as nat);
            assert(grid_ids_of(grid@) =~= map_grid(whole, by_id())) by {
                assert forall|i: int| 0 <= i < grid@.len() implies grid_ids_of(grid@)[i]
                    =~= map_grid(whole, by_id())[i] by {
                    assert(Seq::new(grid@.len(), |a: int| grid@[a]@)[i] == whole[i]);
                }
            }
            assert(grid_values_of(grid@) =~= map_grid(whole, by_value())) by {
                assert forall|i: int| 0 <= i < grid@.len() implies grid_values_of(grid@)[i]
                    =~= map_grid(whole, by_value())[i] by {
                    assert(Seq::new(grid@.len(), |a: int| grid@[a]@)[i] == whole[i]);
                }
            }
            assert(all_scalars(grid_ids_of(grid@))) by {
                assert forall|i: int, j: int|
                    0 <= i < grid_ids_of(grid@).len() && 0 <= j < grid_ids_of(
                        grid@,
                    )[i].len() implies (#[trigger] grid_ids_of(grid@)[i][j]).var_type
                    == VarType::Scalar && grid_ids_of(grid@)[i][j].size == IdSize::Scalar by {
                    assert(grid_ids_of(grid@)[i][j] == grid@[i]@[j].id@);
                }
            }
        }
        let result = gather_grid(session, name, &grid);
        assert(grid_values_of(grid@)[0].len() == grid@[0]@.len());
        result
    }

    /// Replaces the cell at `index` by `scalar`: every cell within the shape
    /// of the matrix is extracted, and the matrix is rebuilt from the
    /// extractions with the scalar in place of one; the matrix names the
    /// rebuilt matrix afterwards. Every row has at least as many cells as
    /// the first.
    pub fn set(&mut self, session: &mut Session, index: (usize, usize), scalar: &Scalar)
        requires
            old(session).wf(),
            index.0 < old(self).value@.len(),
            index.1 < old(self).value@[0]@.len(),
            covers(old(self).value@, old(self).value@.len(), old(self).value@[0]@.len()),
            old(session)@.namer.room() >= old(self).value@.len() * old(self).value@[0]@.len() + 1,
        ensures
            final(session).wf(),
            final(session)@.namer.room() >= old(session)@.namer.room() - old(self).value@.len()
                * old(self).value@[0]@.len() - 1,
            real_grid_view(final(self).value@) == real_grid_view(old(self).value@).update(
                index.0 as int,
                real_grid_view(old(self).value@)[index.0 as int].update(
                    index.1 as int,
                    scalar.value@,
                ),
            ),
            ({
                let rows = old(self).value@.len();
                let cols = old(self).value@[0]@.len();
                let requests = grid_requests(old(self).id@, rows, cols);
                let ids = old(session)@.bound_rows(requests, rows);
                appended(
                    old(session)@.bind_rows(requests, rows),
                    final(session)@,
                    final(self).id@,
                    old(self).id@.name + "_set_"@ + nat_text(index.0 as nat) + "_"@ + nat_text(
                        index.1 as nat,
                    ),
                    IdSize::Matrix { row_size: rows as usize, col_size: cols as usize },
                    OprView::ConstructMatrix(
                        ids.update(
                            index.0 as int,
                            ids[index.0 as int].update(index.1 as int, scalar.id@),
                        ),
                    ),
                )
            }),
    {
        let (rows, cols) = self.size();
        let ghost start = session@;
        let ghost requests = grid_requests(self.id@, rows as nat, cols as nat);
        let cells = self.extract_grid(session, rows, cols);
        let ghost bound = start.bound_rows(requests, rows as nat);
        let mut ids: Vec<Vec<Identifier>> = Vec::new();
        let mut values: Vec<Vec<Real>> = Vec::new();
        let mut i: usize = 0;
        while i < rows
            invariant
                i <= rows,
                rows == self.value@.len(),
                rows == cells@.len(),
                index.0 < rows,
                index.1 < cols,
                covers(self.value@, rows as nat, cols as nat),
                forall|a: int| 0 <= a < rows ==> (#[trigger] cells@[a])@.len() == cols,
                ids@.len() == i,
                values@.len() == i,
                forall|a: int|
                    0 <= a < i ==> idents_view((#[trigger] ids@[a])@) == (if a == index.0 {
                        ids_of(cells@[a]@).update(index.1 as int, scalar.id@)
                    } else {
                        ids_of(cells@[a]@)
                    }),
                forall|a: int|
                    0 <= a < i ==> reals_view((#[trigger] values@[a])@) == (if a == index.0 {
                        reals_view(self.value@[a]@).update(index.1 as int, scalar.value@)
                    } else {
                        reals_view(self.value@[a]@)
                    }),
            decreases rows - i,
        {
            let mut row_ids: Vec<Identifier> = Vec::new();
            let mut j: usize = 0;
            while j < cols
                invariant
                    j <= cols,
                    i < rows,
                    rows == cells@.len(),
                    cells@[i as int]@.len() == cols,
                    row_ids@.len() == j,
                    forall|k: int|
                        0 <= k < j ==> (#[trigger] row_ids@[k])@ == (if i == index.0 && k
                            == index.1 {
                            scalar.id@
                        } else {
                            cells@[i as int]@[k].id@
                        }),
                decreases cols - j,
            {
                if i == index.0 && j == index.1 {
                    row_ids.push(scalar.id.clone());
                } else {
                    row_ids.push(cells[i][j].id.clone());
                }
                j += 1;
            }
            proof {
                if i == index.0 {
                    assert(idents_view(row_ids@) =~= ids_of(cells@[i as int]@).update(
                        index.1 as int,
                        scalar.id@,
                    ));
                } else {
                    assert(idents_view(row_ids@) =~= ids_of(cells@[i as int]@));
                }
            }
            ids.push(row_ids);
            let source = &self.value[i];
            let mut row_values: Vec<Real> = Vec::new();
            let mut k: usize = 0;
            while k < source.len()
                invariant
                    k <= source.len(),
                    row_values@.len() == k,
                    forall|a: int|
                        0 <= a < k ==> (#[trigger] row_values@[a])@ == (if i == index.0 && a
                            == index.1 {
                            scalar.value@
                        } else {
                            source@[a]@
                        }),
                decreases source.len() - k,
            {
                if i == index.0 && k == index.1 {
                    row_values.push(scalar.value.clone());
                } else {
                    row_values.push(source[k].clone());
                }
                k += 1;
            }
            proof {
                assert(source@.len() >= cols);
                if i == index.0 {
                    assert(reals_view(row_values@) =~= reals_view(source@).update(
                        index.1 as int,
                        scalar.value@,
                    ));
                } else {
                    assert(reals_view(row_values@) =~= reals_view(source@));
                }
            }
            values.push(row_values);
            i += 1;
        }
        let row_text = usize_to_text(index.0);
        let col_text = usize_to_text(index.1);
        let mut name = concat3(self.id.name.as_str(), "_set_", row_text.as_str());
        name.append("_");
        name.append(col_text.as_str());
        proof {
            lemma_bound_rows_len(start, requests, rows as nat);
            assert(grid_view(ids@) =~= bound.update(
                index.0 as int,
                bound[index.0 as int].update(index.1 as int, scalar.id@),
            )) by {
                assert forall|a: int| 0 <= a < rows implies grid_view(ids@)[a] == bound.update(
                    index.0 as int,
                    bound[index.0 as int].update(index.1 as int, scalar.id@),
                )[a] by {
                    assert(bound[a] == grid_ids_of(cells@)[a]);
                }
            }
            assert(real_grid_view(values@) =~= real_grid_view(self.value@).update(
                index.0 as int,
                real_grid_view(self.value@)[index.0 as int].update(
                    index.1 as int,
                    scalar.value@,
                ),
            ));
            assert(idents_view(ids@[0]@).len() == cols);
        }
        let new_id = create_construct_matrix_expr(session, name.as_str(), ids);
        self.id = new_id;
        self.value = values;
    }
}

/// The identifiers of a list of vectors.
pub open spec fn vectors_ids_of(vectors: Seq<Vector>) -> Seq<IdentView> {
    Seq::new(vectors.len(), |i: int| vectors[i].id@)
}

/// Gathers each row of scalars into a vector named `name`.
fn gather_rows(session: &mut Session, name: &str, grid: &Vec<Vec<Scalar>>, len: usize) -> (r: Vec<
    Vector,
>)
    requires
        old(session).wf(),
        old(session)@.namer.room() >= grid@.len(),
        forall|i: int| 0 <= i < grid@.len() ==> (#[trigger] grid@[i])@.len() == len,
    ensures
        final(session).wf(),
        final(session)@.namer.room() >= old(session)@.namer.room() - grid@.len(),
        r@.len() == grid@.len(),
        final(session)@ == old(session)@.bind_all(
            gather_requests(name@, len as nat, grid_ids_of(grid@)),
            grid@.len(),
        ),
        vectors_ids_of(r@) == old(session)@.bound_all(
            gather_requests(name@, len as nat, grid_ids_of(grid@)),
            grid@.len(),
        ),
        forall|i: int|
            0 <= i < grid@.len() ==> reals_view((#[trigger] r@[i]).value@) == values_of(
                grid@[i]@,
            ) && r@[i].value@.len() == len,
{
    let ghost start = session@;
    let ghost requests = gather_requests(name@, len as nat, grid_ids_of(grid@));
    let mut vectors: Vec<Vector> = Vec::new();
    let mut i: usize = 0;
    while i < grid.len()
        invariant
            i <= grid.len(),
            session.wf(),
            forall|a: int| 0 <= a < grid@.len() ==> (#[trigger] grid@[a])@.len() == len,
            requests == gather_requests(name@, len as nat, grid_ids_of(grid@)),
            start.namer.room() >= grid@.len(),
            session@.namer.room() >= start.namer.room() - i,
            vectors@.len() == i,
            session@ == start.bind_all(requests, i as nat),
            vectors_ids_of(vectors@) == start.bound_all(requests, i as nat),
            forall|a: int|
                0 <= a < i ==> reals_view((#[trigger] vectors@[a]).value@) == values_of(
                    grid@[a]@,
                ) && vectors@[a].value@.len() == len,
        decreases grid.len() - i,
    {
        assert(grid@[i as int]@.len() == len);
        let vector = gather(session, name, &grid[i]);
        vectors.push(vector);
        assert(vectors_ids_of(vectors@) =~= start.bound_all(requests, (i + 1) as nat));
        i += 1;
    }
    vectors
}

impl Matrix {
    /// The product of two matrices. Both are grids: every row of this
    /// matrix has as many cells as `other` has rows, and every row of
    /// `other` has as many cells as its first. This matrix has a row.
    pub fn matmul(&self, session: &mut Session, other: &Matrix) -> (r: Matrix)
        requires
            old(session).wf(),
            self.value@.len() > 0,
            is_grid(real_grid_view(self.value@), other.value@.len()),
            other.value@.len() > 0 ==> is_grid(
                real_grid_view(other.value@),
                other.value@[0]@.len(),
            ),
            old(session)@.namer.room() >= matmul_nodes(
                self.value@.len(),
                other.value@.len(),
                shape_of(real_grid_view(other.value@))->col_size as nat,
            ),
        ensures
            final(session).wf(),
            final(session)@.namer.room() >= old(session)@.namer.room() - matmul_nodes(
                self.value@.len(),
                other.value@.len(),
                shape_of(real_grid_view(other.value@))->col_size as nat,
            ),
            real_grid_view(r.value@) == product_values(
                real_grid_view(self.value@),
                real_grid_view(other.value@),
                other.value@.len(),
                shape_of(real_grid_view(other.value@))->col_size as nat,
            ),
            (final(session)@, r.id@) == old(session)@.matmul(
                self.id@,
                other.id@,
                self.value@.len(),
                other.value@.len(),
                shape_of(real_grid_view(other.value@))->col_size as nat,
            ),
    {
        let rows = self.value.len();
        let (inner, cols) = other.size();
        let ghost start = session@;
        proof {
            assert(real_grid_view(other.value@).len() == inner);
            if inner > 0 {
                assert(real_grid_view(other.value@)[0].len() == cols);
            }
            assert(covers(self.value@, rows as nat, inner as nat)) by {
                assert forall|i: int| 0 <= i < rows implies (#[trigger] self.value@[i])@.len()
                    >= inner by {
                    assert(real_grid_view(self.value@)[i].len() == inner);
                }
            }
            assert(covers(other.value@, inner as nat, cols as nat)) by {
                assert forall|i: int| 0 <= i < inner implies (#[trigger] other.value@[i])@.len()
                    >= cols by {
                    assert(real_grid_view(other.value@)[i].len() == cols);
                }
            }
            lemma_matmul_nodes(rows as nat, inner as nat, cols as nat);
        }
        let a_cells = self.extract_grid(session, rows, inner);
        let b_cells = other.extract_columns(session, inner, cols);
        let row_vectors = gather_rows(session, "row_vector", &a_cells, inner);
        let col_vectors = gather_rows(session, "col_vector", &b_cells, inner);
        let _spare = Identifier::new_scalar(&mut session.namer, "bos");
        let ghost reserved = session@;
        let ghost row_ids = vectors_ids_of(row_vectors@);
        let ghost col_ids = vectors_ids_of(col_vectors@);
        let ghost requests = dot_requests(row_ids, col_ids);
        let mut dots: Vec<Vec<Scalar>> = Vec::new();
        let mut i: usize = 0;
        while i < rows
            invariant
                i <= rows,
                rows == row_vectors@.len(),
                cols == col_vectors@.len(),
                session.wf(),
                row_ids == vectors_ids_of(row_vectors@),
                col_ids == vectors_ids_of(col_vectors@),
                requests == dot_requests(row_ids, col_ids),
                forall|a: int| 0 <= a < rows ==> (#[trigger] row_vectors@[a]).value@.len() == inner,
                forall|a: int| 0 <= a < cols ==> (#[trigger] col_vectors@[a]).value@.len() == inner,
                reserved.namer.room() >= rows * cols + 1,
                session@.namer.room() >= reserved.namer.room() - i * cols,
                dots@.len() == i,
                session@ == reserved.bind_rows(requests, i as nat),
                grid_ids_of(dots@) == reserved.bound_rows(requests, i as nat),
                forall|a: int| 0 <= a < i ==> (#[trigger] dots@[a])@.len() == cols,
                forall|a: int, b: int|
                    0 <= a < i && 0 <= b < cols ==> (#[trigger] dots@[a]@[b]).value@ == dot_value(
                        reals_view(row_vectors@[a].value@),
                        reals_view(col_vectors@[b].value@),
                        inner as nat,
                    ),
            decreases rows - i,
        {
            proof {
                assert((i + 1) * cols == i * cols + cols) by (nonlinear_arith);
                assert((i + 1) * cols <= rows * cols) by (nonlinear_arith)
                    requires
                        i + 1 <= rows,
                ;
            }
            let ghost row_start = session@;
            let ghost row_requests = requests[i as int];
            let mut row: Vec<Scalar> = Vec::new();
            let mut j: usize = 0;
            while j < cols
                invariant
                    j <= cols,
                    i < rows,
                    rows == row_vectors@.len(),
                    cols == col_vectors@.len(),
                    session.wf(),
                    row_ids == vectors_ids_of(row_vectors@),
                    col_ids == vectors_ids_of(col_vectors@),
                    requests == dot_requests(row_ids, col_ids),
                    row_requests == requests[i as int],
                    forall|a: int|
                        0 <= a < rows ==> (#[trigger] row_vectors@[a]).value@.len() == inner,
                    forall|a: int|
                        0 <= a < cols ==> (#[trigger] col_vectors@[a]).value@.len() == inner,
                    row_start.namer.room() >= cols + 1,
                    session@.namer.room() >= row_start.namer.room() - j,
                    row@.len() == j,
                    session@ == row_start.bind_all(row_requests, j as nat),
                    ids_of(row@) == row_start.bound_all(row_requests, j as nat),
                    forall|b: int|
                        0 <= b < j ==> (#[trigger] row@[b]).value@ == dot_value(
                            reals_view(row_vectors@[i as int].value@),
                            reals_view(col_vectors@[b].value@),
                            inner as nat,
                        ),
                decreases cols - j,
            {
                assert(row_vectors@[i as int].value@.len() == inner);
                assert(col_vectors@[j as int].value@.len() == inner);
                let dot = row_vectors[i].dot(session, &col_vectors[j]);
                row.push(dot);
                assert(ids_of(row@) =~= row_start.bound_all(row_requests, (j + 1) as nat));
                j += 1;
            }
            dots.push(row);
            assert(grid_ids_of(dots@) =~= reserved.bound_rows(requests, (i + 1) as nat));
            i += 1;
        }
        let name = concat3(self.id.name.as_str(), "_matmul_", other.id.name.as_str());
        let result = gather_grid(session, name.as_str(), &dots);
        proof {
            let a = real_grid_view(self.value@);
            let b = real_grid_view(other.value@);
            let expected = product_values(a, b, inner as nat, cols as nat);
            assert(real_grid_view(result.value@).len() == expected.len());
            assert forall|x: int| 0 <= x < rows implies real_grid_view(result.value@)[x]
                =~= expected[x] by {
                assert(dots@[x]@.len() == cols);
                assert forall|y: int| 0 <= y < cols implies real_grid_view(result.value@)[x][y]
                    == expected[x][y] by {
                    assert(dots@[x]@[y].value@ == dot_value(
                        reals_view(row_vectors@[x].value@),
                        reals_view(col_vectors@[y].value@),
                        inner as nat,
                    ));
                    assert forall|k: int| 0 <= k < inner implies reals_view(
                        row_vectors@[x].value@,
                    )[k] == a[x][k] && reals_view(col_vectors@[y].value@)[k] == column(b, y)[k] by {
                        assert(a_cells@[x]@[k].value == self.value@[x]@[k]);
                        assert(b_cells@[y]@[k].value == other.value@[k]@[y]);
                        assert(values_of(a_cells@[x]@)[k] == a_cells@[x]@[k].value@);
                        assert(values_of(b_cells@[y]@)[k] == b_cells@[y]@[k].value@);
                    }
                    lemma_dot_value_reads(
                        reals_view(row_vectors@[x].value@),
                        reals_view(col_vectors@[y].value@),
                        a[x],
                        column(b, y),
                        inner as nat,
                    );
                }
            }
            assert(real_grid_view(result.value@) =~= expected);
        }
        result
    }
}

/// The number of identifiers that the product of a matrix of `rows` rows
/// and `inner` columns with one of `cols` columns creates.
pub open spec fn matmul_nodes(rows: nat, inner: nat, cols: nat) -> nat {
    rows * inner + cols * inner + rows + cols + 1 + rows * cols + 1
}

/// The parts of `matmul_nodes` are not negative.
proof fn lemma_matmul_nodes(rows: nat, inner: nat, cols: nat)
    ensures
        rows * inner >= 0,
        cols * inner >= 0,
        rows * cols >= 0,
{
    assert(rows * inner >= 0) by (nonlinear_arith);
    assert(cols * inner >= 0) by (nonlinear_arith);
    assert(rows * cols >= 0) by (nonlinear_arith);
}

impl Matrix {
    /// The product of the matrix with a vector that is not empty: the vector
    /// becomes a matrix of one column, the product is taken, and the result
    /// becomes a vector again. The matrix has a row, and every row has as
    /// many cells as the vector has elements.
    pub fn matmul_vec(&self, session: &mut Session, other: &Vector) -> (r: Vector)
        requires
            old(session).wf(),
            self.value@.len() > 0,
            other.value@.len() > 0,
            is_grid(real_grid_view(self.value@), other.value@.len()),
            old(session)@.namer.room() >= 2 * other.value@.len() + 1 + matmul_nodes(
                self.value@.len(),
                other.value@.len(),
                1,
            ) + self.value@.len() + 1,
        ensures
            final(session).wf(),
            reals_view(r.value@) == Seq::new(
                self.value@.len(),
                |i: int|
                    dot_value(
                        real_grid_view(self.value@)[i],
                        reals_view(other.value@),
                        other.value@.len(),
                    ),
            ),
            ({
                let n = other.value@.len();
                let rows = self.value@.len();
                let (s1, column_id) = old(session)@.vector_as_matrix(
                    "vector_as_matrix"@,
                    other.id@,
                    n,
                );
                let (s2, product_id) = s1.matmul(self.id@, column_id, rows, n, 1);
                (final(session)@, r.id@) == s2.matrix_as_vector(product_id, rows)
            }),
    {
        let ghost n = other.value@.len();
        let ghost rows = self.value@.len();
        let as_matrix = Matrix::from_vector(session, "vector_as_matrix", other);
        proof {
            assert(real_grid_view(as_matrix.value@)[0].len() == 1);
            assert(is_grid(real_grid_view(as_matrix.value@), 1)) by {
                assert forall|i: int| 0 <= i < as_matrix.value@.len() implies (
                #[trigger] real_grid_view(as_matrix.value@)[i]).len() == 1 by {
                    assert(as_matrix.value@[i]@.len() == 1);
                }
            }
        }
        let product = self.matmul(session, &as_matrix);
        proof {
            let values = real_grid_view(product.value@);
            assert(values.len() == rows);
            assert forall|i: int| 0 <= i < rows implies (#[trigger] product.value@[i])@.len()
                == 1 by {
                assert(values[i].len() == 1);
            }
        }
        let result = product.to_vector(session);
        proof {
            let a = real_grid_view(self.value@);
            let b = real_grid_view(as_matrix.value@);
            let v = reals_view(other.value@);
            assert(reals_view(result.value@) =~= Seq::new(
                rows,
                |i: int| dot_value(a[i], v, n),
            )) by {
                assert forall|i: int| 0 <= i < rows implies reals_view(result.value@)[i]
                    == dot_value(a[i], v, n) by {
                    assert(real_grid_view(product.value@)[i][0] == dot_value(
                        a[i],
                        column(b, 0),
                        n,
                    ));
                    assert forall|k: int| 0 <= k < n implies column(b, 0)[k] == v[k] by {
                        assert(b[k] == seq![other.value@[k]@]);
                    }
                    lemma_dot_value_reads(a[i], column(b, 0), a[i], v, n);
                }
            }
        }
        result
    }
}

/// The ranges of a grid of inputs.
pub open spec fn ranges_grid_view(ranges: Seq<Vec<(Real, Real)>>) -> Seq<Seq<InputView>> {
    Seq::new(ranges.len(), |i: int| crate::vector::ranges_row_view(ranges[i]@))
}

impl Program {
    /// Declares a matrix input with the range of each cell; the matrix has the
    /// default values. The shape is that of the ranges, of which there is at
    /// least one row.
    /// The identifier is made by `namer`.
    pub fn add_input_matrix(
        &mut self,
        namer: &mut Namer,
        name: &str,
        range: Vec<Vec<(Real, Real)>>,
        default_value: Vec<Vec<Real>>,
    ) -> (r: Matrix)
        requires
            old(self).wf(),
            old(namer)@.room() >= 1,
            range@.len() > 0,
        ensures
            final(self).wf(),
            final(namer)@ == old(namer)@.after_identifier(name@),
            final(namer)@.room() >= old(namer)@.room() - 1,
            r.value@ == default_value@,
            r.id@ == old(namer)@.fresh_identifier(name@, grid_size(range@)),
            final(self)@ == (ProgramView {
                inputs: upsert(
                    old(self)@.inputs,
                    r.id@,
                    ProgramInputView::Matrix(ranges_grid_view(range@)),
                ),
                ..old(self)@
            }),
    {
        let size0 = range.len();
        let size1 = range[0].len();
        let new_id = Identifier::new_matrix(namer, name, size0, size1);
        let mut info: Vec<Vec<Input>> = Vec::new();
        let mut i: usize = 0;
        while i < range.len()
            invariant
                i <= range.len(),
                info@.len() == i,
                forall|k: int|
                    0 <= k < i ==> inputs_row_view((#[trigger] info@[k])@)
                        == crate::vector::ranges_row_view(range@[k]@),
            decreases range.len() - i,
        {
            let source = &range[i];
            let mut row: Vec<Input> = Vec::new();
            let mut j: usize = 0;
            while j < source.len()
                invariant
                    j <= source.len(),
                    row@.len() == j,
                    forall|k: int|
                        0 <= k < j ==> (#[trigger] row@[k])@ == (InputView {
                            lower: source@[k].0@,
                            upper: source@[k].1@,
                        }),
                decreases source.len() - j,
            {
                row.push(Input { range: (source[j].0.clone(), source[j].1.clone()) });
                j += 1;
            }
            assert(inputs_row_view(row@) =~= crate::vector::ranges_row_view(source@));
            info.push(row);
            i += 1;
        }
        assert(inputs_grid_view(info@) =~= ranges_grid_view(range@));
        self.add_input(new_id.clone(), ProgramInput::Matrix { info });
        Matrix { id: new_id, value: default_value }
    }
}

/// Declares a matrix input with the range of each cell; the matrix has the
/// default values. The shape is that of the ranges, of which there is at
/// least one row.
pub fn add_input_matrix(
    session: &mut Session,
    name: &str,
    range: Vec<Vec<(Real, Real)>>,
    default_value: Vec<Vec<Real>>,
) -> (r: Matrix)
    requires
        old(session).wf(),
        old(session)@.namer.room() >= 1,
        range@.len() > 0,
    ensures
        final(session).wf(),
        final(session)@.namer.room() >= old(session)@.namer.room() - 1,
        r.value@ == default_value@,
        r.id@ == old(session)@.bound(name@, grid_size(range@)),
        final(session)@ == (SessionView {
            namer: old(session)@.namer.after_identifier(name@),
            program: ProgramView {
                inputs: upsert(
                    old(session)@.program.inputs,
                    r.id@,
                    ProgramInputView::Matrix(ranges_grid_view(range@)),
                ),
                ..old(session)@.program
            },
        }),
{
    session.program.add_input_matrix(&mut session.namer, name, range, default_value)
}

/// One pending leaf for the identifier `id` for each cell of `values`.
pub open spec fn pending_cells(id: IdentView, values: Seq<Seq<real>>) -> Seq<Seq<OutputView>> {
    Seq::new(values.len(), |i: int| Seq::new(values[i].len(), |j: int| pending_output(id)))
}

/// Registers `output` as an output of the program under `name`: the matrix
/// is first bound again under that name, which is what `output` names
/// afterwards. Each cell gets a leaf that carries the matrix's identifier.
pub fn register_matrix_output(session: &mut Session, output: &mut Matrix, name: &str)
    requires
        old(session).wf(),
        old(session)@.namer.room() >= 1,
        old(output).id.size is Matrix,
    ensures
        final(session).wf(),
        final(session)@.namer.room() >= old(session)@.namer.room() - 1,
        real_grid_view(final(output).value@) == real_grid_view(old(output).value@),
        final(output).id@ == old(session)@.bound(name@, old(output).id.size),
        final(session)@ == ({
            let defined = old(session)@.bind(
                name@,
                old(output).id.size,
                OprView::Unary(old(output).id@, UnaryView::AssignNoOpt),
            );
            SessionView {
                program: ProgramView {
                    outputs: upsert(
                        defined.program.outputs,
                        final(output).id@,
                        ProgramOutputView::Matrix(
                            pending_cells(
                                final(output).id@,
                                real_grid_view(old(output).value@),
                            ),
                        ),
                    ),
                    ..defined.program
                },
                ..defined
            }
        }),
{
    let defined = output.define(session, String::from_str(name));
    *output = defined;
    let mut info: Vec<Vec<Output>> = Vec::new();
    let mut i: usize = 0;
    while i < output.value.len()
        invariant
            i <= output.value@.len(),
            info@.len() == i,
            forall|k: int|
                0 <= k < i ==> outputs_row_view((#[trigger] info@[k])@) == Seq::new(
                    output.value@[k]@.len(),
                    |j: int| pending_output(output.id@),
                ),
        decreases output.value.len() - i,
    {
        let mut row: Vec<Output> = Vec::new();
        let mut j: usize = 0;
        while j < output.value[i].len()
            invariant
                i < output.value@.len(),
                j <= output.value@[i as int]@.len(),
                row@.len() == j,
                forall|k: int| 0 <= k < j ==> (#[trigger] row@[k])@ == pending_output(output.id@),
            decreases output.value[i as int].len() - j,
        {
            row.push(Output::pending(output.id.clone()));
            j += 1;
        }
        assert(outputs_row_view(row@) =~= Seq::new(
            output.value@[i as int]@.len(),
            |j: int| pending_output(output.id@),
        ));
        info.push(row);
        i += 1;
    }
    proof {
        let values = real_grid_view(output.value@);
        assert(outputs_grid_view(info@) =~= pending_cells(output.id@, values)) by {
            assert forall|k: int| 0 <= k < info@.len() implies outputs_grid_view(info@)[k]
                =~= pending_cells(output.id@, values)[k] by {
                assert(values[k].len() == output.value@[k]@.len());
            }
        }
    }
    session.program.add_output(output.id.clone(), ProgramOutput::Matrix { info });
}

} // verus!
