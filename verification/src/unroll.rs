//! Scalarisation: a program with vectors and matrices becomes a program of
//! scalars only, element by element.

use vstd::prelude::*;
use vstd::string::*;
use crate::expr::{body_view, Expr, ExprView, Opr, OprBinary, OprUnary, OprView, UnaryView};
use crate::identifier::{grid_view, idents_view, IdSize, IdentView, Identifier, VarType};
use crate::idmap::{lemma_insert_entries, upsert, IdMap};
use crate::lowering::{cells, cells_upto, element_name, opr_grid_view, oprs_view, Lowering, LoweringView};
use crate::naming::{Namer, NamerState};
use crate::plan::{lemma_plan_valid, make_zip_row, rows_are, rows_reach, zip_row, Plan, PlanView, UnrollError};
use crate::program::{inputs_grid_view, outputs_view, pending_output, Input, Output, OutputView, Program, ProgramInput, ProgramInputView, ProgramOutput, ProgramOutputView, ProgramView};
use crate::text::{concat3, usize_to_text};

verus! {

/// The base name of the products of a dot product.
pub open spec fn dot_name() -> Seq<char> {
    seq!['d', 'o', 't']
}

/// The base name of the partial sums of a dot product.
pub open spec fn dot_sum_name() -> Seq<char> {
    seq!['d', 'o', 't', '_', 's', 'u', 'm']
}

/// The name of the `k`-th product of a cross product, counted from one:
/// `cross_temp`, and from the second on the number after it.
pub open spec fn cross_temp_name(k: int) -> Seq<char> {
    let base = seq!['c', 'r', 'o', 's', 's', '_', 't', 'e', 'm', 'p'];
    if k == 1 {
        base
    } else {
        base + crate::text::nat_text(k as nat)
    }
}

/// A grid with rows and columns exchanged: row `j` of the result holds
/// element `j` of each row, for the first `cols` columns.
pub open spec fn transposed<T>(grid: Seq<Seq<T>>, cols: nat) -> Seq<Seq<T>> {
    Seq::new(cols, |j: int| Seq::new(grid.len(), |i: int| grid[i][j]))
}

/// One pending leaf for each identifier.
pub open spec fn pending_row(ids: Seq<IdentView>) -> Seq<OutputView> {
    Seq::new(ids.len(), |i: int| pending_output(ids[i]))
}

/// One pending leaf for each cell.
pub open spec fn pending_grid(ids: Seq<Seq<IdentView>>) -> Seq<Seq<OutputView>> {
    Seq::new(ids.len(), |i: int| pending_row(ids[i]))
}

impl LoweringView {
    /// Takes a new scalar identifier made from `name` without binding it yet.
    pub open spec fn reserve(self, name: Seq<char>) -> LoweringView {
        LoweringView { namer: self.namer.after_identifier(name), ..self }
    }

    /// Binds the product of `x` and `y` to the `k`-th temporary of a cross
    /// product.
    pub open spec fn cross_product(self, k: int, x: IdentView, y: IdentView) -> LoweringView {
        self.bind(cross_temp_name(k), OprView::Binary(x, y, OprBinary::Mul))
    }

    /// Binds `result` to the difference of two products, `x1 * y1 - x2 * y2`,
    /// each product under a temporary of its own: the `k`-th and the next.
    pub open spec fn cross_element(
        self,
        result: IdentView,
        k: int,
        x1: IdentView,
        y1: IdentView,
        x2: IdentView,
        y2: IdentView,
    ) -> LoweringView {
        let first = self.cross_product(k, x1, y1);
        let second = first.cross_product(k + 1, x2, y2);
        second.push(
            result,
            OprView::Binary(
                self.fresh(cross_temp_name(k)),
                first.fresh(cross_temp_name(k + 1)),
                OprBinary::Sub,
            ),
        )
    }

    /// The three identifiers that a cross product named `name` creates for its
    /// elements, before anything else.
    pub open spec fn cross_ids(self, name: Seq<char>) -> Seq<IdentView> {
        let s1 = self.reserve(element_name(name, 0));
        let s2 = s1.reserve(element_name(name, 1));
        seq![
            self.fresh(element_name(name, 0)),
            s1.fresh(element_name(name, 1)),
            s2.fresh(element_name(name, 2)),
        ]
    }

    /// Lowers the cross product of `a` and `b`: `a1 b2 - a2 b1`,
    /// `a2 b0 - a0 b2`, `a0 b1 - a1 b0`; six products and three differences.
    pub open spec fn emit_cross(self, id: IdentView, a: Seq<IdentView>, b: Seq<IdentView>) -> LoweringView {
        let ids = self.cross_ids(id.name);
        let reserved = self.reserve(element_name(id.name, 0)).reserve(
            element_name(id.name, 1),
        ).reserve(element_name(id.name, 2));
        reserved.cross_element(ids[0], 1, a[1], b[2], a[2], b[1]).cross_element(
            ids[1],
            3,
            a[2],
            b[0],
            a[0],
            b[2],
        ).cross_element(ids[2], 5, a[0], b[1], a[1], b[0]).record_vector(id, ids)
    }

    /// The pass after the first `k` partial sums of a dot product were bound:
    /// each adds the next product to the sum before it.
    pub open spec fn sum_chain(self, products: Seq<IdentView>, k: nat) -> LoweringView
        decreases k,
    {
        if k == 0 {
            self
        } else {
            self.sum_chain(products, (k - 1) as nat).bind(
                element_name(dot_sum_name(), k as int),
                OprView::Binary(
                    self.chain_last(products, (k - 1) as nat),
                    products[k as int],
                    OprBinary::Add,
                ),
            )
        }
    }

    /// The identifier of the `k`-th partial sum; the first product for
    /// `k = 0`.
    pub open spec fn chain_last(self, products: Seq<IdentView>, k: nat) -> IdentView
        decreases k,
    {
        if k == 0 {
            products[0]
        } else {
            self.sum_chain(products, (k - 1) as nat).fresh(element_name(dot_sum_name(), k as int))
        }
    }

    /// Lowers the dot product of the first `n` elements of `a` and `b`: `n`
    /// products, then a chain of `n - 1` sums from left to right, then the
    /// node's own identifier bound to the last sum.
    pub open spec fn emit_dot(self, id: IdentView, a: Seq<IdentView>, b: Seq<IdentView>, n: nat) -> LoweringView {
        let factors = zip_row(a, b, OprBinary::Mul, n);
        let multiplied = self.bind_row(dot_name(), factors);
        let products = self.row_ids(dot_name(), factors);
        multiplied.sum_chain(products, (n - 1) as nat).push(
            id,
            OprView::Unary(
                multiplied.chain_last(products, (n - 1) as nat),
                UnaryView::Assign,
            ),
        )
    }

    /// Carries out a plan for the node `expr`.
    pub open spec fn emit(self, expr: ExprView, plan: PlanView) -> LoweringView {
        match plan {
            PlanView::Keep => self.push(expr.id, expr.opr),
            PlanView::Rebind(opr) => self.push(expr.id, opr),
            PlanView::Row(oprs) => self.bind_row(expr.id.name, oprs).record_vector(
                expr.id,
                self.row_ids(expr.id.name, oprs),
            ),
            PlanView::Grid(grid) => self.bind_grid(expr.id.name, grid).record_matrix(
                expr.id,
                self.grid_ids(expr.id.name, grid),
            ),
            PlanView::Transposed(grid, cols) => self.bind_grid(expr.id.name, grid).record_matrix(
                expr.id,
                transposed(self.grid_ids(expr.id.name, grid), cols),
            ),
            PlanView::Cross(a, b) => self.emit_cross(expr.id, a, b),
            PlanView::Dot(a, b, n) => self.emit_dot(expr.id, a, b, n),
        }
    }

    /// Lowers one node: plans it, and carries the plan out if the naming
    /// service can create the identifiers that it needs.
    pub open spec fn step(self, expr: ExprView) -> Result<LoweringView, UnrollError> {
        match self.plan(expr) {
            Err(e) => Err(e),
            Ok(plan) => if self.namer.room() < plan.needed() {
                Err(UnrollError::OutOfIdentifiers)
            } else {
                Ok(self.emit(expr, plan))
            },
        }
    }

    /// Lowers one declared input. A scalar stays as it is. A vector or matrix
    /// must hold as many ranges as its identifier declares elements, and
    /// becomes one scalar input for each.
    pub open spec fn input_step(self, id: IdentView, input: ProgramInputView) -> Result<
        LoweringView,
        UnrollError,
    > {
        match input {
            ProgramInputView::Scalar(_) => Ok(
                LoweringView { inputs: upsert(self.inputs, id, input), ..self },
            ),
            ProgramInputView::Vector(infos) => if !(id.size is Vector) || id.size->len
                != infos.len() {
                Err(UnrollError::ShapeMismatch)
            } else if self.namer.room() < infos.len() {
                Err(UnrollError::OutOfIdentifiers)
            } else {
                Ok(
                    self.declare_row(id.name, infos).record_vector(
                        id,
                        self.declared_ids(id.name, infos),
                    ),
                )
            },
            ProgramInputView::Matrix(grid) => if !(id.size is Matrix) || id.size->row_size
                != grid.len() || !rows_are(grid, id.size->col_size as nat) {
                Err(UnrollError::ShapeMismatch)
            } else if self.namer.room() < cells(grid) {
                Err(UnrollError::OutOfIdentifiers)
            } else {
                Ok(
                    self.declare_grid(id.name, grid).record_matrix(
                        id,
                        self.declared_grid_ids(id.name, grid),
                    ),
                )
            },
        }
    }

    /// Lowers the first `n` inputs, in order, up to the first that fails.
    pub open spec fn lower_inputs(self, inputs: Seq<(IdentView, ProgramInputView)>, n: nat) -> Result<
        LoweringView,
        UnrollError,
    >
        decreases n,
    {
        if n == 0 {
            Ok(self)
        } else {
            match self.lower_inputs(inputs, (n - 1) as nat) {
                Err(e) => Err(e),
                Ok(s) => s.input_step(inputs[n - 1].0, inputs[n - 1].1),
            }
        }
    }

    /// Lowers the first `n` nodes, in order, up to the first that fails.
    pub open spec fn lower_body(self, body: Seq<ExprView>, n: nat) -> Result<
        LoweringView,
        UnrollError,
    >
        decreases n,
    {
        if n == 0 {
            Ok(self)
        } else {
            match self.lower_body(body, (n - 1) as nat) {
                Err(e) => Err(e),
                Ok(s) => s.step(body[n - 1]),
            }
        }
    }

    /// The leaves of the output `id`: itself for a scalar, the recorded
    /// scalars for a vector or matrix, each with its ranges pending.
    pub open spec fn output_leaves(self, id: IdentView) -> Result<ProgramOutputView, UnrollError> {
        match id.var_type {
            VarType::Scalar => Ok(ProgramOutputView::Scalar(pending_output(id))),
            VarType::Vector => if self.knows_vector(id) {
                Ok(ProgramOutputView::Vector(pending_row(self.vector(id))))
            } else {
                Err(UnrollError::UnknownOperand)
            },
            VarType::Matrix => if self.knows_matrix(id) {
                Ok(ProgramOutputView::Matrix(pending_grid(self.matrix(id))))
            } else {
                Err(UnrollError::UnknownOperand)
            },
        }
    }

    /// The outputs of the new program for the first `n` outputs of the old
    /// one, up to the first that fails.
    pub open spec fn lower_outputs(self, outputs: Seq<(IdentView, ProgramOutputView)>, n: nat) -> Result<
        Seq<(IdentView, ProgramOutputView)>,
        UnrollError,
    >
        decreases n,
    {
        if n == 0 {
            Ok(Seq::empty())
        } else {
            match self.lower_outputs(outputs, (n - 1) as nat) {
                Err(e) => Err(e),
                Ok(done) => match self.output_leaves(outputs[n - 1].0) {
                    Err(e) => Err(e),
                    Ok(leaves) => Ok(upsert(done, outputs[n - 1].0, leaves)),
                },
            }
        }
    }
}

/// The scalar program that `program` lowers to, with the state in which the
/// pass leaves the naming service; or the reason why the first input, node or
/// output that cannot be lowered fails. Inputs come first, then the nodes,
/// then the outputs.
pub open spec fn unrolled(namer: NamerState, program: ProgramView) -> Result<
    (ProgramView, NamerState),
    UnrollError,
> {
    match LoweringView::start(namer).lower_inputs(program.inputs, program.inputs.len()) {
        Err(e) => Err(e),
        Ok(declared) => match declared.lower_body(program.body, program.body.len()) {
            Err(e) => Err(e),
            Ok(done) => match done.lower_outputs(program.outputs, program.outputs.len()) {
                Err(e) => Err(e),
                Ok(outputs) => Ok(
                    (ProgramView { inputs: done.inputs, outputs, body: done.body }, done.namer),
                ),
            },
        },
    }
}

/// The naming service never has room for more identifiers than there are
/// identifier numbers.
pub proof fn lemma_room_bound(namer: NamerState)
    ensures
        namer.room() <= usize::MAX,
{
}

/// The number of cells of a grid, unless it exceeds `limit`.
fn count_cells<T>(grid: &Vec<Vec<T>>, limit: usize) -> (r: Option<usize>)
    ensures
        match r {
            Some(n) => n == cells_upto(Seq::new(grid@.len(), |i: int| grid@[i]@), grid@.len())
                && n <= limit,
            None => cells_upto(Seq::new(grid@.len(), |i: int| grid@[i]@), grid@.len()) > limit,
        },
{
    let ghost lens = Seq::new(grid@.len(), |i: int| grid@[i]@);
    let mut total: usize = 0;
    let mut i: usize = 0;
    while i < grid.len()
        invariant
            i <= grid.len(),
            lens == Seq::new(grid@.len(), |i: int| grid@[i]@),
            total == cells_upto(lens, i as nat),
            total <= limit,
        decreases grid.len() - i,
    {
        let n = grid[i].len();
        if n > limit - total {
            proof {
                crate::lowering::lemma_cells_monotone(lens, (i + 1) as nat, grid@.len());
            }
            return None;
        }
        total = total + n;
        i += 1;
    }
    Some(total)
}

/// Two grids whose rows have the same lengths have the same number of cells.
pub proof fn lemma_cells_by_length<A, B>(a: Seq<Seq<A>>, b: Seq<Seq<B>>, n: nat)
    requires
        n <= a.len(),
        n <= b.len(),
        forall|i: int| 0 <= i < n ==> (#[trigger] a[i]).len() == b[i].len(),
    ensures
        cells_upto(a, n) == cells_upto(b, n),
    decreases n,
{
    if n > 0 {
        lemma_cells_by_length(a, b, (n - 1) as nat);
        assert(a[n - 1].len() == b[n - 1].len());
    }
}

/// Binding a row creates one identifier for each operation.
pub proof fn lemma_row_ids_len(state: LoweringView, base: Seq<char>, oprs: Seq<OprView>, n: nat)
    ensures
        state.row_ids_upto(base, oprs, n).len() == n,
    decreases n,
{
    if n > 0 {
        lemma_row_ids_len(state, base, oprs, (n - 1) as nat);
    }
}

/// Binding a grid creates one row of identifiers for each row of operations,
/// of the same length.
pub proof fn lemma_grid_ids_len(
    state: LoweringView,
    base: Seq<char>,
    grid: Seq<Seq<OprView>>,
    n: nat,
)
    requires
        n <= grid.len(),
    ensures
        state.grid_ids_upto(base, grid, n).len() == n,
        forall|i: int|
            0 <= i < n ==> (#[trigger] state.grid_ids_upto(base, grid, n)[i]).len()
                == grid[i].len(),
    decreases n,
{
    if n > 0 {
        lemma_grid_ids_len(state, base, grid, (n - 1) as nat);
        let before = state.bind_grid_upto(base, grid, (n - 1) as nat);
        lemma_row_ids_len(before, element_name(base, n - 1), grid[n - 1], grid[n - 1].len());
        let ids = state.grid_ids_upto(base, grid, n);
        let earlier = state.grid_ids_upto(base, grid, (n - 1) as nat);
        assert forall|i: int| 0 <= i < n implies (#[trigger] ids[i]).len() == grid[i].len() by {
            if i < n - 1 {
                assert(ids[i] == earlier[i]);
            }
        }
    }
}

/// The name of the `k`-th temporary of a cross product.
fn cross_temp(k: usize) -> (r: String)
    requires
        k >= 1,
    ensures
        r@ == cross_temp_name(k as int),
{
    proof {
        reveal_strlit("cross_temp");
        assert("cross_temp"@ =~= seq!['c', 'r', 'o', 's', 's', '_', 't', 'e', 'm', 'p']);
    }
    if k == 1 {
        String::from_str("cross_temp")
    } else {
        let number = usize_to_text(k);
        crate::text::concat("cross_temp", number.as_str())
    }
}

/// `base`, an underscore and `i`.
fn indexed_name(base: &str, i: usize) -> (r: String)
    ensures
        r@ == element_name(base@, i as int),
{
    let index = usize_to_text(i);
    let name = concat3(base, "_", index.as_str());
    proof {
        reveal_strlit("_");
        assert("_"@ =~= seq!['_']);
        assert(name@ =~= element_name(base@, i as int));
    }
    name
}

/// Exchanges rows and columns of the first `cols` columns of a grid.
fn transpose_ids(grid: &Vec<Vec<Identifier>>, cols: usize) -> (r: Vec<Vec<Identifier>>)
    requires
        rows_reach(grid_view(grid@), grid@.len(), cols as nat),
    ensures
        grid_view(r@) == transposed(grid_view(grid@), cols as nat),
{
    let rows = grid.len();
    let mut out: Vec<Vec<Identifier>> = Vec::new();
    let mut j: usize = 0;
    while j < cols
        invariant
            j <= cols,
            rows == grid@.len(),
            rows_reach(grid_view(grid@), grid@.len(), cols as nat),
            out@.len() == j,
            forall|k: int|
                0 <= k < j ==> idents_view((#[trigger] out@[k])@) == Seq::new(
                    rows as nat,
                    |i: int| grid_view(grid@)[i][k],
                ),
        decreases cols - j,
    {
        let mut column: Vec<Identifier> = Vec::new();
        let mut i: usize = 0;
        while i < rows
            invariant
                i <= rows,
                j < cols,
                rows == grid@.len(),
                rows_reach(grid_view(grid@), grid@.len(), cols as nat),
                column@.len() == i,
                forall|k: int| 0 <= k < i ==> (#[trigger] column@[k])@ == grid_view(grid@)[k][j as int],
            decreases rows - i,
        {
            assert(grid_view(grid@)[i as int].len() >= cols);
            column.push(grid[i][j].clone());
            i += 1;
        }
        assert(idents_view(column@) =~= Seq::new(rows as nat, |i: int| grid_view(grid@)[i][j as int]));
        out.push(column);
        j += 1;
    }
    assert(grid_view(out@) =~= transposed(grid_view(grid@), cols as nat));
    out
}

/// One pending leaf for each identifier.
fn make_pending_row(ids: &Vec<Identifier>) -> (r: Vec<Output>)
    ensures
        crate::program::outputs_row_view(r@) == pending_row(idents_view(ids@)),
{
    let mut out: Vec<Output> = Vec::new();
    let mut i: usize = 0;
    while i < ids.len()
        invariant
            i <= ids.len(),
            out@.len() == i,
            forall|k: int| 0 <= k < i ==> (#[trigger] out@[k])@ == pending_output(ids@[k]@),
        decreases ids.len() - i,
    {
        out.push(Output::pending(ids[i].clone()));
        i += 1;
    }
    assert(crate::program::outputs_row_view(out@) =~= pending_row(idents_view(ids@)));
    out
}

/// One pending leaf for each cell.
fn make_pending_grid(ids: &Vec<Vec<Identifier>>) -> (r: Vec<Vec<Output>>)
    ensures
        crate::program::outputs_grid_view(r@) == pending_grid(grid_view(ids@)),
{
    let mut out: Vec<Vec<Output>> = Vec::new();
    let mut i: usize = 0;
    while i < ids.len()
        invariant
            i <= ids.len(),
            out@.len() == i,
            forall|k: int|
                0 <= k < i ==> crate::program::outputs_row_view((#[trigger] out@[k])@)
                    == pending_row(idents_view(ids@[k]@)),
        decreases ids.len() - i,
    {
        out.push(make_pending_row(&ids[i]));
        i += 1;
    }
    assert(crate::program::outputs_grid_view(out@) =~= pending_grid(grid_view(ids@)));
    out
}

/// Whether every row has exactly `cols` ranges.
fn check_rows_are(grid: &Vec<Vec<Input>>, cols: usize) -> (r: bool)
    ensures
        r == rows_are(inputs_grid_view(grid@), cols as nat),
{
    let mut i: usize = 0;
    while i < grid.len()
        invariant
            i <= grid.len(),
            forall|k: int| 0 <= k < i ==> (#[trigger] inputs_grid_view(grid@)[k]).len() == cols,
        decreases grid.len() - i,
    {
        if grid[i].len() != cols {
            assert(inputs_grid_view(grid@)[i as int].len() != cols);
            return false;
        }
        assert(inputs_grid_view(grid@)[i as int].len() == cols);
        i += 1;
    }
    true
}

impl Lowering {
    /// Takes a new scalar identifier made from `name` without binding it yet.
    fn reserve(&mut self, namer: &mut Namer, name: &str) -> (r: Identifier)
        requires
            old(self).wf(),
            old(namer)@.room() >= 1,
        ensures
            final(self).wf(),
            r@ == old(self).view_with(old(namer)@).fresh(name@),
            final(self).view_with(final(namer)@) == old(self).view_with(old(namer)@).reserve(
                name@,
            ),
            final(namer)@.room() >= old(namer)@.room() - 1,
    {
        Identifier::new_scalar(namer, name)
    }

    fn cross_element(
        &mut self,
        namer: &mut Namer,
        result: Identifier,
        k: usize,
        x1: &Identifier,
        y1: &Identifier,
        x2: &Identifier,
        y2: &Identifier,
    )
        requires
            old(self).wf(),
            old(namer)@.room() >= 2,
            1 <= k <= 5,
        ensures
            final(self).wf(),
            final(self).view_with(final(namer)@) == old(self).view_with(
                old(namer)@,
            ).cross_element(result@, k as int, x1@, y1@, x2@, y2@),
            final(namer)@.room() >= old(namer)@.room() - 2,
    {
        let first_name = cross_temp(k);
        let first = self.bind(
            namer,
            first_name.as_str(),
            Opr::Binary { opr1: x1.clone(), opr2: y1.clone(), opr_type: OprBinary::Mul },
        );
        let second_name = cross_temp(k + 1);
        let second = self.bind(
            namer,
            second_name.as_str(),
            Opr::Binary { opr1: x2.clone(), opr2: y2.clone(), opr_type: OprBinary::Mul },
        );
        self.push(
            namer,
            result,
            Opr::Binary { opr1: first, opr2: second, opr_type: OprBinary::Sub },
        );
    }

    fn emit_cross(&mut self, namer: &mut Namer, id: &Identifier, a: &Vec<Identifier>, b: &Vec<
        Identifier,
    >)
        requires
            old(self).wf(),
            old(namer)@.room() >= 9,
            a@.len() == 3,
            b@.len() == 3,
        ensures
            final(self).wf(),
            final(self).view_with(final(namer)@) == old(self).view_with(old(namer)@).emit_cross(
                id@,
                idents_view(a@),
                idents_view(b@),
            ),
    {
        let n0 = indexed_name(id.name.as_str(), 0);
        let r0 = self.reserve(namer, n0.as_str());
        let n1 = indexed_name(id.name.as_str(), 1);
        let r1 = self.reserve(namer, n1.as_str());
        let n2 = indexed_name(id.name.as_str(), 2);
        let r2 = self.reserve(namer, n2.as_str());
        let mut ids: Vec<Identifier> = Vec::new();
        ids.push(r0.clone());
        ids.push(r1.clone());
        ids.push(r2.clone());
        assert(idents_view(ids@) =~= old(self).view_with(old(namer)@).cross_ids(id@.name));
        self.cross_element(namer, r0, 1, &a[1], &b[2], &a[2], &b[1]);
        self.cross_element(namer, r1, 3, &a[2], &b[0], &a[0], &b[2]);
        self.cross_element(namer, r2, 5, &a[0], &b[1], &a[1], &b[0]);
        self.record_vector(namer, id.clone(), ids);
    }

    fn emit_dot(
        &mut self,
        namer: &mut Namer,
        id: &Identifier,
        a: &Vec<Identifier>,
        b: &Vec<Identifier>,
        n: usize,
    )
        requires
            old(self).wf(),
            1 <= n <= a@.len(),
            n <= b@.len(),
            old(namer)@.room() >= 2 * n - 1,
        ensures
            final(self).wf(),
            final(self).view_with(final(namer)@) == old(self).view_with(old(namer)@).emit_dot(
                id@,
                idents_view(a@),
                idents_view(b@),
                n as nat,
            ),
    {
        let ghost start = self.view_with(namer@);
        let factors = make_zip_row(a, b, OprBinary::Mul, n);
        let ghost factor_views = oprs_view(factors@);
        assert(factors@.len() == factor_views.len());
        proof {
            reveal_strlit("dot");
            reveal_strlit("dot_sum");
            assert("dot"@ =~= dot_name());
            assert("dot_sum"@ =~= dot_sum_name());
        }
        let products = self.bind_row(namer, "dot", &factors);
        let ghost multiplied = self.view_with(namer@);
        let ghost product_views = idents_view(products@);
        let mut current = products[0].clone();
        let mut k: usize = 1;
        while k < n
            invariant
                1 <= k <= n,
                n == products@.len(),
                self.wf(),
                product_views == idents_view(products@),
                "dot_sum"@ == dot_sum_name(),
                self.view_with(namer@) == multiplied.sum_chain(product_views, (k - 1) as nat),
                current@ == multiplied.chain_last(product_views, (k - 1) as nat),
                namer@.room() >= n - k,
            decreases n - k,
        {
            let name = indexed_name("dot_sum", k);
            let next = self.bind(
                namer,
                name.as_str(),
                Opr::Binary {
                    opr1: current,
                    opr2: products[k].clone(),
                    opr_type: OprBinary::Add,
                },
            );
            current = next;
            k += 1;
        }
        self.push(namer, id.clone(), Opr::Unary { opr1: current, opr_type: OprUnary::Assign });
    }

    /// Carries out a plan for the node `expr`.
    fn emit(&mut self, namer: &mut Namer, expr: &Expr, plan: Plan)
        requires
            old(self).wf(),
            plan@.valid(),
            old(namer)@.room() >= plan@.needed(),
        ensures
            final(self).wf(),
            final(self).view_with(final(namer)@) == old(self).view_with(old(namer)@).emit(
                expr@,
                plan@,
            ),
    {
        let ghost start = self.view_with(namer@);
        match expr {
            Expr::Let { id, opr } => match plan {
                Plan::Keep => {
                    self.push(namer, id.clone(), opr.clone());
                },
                Plan::Rebind(new_opr) => {
                    self.push(namer, id.clone(), new_opr);
                },
                Plan::Row(oprs) => {
                    let ids = self.bind_row(namer, id.name.as_str(), &oprs);
                    self.record_vector(namer, id.clone(), ids);
                },
                Plan::Grid(grid) => {
                    let ids = self.bind_grid(namer, id.name.as_str(), &grid);
                    self.record_matrix(namer, id.clone(), ids);
                },
                Plan::Transposed(grid, cols) => {
                    let ids = self.bind_grid(namer, id.name.as_str(), &grid);
                    proof {
                        let views = opr_grid_view(grid@);
                        lemma_grid_ids_len(start, id@.name, views, views.len());
                        assert forall|i: int| 0 <= i < grid_view(ids@).len() implies (
                        #[trigger] grid_view(ids@)[i]).len() >= cols by {
                            assert(views[i].len() >= cols);
                        }
                    }
                    let flipped = transpose_ids(&ids, cols);
                    self.record_matrix(namer, id.clone(), flipped);
                },
                Plan::Cross(a, b) => {
                    self.emit_cross(namer, id, &a, &b);
                },
                Plan::Dot(a, b, n) => {
                    self.emit_dot(namer, id, &a, &b, n);
                },
            },
        }
    }

    /// How many identifiers a plan needs, if the naming service could ever
    /// have room for them.
    fn needed(plan: &Plan) -> (r: Option<usize>)
        requires
            plan@.valid(),
        ensures
            match r {
                Some(n) => n == plan@.needed(),
                None => plan@.needed() > usize::MAX,
            },
    {
        match plan {
            Plan::Keep => Some(0),
            Plan::Rebind(_) => Some(0),
            Plan::Row(oprs) => {
                assert(oprs@.len() == oprs_view(oprs@).len());
                Some(oprs.len())
            },
            Plan::Grid(grid) => {
                proof {
                    lemma_cells_by_length(
                        Seq::new(grid@.len(), |i: int| grid@[i]@),
                        opr_grid_view(grid@),
                        grid@.len(),
                    );
                }
                count_cells(grid, usize::MAX)
            },
            Plan::Transposed(grid, _) => {
                proof {
                    lemma_cells_by_length(
                        Seq::new(grid@.len(), |i: int| grid@[i]@),
                        opr_grid_view(grid@),
                        grid@.len(),
                    );
                }
                count_cells(grid, usize::MAX)
            },
            Plan::Cross(_, _) => Some(9),
            Plan::Dot(_, _, n) => {
                let rest = *n - 1;
                if rest > usize::MAX - *n {
                    None
                } else {
                    Some(*n + rest)
                }
            },
        }
    }

    /// Lowers one node.
    pub fn step(&mut self, namer: &mut Namer, expr: &Expr) -> (r: Result<(), UnrollError>)
        requires
            old(self).wf(),
        ensures
            match old(self).view_with(old(namer)@).step(expr@) {
                Ok(next) => r is Ok && final(self).wf() && final(self).view_with(final(namer)@)
                    == next,
                Err(e) => r == Err::<(), UnrollError>(e),
            },
    {
        let plan = match self.plan(namer, expr) {
            Ok(plan) => plan,
            Err(e) => {
                return Err(e);
            },
        };
        proof {
            lemma_plan_valid(self.view_with(namer@), expr@);
        }
        let enough = match Lowering::needed(&plan) {
            Some(n) => namer.has_room(n),
            None => {
                let _ = namer.has_room(0);
                proof {
                    lemma_room_bound(namer@);
                }
                false
            },
        };
        if !enough {
            return Err(UnrollError::OutOfIdentifiers);
        }
        self.emit(namer, expr, plan);
        Ok(())
    }

    /// Lowers one declared input.
    pub fn input_step(&mut self, namer: &mut Namer, id: &Identifier, input: &ProgramInput) -> (r:
        Result<(), UnrollError>)
        requires
            old(self).wf(),
        ensures
            match old(self).view_with(old(namer)@).input_step(id@, input@) {
                Ok(next) => r is Ok && final(self).wf() && final(self).view_with(final(namer)@)
                    == next,
                Err(e) => r == Err::<(), UnrollError>(e),
            },
    {
        match input {
            ProgramInput::Scalar { .. } => {
                let ghost before = self.inputs;
                let copy = input.clone();
                let key = id.clone();
                self.inputs.insert(key, copy);
                proof {
                    lemma_insert_entries(&before, &self.inputs, key, copy, |v: ProgramInput| v@);
                }
                Ok(())
            },
            ProgramInput::Vector { info } => {
                let declared = match id.size {
                    IdSize::Vector { len } => len,
                    _ => {
                        return Err(UnrollError::ShapeMismatch);
                    },
                };
                if declared != info.len() {
                    return Err(UnrollError::ShapeMismatch);
                }
                if !namer.has_room(info.len()) {
                    return Err(UnrollError::OutOfIdentifiers);
                }
                let ids = self.declare_row(namer, id.name.as_str(), info);
                self.record_vector(namer, id.clone(), ids);
                Ok(())
            },
            ProgramInput::Matrix { info } => {
                let (rows, cols) = match id.size {
                    IdSize::Matrix { row_size, col_size } => (row_size, col_size),
                    _ => {
                        return Err(UnrollError::ShapeMismatch);
                    },
                };
                if rows != info.len() || !check_rows_are(info, cols) {
                    return Err(UnrollError::ShapeMismatch);
                }
                proof {
                    lemma_cells_by_length(
                        Seq::new(info@.len(), |i: int| info@[i]@),
                        inputs_grid_view(info@),
                        info@.len(),
                    );
                }
                let enough = match count_cells(info, usize::MAX) {
                    Some(n) => namer.has_room(n),
                    None => {
                        let _ = namer.has_room(0);
                        proof {
                            lemma_room_bound(namer@);
                        }
                        false
                    },
                };
                if !enough {
                    return Err(UnrollError::OutOfIdentifiers);
                }
                let ids = self.declare_grid(namer, id.name.as_str(), info);
                self.record_matrix(namer, id.clone(), ids);
                Ok(())
            },
        }
    }

    /// The leaves of the output `id`.
    pub fn output_leaves(&self, namer: &Namer, id: &Identifier) -> (r: Result<
        ProgramOutput,
        UnrollError,
    >)
        requires
            self.wf(),
        ensures
            match self.view_with(namer@).output_leaves(id@) {
                Ok(leaves) => r matches Ok(out) && out@ == leaves,
                Err(e) => r matches Err(f) && f == e,
            },
    {
        match id.var_type {
            VarType::Scalar => Ok(ProgramOutput::Scalar { info: Output::pending(id.clone()) }),
            VarType::Vector => match self.vector_of(namer, id) {
                Some(ids) => Ok(ProgramOutput::Vector { info: make_pending_row(ids) }),
                None => Err(UnrollError::UnknownOperand),
            },
            VarType::Matrix => match self.matrix_of(namer, id) {
                Some(ids) => Ok(ProgramOutput::Matrix { info: make_pending_grid(ids) }),
                None => Err(UnrollError::UnknownOperand),
            },
        }
    }
}

/// Lowers `program` to scalars: every vector and matrix is replaced by new
/// scalar identifiers, one per element, and every node by the scalar nodes
/// that compute its elements. The result is a new program; `program` is left
/// as it is. Fails on the first input, node or output that cannot be lowered.
pub fn unroll_ir(namer: &mut Namer, program: &Program) -> (r: Result<Program, UnrollError>)
    requires
        program.wf(),
    ensures
        match unrolled(old(namer)@, program@) {
            Ok((scalar, after)) => r matches Ok(p) && p.wf() && p@ == scalar && final(namer)@
                == after,
            Err(e) => r matches Err(f) && f == e,
        },
{
    let ghost start = LoweringView::start(namer@);
    let mut lowering = Lowering::new(namer);
    let inputs = program.get_inputs();
    let n_inputs = inputs.len();
    let mut i: usize = 0;
    while i < n_inputs
        invariant
            i <= n_inputs,
            n_inputs == program@.inputs.len(),
            inputs.wf(),
            crate::program::inputs_view(inputs) == program@.inputs,
            lowering.wf(),
            start == LoweringView::start(old(namer)@),
            start.lower_inputs(program@.inputs, i as nat) == Ok::<LoweringView, UnrollError>(
                lowering.view_with(namer@),
            ),
        decreases n_inputs - i,
    {
        let key = inputs.key_at(i);
        let value = inputs.value_at(i);
        assert(program@.inputs[i as int] == (key@, value@));
        match lowering.input_step(namer, key, value) {
            Ok(()) => {},
            Err(e) => {
                proof {
                    lemma_inputs_fail(start, program@.inputs, (i + 1) as nat, n_inputs as nat);
                }
                return Err(e);
            },
        }
        i += 1;
    }
    let ghost declared = lowering.view_with(namer@);
    let body = program.get_body();
    let n_body = body.len();
    let mut j: usize = 0;
    while j < n_body
        invariant
            j <= n_body,
            n_body == program@.body.len(),
            body_view(body@) == program@.body,
            lowering.wf(),
            start == LoweringView::start(old(namer)@),
            start.lower_inputs(program@.inputs, program@.inputs.len()) == Ok::<
                LoweringView,
                UnrollError,
            >(declared),
            declared.lower_body(program@.body, j as nat) == Ok::<LoweringView, UnrollError>(
                lowering.view_with(namer@),
            ),
        decreases n_body - j,
    {
        assert(program@.body[j as int] == body@[j as int]@);
        match lowering.step(namer, &body[j]) {
            Ok(()) => {},
            Err(e) => {
                proof {
                    lemma_body_fail(declared, program@.body, (j + 1) as nat, n_body as nat);
                }
                return Err(e);
            },
        }
        j += 1;
    }
    let ghost done = lowering.view_with(namer@);
    let outputs = program.get_outputs();
    let n_outputs = outputs.len();
    let mut new_outputs: IdMap<ProgramOutput> = IdMap::new();
    assert(outputs_view(&new_outputs) =~= Seq::empty());
    let mut k: usize = 0;
    while k < n_outputs
        invariant
            k <= n_outputs,
            n_outputs == program@.outputs.len(),
            outputs.wf(),
            outputs_view(outputs) == program@.outputs,
            lowering.wf(),
            new_outputs.wf(),
            done == lowering.view_with(namer@),
            start == LoweringView::start(old(namer)@),
            start.lower_inputs(program@.inputs, program@.inputs.len()) == Ok::<
                LoweringView,
                UnrollError,
            >(declared),
            declared.lower_body(program@.body, program@.body.len()) == Ok::<
                LoweringView,
                UnrollError,
            >(done),
            done.lower_outputs(program@.outputs, k as nat) == Ok::<
                Seq<(IdentView, ProgramOutputView)>,
                UnrollError,
            >(outputs_view(&new_outputs)),
        decreases n_outputs - k,
    {
        let key = outputs.key_at(k);
        assert(program@.outputs[k as int].0 == key@);
        match lowering.output_leaves(namer, key) {
            Ok(leaves) => {
                let ghost before = new_outputs;
                let copy = key.clone();
                new_outputs.insert(copy, leaves);
                proof {
                    lemma_insert_entries(
                        &before,
                        &new_outputs,
                        copy,
                        leaves,
                        |v: ProgramOutput| v@,
                    );
                }
            },
            Err(e) => {
                proof {
                    lemma_outputs_fail(done, program@.outputs, (k + 1) as nat, n_outputs as nat);
                }
                return Err(e);
            },
        }
        k += 1;
    }
    let mut new_program = Program::new();
    new_program.set_inputs(lowering.inputs);
    new_program.set_outputs(new_outputs);
    new_program.set_body(lowering.body);
    Ok(new_program)
}

/// Once an input fails, lowering more inputs fails in the same way.
proof fn lemma_inputs_fail(
    state: LoweringView,
    inputs: Seq<(IdentView, ProgramInputView)>,
    n: nat,
    m: nat,
)
    requires
        n <= m,
        state.lower_inputs(inputs, n) is Err,
    ensures
        state.lower_inputs(inputs, m) == state.lower_inputs(inputs, n),
    decreases m - n,
{
    if n < m {
        lemma_inputs_fail(state, inputs, n, (m - 1) as nat);
    }
}

/// Once a node fails, lowering more nodes fails in the same way.
proof fn lemma_body_fail(state: LoweringView, body: Seq<ExprView>, n: nat, m: nat)
    requires
        n <= m,
        state.lower_body(body, n) is Err,
    ensures
        state.lower_body(body, m) == state.lower_body(body, n),
    decreases m - n,
{
    if n < m {
        lemma_body_fail(state, body, n, (m - 1) as nat);
    }
}

/// Once an output fails, lowering more outputs fails in the same way.
proof fn lemma_outputs_fail(
    state: LoweringView,
    outputs: Seq<(IdentView, ProgramOutputView)>,
    n: nat,
    m: nat,
)
    requires
        n <= m,
        state.lower_outputs(outputs, n) is Err,
    ensures
        state.lower_outputs(outputs, m) == state.lower_outputs(outputs, n),
    decreases m - n,
{
    if n < m {
        lemma_outputs_fail(state, outputs, n, (m - 1) as nat);
    }
}

} // verus!
