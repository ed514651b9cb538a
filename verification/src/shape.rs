//! A scalarisation pass records one scalar for each element.

use vstd::prelude::*;
use crate::expr::{ExprView, OprBinary, OprView};
use crate::fresh::{lemma_cells_step, lemma_bind_grid_counts, lemma_bind_row_counts, lemma_declare_grid_counts, lemma_declare_row_counts, lemma_room_fits, lemma_sum_chain_frame};
use crate::identifier::{IdSize, IdentView};
use crate::idmap::{entry_value, has_entry, lemma_upsert_lookup};
use crate::lowering::{cells, cells_upto, element_name, lemma_cells_monotone, LoweringView};
use crate::plan::{lemma_plan_valid, rows_are, zip_row, PlanView};
use crate::naming::NamerState;
use crate::program::{InputView, ProgramInputView, ProgramView};
use crate::unroll::{dot_name, transposed, unrolled};

verus! {

/// `grid` has `rows` rows of `cols` cells each.
pub open spec fn has_shape<T>(grid: Seq<Seq<T>>, rows: nat, cols: nat) -> bool {
    grid.len() == rows && rows_are(grid, cols)
}

/// A vector input that is lowered is recorded with exactly as many scalars
/// as its identifier declares elements, and a matrix input with exactly as
/// many rows and columns of scalars as it declares.
pub proof fn lemma_input_cardinality(state: LoweringView, id: IdentView, input: ProgramInputView)
    requires
        state.input_step(id, input) is Ok,
        state.namer.ids <= usize::MAX,
    ensures
        input is Vector ==> state.input_step(id, input)->Ok_0.knows_vector(id)
            && state.input_step(id, input)->Ok_0.vector(id).len() == id.size->len,
        input is Matrix ==> state.input_step(id, input)->Ok_0.knows_matrix(id) && has_shape(
            state.input_step(id, input)->Ok_0.matrix(id),
            id.size->row_size as nat,
            id.size->col_size as nat,
        ),
{
    match input {
        ProgramInputView::Scalar(_) => {},
        ProgramInputView::Vector(infos) => {
            lemma_declare_row_counts(state, id.name, infos, infos.len());
            lemma_upsert_lookup(
                state.declare_row(id.name, infos).vectors,
                id,
                state.declared_ids(id.name, infos),
            );
        },
        ProgramInputView::Matrix(grid) => {
            lemma_declare_grid_counts(state, id.name, grid, grid.len());
            let ids = state.declared_grid_ids(id.name, grid);
            lemma_upsert_lookup(state.declare_grid(id.name, grid).matrices, id, ids);
            assert forall|i: int| 0 <= i < ids.len() implies (#[trigger] ids[i]).len()
                == id.size->col_size by {
                assert(grid[i].len() == id.size->col_size);
            }
        },
    }
}

/// A node that is lowered to a row of operations is recorded with exactly
/// one scalar for each operation; one that is lowered to a grid, with one
/// for each cell, row by row; a transpose, with rows and columns exchanged;
/// a cross product, with three.
pub proof fn lemma_node_cardinality(state: LoweringView, expr: ExprView)
    requires
        state.step(expr) is Ok,
        state.namer.ids <= usize::MAX,
    ensures
        ({
            let next = state.step(expr)->Ok_0;
            match state.plan(expr)->Ok_0 {
                PlanView::Row(oprs) => next.knows_vector(expr.id) && next.vector(expr.id).len()
                    == oprs.len(),
                PlanView::Grid(grid) => next.knows_matrix(expr.id) && next.matrix(expr.id).len()
                    == grid.len() && (forall|i: int|
                    0 <= i < grid.len() ==> (#[trigger] next.matrix(expr.id)[i]).len()
                        == grid[i].len()),
                PlanView::Transposed(grid, cols) => next.knows_matrix(expr.id) && has_shape(
                    next.matrix(expr.id),
                    cols,
                    grid.len(),
                ),
                PlanView::Cross(_, _) => next.knows_vector(expr.id) && next.vector(expr.id).len()
                    == 3,
                _ => true,
            }
        }),
{
    lemma_plan_valid(state, expr);
    let name = expr.id.name;
    match state.plan(expr)->Ok_0 {
        PlanView::Row(oprs) => {
            lemma_bind_row_counts(state, name, oprs, oprs.len());
            lemma_upsert_lookup(
                state.bind_row(name, oprs).vectors,
                expr.id,
                state.row_ids(name, oprs),
            );
        },
        PlanView::Grid(grid) => {
            lemma_bind_grid_counts(state, name, grid, grid.len());
            lemma_upsert_lookup(
                state.bind_grid(name, grid).matrices,
                expr.id,
                state.grid_ids(name, grid),
            );
        },
        PlanView::Transposed(grid, cols) => {
            lemma_bind_grid_counts(state, name, grid, grid.len());
            lemma_upsert_lookup(
                state.bind_grid(name, grid).matrices,
                expr.id,
                transposed(state.grid_ids(name, grid), cols),
            );
        },
        PlanView::Cross(a, b) => {
            let next = state.emit_cross(expr.id, a, b);
            let ids = state.cross_ids(name);
            let reserved = state.reserve(crate::lowering::element_name(name, 0)).reserve(
                crate::lowering::element_name(name, 1),
            ).reserve(crate::lowering::element_name(name, 2));
            let bound = reserved.cross_element(ids[0], 1, a[1], b[2], a[2], b[1]).cross_element(
                ids[1],
                3,
                a[2],
                b[0],
                a[0],
                b[2],
            ).cross_element(ids[2], 5, a[0], b[1], a[1], b[0]);
            lemma_upsert_lookup(bound.vectors, expr.id, ids);
        },
        _ => {},
    }
}

/// A constant vector of `n` values is recorded with exactly `n` scalars.
pub proof fn lemma_constant_vector_cardinality(state: LoweringView, id: IdentView, values: Seq<real>)
    requires
        state.step(ExprView { id, opr: OprView::ConstantVector(values) }) is Ok,
        state.namer.ids <= usize::MAX,
    ensures
        state.step(ExprView { id, opr: OprView::ConstantVector(values) })->Ok_0.vector(id).len()
            == values.len(),
{
    lemma_node_cardinality(state, ExprView { id, opr: OprView::ConstantVector(values) });
}

/// What is recorded for identifiers other than that of the node that is
/// lowered stays as it is.
pub proof fn lemma_other_records_stay(state: LoweringView, expr: ExprView, other: IdentView)
    requires
        state.step(expr) is Ok,
        other.id != expr.id.id,
    ensures
        state.step(expr)->Ok_0.knows_vector(other) == state.knows_vector(other),
        state.knows_vector(other) ==> state.step(expr)->Ok_0.vector(other) == state.vector(other),
        state.step(expr)->Ok_0.knows_matrix(other) == state.knows_matrix(other),
        state.knows_matrix(other) ==> state.step(expr)->Ok_0.matrix(other) == state.matrix(other),
{
    lemma_plan_valid(state, expr);
    let name = expr.id.name;
    match state.plan(expr)->Ok_0 {
        PlanView::Keep => {},
        PlanView::Rebind(_) => {},
        PlanView::Row(oprs) => {
            lemma_frame_row(state, name, oprs, oprs.len());
            lemma_upsert_lookup(
                state.bind_row(name, oprs).vectors,
                expr.id,
                state.row_ids(name, oprs),
            );
        },
        PlanView::Grid(grid) => {
            lemma_frame_grid(state, name, grid, grid.len());
            lemma_upsert_lookup(
                state.bind_grid(name, grid).matrices,
                expr.id,
                state.grid_ids(name, grid),
            );
        },
        PlanView::Transposed(grid, cols) => {
            lemma_frame_grid(state, name, grid, grid.len());
            lemma_upsert_lookup(
                state.bind_grid(name, grid).matrices,
                expr.id,
                transposed(state.grid_ids(name, grid), cols),
            );
        },
        PlanView::Cross(a, b) => {
            let ids = state.cross_ids(name);
            let reserved = state.reserve(crate::lowering::element_name(name, 0)).reserve(
                crate::lowering::element_name(name, 1),
            ).reserve(crate::lowering::element_name(name, 2));
            let bound = reserved.cross_element(ids[0], 1, a[1], b[2], a[2], b[1]).cross_element(
                ids[1],
                3,
                a[2],
                b[0],
                a[0],
                b[2],
            ).cross_element(ids[2], 5, a[0], b[1], a[1], b[0]);
            lemma_upsert_lookup(bound.vectors, expr.id, ids);
        },
        PlanView::Dot(a, b, n) => {
            let factors = zip_row(a, b, crate::expr::OprBinary::Mul, n);
            lemma_frame_row(state, crate::unroll::dot_name(), factors, n);
            let multiplied = state.bind_row(crate::unroll::dot_name(), factors);
            let products = state.row_ids(crate::unroll::dot_name(), factors);
            lemma_sum_chain_frame(multiplied, products, (n - 1) as nat);
        },
    }
}

/// Binding a row leaves the records as they are.
pub proof fn lemma_frame_row(state: LoweringView, base: Seq<char>, oprs: Seq<OprView>, n: nat)
    ensures
        state.bind_row_upto(base, oprs, n).vectors == state.vectors,
        state.bind_row_upto(base, oprs, n).matrices == state.matrices,
    decreases n,
{
    if n > 0 {
        lemma_frame_row(state, base, oprs, (n - 1) as nat);
    }
}

/// Binding a grid leaves the records as they are.
pub proof fn lemma_frame_grid(state: LoweringView, base: Seq<char>, grid: Seq<Seq<OprView>>, n: nat)
    ensures
        state.bind_grid_upto(base, grid, n).vectors == state.vectors,
        state.bind_grid_upto(base, grid, n).matrices == state.matrices,
    decreases n,
{
    if n > 0 {
        lemma_frame_grid(state, base, grid, (n - 1) as nat);
        lemma_frame_row(
            state.bind_grid_upto(base, grid, (n - 1) as nat),
            crate::lowering::element_name(base, n - 1),
            grid[n - 1],
            grid[n - 1].len(),
        );
    }
}

/// Binding a row declares no input.
pub proof fn lemma_bind_row_inputs(state: LoweringView, base: Seq<char>, oprs: Seq<OprView>, n: nat)
    ensures
        state.bind_row_upto(base, oprs, n).inputs == state.inputs,
    decreases n,
{
    if n > 0 {
        lemma_bind_row_inputs(state, base, oprs, (n - 1) as nat);
    }
}

/// Binding a grid declares no input.
pub proof fn lemma_bind_grid_inputs(
    state: LoweringView,
    base: Seq<char>,
    grid: Seq<Seq<OprView>>,
    n: nat,
)
    ensures
        state.bind_grid_upto(base, grid, n).inputs == state.inputs,
    decreases n,
{
    if n > 0 {
        lemma_bind_grid_inputs(state, base, grid, (n - 1) as nat);
        lemma_bind_row_inputs(
            state.bind_grid_upto(base, grid, (n - 1) as nat),
            element_name(base, n - 1),
            grid[n - 1],
            grid[n - 1].len(),
        );
    }
}

/// The partial sums of a dot product declare no input.
pub proof fn lemma_sum_chain_inputs(state: LoweringView, products: Seq<IdentView>, k: nat)
    ensures
        state.sum_chain(products, k).inputs == state.inputs,
    decreases k,
{
    if k > 0 {
        lemma_sum_chain_inputs(state, products, (k - 1) as nat);
    }
}

/// Lowering nodes declares no input: the inputs of the lowered program are
/// those that lowering the inputs declared.
pub proof fn lemma_body_keeps_inputs(state: LoweringView, body: Seq<ExprView>, n: nat)
    requires
        state.lower_body(body, n) is Ok,
    ensures
        state.lower_body(body, n)->Ok_0.inputs == state.inputs,
    decreases n,
{
    if n > 0 {
        lemma_body_keeps_inputs(state, body, (n - 1) as nat);
        let before = state.lower_body(body, (n - 1) as nat)->Ok_0;
        let expr = body[n - 1];
        let name = expr.id.name;
        match before.plan(expr)->Ok_0 {
            PlanView::Keep => {},
            PlanView::Rebind(_) => {},
            PlanView::Row(oprs) => {
                lemma_bind_row_inputs(before, name, oprs, oprs.len());
            },
            PlanView::Grid(grid) => {
                lemma_bind_grid_inputs(before, name, grid, grid.len());
            },
            PlanView::Transposed(grid, _) => {
                lemma_bind_grid_inputs(before, name, grid, grid.len());
            },
            PlanView::Cross(a, b) => {},
            PlanView::Dot(a, b, k) => {
                let factors = zip_row(a, b, OprBinary::Mul, k);
                lemma_bind_row_inputs(before, dot_name(), factors, k);
                crate::unroll::lemma_row_ids_len(before, dot_name(), factors, k);
                lemma_plan_valid(before, expr);
                lemma_sum_chain_inputs(
                    before.bind_row(dot_name(), factors),
                    before.row_ids(dot_name(), factors),
                    (k - 1) as nat,
                );
            },
        }
    }
}

/// Declaring a row of inputs gives each new scalar its own range, and keeps
/// what was declared for every number that was issued before.
pub proof fn lemma_declared_row_entries(
    state: LoweringView,
    base: Seq<char>,
    infos: Seq<InputView>,
    n: nat,
)
    requires
        state.namer.ids + n <= usize::MAX,
    ensures
        forall|k: int|
            0 <= k < n ==> has_entry(
                state.declare_row_upto(base, infos, n).inputs,
                (#[trigger] state.declared_ids_upto(base, infos, n)[k]).id,
            ) && entry_value(
                state.declare_row_upto(base, infos, n).inputs,
                state.declared_ids_upto(base, infos, n)[k].id,
            ) == ProgramInputView::Scalar(infos[k]),
        forall|x: usize|
            x <= state.namer.ids && #[trigger] has_entry(state.inputs, x) ==> has_entry(
                state.declare_row_upto(base, infos, n).inputs,
                x,
            ) && entry_value(state.declare_row_upto(base, infos, n).inputs, x) == entry_value(
                state.inputs,
                x,
            ),
    decreases n,
{
    if n > 0 {
        let m = (n - 1) as nat;
        lemma_declared_row_entries(state, base, infos, m);
        lemma_declare_row_counts(state, base, infos, m);
        lemma_declare_row_counts(state, base, infos, n);
        let before = state.declare_row_upto(base, infos, m);
        let next = state.declare_row_upto(base, infos, n);
        let ids = state.declared_ids_upto(base, infos, n);
        let earlier = state.declared_ids_upto(base, infos, m);
        let new_id = before.fresh(element_name(base, n - 1));
        lemma_upsert_lookup(before.inputs, new_id, ProgramInputView::Scalar(infos[n - 1]));
        assert(new_id.id == state.namer.ids + n);
        assert forall|k: int| 0 <= k < n implies has_entry(next.inputs, (#[trigger] ids[k]).id)
            && entry_value(next.inputs, ids[k].id) == ProgramInputView::Scalar(infos[k]) by {
            if k < n - 1 {
                assert(ids[k] == earlier[k]);
                assert(earlier[k].id == state.namer.ids + k + 1);
                assert(has_entry(before.inputs, earlier[k].id));
            } else {
                assert(ids[k] == new_id);
            }
        }
        assert forall|x: usize|
            x <= state.namer.ids && #[trigger] has_entry(state.inputs, x) implies has_entry(
            next.inputs,
            x,
        ) && entry_value(next.inputs, x) == entry_value(state.inputs, x) by {
            assert(has_entry(before.inputs, x));
        }
    }
}

/// Lowering one input keeps what was declared for the scalars that the pass
/// has created, when the input is an identifier of the program.
pub proof fn lemma_input_step_keeps(
    state: LoweringView,
    id: IdentView,
    input: ProgramInputView,
    floor: nat,
)
    requires
        state.input_step(id, input) is Ok,
        id.id <= floor <= state.namer.ids <= usize::MAX,
    ensures
        state.namer.ids <= state.input_step(id, input)->Ok_0.namer.ids <= usize::MAX,
        forall|x: usize|
            floor < x <= state.namer.ids && #[trigger] has_entry(state.inputs, x) ==> has_entry(
                state.input_step(id, input)->Ok_0.inputs,
                x,
            ) && entry_value(state.input_step(id, input)->Ok_0.inputs, x) == entry_value(
                state.inputs,
                x,
            ),
{
    match input {
        ProgramInputView::Scalar(_) => {
            lemma_upsert_lookup(state.inputs, id, input);
        },
        ProgramInputView::Vector(infos) => {
            if infos.len() > 0 {
                lemma_room_fits(state.namer, infos.len());
            }
            lemma_declare_row_counts(state, id.name, infos, infos.len());
            lemma_declared_row_entries(state, id.name, infos, infos.len());
        },
        ProgramInputView::Matrix(grid) => {
            if cells(grid) > 0 {
                lemma_room_fits(state.namer, cells(grid));
            }
            lemma_declare_grid_counts(state, id.name, grid, grid.len());
            lemma_declared_grid_keeps(state, id.name, grid, grid.len());
        },
    }
}

/// Declaring a grid of inputs keeps what was declared for every number that
/// was issued before.
pub proof fn lemma_declared_grid_keeps(
    state: LoweringView,
    base: Seq<char>,
    grid: Seq<Seq<InputView>>,
    n: nat,
)
    requires
        n <= grid.len(),
        state.namer.ids + cells_upto(grid, n) <= usize::MAX,
    ensures
        forall|x: usize|
            x <= state.namer.ids && #[trigger] has_entry(state.inputs, x) ==> has_entry(
                state.declare_grid_upto(base, grid, n).inputs,
                x,
            ) && entry_value(state.declare_grid_upto(base, grid, n).inputs, x) == entry_value(
                state.inputs,
                x,
            ),
    decreases n,
{
    if n > 0 {
        let m = (n - 1) as nat;
        lemma_declared_grid_keeps(state, base, grid, m);
        lemma_declare_grid_counts(state, base, grid, m);
        let before = state.declare_grid_upto(base, grid, m);
        lemma_declared_row_entries(before, element_name(base, n - 1), grid[n - 1], grid[n - 1].len());
        assert forall|x: usize|
            x <= state.namer.ids && #[trigger] has_entry(state.inputs, x) implies has_entry(
            state.declare_grid_upto(base, grid, n).inputs,
            x,
        ) && entry_value(state.declare_grid_upto(base, grid, n).inputs, x) == entry_value(
            state.inputs,
            x,
        ) by {
            assert(has_entry(before.inputs, x));
        }
    }
}

/// Lowering more inputs keeps what was declared for the scalars that the
/// pass has created, when the inputs are identifiers of the program.
pub proof fn lemma_inputs_keep(
    state: LoweringView,
    inputs: Seq<(IdentView, ProgramInputView)>,
    n: nat,
    m: nat,
    floor: nat,
)
    requires
        n <= m <= inputs.len(),
        state.lower_inputs(inputs, m) is Ok,
        floor <= state.namer.ids <= usize::MAX,
        forall|i: int| 0 <= i < inputs.len() ==> (#[trigger] inputs[i]).0.id <= floor,
    ensures
        state.lower_inputs(inputs, n) is Ok,
        floor <= state.lower_inputs(inputs, n)->Ok_0.namer.ids <= state.lower_inputs(
            inputs,
            m,
        )->Ok_0.namer.ids <= usize::MAX,
        forall|x: usize|
            floor < x <= state.lower_inputs(inputs, n)->Ok_0.namer.ids && #[trigger] has_entry(
                state.lower_inputs(inputs, n)->Ok_0.inputs,
                x,
            ) ==> has_entry(state.lower_inputs(inputs, m)->Ok_0.inputs, x) && entry_value(
                state.lower_inputs(inputs, m)->Ok_0.inputs,
                x,
            ) == entry_value(state.lower_inputs(inputs, n)->Ok_0.inputs, x),
    decreases m,
{
    if m == 0 {
    } else if n == m {
        lemma_inputs_keep(state, inputs, 0, (m - 1) as nat, floor);
        lemma_inputs_keep(state, inputs, (m - 1) as nat, (m - 1) as nat, floor);
        let before = state.lower_inputs(inputs, (m - 1) as nat)->Ok_0;
        lemma_input_step_keeps(before, inputs[m - 1].0, inputs[m - 1].1, floor);
    } else {
        lemma_inputs_keep(state, inputs, n, (m - 1) as nat, floor);
        let before = state.lower_inputs(inputs, (m - 1) as nat)->Ok_0;
        let start = state.lower_inputs(inputs, n)->Ok_0;
        lemma_input_step_keeps(before, inputs[m - 1].0, inputs[m - 1].1, floor);
        assert forall|x: usize|
            floor < x <= start.namer.ids && #[trigger] has_entry(start.inputs, x) implies has_entry(
            state.lower_inputs(inputs, m)->Ok_0.inputs,
            x,
        ) && entry_value(state.lower_inputs(inputs, m)->Ok_0.inputs, x) == entry_value(
            start.inputs,
            x,
        ) by {
            assert(has_entry(before.inputs, x));
        }
    }
}

/// A vector input of `N` elements becomes exactly `N` scalar inputs of the
/// program that `unroll_ir` returns: scalar `k` is recorded for element `k`,
/// is named after the vector and `k` through the naming service, and
/// carries the range of element `k`. The inputs are identifiers that the
/// naming service issued before the pass.
pub proof fn lemma_unrolled_vector_input(
    namer: NamerState,
    program: ProgramView,
    j: int,
    k: int,
)
    requires
        namer.ids <= usize::MAX,
        unrolled(namer, program) is Ok,
        forall|i: int| 0 <= i < program.inputs.len() ==> (#[trigger] program.inputs[i]).0.id
            <= namer.ids,
        0 <= j < program.inputs.len(),
        program.inputs[j].1 is Vector,
        0 <= k < program.inputs[j].1->Vector_0.len(),
    ensures
        ({
            let before = LoweringView::start(namer).lower_inputs(program.inputs, j as nat)->Ok_0;
            let id = program.inputs[j].0;
            let infos = program.inputs[j].1->Vector_0;
            let ids = before.declared_ids(id.name, infos);
            let scalar = unrolled(namer, program)->Ok_0.0;
            &&& ids.len() == infos.len()
            &&& infos.len() == id.size->len
            &&& ids[k].size == IdSize::Scalar
            &&& ids[k].name == before.declare_row_upto(id.name, infos, k as nat).namer.unique_name(
                element_name(id.name, k),
            )
            &&& has_entry(scalar.inputs, ids[k].id)
            &&& entry_value(scalar.inputs, ids[k].id) == ProgramInputView::Scalar(infos[k])
        }),
{
    let start = LoweringView::start(namer);
    let floor = namer.ids;
    let total = program.inputs.len();
    let id = program.inputs[j].0;
    let infos = program.inputs[j].1->Vector_0;
    lemma_inputs_keep(start, program.inputs, (j + 1) as nat, total, floor);
    lemma_inputs_keep(start, program.inputs, j as nat, (j + 1) as nat, floor);
    let before = start.lower_inputs(program.inputs, j as nat)->Ok_0;
    let after = start.lower_inputs(program.inputs, (j + 1) as nat)->Ok_0;
    let declared = start.lower_inputs(program.inputs, total)->Ok_0;
    assert(after == before.input_step(id, program.inputs[j].1)->Ok_0);
    if infos.len() > 0 {
        lemma_room_fits(before.namer, infos.len());
    }
    lemma_declare_row_counts(before, id.name, infos, infos.len());
    lemma_declared_row_entries(before, id.name, infos, infos.len());
    lemma_declared_name(before, id.name, infos, infos.len(), k);
    let ids = before.declared_ids(id.name, infos);
    assert(ids[k].id == before.namer.ids + k + 1);
    assert(has_entry(after.inputs, ids[k].id));
    lemma_body_keeps_inputs(declared, program.body, program.body.len());
}

/// The `k`-th scalar that a row of inputs declares is a scalar named after
/// the row and `k` by the naming service as it stands after the scalars
/// before it.
pub proof fn lemma_declared_name(
    state: LoweringView,
    base: Seq<char>,
    infos: Seq<InputView>,
    n: nat,
    k: int,
)
    requires
        0 <= k < n,
    ensures
        state.declared_ids_upto(base, infos, n)[k] == state.declare_row_upto(
            base,
            infos,
            k as nat,
        ).fresh(element_name(base, k)),
    decreases n,
{
    lemma_declared_len(state, base, infos, (n - 1) as nat);
    if k < n - 1 {
        lemma_declared_name(state, base, infos, (n - 1) as nat, k);
    }
}

/// A row of inputs declares one scalar for each.
pub proof fn lemma_declared_len(state: LoweringView, base: Seq<char>, infos: Seq<InputView>, n: nat)
    ensures
        state.declared_ids_upto(base, infos, n).len() == n,
    decreases n,
{
    if n > 0 {
        lemma_declared_len(state, base, infos, (n - 1) as nat);
    }
}

/// Declaring a grid of inputs gives each new scalar the range of its cell.
pub proof fn lemma_declared_grid_entries(
    state: LoweringView,
    base: Seq<char>,
    grid: Seq<Seq<InputView>>,
    n: nat,
)
    requires
        n <= grid.len(),
        state.namer.ids + cells_upto(grid, n) <= usize::MAX,
    ensures
        state.declared_grid_ids_upto(base, grid, n).len() == n,
        forall|i: int, j: int|
            0 <= i < n && 0 <= j < grid[i].len() ==> has_entry(
                state.declare_grid_upto(base, grid, n).inputs,
                (#[trigger] state.declared_grid_ids_upto(base, grid, n)[i][j]).id,
            ) && entry_value(
                state.declare_grid_upto(base, grid, n).inputs,
                state.declared_grid_ids_upto(base, grid, n)[i][j].id,
            ) == ProgramInputView::Scalar(grid[i][j]) && state.declared_grid_ids_upto(
                base,
                grid,
                n,
            )[i][j] == state.declare_grid_upto(base, grid, i as nat).declare_row_upto(
                element_name(base, i),
                grid[i],
                j as nat,
            ).fresh(element_name(element_name(base, i), j)),
    decreases n,
{
    if n > 0 {
        let m = (n - 1) as nat;
        lemma_cells_monotone(grid, m, n);
        lemma_declared_grid_entries(state, base, grid, m);
        lemma_declare_grid_counts(state, base, grid, m);
        lemma_declare_grid_counts(state, base, grid, n);
        let before = state.declare_grid_upto(base, grid, m);
        let next = state.declare_grid_upto(base, grid, n);
        let ids = state.declared_grid_ids_upto(base, grid, n);
        let earlier = state.declared_grid_ids_upto(base, grid, m);
        let row_name = element_name(base, n - 1);
        let row = grid[n - 1];
        lemma_declared_row_entries(before, row_name, row, row.len());
        lemma_declare_row_counts(before, row_name, row, row.len());
        assert forall|i: int, j: int| 0 <= i < n && 0 <= j < grid[i].len() implies has_entry(
            next.inputs,
            (#[trigger] ids[i][j]).id,
        ) && entry_value(next.inputs, ids[i][j].id) == ProgramInputView::Scalar(grid[i][j])
            && ids[i][j] == state.declare_grid_upto(base, grid, i as nat).declare_row_upto(
            element_name(base, i),
            grid[i],
            j as nat,
        ).fresh(element_name(element_name(base, i), j)) by {
            if i < n - 1 {
                assert(ids[i] == earlier[i]);
                lemma_cells_step(grid, i as nat, j as nat, m);
                assert(earlier[i][j].id == state.namer.ids + cells_upto(grid, i as nat) + j + 1);
                assert(has_entry(before.inputs, earlier[i][j].id));
            } else {
                assert(ids[i] == before.declared_ids(row_name, row));
                lemma_declared_name(before, row_name, row, row.len(), j);
            }
        }
    }
}

/// A matrix input of `R` rows and `C` columns becomes exactly `R` times `C`
/// scalar inputs of the program that `unroll_ir` returns, row by row: the
/// scalar for cell `(i, k)` is named after the matrix, `i` and `k` through
/// the naming service and carries the range of that cell. The inputs are
/// identifiers that the naming service issued before the pass.
pub proof fn lemma_unrolled_matrix_input(
    namer: NamerState,
    program: ProgramView,
    j: int,
    i: int,
    k: int,
)
    requires
        namer.ids <= usize::MAX,
        unrolled(namer, program) is Ok,
        forall|a: int| 0 <= a < program.inputs.len() ==> (#[trigger] program.inputs[a]).0.id
            <= namer.ids,
        0 <= j < program.inputs.len(),
        program.inputs[j].1 is Matrix,
        0 <= i < program.inputs[j].1->Matrix_0.len(),
        0 <= k < program.inputs[j].1->Matrix_0[i].len(),
    ensures
        ({
            let before = LoweringView::start(namer).lower_inputs(program.inputs, j as nat)->Ok_0;
            let id = program.inputs[j].0;
            let grid = program.inputs[j].1->Matrix_0;
            let ids = before.declared_grid_ids(id.name, grid);
            let scalar = unrolled(namer, program)->Ok_0.0;
            &&& has_shape(ids, id.size->row_size as nat, id.size->col_size as nat)
            &&& has_shape(grid, id.size->row_size as nat, id.size->col_size as nat)
            &&& ids[i][k].size == IdSize::Scalar
            &&& ids[i][k].name == before.declare_grid_upto(
                id.name,
                grid,
                i as nat,
            ).declare_row_upto(element_name(id.name, i), grid[i], k as nat).namer.unique_name(
                element_name(element_name(id.name, i), k),
            )
            &&& has_entry(scalar.inputs, ids[i][k].id)
            &&& entry_value(scalar.inputs, ids[i][k].id) == ProgramInputView::Scalar(grid[i][k])
        }),
{
    let start = LoweringView::start(namer);
    let floor = namer.ids;
    let total = program.inputs.len();
    let id = program.inputs[j].0;
    let grid = program.inputs[j].1->Matrix_0;
    lemma_inputs_keep(start, program.inputs, (j + 1) as nat, total, floor);
    lemma_inputs_keep(start, program.inputs, j as nat, (j + 1) as nat, floor);
    let before = start.lower_inputs(program.inputs, j as nat)->Ok_0;
    let after = start.lower_inputs(program.inputs, (j + 1) as nat)->Ok_0;
    let declared = start.lower_inputs(program.inputs, total)->Ok_0;
    assert(after == before.input_step(id, program.inputs[j].1)->Ok_0);
    if cells(grid) > 0 {
        lemma_room_fits(before.namer, cells(grid));
    }
    lemma_declare_grid_counts(before, id.name, grid, grid.len());
    lemma_declared_grid_entries(before, id.name, grid, grid.len());
    let ids = before.declared_grid_ids(id.name, grid);
    lemma_cells_step(grid, i as nat, k as nat, grid.len());
    assert(ids[i][k].id == before.namer.ids + cells_upto(grid, i as nat) + k + 1);
    assert(has_entry(after.inputs, ids[i][k].id));
    assert forall|a: int| 0 <= a < ids.len() implies (#[trigger] ids[a]).len()
        == id.size->col_size by {
        assert(grid[a].len() == id.size->col_size);
    }
    lemma_body_keeps_inputs(declared, program.body, program.body.len());
}

} // verus!
