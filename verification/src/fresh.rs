//! The identifiers that a scalarisation pass creates are new and are
//! recorded once.

use vstd::prelude::*;
use crate::expr::{ExprView, OprView};
use crate::identifier::IdentView;
use crate::idmap::{entry_ids, lemma_position_in, position_in};
use crate::lowering::{cells, cells_upto, element_name, lemma_cells_monotone, LoweringView};
use crate::naming::{Namer, NamerState};
use crate::plan::{lemma_plan_valid, rows_reach, zip_row, PlanView, UnrollError};
use crate::program::{InputView, Program, ProgramInputView, ProgramView};
use crate::unroll::{dot_name, transposed, unrolled};
use crate::expr::OprBinary;

verus! {

/// The identifier numbers that occur in a list of identifiers.
pub open spec fn row_numbers(ids: Seq<IdentView>) -> Set<usize> {
    Set::new(|x: usize| exists|k: int| 0 <= k < ids.len() && #[trigger] ids[k].id == x)
}

/// The identifier numbers that occur in a grid of identifiers.
pub open spec fn grid_numbers(ids: Seq<Seq<IdentView>>) -> Set<usize> {
    Set::new(
        |x: usize|
            exists|i: int, j: int|
                0 <= i < ids.len() && 0 <= j < ids[i].len() && #[trigger] ids[i][j].id == x,
    )
}

/// No identifier number occurs twice in the list.
pub open spec fn row_distinct(ids: Seq<IdentView>) -> bool {
    forall|a: int, b: int| 0 <= a < b < ids.len() ==> ids[a].id != ids[b].id
}

/// No identifier number occurs at two places of the grid.
pub open spec fn grid_distinct(ids: Seq<Seq<IdentView>>) -> bool {
    forall|i: int, j: int, k: int, l: int|
        0 <= i < ids.len() && 0 <= j < ids[i].len() && 0 <= k < ids.len() && 0 <= l < ids[k].len()
            && (i != k || j != l) ==> #[trigger] ids[i][j].id != #[trigger] ids[k][l].id
}

/// Every number of the set lies above `low` and not above `high`.
pub open spec fn between(numbers: Set<usize>, low: nat, high: nat) -> bool {
    forall|x: usize| numbers.contains(x) ==> low < x <= high
}

/// The identifiers of a list are numbered in order, starting after `from`.
pub open spec fn row_counts_from(ids: Seq<IdentView>, from: nat) -> bool {
    forall|k: int| 0 <= k < ids.len() ==> (#[trigger] ids[k]).id == from + k + 1
}

/// The identifiers of a grid are numbered in row-major order, starting after
/// `from`.
pub open spec fn grid_counts_from(ids: Seq<Seq<IdentView>>, from: nat) -> bool {
    forall|i: int, j: int|
        0 <= i < ids.len() && 0 <= j < ids[i].len() ==> (#[trigger] ids[i][j]).id == from
            + cells_upto(ids, i as nat) + j + 1
}

/// What holds of the records of a pass that started when the naming service
/// had issued `floor` identifier numbers: every recorded scalar was created
/// by the pass, and none is recorded twice, neither within one vector or
/// matrix nor for two of them.
pub open spec fn records_apart(state: LoweringView, floor: nat) -> bool {
    &&& floor <= state.namer.ids <= usize::MAX
    &&& forall|i: int|
        0 <= i < state.vectors.len() ==> row_distinct((#[trigger] state.vectors[i]).1) && between(
            row_numbers(state.vectors[i].1),
            floor,
            state.namer.ids,
        )
    &&& forall|i: int|
        0 <= i < state.matrices.len() ==> grid_distinct((#[trigger] state.matrices[i]).1)
            && between(grid_numbers(state.matrices[i].1), floor, state.namer.ids)
    &&& forall|i: int, j: int|
        0 <= i < state.vectors.len() && 0 <= j < state.vectors.len() && i != j ==> row_numbers(
            (#[trigger] state.vectors[i]).1,
        ).disjoint(row_numbers((#[trigger] state.vectors[j]).1))
    &&& forall|i: int, j: int|
        0 <= i < state.matrices.len() && 0 <= j < state.matrices.len() && i != j ==> grid_numbers(
            (#[trigger] state.matrices[i]).1,
        ).disjoint(grid_numbers((#[trigger] state.matrices[j]).1))
    &&& forall|i: int, j: int|
        0 <= i < state.vectors.len() && 0 <= j < state.matrices.len() ==> row_numbers(
            (#[trigger] state.vectors[i]).1,
        ).disjoint(grid_numbers((#[trigger] state.matrices[j]).1))
}

/// Identifiers numbered in order are distinct and lie right after the number
/// they are counted from.
pub proof fn lemma_counted_row(ids: Seq<IdentView>, from: nat)
    requires
        row_counts_from(ids, from),
        from + ids.len() <= usize::MAX,
    ensures
        row_distinct(ids),
        between(row_numbers(ids), from, from + ids.len()),
{
    assert forall|x: usize| row_numbers(ids).contains(x) implies from < x <= from + ids.len() by {
        let k = choose|k: int| 0 <= k < ids.len() && #[trigger] ids[k].id == x;
        assert(ids[k].id == from + k + 1);
    }
}

/// The cells before a row, the position in the row and one more are not
/// more than the cells up to and including the row.
pub proof fn lemma_cells_step<T>(grid: Seq<Seq<T>>, i: nat, j: nat, n: nat)
    requires
        i < n <= grid.len(),
        j < grid[i as int].len(),
    ensures
        cells_upto(grid, i) + j + 1 <= cells_upto(grid, n),
{
    lemma_cells_monotone(grid, i + 1, n);
}

/// Identifiers numbered in row-major order are distinct and lie right after
/// the number they are counted from.
pub proof fn lemma_counted_grid(ids: Seq<Seq<IdentView>>, from: nat)
    requires
        grid_counts_from(ids, from),
        from + cells(ids) <= usize::MAX,
    ensures
        grid_distinct(ids),
        between(grid_numbers(ids), from, from + cells(ids)),
{
    assert forall|x: usize| grid_numbers(ids).contains(x) implies from < x <= from + cells(
        ids,
    ) by {
        let (i, j) = choose|i: int, j: int|
            0 <= i < ids.len() && 0 <= j < ids[i].len() && #[trigger] ids[i][j].id == x;
        lemma_cells_step(ids, i as nat, j as nat, ids.len());
    }
    assert forall|i: int, j: int, k: int, l: int|
        0 <= i < ids.len() && 0 <= j < ids[i].len() && 0 <= k < ids.len() && 0 <= l
            < ids[k].len() && (i != k || j != l) implies #[trigger] ids[i][j].id
        != #[trigger] ids[k][l].id by {
        lemma_cells_step(ids, i as nat, j as nat, ids.len());
        lemma_cells_step(ids, k as nat, l as nat, ids.len());
        if i < k {
            lemma_cells_step(ids, i as nat, j as nat, k as nat);
        } else if k < i {
            lemma_cells_step(ids, k as nat, l as nat, i as nat);
        }
    }
}

/// Binding a row numbers its identifiers in order and leaves the records as
/// they are.
pub proof fn lemma_bind_row_counts(state: LoweringView, base: Seq<char>, oprs: Seq<OprView>, n: nat)
    requires
        state.namer.ids + n <= usize::MAX,
    ensures
        state.bind_row_upto(base, oprs, n).namer.ids == state.namer.ids + n,
        state.bind_row_upto(base, oprs, n).vectors == state.vectors,
        state.bind_row_upto(base, oprs, n).matrices == state.matrices,
        state.row_ids_upto(base, oprs, n).len() == n,
        row_counts_from(state.row_ids_upto(base, oprs, n), state.namer.ids),
    decreases n,
{
    if n > 0 {
        lemma_bind_row_counts(state, base, oprs, (n - 1) as nat);
        let ids = state.row_ids_upto(base, oprs, n);
        let earlier = state.row_ids_upto(base, oprs, (n - 1) as nat);
        assert forall|k: int| 0 <= k < ids.len() implies (#[trigger] ids[k]).id
            == state.namer.ids + k + 1 by {
            if k < n - 1 {
                assert(ids[k] == earlier[k]);
            }
        }
    }
}

/// Declaring a row of inputs numbers its identifiers in order and leaves the
/// records as they are.
pub proof fn lemma_declare_row_counts(
    state: LoweringView,
    base: Seq<char>,
    infos: Seq<InputView>,
    n: nat,
)
    requires
        state.namer.ids + n <= usize::MAX,
    ensures
        state.declare_row_upto(base, infos, n).namer.ids == state.namer.ids + n,
        state.declare_row_upto(base, infos, n).vectors == state.vectors,
        state.declare_row_upto(base, infos, n).matrices == state.matrices,
        state.declared_ids_upto(base, infos, n).len() == n,
        row_counts_from(state.declared_ids_upto(base, infos, n), state.namer.ids),
    decreases n,
{
    if n > 0 {
        lemma_declare_row_counts(state, base, infos, (n - 1) as nat);
        let ids = state.declared_ids_upto(base, infos, n);
        let earlier = state.declared_ids_upto(base, infos, (n - 1) as nat);
        assert forall|k: int| 0 <= k < ids.len() implies (#[trigger] ids[k]).id
            == state.namer.ids + k + 1 by {
            if k < n - 1 {
                assert(ids[k] == earlier[k]);
            }
        }
    }
}

/// Binding a grid numbers its identifiers in row-major order, gives each
/// row as many identifiers as it has operations, and leaves the records as
/// they are.
pub proof fn lemma_bind_grid_counts(
    state: LoweringView,
    base: Seq<char>,
    grid: Seq<Seq<OprView>>,
    n: nat,
)
    requires
        n <= grid.len(),
        state.namer.ids + cells_upto(grid, n) <= usize::MAX,
    ensures
        state.bind_grid_upto(base, grid, n).namer.ids == state.namer.ids + cells_upto(grid, n),
        state.bind_grid_upto(base, grid, n).vectors == state.vectors,
        state.bind_grid_upto(base, grid, n).matrices == state.matrices,
        state.grid_ids_upto(base, grid, n).len() == n,
        forall|i: int|
            0 <= i < n ==> (#[trigger] state.grid_ids_upto(base, grid, n)[i]).len()
                == grid[i].len(),
        forall|i: int, j: int|
            0 <= i < n && 0 <= j < grid[i].len() ==> (#[trigger] state.grid_ids_upto(
                base,
                grid,
                n,
            )[i][j]).id == state.namer.ids + cells_upto(grid, i as nat) + j + 1,
    decreases n,
{
    if n > 0 {
        lemma_bind_grid_counts(state, base, grid, (n - 1) as nat);
        let before = state.bind_grid_upto(base, grid, (n - 1) as nat);
        let row = grid[n - 1];
        lemma_bind_row_counts(before, element_name(base, n - 1), row, row.len());
        let ids = state.grid_ids_upto(base, grid, n);
        let earlier = state.grid_ids_upto(base, grid, (n - 1) as nat);
        assert forall|i: int| 0 <= i < n implies (#[trigger] ids[i]).len() == grid[i].len() by {
            if i < n - 1 {
                assert(ids[i] == earlier[i]);
            }
        }
        assert forall|i: int, j: int| 0 <= i < n && 0 <= j < grid[i].len() implies (
        #[trigger] ids[i][j]).id == state.namer.ids + cells_upto(grid, i as nat) + j + 1 by {
            if i < n - 1 {
                assert(ids[i] == earlier[i]);
            } else {
                let last = before.row_ids(element_name(base, n - 1), row);
                assert(ids[i] == last);
                assert(last[j].id == before.namer.ids + j + 1);
            }
        }
    }
}

/// Declaring a grid of inputs numbers its identifiers in row-major order,
/// gives each row as many identifiers as it has ranges, and leaves the
/// records as they are.
pub proof fn lemma_declare_grid_counts(
    state: LoweringView,
    base: Seq<char>,
    grid: Seq<Seq<InputView>>,
    n: nat,
)
    requires
        n <= grid.len(),
        state.namer.ids + cells_upto(grid, n) <= usize::MAX,
    ensures
        state.declare_grid_upto(base, grid, n).namer.ids == state.namer.ids + cells_upto(
            grid,
            n,
        ),
        state.declare_grid_upto(base, grid, n).vectors == state.vectors,
        state.declare_grid_upto(base, grid, n).matrices == state.matrices,
        state.declared_grid_ids_upto(base, grid, n).len() == n,
        forall|i: int|
            0 <= i < n ==> (#[trigger] state.declared_grid_ids_upto(base, grid, n)[i]).len()
                == grid[i].len(),
        forall|i: int, j: int|
            0 <= i < n && 0 <= j < grid[i].len() ==> (#[trigger] state.declared_grid_ids_upto(
                base,
                grid,
                n,
            )[i][j]).id == state.namer.ids + cells_upto(grid, i as nat) + j + 1,
    decreases n,
{
    if n > 0 {
        lemma_declare_grid_counts(state, base, grid, (n - 1) as nat);
        let before = state.declare_grid_upto(base, grid, (n - 1) as nat);
        let row = grid[n - 1];
        lemma_declare_row_counts(before, element_name(base, n - 1), row, row.len());
        let ids = state.declared_grid_ids_upto(base, grid, n);
        let earlier = state.declared_grid_ids_upto(base, grid, (n - 1) as nat);
        assert forall|i: int| 0 <= i < n implies (#[trigger] ids[i]).len() == grid[i].len() by {
            if i < n - 1 {
                assert(ids[i] == earlier[i]);
            }
        }
        assert forall|i: int, j: int| 0 <= i < n && 0 <= j < grid[i].len() implies (
        #[trigger] ids[i][j]).id == state.namer.ids + cells_upto(grid, i as nat) + j + 1 by {
            if i < n - 1 {
                assert(ids[i] == earlier[i]);
            } else {
                let last = before.declared_ids(element_name(base, n - 1), row);
                assert(ids[i] == last);
                assert(last[j].id == before.namer.ids + j + 1);
            }
        }
    }
}

/// A grid whose identifiers follow the numbering of a grid of the same
/// shape is numbered in row-major order itself.
pub proof fn lemma_grid_counts_by_shape<T>(ids: Seq<Seq<IdentView>>, shape: Seq<Seq<T>>, from: nat)
    requires
        ids.len() == shape.len(),
        forall|i: int| 0 <= i < ids.len() ==> (#[trigger] ids[i]).len() == shape[i].len(),
        forall|i: int, j: int|
            0 <= i < ids.len() && 0 <= j < shape[i].len() ==> (#[trigger] ids[i][j]).id == from
                + cells_upto(shape, i as nat) + j + 1,
    ensures
        grid_counts_from(ids, from),
        cells(ids) == cells(shape),
{
    assert forall|i: int, j: int| 0 <= i < ids.len() && 0 <= j < ids[i].len() implies (
    #[trigger] ids[i][j]).id == from + cells_upto(ids, i as nat) + j + 1 by {
        crate::unroll::lemma_cells_by_length(ids, shape, i as nat);
    }
    crate::unroll::lemma_cells_by_length(ids, shape, ids.len());
}

/// Exchanging rows and columns of a grid whose rows all reach `cols` cells
/// keeps its identifiers distinct and adds no number.
pub proof fn lemma_transposed_distinct(ids: Seq<Seq<IdentView>>, cols: nat, low: nat, high: nat)
    requires
        grid_distinct(ids),
        rows_reach(ids, ids.len(), cols),
        between(grid_numbers(ids), low, high),
    ensures
        grid_distinct(transposed(ids, cols)),
        between(grid_numbers(transposed(ids, cols)), low, high),
{
    let t = transposed(ids, cols);
    assert forall|x: usize| grid_numbers(t).contains(x) implies low < x <= high by {
        let (j, i) = choose|j: int, i: int|
            0 <= j < t.len() && 0 <= i < t[j].len() && #[trigger] t[j][i].id == x;
        assert(t[j][i] == ids[i][j]);
        assert(ids[i].len() >= cols);
        assert(grid_numbers(ids).contains(ids[i][j].id));
    }
    assert forall|j: int, i: int, l: int, k: int|
        0 <= j < t.len() && 0 <= i < t[j].len() && 0 <= l < t.len() && 0 <= k < t[l].len() && (j
            != l || i != k) implies #[trigger] t[j][i].id != #[trigger] t[l][k].id by {
        assert(ids[i].len() >= cols);
        assert(ids[k].len() >= cols);
        assert(t[j][i] == ids[i][j]);
        assert(t[l][k] == ids[k][l]);
    }
}

/// Records stay apart when the naming service issues more numbers.
pub proof fn lemma_grown_apart(before: LoweringView, after: LoweringView, floor: nat)
    requires
        records_apart(before, floor),
        after.vectors == before.vectors,
        after.matrices == before.matrices,
        after.namer.ids >= before.namer.ids,
        after.namer.ids <= usize::MAX,
    ensures
        records_apart(after, floor),
{
}

/// Records stay apart when a vector made of new identifiers is recorded.
pub proof fn lemma_recorded_vector_apart(
    before: LoweringView,
    bound: LoweringView,
    floor: nat,
    key: IdentView,
    ids: Seq<IdentView>,
)
    requires
        records_apart(before, floor),
        bound.vectors == before.vectors,
        bound.matrices == before.matrices,
        bound.namer.ids >= before.namer.ids,
        bound.namer.ids <= usize::MAX,
        row_distinct(ids),
        between(row_numbers(ids), before.namer.ids, bound.namer.ids),
    ensures
        records_apart(bound.record_vector(key, ids), floor),
{
    let after = bound.record_vector(key, ids);
    lemma_position_in(entry_ids(bound.vectors), key.id);
    let p = position_in(entry_ids(bound.vectors), key.id);
    assert forall|i: int| 0 <= i < after.vectors.len() implies row_distinct(
        (#[trigger] after.vectors[i]).1,
    ) && between(row_numbers(after.vectors[i].1), floor, after.namer.ids) by {
        if i != p {
            assert(after.vectors[i] == before.vectors[i]);
        }
    }
    assert forall|i: int, j: int|
        0 <= i < after.vectors.len() && 0 <= j < after.vectors.len() && i != j implies row_numbers(
        (#[trigger] after.vectors[i]).1,
    ).disjoint(row_numbers((#[trigger] after.vectors[j]).1)) by {
        if i != p && j != p {
            assert(after.vectors[i] == before.vectors[i]);
            assert(after.vectors[j] == before.vectors[j]);
        } else if i == p {
            assert(after.vectors[j] == before.vectors[j]);
            assert(between(row_numbers(before.vectors[j].1), floor, before.namer.ids));
        } else {
            assert(after.vectors[i] == before.vectors[i]);
            assert(between(row_numbers(before.vectors[i].1), floor, before.namer.ids));
        }
    }
    assert forall|i: int, j: int|
        0 <= i < after.vectors.len() && 0 <= j < after.matrices.len() implies row_numbers(
        (#[trigger] after.vectors[i]).1,
    ).disjoint(grid_numbers((#[trigger] after.matrices[j]).1)) by {
        if i != p {
            assert(after.vectors[i] == before.vectors[i]);
        } else {
            assert(between(grid_numbers(before.matrices[j].1), floor, before.namer.ids));
        }
    }
}

/// Records stay apart when a matrix made of new identifiers is recorded.
pub proof fn lemma_recorded_matrix_apart(
    before: LoweringView,
    bound: LoweringView,
    floor: nat,
    key: IdentView,
    ids: Seq<Seq<IdentView>>,
)
    requires
        records_apart(before, floor),
        bound.vectors == before.vectors,
        bound.matrices == before.matrices,
        bound.namer.ids >= before.namer.ids,
        bound.namer.ids <= usize::MAX,
        grid_distinct(ids),
        between(grid_numbers(ids), before.namer.ids, bound.namer.ids),
    ensures
        records_apart(bound.record_matrix(key, ids), floor),
{
    let after = bound.record_matrix(key, ids);
    lemma_position_in(entry_ids(bound.matrices), key.id);
    let p = position_in(entry_ids(bound.matrices), key.id);
    assert forall|i: int| 0 <= i < after.matrices.len() implies grid_distinct(
        (#[trigger] after.matrices[i]).1,
    ) && between(grid_numbers(after.matrices[i].1), floor, after.namer.ids) by {
        if i != p {
            assert(after.matrices[i] == before.matrices[i]);
        }
    }
    assert forall|i: int, j: int|
        0 <= i < after.matrices.len() && 0 <= j < after.matrices.len() && i
            != j implies grid_numbers((#[trigger] after.matrices[i]).1).disjoint(
        grid_numbers((#[trigger] after.matrices[j]).1),
    ) by {
        if i != p && j != p {
            assert(after.matrices[i] == before.matrices[i]);
            assert(after.matrices[j] == before.matrices[j]);
        } else if i == p {
            assert(after.matrices[j] == before.matrices[j]);
            assert(between(grid_numbers(before.matrices[j].1), floor, before.namer.ids));
        } else {
            assert(after.matrices[i] == before.matrices[i]);
            assert(between(grid_numbers(before.matrices[i].1), floor, before.namer.ids));
        }
    }
    assert forall|i: int, j: int|
        0 <= i < after.vectors.len() && 0 <= j < after.matrices.len() implies row_numbers(
        (#[trigger] after.vectors[i]).1,
    ).disjoint(grid_numbers((#[trigger] after.matrices[j]).1)) by {
        if j != p {
            assert(after.matrices[j] == before.matrices[j]);
        } else {
            assert(between(row_numbers(before.vectors[i].1), floor, before.namer.ids));
        }
    }
}

/// The partial sums of a dot product only add to the numbers that the
/// naming service has issued, and leave the records as they are.
pub proof fn lemma_sum_chain_frame(state: LoweringView, products: Seq<IdentView>, k: nat)
    ensures
        state.sum_chain(products, k).namer.ids == state.namer.ids + k,
        state.sum_chain(products, k).vectors == state.vectors,
        state.sum_chain(products, k).matrices == state.matrices,
    decreases k,
{
    if k > 0 {
        lemma_sum_chain_frame(state, products, (k - 1) as nat);
    }
}

/// The naming service has room only for identifiers whose numbers fit.
pub proof fn lemma_room_fits(namer: NamerState, n: nat)
    requires
        namer.room() >= n,
        n >= 1,
    ensures
        namer.ids + n <= usize::MAX,
{
}

/// Carrying out a plan keeps the records apart.
pub proof fn lemma_emit_apart(state: LoweringView, floor: nat, expr: ExprView, plan: PlanView)
    requires
        records_apart(state, floor),
        plan.valid(),
        state.namer.room() >= plan.needed(),
    ensures
        records_apart(state.emit(expr, plan), floor),
{
    let name = expr.id.name;
    match plan {
        PlanView::Keep => {},
        PlanView::Rebind(_) => {},
        PlanView::Row(oprs) => {
            if oprs.len() > 0 {
                lemma_room_fits(state.namer, oprs.len());
            }
            lemma_bind_row_counts(state, name, oprs, oprs.len());
            let ids = state.row_ids(name, oprs);
            lemma_counted_row(ids, state.namer.ids);
            lemma_recorded_vector_apart(state, state.bind_row(name, oprs), floor, expr.id, ids);
        },
        PlanView::Grid(grid) => {
            if cells(grid) > 0 {
                lemma_room_fits(state.namer, cells(grid));
            }
            lemma_bind_grid_counts(state, name, grid, grid.len());
            let ids = state.grid_ids(name, grid);
            lemma_grid_counts_by_shape(ids, grid, state.namer.ids);
            lemma_counted_grid(ids, state.namer.ids);
            lemma_recorded_matrix_apart(state, state.bind_grid(name, grid), floor, expr.id, ids);
        },
        PlanView::Transposed(grid, cols) => {
            if cells(grid) > 0 {
                lemma_room_fits(state.namer, cells(grid));
            }
            lemma_bind_grid_counts(state, name, grid, grid.len());
            let ids = state.grid_ids(name, grid);
            lemma_grid_counts_by_shape(ids, grid, state.namer.ids);
            lemma_counted_grid(ids, state.namer.ids);
            assert(rows_reach(ids, ids.len(), cols)) by {
                assert forall|i: int| 0 <= i < ids.len() implies (#[trigger] ids[i]).len()
                    >= cols by {
                    assert(grid[i].len() >= cols);
                }
            }
            lemma_transposed_distinct(
                ids,
                cols,
                state.namer.ids,
                state.namer.ids + cells(grid),
            );
            lemma_recorded_matrix_apart(
                state,
                state.bind_grid(name, grid),
                floor,
                expr.id,
                transposed(ids, cols),
            );
        },
        PlanView::Cross(a, b) => {
            lemma_room_fits(state.namer, 9);
            let ids = state.cross_ids(name);
            let reserved = state.reserve(element_name(name, 0)).reserve(
                element_name(name, 1),
            ).reserve(element_name(name, 2));
            let bound = reserved.cross_element(ids[0], 1, a[1], b[2], a[2], b[1]).cross_element(
                ids[1],
                3,
                a[2],
                b[0],
                a[0],
                b[2],
            ).cross_element(ids[2], 5, a[0], b[1], a[1], b[0]);
            assert(row_counts_from(ids, state.namer.ids));
            lemma_counted_row(ids, state.namer.ids);
            assert(bound.namer.ids == state.namer.ids + 9);
            assert(between(row_numbers(ids), state.namer.ids, bound.namer.ids));
            lemma_recorded_vector_apart(state, bound, floor, expr.id, ids);
        },
        PlanView::Dot(a, b, n) => {
            let factors = zip_row(a, b, OprBinary::Mul, n);
            lemma_room_fits(state.namer, (2 * n - 1) as nat);
            lemma_bind_row_counts(state, dot_name(), factors, n);
            let multiplied = state.bind_row(dot_name(), factors);
            let products = state.row_ids(dot_name(), factors);
            lemma_sum_chain_frame(multiplied, products, (n - 1) as nat);
            lemma_grown_apart(state, state.emit(expr, plan), floor);
        },
    }
}

/// Lowering one node keeps the records apart.
pub proof fn lemma_step_apart(state: LoweringView, floor: nat, expr: ExprView)
    requires
        records_apart(state, floor),
        state.step(expr) is Ok,
    ensures
        records_apart(state.step(expr)->Ok_0, floor),
{
    lemma_plan_valid(state, expr);
    lemma_emit_apart(state, floor, expr, state.plan(expr)->Ok_0);
}

/// Lowering one input keeps the records apart.
pub proof fn lemma_input_step_apart(
    state: LoweringView,
    floor: nat,
    id: IdentView,
    input: ProgramInputView,
)
    requires
        records_apart(state, floor),
        state.input_step(id, input) is Ok,
    ensures
        records_apart(state.input_step(id, input)->Ok_0, floor),
{
    match input {
        ProgramInputView::Scalar(_) => {},
        ProgramInputView::Vector(infos) => {
            if infos.len() > 0 {
                lemma_room_fits(state.namer, infos.len());
            }
            lemma_declare_row_counts(state, id.name, infos, infos.len());
            let ids = state.declared_ids(id.name, infos);
            lemma_counted_row(ids, state.namer.ids);
            lemma_recorded_vector_apart(state, state.declare_row(id.name, infos), floor, id, ids);
        },
        ProgramInputView::Matrix(grid) => {
            if cells(grid) > 0 {
                lemma_room_fits(state.namer, cells(grid));
            }
            lemma_declare_grid_counts(state, id.name, grid, grid.len());
            let ids = state.declared_grid_ids(id.name, grid);
            lemma_grid_counts_by_shape(ids, grid, state.namer.ids);
            lemma_counted_grid(ids, state.namer.ids);
            lemma_recorded_matrix_apart(
                state,
                state.declare_grid(id.name, grid),
                floor,
                id,
                ids,
            );
        },
    }
}

/// Lowering inputs keeps the records apart.
pub proof fn lemma_inputs_apart(
    state: LoweringView,
    floor: nat,
    inputs: Seq<(IdentView, ProgramInputView)>,
    n: nat,
)
    requires
        records_apart(state, floor),
        state.lower_inputs(inputs, n) is Ok,
    ensures
        records_apart(state.lower_inputs(inputs, n)->Ok_0, floor),
    decreases n,
{
    if n > 0 {
        lemma_inputs_apart(state, floor, inputs, (n - 1) as nat);
        let before = state.lower_inputs(inputs, (n - 1) as nat)->Ok_0;
        lemma_input_step_apart(before, floor, inputs[n - 1].0, inputs[n - 1].1);
    }
}

/// Lowering nodes keeps the records apart.
pub proof fn lemma_body_apart(state: LoweringView, floor: nat, body: Seq<ExprView>, n: nat)
    requires
        records_apart(state, floor),
        state.lower_body(body, n) is Ok,
    ensures
        records_apart(state.lower_body(body, n)->Ok_0, floor),
    decreases n,
{
    if n > 0 {
        lemma_body_apart(state, floor, body, (n - 1) as nat);
        let before = state.lower_body(body, (n - 1) as nat)->Ok_0;
        lemma_step_apart(before, floor, body[n - 1]);
    }
}

/// The state in which a pass over `program` ends, before the outputs are
/// looked up.
pub open spec fn lowered(namer: NamerState, program: ProgramView) -> Result<
    LoweringView,
    UnrollError,
> {
    match LoweringView::start(namer).lower_inputs(program.inputs, program.inputs.len()) {
        Err(e) => Err(e),
        Ok(declared) => declared.lower_body(program.body, program.body.len()),
    }
}

/// Across one pass, no scalar identifier stands for two elements: the
/// scalars recorded for one vector or matrix are pairwise different, those
/// recorded for two different vectors or matrices have nothing in common,
/// and each has a number above all the numbers that the naming service had
/// issued when the pass began, so that none is an identifier of the program
/// that was lowered.
pub proof fn lemma_unroll_identifiers_are_new(namer: NamerState, program: ProgramView)
    requires
        namer.ids <= usize::MAX,
        lowered(namer, program) is Ok,
    ensures
        records_apart(lowered(namer, program)->Ok_0, namer.ids),
{
    let start = LoweringView::start(namer);
    assert(records_apart(start, namer.ids));
    lemma_inputs_apart(start, namer.ids, program.inputs, program.inputs.len());
    let declared = start.lower_inputs(program.inputs, program.inputs.len())->Ok_0;
    lemma_body_apart(declared, namer.ids, program.body, program.body.len());
}

/// The same of what `unroll_ir` does with a naming service and a program of
/// the library: where it succeeds, the scalars that it recorded are
/// pairwise different, are shared by no two vectors or matrices, and have
/// numbers above every number that the service had issued before.
pub proof fn lemma_unroll_ir_identifiers_are_new(namer: &Namer, program: &Program)
    requires
        unrolled(namer@, program@) is Ok,
    ensures
        records_apart(lowered(namer@, program@)->Ok_0, namer@.ids),
{
    namer.lemma_view();
    lemma_unroll_identifiers_are_new(namer@, program@);
}

/// Two scalars recorded at different places of the records of a pass are
/// different identifiers, and so are those of one vector.
pub proof fn lemma_recorded_scalars_differ(
    state: LoweringView,
    floor: nat,
    i: int,
    a: int,
    j: int,
    b: int,
)
    requires
        records_apart(state, floor),
        0 <= i < state.vectors.len(),
        0 <= j < state.vectors.len(),
        0 <= a < state.vectors[i].1.len(),
        0 <= b < state.vectors[j].1.len(),
        i != j || a != b,
    ensures
        state.vectors[i].1[a].id != state.vectors[j].1[b].id,
        state.vectors[i].1[a].id > floor,
{
    let x = state.vectors[i].1[a].id;
    assert(row_numbers(state.vectors[i].1).contains(x));
    if i != j {
        let y = state.vectors[j].1[b].id;
        assert(row_numbers(state.vectors[j].1).contains(y));
    }
}

/// The pass went on from `state` to `next`: the nodes that `state` had are
/// as they were, every node that came after them binds an identifier that
/// the naming service issued in between, and the service forgot no number.
pub open spec fn grown(state: LoweringView, next: LoweringView) -> bool {
    &&& state.namer.ids <= next.namer.ids <= usize::MAX
    &&& state.body.len() <= next.body.len()
    &&& forall|i: int| 0 <= i < state.body.len() ==> next.body[i] == state.body[i]
    &&& forall|i: int|
        state.body.len() <= i < next.body.len() ==> state.namer.ids < (#[trigger] next.body[i]).id.id
            <= next.namer.ids
}

/// Going on twice is going on.
pub proof fn lemma_grown_twice(a: LoweringView, b: LoweringView, c: LoweringView)
    requires
        grown(a, b),
        grown(b, c),
    ensures
        grown(a, c),
{
    assert forall|i: int| a.body.len() <= i < c.body.len() implies a.namer.ids < (
    #[trigger] c.body[i]).id.id <= c.namer.ids by {
        if i < b.body.len() {
            assert(c.body[i] == b.body[i]);
            assert(a.namer.ids < b.body[i].id.id);
        }
    }
}

/// Binding a row goes on with new identifiers only.
pub proof fn lemma_row_grown(state: LoweringView, base: Seq<char>, oprs: Seq<OprView>, n: nat)
    requires
        state.namer.ids + n <= usize::MAX,
    ensures
        grown(state, state.bind_row_upto(base, oprs, n)),
    decreases n,
{
    if n > 0 {
        lemma_row_grown(state, base, oprs, (n - 1) as nat);
        lemma_bind_row_counts(state, base, oprs, (n - 1) as nat);
        let before = state.bind_row_upto(base, oprs, (n - 1) as nat);
        let next = state.bind_row_upto(base, oprs, n);
        assert(grown(before, next));
        lemma_grown_twice(state, before, next);
    }
}

/// Binding a grid goes on with new identifiers only.
pub proof fn lemma_grid_grown(
    state: LoweringView,
    base: Seq<char>,
    grid: Seq<Seq<OprView>>,
    n: nat,
)
    requires
        n <= grid.len(),
        state.namer.ids + cells_upto(grid, n) <= usize::MAX,
    ensures
        grown(state, state.bind_grid_upto(base, grid, n)),
    decreases n,
{
    if n > 0 {
        lemma_cells_monotone(grid, (n - 1) as nat, n);
        lemma_grid_grown(state, base, grid, (n - 1) as nat);
        lemma_bind_grid_counts(state, base, grid, (n - 1) as nat);
        let before = state.bind_grid_upto(base, grid, (n - 1) as nat);
        lemma_row_grown(before, element_name(base, n - 1), grid[n - 1], grid[n - 1].len());
        lemma_grown_twice(state, before, state.bind_grid_upto(base, grid, n));
    }
}

/// The partial sums of a dot product go on with new identifiers only.
pub proof fn lemma_sum_chain_grown(state: LoweringView, products: Seq<IdentView>, k: nat)
    requires
        state.namer.ids + k <= usize::MAX,
    ensures
        grown(state, state.sum_chain(products, k)),
    decreases k,
{
    if k > 0 {
        lemma_sum_chain_grown(state, products, (k - 1) as nat);
        lemma_sum_chain_frame(state, products, (k - 1) as nat);
        let before = state.sum_chain(products, (k - 1) as nat);
        assert(grown(before, state.sum_chain(products, k)));
        lemma_grown_twice(state, before, state.sum_chain(products, k));
    }
}

/// The plan binds the identifier of the node itself: the node stays a
/// scalar node, renames a scalar, or is a dot product.
pub open spec fn keeps_identifier(plan: PlanView) -> bool {
    plan is Keep || plan is Rebind || plan is Dot
}

/// Lowering a node goes on with new identifiers, but for the last node of
/// one that keeps its own identifier.
pub proof fn lemma_step_binds(state: LoweringView, expr: ExprView)
    requires
        state.step(expr) is Ok,
        state.namer.ids <= usize::MAX,
    ensures
        ({
            let next = state.step(expr)->Ok_0;
            &&& state.namer.ids <= next.namer.ids <= usize::MAX
            &&& state.body.len() <= next.body.len()
            &&& forall|i: int| 0 <= i < state.body.len() ==> next.body[i] == state.body[i]
            &&& forall|i: int|
                state.body.len() <= i < next.body.len() ==> state.namer.ids < (
                #[trigger] next.body[i]).id.id <= next.namer.ids || (next.body[i].id == expr.id
                    && keeps_identifier(state.plan(expr)->Ok_0))
        }),
{
    let plan = state.plan(expr)->Ok_0;
    let name = expr.id.name;
    lemma_plan_valid(state, expr);
    if plan.needed() > 0 {
        lemma_room_fits(state.namer, plan.needed());
    }
    match plan {
        PlanView::Keep => {},
        PlanView::Rebind(_) => {},
        PlanView::Row(oprs) => {
            lemma_row_grown(state, name, oprs, oprs.len());
        },
        PlanView::Grid(grid) => {
            lemma_grid_grown(state, name, grid, grid.len());
        },
        PlanView::Transposed(grid, _) => {
            lemma_grid_grown(state, name, grid, grid.len());
        },
        PlanView::Cross(a, b) => {
            let ids = state.cross_ids(name);
            let s0 = state.reserve(element_name(name, 0)).reserve(element_name(name, 1)).reserve(
                element_name(name, 2),
            );
            let s1 = s0.cross_element(ids[0], 1, a[1], b[2], a[2], b[1]);
            let s2 = s1.cross_element(ids[1], 3, a[2], b[0], a[0], b[2]);
            let s3 = s2.cross_element(ids[2], 5, a[0], b[1], a[1], b[0]);
            assert(grown(state, s0));
            assert(grown(state, s1));
            assert(grown(state, s2));
            assert(grown(state, s3));
        },
        PlanView::Dot(a, b, n) => {
            let factors = zip_row(a, b, OprBinary::Mul, n);
            lemma_row_grown(state, dot_name(), factors, n);
            lemma_bind_row_counts(state, dot_name(), factors, n);
            let multiplied = state.bind_row(dot_name(), factors);
            let products = state.row_ids(dot_name(), factors);
            lemma_sum_chain_grown(multiplied, products, (n - 1) as nat);
            lemma_sum_chain_frame(multiplied, products, (n - 1) as nat);
            lemma_grown_twice(state, multiplied, multiplied.sum_chain(products, (n - 1) as nat));
        },
    }
}

/// After the first `n` nodes were lowered, every node of the lowered
/// program binds a new identifier, or the identifier of one of those nodes
/// that keeps its own.
pub proof fn lemma_body_binds(state: LoweringView, body: Seq<ExprView>, n: nat, floor: nat)
    requires
        state.lower_body(body, n) is Ok,
        floor <= state.namer.ids <= usize::MAX,
    ensures
        ({
            let done = state.lower_body(body, n)->Ok_0;
            &&& state.namer.ids <= done.namer.ids <= usize::MAX
            &&& state.body.len() <= done.body.len()
            &&& forall|i: int|
                state.body.len() <= i < done.body.len() ==> floor < (#[trigger] done.body[i]).id.id
                    || exists|m: int|
                    0 <= m < n && done.body[i].id == (#[trigger] body[m]).id && keeps_identifier(
                        state.lower_body(body, m as nat)->Ok_0.plan(body[m])->Ok_0,
                    )
        }),
    decreases n,
{
    if n > 0 {
        lemma_body_binds(state, body, (n - 1) as nat, floor);
        let before = state.lower_body(body, (n - 1) as nat)->Ok_0;
        let done = state.lower_body(body, n)->Ok_0;
        lemma_step_binds(before, body[n - 1]);
        assert forall|i: int| state.body.len() <= i < done.body.len() implies floor < (
        #[trigger] done.body[i]).id.id || exists|m: int|
            0 <= m < n && done.body[i].id == (#[trigger] body[m]).id && keeps_identifier(
                state.lower_body(body, m as nat)->Ok_0.plan(body[m])->Ok_0,
            ) by {
            if i < before.body.len() {
                assert(done.body[i] == before.body[i]);
                if !(floor < before.body[i].id.id) {
                    let m = choose|m: int|
                        0 <= m < n - 1 && before.body[i].id == (#[trigger] body[m]).id
                            && keeps_identifier(
                            state.lower_body(body, m as nat)->Ok_0.plan(body[m])->Ok_0,
                        );
                    assert(0 <= m < n && done.body[i].id == body[m].id);
                }
            } else {
                if !(floor < done.body[i].id.id) {
                    assert(done.body[i].id == body[n - 1].id && keeps_identifier(
                        state.lower_body(body, (n - 1) as nat)->Ok_0.plan(body[n - 1])->Ok_0,
                    ));
                }
            }
        }
    }
}

/// No new identifier collides with an identifier of the program: every node
/// of the program that `unroll_ir` returns binds an identifier with a
/// number above every number that the naming service had issued before, or
/// the identifier of a node of the program that stays a scalar node,
/// renames a scalar, or is a dot product.
pub proof fn lemma_unroll_ir_nodes_bind(namer: &Namer, program: &Program, i: int)
    requires
        unrolled(namer@, program@) is Ok,
        0 <= i < unrolled(namer@, program@)->Ok_0.0.body.len(),
    ensures
        ({
            let declared = LoweringView::start(namer@).lower_inputs(
                program@.inputs,
                program@.inputs.len(),
            )->Ok_0;
            let node = unrolled(namer@, program@)->Ok_0.0.body[i];
            namer@.ids < node.id.id || exists|m: int|
                0 <= m < program@.body.len() && node.id == (#[trigger] program@.body[m]).id
                    && keeps_identifier(
                    declared.lower_body(program@.body, m as nat)->Ok_0.plan(program@.body[m])->Ok_0,
                )
        }),
{
    namer.lemma_view();
    let start = LoweringView::start(namer@);
    let declared = start.lower_inputs(program@.inputs, program@.inputs.len())->Ok_0;
    assert(records_apart(start, namer@.ids));
    lemma_inputs_apart(start, namer@.ids, program@.inputs, program@.inputs.len());
    crate::preserve::lemma_inputs_build_nothing(start, program@.inputs, program@.inputs.len());
    lemma_body_binds(declared, program@.body, program@.body.len(), namer@.ids);
    let done = declared.lower_body(program@.body, program@.body.len())->Ok_0;
    assert(unrolled(namer@, program@)->Ok_0.0.body == done.body);
}

} // verus!
