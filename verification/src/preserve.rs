//! Scalarisation keeps the values: what the scalars of the lowered program
//! compute is, element by element, what the program computed.

use vstd::prelude::*;
use crate::expr::{ExprView, OprBinary, OprView, UnaryView};
use crate::fresh::{lemma_bind_grid_counts, lemma_bind_row_counts, lemma_room_fits};
use crate::identifier::{IdentView, VarType};
use crate::idmap::{distinct, entry_ids, entry_value, has_entry, lemma_position_is, lemma_upsert_lookup};
use crate::lowering::{cells, cells_upto, element_name, lemma_cells_monotone, LoweringView};
use crate::naming::NamerState;
use crate::meaning::{agree_on, lemma_meaning_reads, lemma_run_same_nodes, lemma_run_split, meaning, reads, run, unary_value, Env, Functions, Value};
use crate::plan::{constants_grid, constants_row, lemma_plan_valid, rows_are, rows_reach, scalar_left_grid, scalar_left_row, scalar_right_grid, scalar_right_row, unary_grid, unary_row, zip_grid, zip_row, PlanView, UnrollError};
use crate::program::{InputView, ProgramInputView, ProgramOutputView, ProgramView};
use crate::unroll::{dot_name, pending_grid, pending_row, transposed, unrolled};
use crate::values::{apply, dot_value};

verus! {

/// Every operand of the operation has a number up to `limit`.
pub open spec fn reads_below(opr: OprView, limit: nat) -> bool {
    forall|x: usize| reads(opr, x) ==> x <= limit
}

/// The two environments give the same value to every number up to `limit`.
pub open spec fn agree_below(first: Env, second: Env, limit: nat) -> bool {
    forall|x: usize| x <= limit ==> #[trigger] first.value(x) == second.value(x)
}

/// Binding a row appends one node for each operation, in order, and leaves
/// the nodes before them as they are.
pub proof fn lemma_row_body(state: LoweringView, base: Seq<char>, oprs: Seq<OprView>, n: nat)
    ensures
        state.bind_row_upto(base, oprs, n).body.len() == state.body.len() + n,
        forall|i: int|
            0 <= i < state.body.len() ==> state.bind_row_upto(base, oprs, n).body[i]
                == state.body[i],
        forall|k: int|
            0 <= k < n ==> #[trigger] state.bind_row_upto(base, oprs, n).body[state.body.len()
                + k] == (ExprView { id: state.row_ids_upto(base, oprs, n)[k], opr: oprs[k] }),
        state.row_ids_upto(base, oprs, n).len() == n,
    decreases n,
{
    if n > 0 {
        lemma_row_body(state, base, oprs, (n - 1) as nat);
        let before = state.bind_row_upto(base, oprs, (n - 1) as nat);
        let after = state.bind_row_upto(base, oprs, n);
        let ids = state.row_ids_upto(base, oprs, n);
        let earlier = state.row_ids_upto(base, oprs, (n - 1) as nat);
        assert forall|k: int| 0 <= k < n implies #[trigger] after.body[state.body.len() + k] == (
        ExprView { id: ids[k], opr: oprs[k] }) by {
            if k < n - 1 {
                assert(after.body[state.body.len() + k] == before.body[state.body.len() + k]);
                assert(ids[k] == earlier[k]);
            }
        }
    }
}

/// After the nodes of a row were run, the environment holds for each new
/// scalar the value of its operation, and for every older number what it
/// held.
pub proof fn lemma_row_env(
    state: LoweringView,
    base: Seq<char>,
    oprs: Seq<OprView>,
    n: nat,
    env: Env,
    f: Functions,
)
    requires
        state.namer.ids + n <= usize::MAX,
        forall|k: int| 0 <= k < n ==> reads_below(#[trigger] oprs[k], state.namer.ids),
    ensures
        agree_below(
            run(
                env,
                state.bind_row_upto(base, oprs, n).body,
                state.body.len(),
                state.body.len() + n,
                f,
            ),
            env,
            state.namer.ids,
        ),
        forall|k: int|
            0 <= k < n ==> run(
                env,
                state.bind_row_upto(base, oprs, n).body,
                state.body.len(),
                state.body.len() + n,
                f,
            ).value(#[trigger] state.row_ids_upto(base, oprs, n)[k].id) == meaning(env, oprs[k], f),
    decreases n,
{
    if n > 0 {
        let m = (n - 1) as nat;
        lemma_row_env(state, base, oprs, m, env, f);
        lemma_row_body(state, base, oprs, m);
        lemma_row_body(state, base, oprs, n);
        lemma_bind_row_counts(state, base, oprs, n);
        lemma_bind_row_counts(state, base, oprs, m);
        let before = state.bind_row_upto(base, oprs, m);
        let after = state.bind_row_upto(base, oprs, n);
        let start = state.body.len();
        let ids = state.row_ids_upto(base, oprs, n);
        let earlier = state.row_ids_upto(base, oprs, m);
        let env_m = run(env, before.body, start, start + m, f);
        lemma_run_same_nodes(env, after.body, before.body, start, start + m, f);
        assert(run(env, after.body, start, start + m, f) == env_m);
        let last = after.body[start + m as int];
        assert(last == ExprView { id: ids[m as int], opr: oprs[m as int] });
        let env_n = run(env, after.body, start, start + n, f);
        assert(env_n == env_m.set(last.id.id, meaning(env_m, last.opr, f)));
        assert(agree_on(env_m, env, oprs[m as int])) by {
            assert(reads_below(oprs[m as int], state.namer.ids));
        }
        lemma_meaning_reads(env_m, env, oprs[m as int], f);
        assert(ids[m as int].id == state.namer.ids + m + 1);
        assert forall|k: int| 0 <= k < n implies env_n.value(#[trigger] ids[k].id) == meaning(
            env,
            oprs[k],
            f,
        ) by {
            if k < m {
                assert(ids[k] == earlier[k]);
                assert(earlier[k].id == state.namer.ids + k + 1);
            }
        }
    }
}

/// Binding a grid appends the nodes of its rows, and leaves the nodes
/// before them as they are.
pub proof fn lemma_grid_body(state: LoweringView, base: Seq<char>, grid: Seq<Seq<OprView>>, n: nat)
    requires
        n <= grid.len(),
    ensures
        state.bind_grid_upto(base, grid, n).body.len() == state.body.len() + cells_upto(grid, n),
        forall|i: int|
            0 <= i < state.body.len() ==> state.bind_grid_upto(base, grid, n).body[i]
                == state.body[i],
    decreases n,
{
    if n > 0 {
        lemma_grid_body(state, base, grid, (n - 1) as nat);
        let before = state.bind_grid_upto(base, grid, (n - 1) as nat);
        lemma_row_body(before, element_name(base, n - 1), grid[n - 1], grid[n - 1].len());
    }
}

/// After the nodes of a grid were run, the environment holds for each new
/// scalar the value of its operation, and for every older number what it
/// held.
pub proof fn lemma_grid_env(
    state: LoweringView,
    base: Seq<char>,
    grid: Seq<Seq<OprView>>,
    n: nat,
    env: Env,
    f: Functions,
)
    requires
        n <= grid.len(),
        state.namer.ids + cells_upto(grid, n) <= usize::MAX,
        forall|i: int, j: int|
            0 <= i < n && 0 <= j < grid[i].len() ==> reads_below(
                #[trigger] grid[i][j],
                state.namer.ids,
            ),
    ensures
        agree_below(
            run(
                env,
                state.bind_grid_upto(base, grid, n).body,
                state.body.len(),
                state.body.len() + cells_upto(grid, n),
                f,
            ),
            env,
            state.namer.ids,
        ),
        forall|i: int, j: int|
            0 <= i < n && 0 <= j < grid[i].len() ==> run(
                env,
                state.bind_grid_upto(base, grid, n).body,
                state.body.len(),
                state.body.len() + cells_upto(grid, n),
                f,
            ).value(#[trigger] state.grid_ids_upto(base, grid, n)[i][j].id) == meaning(
                env,
                grid[i][j],
                f,
            ),
    decreases n,
{
    if n > 0 {
        let m = (n - 1) as nat;
        lemma_cells_monotone(grid, m, n);
        lemma_grid_env(state, base, grid, m, env, f);
        lemma_grid_body(state, base, grid, m);
        lemma_grid_body(state, base, grid, n);
        lemma_bind_grid_counts(state, base, grid, m);
        lemma_bind_grid_counts(state, base, grid, n);
        let before = state.bind_grid_upto(base, grid, m);
        let after = state.bind_grid_upto(base, grid, n);
        let start = state.body.len();
        let mid = start + cells_upto(grid, m);
        let end = start + cells_upto(grid, n);
        let row = grid[m as int];
        let name = element_name(base, m as int);
        let ids = state.grid_ids_upto(base, grid, n);
        let earlier = state.grid_ids_upto(base, grid, m);
        let env_m = run(env, before.body, start, mid, f);
        lemma_row_body(before, name, row, row.len());
        lemma_bind_row_counts(before, name, row, row.len());
        lemma_run_split(env, after.body, start, mid, end, f);
        lemma_run_same_nodes(env, after.body, before.body, start, mid, f);
        assert(run(env, after.body, start, mid, f) == env_m);
        assert forall|k: int| 0 <= k < row.len() implies reads_below(
            #[trigger] row[k],
            before.namer.ids,
        ) by {
            assert(reads_below(grid[m as int][k], state.namer.ids));
        }
        lemma_row_env(before, name, row, row.len(), env_m, f);
        let env_n = run(env, after.body, start, end, f);
        assert(env_n == run(env_m, after.body, mid, end, f));
        let row_ids = before.row_ids(name, row);
        assert(ids[m as int] == row_ids);
        assert forall|i: int, j: int| 0 <= i < n && 0 <= j < grid[i].len() implies env_n.value(
            #[trigger] ids[i][j].id,
        ) == meaning(env, grid[i][j], f) by {
            if i < m {
                assert(ids[i] == earlier[i]);
                assert(earlier[i][j].id == state.namer.ids + cells_upto(grid, i as nat) + j + 1);
                crate::fresh::lemma_cells_step(grid, i as nat, j as nat, m);
                assert(earlier[i][j].id <= before.namer.ids);
            } else {
                assert(env_n.value(row_ids[j].id) == meaning(env_m, row[j], f));
                assert(agree_on(env_m, env, row[j])) by {
                    assert(reads_below(grid[m as int][j], state.namer.ids));
                }
                lemma_meaning_reads(env_m, env, row[j], f);
            }
        }
    }
}

/// The scalars that stand for the elements of a vector hold its values:
/// there is one for each element, each was created by the pass, and the
/// environment of the lowered program gives each the value of its element.
pub open spec fn vector_corresponds(
    ids: Seq<IdentView>,
    value: Value,
    lowered: Env,
    floor: nat,
    high: nat,
) -> bool {
    &&& value is Vector
    &&& ids.len() == value->Vector_0.len()
    &&& forall|k: int|
        0 <= k < ids.len() ==> floor < (#[trigger] ids[k]).id <= high && ids[k].var_type
            == VarType::Scalar && lowered.value(ids[k].id) == Value::Scalar(value->Vector_0[k])
}

/// The scalars that stand for the cells of a matrix hold its values.
pub open spec fn matrix_corresponds(
    ids: Seq<Seq<IdentView>>,
    value: Value,
    lowered: Env,
    floor: nat,
    high: nat,
) -> bool {
    &&& value is Matrix
    &&& ids.len() == value->Matrix_0.len()
    &&& forall|i: int| 0 <= i < ids.len() ==> (#[trigger] ids[i]).len() == value->Matrix_0[i].len()
    &&& forall|i: int, j: int|
        0 <= i < ids.len() && 0 <= j < ids[i].len() ==> floor < (#[trigger] ids[i][j]).id <= high
            && ids[i][j].var_type == VarType::Scalar && lowered.value(ids[i][j].id)
            == Value::Scalar(value->Matrix_0[i][j])
}

/// The environment of the lowered program holds what the environment of the
/// program holds: the same number for every scalar in `known`, and for
/// every vector and matrix that the pass has recorded, element by element,
/// the values of the elements in the scalars that stand for them.
pub open spec fn corresponds(
    state: LoweringView,
    known: Set<usize>,
    original: Env,
    lowered: Env,
    floor: nat,
) -> bool {
    &&& floor <= state.namer.ids <= usize::MAX
    &&& forall|x: usize|
        known.contains(x) ==> x <= floor && original.value(x) is Scalar && #[trigger] lowered.value(
            x,
        ) == original.value(x)
    &&& forall|x: usize| #[trigger]
        has_entry(state.vectors, x) ==> x <= floor && vector_corresponds(
            entry_value(state.vectors, x),
            original.value(x),
            lowered,
            floor,
            state.namer.ids,
        )
    &&& forall|x: usize| #[trigger]
        has_entry(state.matrices, x) ==> x <= floor && matrix_corresponds(
            entry_value(state.matrices, x),
            original.value(x),
            lowered,
            floor,
            state.namer.ids,
        )
}

/// Nothing was bound to the number `id` yet.
pub open spec fn unbound(state: LoweringView, known: Set<usize>, id: usize) -> bool {
    !known.contains(id) && !has_entry(state.vectors, id) && !has_entry(state.matrices, id)
}

/// Every operand that the operation uses as a scalar is a scalar that is
/// known.
pub open spec fn scoped(known: Set<usize>, opr: OprView) -> bool {
    match opr {
        OprView::ConstructScalar(id) => id.var_type == VarType::Scalar && known.contains(id.id),
        OprView::ConstructVector(ids) => forall|i: int|
            0 <= i < ids.len() ==> (#[trigger] ids[i]).var_type == VarType::Scalar
                && known.contains(ids[i].id),
        OprView::ConstructMatrix(ids) => forall|i: int, j: int|
            0 <= i < ids.len() && 0 <= j < ids[i].len() ==> (#[trigger] ids[i][j]).var_type
                == VarType::Scalar && known.contains(ids[i][j].id),
        OprView::Unary(a, _) => a.var_type == VarType::Scalar ==> known.contains(a.id),
        OprView::Binary(a, b, kind) => kind != OprBinary::Cross && kind != OprBinary::Dot ==> (
        a.var_type == VarType::Scalar ==> known.contains(a.id)) && (b.var_type == VarType::Scalar
            ==> known.contains(b.id)),
        _ => true,
    }
}

/// The scalars that are known after a node was lowered: the node's own
/// identifier joins them when the node stays scalar.
pub open spec fn known_after(state: LoweringView, known: Set<usize>, expr: ExprView) -> Set<usize> {
    match state.plan(expr) {
        Ok(PlanView::Keep) => known.insert(expr.id.id),
        Ok(PlanView::Rebind(_)) => known.insert(expr.id.id),
        Ok(PlanView::Dot(_, _, _)) => known.insert(expr.id.id),
        _ => known,
    }
}

/// A node that binds its own identifier to a number keeps the
/// correspondence, when the number is the one that the program computes.
pub proof fn lemma_bound_scalar(
    state: LoweringView,
    known: Set<usize>,
    original: Env,
    lowered: Env,
    floor: nat,
    id: IdentView,
    opr: OprView,
    value: Value,
    f: Functions,
)
    requires
        corresponds(state, known, original, lowered, floor),
        id.id <= floor,
        unbound(state, known, id.id),
        value is Scalar,
        meaning(lowered, opr, f) == value,
    ensures
        corresponds(
            state.push(id, opr),
            known.insert(id.id),
            original.set(id.id, value),
            run(lowered, state.push(id, opr).body, state.body.len(), state.body.len() + 1, f),
            floor,
        ),
{
    let next = state.push(id, opr);
    let original2 = original.set(id.id, value);
    let lowered2 = run(lowered, next.body, state.body.len(), state.body.len() + 1, f);
    assert(run(lowered, next.body, state.body.len(), state.body.len(), f) == lowered);
    assert(lowered2 == lowered.set(id.id, value));
    assert forall|x: usize| known.insert(id.id).contains(x) implies x <= floor
        && original2.value(x) is Scalar && #[trigger] lowered2.value(x) == original2.value(
        x,
    ) by {
        if x != id.id {
            assert(known.contains(x));
            assert(lowered.value(x) == original.value(x));
        }
    }
    assert forall|x: usize| #[trigger] has_entry(next.vectors, x) implies x <= floor
        && vector_corresponds(
        entry_value(next.vectors, x),
        original2.value(x),
        lowered2,
        floor,
        next.namer.ids,
    ) by {
        assert(has_entry(state.vectors, x));
        let old_ids = entry_value(state.vectors, x);
        assert(vector_corresponds(old_ids, original.value(x), lowered, floor, state.namer.ids));
        assert forall|k: int| 0 <= k < old_ids.len() implies lowered2.value(
            (#[trigger] old_ids[k]).id,
        ) == lowered.value(old_ids[k].id) by {}
    }
    assert forall|x: usize| #[trigger] has_entry(next.matrices, x) implies x <= floor
        && matrix_corresponds(
        entry_value(next.matrices, x),
        original2.value(x),
        lowered2,
        floor,
        next.namer.ids,
    ) by {
        assert(has_entry(state.matrices, x));
        let old_ids = entry_value(state.matrices, x);
        assert(matrix_corresponds(old_ids, original.value(x), lowered, floor, state.namer.ids));
        assert forall|i: int, j: int|
            0 <= i < old_ids.len() && 0 <= j < old_ids[i].len() implies lowered2.value(
            (#[trigger] old_ids[i][j]).id,
        ) == lowered.value(old_ids[i][j].id) by {}
    }
}

/// A node that is lowered to a row keeps the correspondence, when every
/// operation of the row reads what existed before and computes the element
/// of the vector that the program computes.
pub proof fn lemma_bound_row(
    state: LoweringView,
    known: Set<usize>,
    original: Env,
    lowered: Env,
    floor: nat,
    id: IdentView,
    oprs: Seq<OprView>,
    values: Seq<real>,
    f: Functions,
)
    requires
        corresponds(state, known, original, lowered, floor),
        id.id <= floor,
        unbound(state, known, id.id),
        state.namer.room() >= oprs.len(),
        values.len() == oprs.len(),
        forall|k: int| 0 <= k < oprs.len() ==> reads_below(#[trigger] oprs[k], state.namer.ids),
        forall|k: int|
            0 <= k < oprs.len() ==> meaning(lowered, #[trigger] oprs[k], f) == Value::Scalar(
                values[k],
            ),
    ensures
        ({
            let next = state.bind_row(id.name, oprs).record_vector(
                id,
                state.row_ids(id.name, oprs),
            );
            corresponds(
                next,
                known,
                original.set(id.id, Value::Vector(values)),
                run(lowered, next.body, state.body.len(), next.body.len(), f),
                floor,
            )
        }),
{
    let n = oprs.len();
    if n > 0 {
        lemma_room_fits(state.namer, n);
    }
    let bound = state.bind_row(id.name, oprs);
    let ids = state.row_ids(id.name, oprs);
    let next = bound.record_vector(id, ids);
    lemma_row_body(state, id.name, oprs, n);
    lemma_bind_row_counts(state, id.name, oprs, n);
    lemma_row_env(state, id.name, oprs, n, lowered, f);
    lemma_upsert_lookup(bound.vectors, id, ids);
    let original2 = original.set(id.id, Value::Vector(values));
    let lowered2 = run(lowered, next.body, state.body.len(), next.body.len(), f);
    assert(agree_below(lowered2, lowered, state.namer.ids));
    assert forall|x: usize| known.contains(x) implies x <= floor && original2.value(x) is Scalar
        && #[trigger] lowered2.value(x) == original2.value(x) by {
        assert(lowered.value(x) == original.value(x));
    }
    assert forall|x: usize| #[trigger] has_entry(next.vectors, x) implies x <= floor
        && vector_corresponds(
        entry_value(next.vectors, x),
        original2.value(x),
        lowered2,
        floor,
        next.namer.ids,
    ) by {
        if x == id.id {
            assert forall|k: int| 0 <= k < ids.len() implies floor < (#[trigger] ids[k]).id
                <= next.namer.ids && ids[k].var_type == VarType::Scalar && lowered2.value(
                ids[k].id,
            ) == Value::Scalar(values[k]) by {
                assert(ids[k].id == state.namer.ids + k + 1);
                lemma_row_var_type(state, id.name, oprs, n, k);
            }
        } else {
            assert(has_entry(state.vectors, x));
            let old_ids = entry_value(state.vectors, x);
            assert forall|k: int| 0 <= k < old_ids.len() implies lowered2.value(
                (#[trigger] old_ids[k]).id,
            ) == lowered.value(old_ids[k].id) by {}
        }
    }
    assert forall|x: usize| #[trigger] has_entry(next.matrices, x) implies x <= floor
        && matrix_corresponds(
        entry_value(next.matrices, x),
        original2.value(x),
        lowered2,
        floor,
        next.namer.ids,
    ) by {
        assert(has_entry(state.matrices, x));
        let old_ids = entry_value(state.matrices, x);
        assert forall|i: int, j: int|
            0 <= i < old_ids.len() && 0 <= j < old_ids[i].len() implies lowered2.value(
            (#[trigger] old_ids[i][j]).id,
        ) == lowered.value(old_ids[i][j].id) by {}
    }
}

/// The identifiers that a row binds are scalars.
pub proof fn lemma_row_var_type(
    state: LoweringView,
    base: Seq<char>,
    oprs: Seq<OprView>,
    n: nat,
    k: int,
)
    requires
        0 <= k < n,
    ensures
        state.row_ids_upto(base, oprs, n)[k].var_type == VarType::Scalar,
    decreases n,
{
    crate::unroll::lemma_row_ids_len(state, base, oprs, n);
    crate::unroll::lemma_row_ids_len(state, base, oprs, (n - 1) as nat);
    if k < n - 1 {
        lemma_row_var_type(state, base, oprs, (n - 1) as nat, k);
    }
}

/// The identifiers that a grid binds are scalars.
pub proof fn lemma_grid_var_type(
    state: LoweringView,
    base: Seq<char>,
    grid: Seq<Seq<OprView>>,
    n: nat,
    i: int,
    j: int,
)
    requires
        0 <= i < n <= grid.len(),
        0 <= j < grid[i].len(),
    ensures
        state.grid_ids_upto(base, grid, n)[i][j].var_type == VarType::Scalar,
    decreases n,
{
    crate::unroll::lemma_grid_ids_len(state, base, grid, n);
    crate::unroll::lemma_grid_ids_len(state, base, grid, (n - 1) as nat);
    if i < n - 1 {
        lemma_grid_var_type(state, base, grid, (n - 1) as nat, i, j);
    } else {
        lemma_row_var_type(
            state.bind_grid_upto(base, grid, (n - 1) as nat),
            element_name(base, n - 1),
            grid[n - 1],
            grid[n - 1].len(),
            j,
        );
    }
}

/// What is known and recorded so far stays in correspondence when new
/// scalars are bound and nothing that existed is touched.
pub proof fn lemma_others_stay(
    state: LoweringView,
    next: LoweringView,
    known: Set<usize>,
    original: Env,
    lowered: Env,
    original2: Env,
    lowered2: Env,
    floor: nat,
    id: usize,
)
    requires
        corresponds(state, known, original, lowered, floor),
        unbound(state, known, id),
        state.namer.ids <= next.namer.ids <= usize::MAX,
        agree_below(lowered2, lowered, state.namer.ids),
        forall|x: usize| x != id ==> #[trigger] original2.value(x) == original.value(x),
        forall|x: usize| x != id ==> has_entry(next.vectors, x) == has_entry(state.vectors, x),
        forall|x: usize|
            x != id && has_entry(state.vectors, x) ==> entry_value(next.vectors, x) == entry_value(
                state.vectors,
                x,
            ),
        forall|x: usize| x != id ==> has_entry(next.matrices, x) == has_entry(state.matrices, x),
        forall|x: usize|
            x != id && has_entry(state.matrices, x) ==> entry_value(next.matrices, x)
                == entry_value(state.matrices, x),
    ensures
        forall|x: usize|
            known.contains(x) ==> x <= floor && original2.value(x) is Scalar
                && #[trigger] lowered2.value(x) == original2.value(x),
        forall|x: usize|
            x != id && #[trigger] has_entry(next.vectors, x) ==> x <= floor && vector_corresponds(
                entry_value(next.vectors, x),
                original2.value(x),
                lowered2,
                floor,
                next.namer.ids,
            ),
        forall|x: usize|
            x != id && #[trigger] has_entry(next.matrices, x) ==> x <= floor && matrix_corresponds(
                entry_value(next.matrices, x),
                original2.value(x),
                lowered2,
                floor,
                next.namer.ids,
            ),
{
    assert forall|x: usize| known.contains(x) implies x <= floor && original2.value(x) is Scalar
        && #[trigger] lowered2.value(x) == original2.value(x) by {
        assert(lowered.value(x) == original.value(x));
    }
    assert forall|x: usize| x != id && #[trigger] has_entry(next.vectors, x) implies x <= floor
        && vector_corresponds(
        entry_value(next.vectors, x),
        original2.value(x),
        lowered2,
        floor,
        next.namer.ids,
    ) by {
        assert(has_entry(state.vectors, x));
        let old_ids = entry_value(state.vectors, x);
        assert(vector_corresponds(old_ids, original.value(x), lowered, floor, state.namer.ids));
        assert forall|k: int| 0 <= k < old_ids.len() implies lowered2.value(
            (#[trigger] old_ids[k]).id,
        ) == lowered.value(old_ids[k].id) by {}
    }
    assert forall|x: usize| x != id && #[trigger] has_entry(next.matrices, x) implies x <= floor
        && matrix_corresponds(
        entry_value(next.matrices, x),
        original2.value(x),
        lowered2,
        floor,
        next.namer.ids,
    ) by {
        assert(has_entry(state.matrices, x));
        let old_ids = entry_value(state.matrices, x);
        assert(matrix_corresponds(old_ids, original.value(x), lowered, floor, state.namer.ids));
        assert forall|i: int, j: int|
            0 <= i < old_ids.len() && 0 <= j < old_ids[i].len() implies lowered2.value(
            (#[trigger] old_ids[i][j]).id,
        ) == lowered.value(old_ids[i][j].id) by {}
    }
}

/// A node that is lowered to a grid keeps the correspondence, when every
/// operation of the grid reads what existed before and computes the cell of
/// the matrix that the program computes.
pub proof fn lemma_bound_grid(
    state: LoweringView,
    known: Set<usize>,
    original: Env,
    lowered: Env,
    floor: nat,
    id: IdentView,
    grid: Seq<Seq<OprView>>,
    values: Seq<Seq<real>>,
    f: Functions,
)
    requires
        corresponds(state, known, original, lowered, floor),
        id.id <= floor,
        unbound(state, known, id.id),
        state.namer.room() >= cells(grid),
        values.len() == grid.len(),
        forall|i: int| 0 <= i < grid.len() ==> (#[trigger] values[i]).len() == grid[i].len(),
        forall|i: int, j: int|
            0 <= i < grid.len() && 0 <= j < grid[i].len() ==> reads_below(
                #[trigger] grid[i][j],
                state.namer.ids,
            ),
        forall|i: int, j: int|
            0 <= i < grid.len() && 0 <= j < grid[i].len() ==> meaning(
                lowered,
                #[trigger] grid[i][j],
                f,
            ) == Value::Scalar(values[i][j]),
    ensures
        ({
            let next = state.bind_grid(id.name, grid).record_matrix(
                id,
                state.grid_ids(id.name, grid),
            );
            corresponds(
                next,
                known,
                original.set(id.id, Value::Matrix(values)),
                run(lowered, next.body, state.body.len(), next.body.len(), f),
                floor,
            )
        }),
{
    let n = grid.len();
    if cells(grid) > 0 {
        lemma_room_fits(state.namer, cells(grid));
    }
    let bound = state.bind_grid(id.name, grid);
    let ids = state.grid_ids(id.name, grid);
    let next = bound.record_matrix(id, ids);
    lemma_grid_body(state, id.name, grid, n);
    lemma_bind_grid_counts(state, id.name, grid, n);
    lemma_grid_env(state, id.name, grid, n, lowered, f);
    lemma_upsert_lookup(bound.matrices, id, ids);
    let original2 = original.set(id.id, Value::Matrix(values));
    let lowered2 = run(lowered, next.body, state.body.len(), next.body.len(), f);
    lemma_others_stay(state, next, known, original, lowered, original2, lowered2, floor, id.id);
    assert forall|i: int, j: int| 0 <= i < ids.len() && 0 <= j < ids[i].len() implies floor < (
    #[trigger] ids[i][j]).id <= next.namer.ids && ids[i][j].var_type == VarType::Scalar
        && lowered2.value(ids[i][j].id) == Value::Scalar(values[i][j]) by {
        assert(ids[i].len() == grid[i].len());
        assert(ids[i][j].id == state.namer.ids + cells_upto(grid, i as nat) + j + 1);
        crate::fresh::lemma_cells_step(grid, i as nat, j as nat, n);
        lemma_grid_var_type(state, id.name, grid, n, i, j);
    }
    assert(matrix_corresponds(ids, original2.value(id.id), lowered2, floor, next.namer.ids));
}

/// A transpose that is lowered keeps the correspondence, when every
/// operation of its grid reads what existed before and computes the cell of
/// the matrix that is transposed.
pub proof fn lemma_bound_transposed(
    state: LoweringView,
    known: Set<usize>,
    original: Env,
    lowered: Env,
    floor: nat,
    id: IdentView,
    grid: Seq<Seq<OprView>>,
    cols: nat,
    values: Seq<Seq<real>>,
    f: Functions,
)
    requires
        corresponds(state, known, original, lowered, floor),
        id.id <= floor,
        unbound(state, known, id.id),
        state.namer.room() >= cells(grid),
        rows_reach(grid, grid.len(), cols),
        values.len() == grid.len(),
        forall|i: int| 0 <= i < grid.len() ==> (#[trigger] values[i]).len() == grid[i].len(),
        forall|i: int, j: int|
            0 <= i < grid.len() && 0 <= j < grid[i].len() ==> reads_below(
                #[trigger] grid[i][j],
                state.namer.ids,
            ),
        forall|i: int, j: int|
            0 <= i < grid.len() && 0 <= j < grid[i].len() ==> meaning(
                lowered,
                #[trigger] grid[i][j],
                f,
            ) == Value::Scalar(values[i][j]),
    ensures
        ({
            let next = state.bind_grid(id.name, grid).record_matrix(
                id,
                transposed(state.grid_ids(id.name, grid), cols),
            );
            corresponds(
                next,
                known,
                original.set(id.id, Value::Matrix(transposed(values, cols))),
                run(lowered, next.body, state.body.len(), next.body.len(), f),
                floor,
            )
        }),
{
    let n = grid.len();
    if cells(grid) > 0 {
        lemma_room_fits(state.namer, cells(grid));
    }
    let bound = state.bind_grid(id.name, grid);
    let ids = state.grid_ids(id.name, grid);
    let flipped = transposed(ids, cols);
    let next = bound.record_matrix(id, flipped);
    lemma_grid_body(state, id.name, grid, n);
    lemma_bind_grid_counts(state, id.name, grid, n);
    lemma_grid_env(state, id.name, grid, n, lowered, f);
    lemma_upsert_lookup(bound.matrices, id, flipped);
    let original2 = original.set(id.id, Value::Matrix(transposed(values, cols)));
    let lowered2 = run(lowered, next.body, state.body.len(), next.body.len(), f);
    lemma_others_stay(state, next, known, original, lowered, original2, lowered2, floor, id.id);
    let turned = transposed(values, cols);
    assert forall|j: int, i: int|
        0 <= j < flipped.len() && 0 <= i < flipped[j].len() implies floor < (
    #[trigger] flipped[j][i]).id <= next.namer.ids && flipped[j][i].var_type == VarType::Scalar
        && lowered2.value(flipped[j][i].id) == Value::Scalar(turned[j][i]) by {
        assert(grid[i].len() >= cols);
        assert(ids[i].len() == grid[i].len());
        assert(flipped[j][i] == ids[i][j]);
        assert(ids[i][j].id == state.namer.ids + cells_upto(grid, i as nat) + j + 1);
        crate::fresh::lemma_cells_step(grid, i as nat, j as nat, n);
        lemma_grid_var_type(state, id.name, grid, n, i, j);
    }
    assert(matrix_corresponds(flipped, original2.value(id.id), lowered2, floor, next.namer.ids));
}

/// One element of a cross product: after its three nodes were run, the
/// result holds the difference of the two products, and every other number
/// that existed holds what it held.
pub proof fn lemma_cross_element(
    state: LoweringView,
    env: Env,
    result: IdentView,
    k: int,
    x1: IdentView,
    y1: IdentView,
    x2: IdentView,
    y2: IdentView,
    pa: real,
    qa: real,
    pb: real,
    qb: real,
    f: Functions,
)
    requires
        state.namer.ids + 2 <= usize::MAX,
        x1.var_type == VarType::Scalar && env.value(x1.id) == Value::Scalar(pa),
        y1.var_type == VarType::Scalar && env.value(y1.id) == Value::Scalar(qa),
        x2.var_type == VarType::Scalar && env.value(x2.id) == Value::Scalar(pb),
        y2.var_type == VarType::Scalar && env.value(y2.id) == Value::Scalar(qb),
        x1.id <= state.namer.ids && y1.id <= state.namer.ids && x2.id <= state.namer.ids && y2.id
            <= state.namer.ids,
        result.id <= state.namer.ids,
    ensures
        ({
            let next = state.cross_element(result, k, x1, y1, x2, y2);
            let after = run(env, next.body, state.body.len(), state.body.len() + 3, f);
            &&& next.body.len() == state.body.len() + 3
            &&& next.namer.ids == state.namer.ids + 2
            &&& next.vectors == state.vectors
            &&& next.matrices == state.matrices
            &&& forall|i: int| 0 <= i < state.body.len() ==> next.body[i] == state.body[i]
            &&& after.value(result.id) == Value::Scalar(pa * qa - pb * qb)
            &&& forall|y: usize|
                y <= state.namer.ids && y != result.id ==> #[trigger] after.value(y) == env.value(y)
        }),
{
    let first = state.cross_product(k, x1, y1);
    let second = first.cross_product(k + 1, x2, y2);
    let next = state.cross_element(result, k, x1, y1, x2, y2);
    let start = state.body.len();
    let t1 = state.fresh(crate::unroll::cross_temp_name(k));
    let t2 = first.fresh(crate::unroll::cross_temp_name(k + 1));
    assert(t1.id == state.namer.ids + 1);
    assert(t2.id == state.namer.ids + 2);
    let e0 = run(env, next.body, start, start, f);
    let e1 = run(env, next.body, start, start + 1, f);
    let e2 = run(env, next.body, start, start + 2, f);
    let e3 = run(env, next.body, start, start + 3, f);
    assert(e0 == env);
    assert(next.body[start as int] == (ExprView {
        id: t1,
        opr: OprView::Binary(x1, y1, OprBinary::Mul),
    }));
    assert(e1 == e0.set(t1.id, meaning(e0, OprView::Binary(x1, y1, OprBinary::Mul), f)));
    assert(e1.value(t1.id) == Value::Scalar(pa * qa));
    assert(next.body[start + 1 as int] == (ExprView {
        id: t2,
        opr: OprView::Binary(x2, y2, OprBinary::Mul),
    }));
    assert(e2 == e1.set(t2.id, meaning(e1, OprView::Binary(x2, y2, OprBinary::Mul), f)));
    assert(e2.value(t2.id) == Value::Scalar(pb * qb));
    assert(e2.value(t1.id) == Value::Scalar(pa * qa));
    assert(next.body[start + 2 as int] == (ExprView {
        id: result,
        opr: OprView::Binary(t1, t2, OprBinary::Sub),
    }));
    assert(e3 == e2.set(result.id, meaning(e2, OprView::Binary(t1, t2, OprBinary::Sub), f)));
}

/// A cross product that is lowered keeps the correspondence.
pub proof fn lemma_bound_cross(
    state: LoweringView,
    known: Set<usize>,
    original: Env,
    lowered: Env,
    floor: nat,
    id: IdentView,
    a: Seq<IdentView>,
    b: Seq<IdentView>,
    va: Seq<real>,
    vb: Seq<real>,
    f: Functions,
)
    requires
        corresponds(state, known, original, lowered, floor),
        id.id <= floor,
        unbound(state, known, id.id),
        state.namer.room() >= 9,
        vector_corresponds(a, Value::Vector(va), lowered, floor, state.namer.ids),
        vector_corresponds(b, Value::Vector(vb), lowered, floor, state.namer.ids),
        a.len() == 3,
        b.len() == 3,
    ensures
        ({
            let next = state.emit_cross(id, a, b);
            corresponds(
                next,
                known,
                original.set(id.id, Value::Vector(crate::vector::cross_value(va, vb))),
                run(lowered, next.body, state.body.len(), next.body.len(), f),
                floor,
            )
        }),
{
    lemma_room_fits(state.namer, 9);
    let name = id.name;
    let ids = state.cross_ids(name);
    let s0 = state.reserve(element_name(name, 0)).reserve(element_name(name, 1)).reserve(
        element_name(name, 2),
    );
    let s1 = s0.cross_element(ids[0], 1, a[1], b[2], a[2], b[1]);
    let s2 = s1.cross_element(ids[1], 3, a[2], b[0], a[0], b[2]);
    let s3 = s2.cross_element(ids[2], 5, a[0], b[1], a[1], b[0]);
    let next = s3.record_vector(id, ids);
    let start = state.body.len();
    assert(s0.body == state.body);
    assert(ids[0].id == state.namer.ids + 1);
    assert(ids[1].id == state.namer.ids + 2);
    assert(ids[2].id == state.namer.ids + 3);
    assert(s0.namer.ids == state.namer.ids + 3);
    lemma_cross_element(s0, lowered, ids[0], 1, a[1], b[2], a[2], b[1], va[1], vb[2], va[2], vb[1], f);
    let e1 = run(lowered, s1.body, start, start + 3, f);
    lemma_cross_element(s1, e1, ids[1], 3, a[2], b[0], a[0], b[2], va[2], vb[0], va[0], vb[2], f);
    let e2 = run(e1, s2.body, start + 3, start + 6, f);
    lemma_cross_element(s2, e2, ids[2], 5, a[0], b[1], a[1], b[0], va[0], vb[1], va[1], vb[0], f);
    let e3 = run(e2, s3.body, start + 6, start + 9, f);
    let lowered2 = run(lowered, next.body, start, next.body.len(), f);
    assert(next.body == s3.body);
    assert(next.body.len() == start + 9);
    lemma_run_split(lowered, s3.body, start, start + 3, start + 9, f);
    lemma_run_split(run(lowered, s3.body, start, start + 3, f), s3.body, start + 3, start + 6, start + 9, f);
    lemma_run_same_nodes(lowered, s3.body, s1.body, start, start + 3, f);
    lemma_run_same_nodes(e1, s3.body, s2.body, start + 3, start + 6, f);
    assert(lowered2 == e3);
    let result = crate::vector::cross_value(va, vb);
    let original2 = original.set(id.id, Value::Vector(result));
    assert(agree_below(lowered2, lowered, state.namer.ids));
    lemma_upsert_lookup(s3.vectors, id, ids);
    lemma_others_stay(state, next, known, original, lowered, original2, lowered2, floor, id.id);
    assert(vector_corresponds(ids, original2.value(id.id), lowered2, floor, next.namer.ids));
}

/// The sum of the first `k + 1` of a list of numbers, taken in order.
pub open spec fn partial_sum(values: Seq<real>, k: nat) -> real
    decreases k,
{
    if k == 0 {
        values[0]
    } else {
        partial_sum(values, (k - 1) as nat) + values[k as int]
    }
}

/// The chain of sums of a dot product: after its nodes were run, the last
/// sum holds the sum of the products so far, and every number that existed
/// holds what it held.
pub proof fn lemma_sum_chain_env(
    state: LoweringView,
    products: Seq<IdentView>,
    values: Seq<real>,
    k: nat,
    env: Env,
    f: Functions,
)
    requires
        k < products.len(),
        values.len() == products.len(),
        state.namer.ids + k <= usize::MAX,
        forall|i: int|
            0 <= i < products.len() ==> (#[trigger] products[i]).id <= state.namer.ids
                && products[i].var_type == VarType::Scalar && env.value(products[i].id)
                == Value::Scalar(values[i]),
    ensures
        ({
            let next = state.sum_chain(products, k);
            let after = run(env, next.body, state.body.len(), state.body.len() + k, f);
            let last = state.chain_last(products, k);
            &&& next.body.len() == state.body.len() + k
            &&& next.namer.ids == state.namer.ids + k
            &&& next.vectors == state.vectors
            &&& next.matrices == state.matrices
            &&& forall|i: int| 0 <= i < state.body.len() ==> next.body[i] == state.body[i]
            &&& agree_below(after, env, state.namer.ids)
            &&& last.var_type == VarType::Scalar
            &&& last.id <= next.namer.ids
            &&& after.value(last.id) == Value::Scalar(partial_sum(values, k))
        }),
    decreases k,
{
    if k > 0 {
        let m = (k - 1) as nat;
        lemma_sum_chain_env(state, products, values, m, env, f);
        let before = state.sum_chain(products, m);
        let next = state.sum_chain(products, k);
        let start = state.body.len();
        let previous = state.chain_last(products, m);
        let last = state.chain_last(products, k);
        let env_m = run(env, before.body, start, start + m, f);
        lemma_run_same_nodes(env, next.body, before.body, start, start + m, f);
        let opr = OprView::Binary(previous, products[k as int], OprBinary::Add);
        assert(next.body[start + m as int] == (ExprView { id: last, opr }));
        let env_k = run(env, next.body, start, start + k, f);
        assert(env_k == env_m.set(last.id, meaning(env_m, opr, f)));
        assert(last.id == before.namer.ids + 1);
        assert(env_m.value(products[k as int].id) == env.value(products[k as int].id));
        assert(env_m.value(previous.id) == Value::Scalar(partial_sum(values, m)));
        assert(previous.var_type == VarType::Scalar);
        assert(products[k as int].var_type == VarType::Scalar);
        assert(meaning(env_m, opr, f) == Value::Scalar(
            partial_sum(values, m) + values[k as int],
        ));
        assert(env_k.value(last.id) == Value::Scalar(partial_sum(values, k)));
        assert forall|x: usize| x <= state.namer.ids implies #[trigger] env_k.value(x)
            == env.value(x) by {
            assert(env_m.value(x) == env.value(x));
        }
        assert(next.body.len() == start + k);
        assert forall|i: int| 0 <= i < start implies next.body[i] == state.body[i] by {
            assert(next.body[i] == before.body[i]);
        }
    } else {
        assert(run(env, state.body, state.body.len(), state.body.len(), f) == env);
    }
}

/// The chained sum of the products is the dot product.
pub proof fn lemma_partial_sum_is_dot(va: Seq<real>, vb: Seq<real>, products: Seq<real>, k: nat)
    requires
        forall|i: int| 0 <= i <= k ==> #[trigger] products[i] == va[i] * vb[i],
    ensures
        partial_sum(products, k) == dot_value(va, vb, k + 1),
    decreases k,
{
    if k > 0 {
        lemma_partial_sum_is_dot(va, vb, products, (k - 1) as nat);
    } else {
        assert(dot_value(va, vb, 0) == 0real);
        assert(dot_value(va, vb, 1) == dot_value(va, vb, 0) + va[0] * vb[0]);
    }
}

/// A dot product that is lowered keeps the correspondence.
pub proof fn lemma_bound_dot(
    state: LoweringView,
    known: Set<usize>,
    original: Env,
    lowered: Env,
    floor: nat,
    id: IdentView,
    a: Seq<IdentView>,
    b: Seq<IdentView>,
    va: Seq<real>,
    vb: Seq<real>,
    n: nat,
    f: Functions,
)
    requires
        corresponds(state, known, original, lowered, floor),
        id.id <= floor,
        unbound(state, known, id.id),
        1 <= n <= a.len(),
        n <= b.len(),
        state.namer.room() >= 2 * n - 1,
        vector_corresponds(a, Value::Vector(va), lowered, floor, state.namer.ids),
        vector_corresponds(b, Value::Vector(vb), lowered, floor, state.namer.ids),
    ensures
        ({
            let next = state.emit_dot(id, a, b, n);
            corresponds(
                next,
                known.insert(id.id),
                original.set(id.id, Value::Scalar(dot_value(va, vb, n))),
                run(lowered, next.body, state.body.len(), next.body.len(), f),
                floor,
            )
        }),
{
    lemma_room_fits(state.namer, (2 * n - 1) as nat);
    let start = state.body.len();
    let factors = zip_row(a, b, OprBinary::Mul, n);
    let multiplied = state.bind_row(dot_name(), factors);
    let products = state.row_ids(dot_name(), factors);
    let values = Seq::new(n, |k: int| va[k] * vb[k]);
    assert forall|k: int| 0 <= k < n implies reads_below(
        #[trigger] factors[k],
        state.namer.ids,
    ) && meaning(lowered, factors[k], f) == Value::Scalar(values[k]) by {
        assert(a[k].id <= state.namer.ids);
        assert(b[k].id <= state.namer.ids);
        assert(lowered.value(a[k].id) == Value::Scalar(va[k]));
        assert(lowered.value(b[k].id) == Value::Scalar(vb[k]));
    }
    lemma_row_body(state, dot_name(), factors, n);
    lemma_bind_row_counts(state, dot_name(), factors, n);
    lemma_row_env(state, dot_name(), factors, n, lowered, f);
    let env_m = run(lowered, multiplied.body, start, start + n, f);
    assert forall|i: int| 0 <= i < products.len() implies (#[trigger] products[i]).id
        <= multiplied.namer.ids && products[i].var_type == VarType::Scalar && env_m.value(
        products[i].id,
    ) == Value::Scalar(values[i]) by {
        assert(products[i].id == state.namer.ids + i + 1);
        lemma_row_var_type(state, dot_name(), factors, n, i);
    }
    let k = (n - 1) as nat;
    lemma_sum_chain_env(multiplied, products, values, k, env_m, f);
    let chain = multiplied.sum_chain(products, k);
    let last = multiplied.chain_last(products, k);
    let env_c = run(env_m, chain.body, start + n, start + n + k, f);
    lemma_partial_sum_is_dot(va, vb, values, k);
    let result = dot_value(va, vb, n);
    assert(env_c.value(last.id) == Value::Scalar(result));
    assert forall|x: usize| x <= state.namer.ids implies #[trigger] env_c.value(x)
        == lowered.value(x) by {
        assert(env_m.value(x) == lowered.value(x));
    }
    lemma_others_stay(state, chain, known, original, lowered, original, env_c, floor, id.id);
    assert(corresponds(chain, known, original, env_c, floor));
    let opr = OprView::Unary(last, UnaryView::Assign);
    let next = state.emit_dot(id, a, b, n);
    assert(next == chain.push(id, opr));
    lemma_bound_scalar(chain, known, original, env_c, floor, id, opr, Value::Scalar(result), f);
    let end = next.body.len();
    assert(end == start + n + k + 1);
    assert(chain.body.len() == start + n + k);
    lemma_run_split(lowered, next.body, start, start + n, end, f);
    lemma_run_split(run(lowered, next.body, start, start + n, f), next.body, start + n, start + n + k, end, f);
    assert forall|i: int| start <= i < start + n implies next.body[i] == multiplied.body[i] by {
        assert(next.body[i] == chain.body[i]);
    }
    lemma_run_same_nodes(lowered, next.body, multiplied.body, start, start + n, f);
    lemma_run_same_nodes(env_m, next.body, chain.body, start + n, start + n + k, f);
}

/// What lowering a node must keep: the correspondence between the two
/// environments, after the program has computed the node's value and the
/// lowered program has run the nodes that the node was lowered to.
pub open spec fn step_kept(
    state: LoweringView,
    known: Set<usize>,
    original: Env,
    lowered: Env,
    floor: nat,
    expr: ExprView,
    f: Functions,
) -> bool {
    let next = state.step(expr)->Ok_0;
    corresponds(
        next,
        known_after(state, known, expr),
        original.set(expr.id.id, meaning(original, expr.opr, f)),
        run(lowered, next.body, state.body.len(), next.body.len(), f),
        floor,
    )
}

/// What the step lemmas ask of a node and of the state before it.
pub open spec fn step_ready(
    state: LoweringView,
    known: Set<usize>,
    original: Env,
    lowered: Env,
    floor: nat,
    expr: ExprView,
) -> bool {
    &&& corresponds(state, known, original, lowered, floor)
    &&& state.step(expr) is Ok
    &&& expr.id.id <= floor
    &&& unbound(state, known, expr.id.id)
    &&& scoped(known, expr.opr)
}

/// Lowering a constant keeps the values.
pub proof fn lemma_step_constant(
    state: LoweringView,
    known: Set<usize>,
    original: Env,
    lowered: Env,
    floor: nat,
    expr: ExprView,
    f: Functions,
)
    requires
        step_ready(state, known, original, lowered, floor, expr),
        expr.opr is ConstantScalar || expr.opr is ConstantVector || expr.opr is ConstantMatrix,
    ensures
        step_kept(state, known, original, lowered, floor, expr, f),
{
    match expr.opr {
        OprView::ConstantScalar(v) => {
            lemma_bound_scalar(
                state,
                known,
                original,
                lowered,
                floor,
                expr.id,
                expr.opr,
                Value::Scalar(v),
                f,
            );
        },
        OprView::ConstantVector(values) => {
            let oprs = constants_row(values);
            lemma_bound_row(state, known, original, lowered, floor, expr.id, oprs, values, f);
        },
        OprView::ConstantMatrix(values) => {
            let grid = constants_grid(values);
            lemma_bound_grid(state, known, original, lowered, floor, expr.id, grid, values, f);
        },
        _ => {},
    }
}

/// Lowering a node that gathers scalars keeps the values.
pub proof fn lemma_step_construct(
    state: LoweringView,
    known: Set<usize>,
    original: Env,
    lowered: Env,
    floor: nat,
    expr: ExprView,
    f: Functions,
)
    requires
        step_ready(state, known, original, lowered, floor, expr),
        expr.opr is ConstructScalar || expr.opr is ConstructVector || expr.opr is ConstructMatrix,
    ensures
        step_kept(state, known, original, lowered, floor, expr, f),
{
    match expr.opr {
        OprView::ConstructScalar(a) => {
            let opr = OprView::Unary(a, UnaryView::Assign);
            assert(lowered.value(a.id) == original.value(a.id));
            lemma_bound_scalar(
                state,
                known,
                original,
                lowered,
                floor,
                expr.id,
                opr,
                Value::Scalar(original.scalar(a)),
                f,
            );
        },
        OprView::ConstructVector(ids) => {
            let oprs = unary_row(ids, UnaryView::Assign);
            let values = Seq::new(ids.len(), |i: int| original.scalar(ids[i]));
            assert forall|k: int| 0 <= k < oprs.len() implies reads_below(
                #[trigger] oprs[k],
                state.namer.ids,
            ) && meaning(lowered, oprs[k], f) == Value::Scalar(values[k]) by {
                assert(known.contains(ids[k].id));
                assert(lowered.value(ids[k].id) == original.value(ids[k].id));
            }
            lemma_bound_row(state, known, original, lowered, floor, expr.id, oprs, values, f);
        },
        OprView::ConstructMatrix(ids) => {
            let grid = unary_grid(ids, UnaryView::Assign);
            let values = Seq::new(
                ids.len(),
                |i: int| Seq::new(ids[i].len(), |j: int| original.scalar(ids[i][j])),
            );
            assert forall|i: int, j: int|
                0 <= i < grid.len() && 0 <= j < grid[i].len() implies reads_below(
                #[trigger] grid[i][j],
                state.namer.ids,
            ) && meaning(lowered, grid[i][j], f) == Value::Scalar(values[i][j]) by {
                assert(known.contains(ids[i][j].id));
                assert(lowered.value(ids[i][j].id) == original.value(ids[i][j].id));
            }
            lemma_bound_grid(state, known, original, lowered, floor, expr.id, grid, values, f);
        },
        _ => {},
    }
}

/// Lowering a unary operation on a scalar keeps the values.
pub proof fn lemma_step_unary_scalar(
    state: LoweringView,
    known: Set<usize>,
    original: Env,
    lowered: Env,
    floor: nat,
    expr: ExprView,
    f: Functions,
)
    requires
        step_ready(state, known, original, lowered, floor, expr),
        expr.opr is Unary,
        expr.opr->Unary_0.var_type == VarType::Scalar,
    ensures
        step_kept(state, known, original, lowered, floor, expr, f),
{
    let a = expr.opr->Unary_0;
    let kind = expr.opr->Unary_1;
    assert(lowered.value(a.id) == original.value(a.id));
    lemma_bound_scalar(
        state,
        known,
        original,
        lowered,
        floor,
        expr.id,
        expr.opr,
        Value::Scalar(unary_value(kind, original.scalar(a), f)),
        f,
    );
}

/// Lowering a unary operation on a vector keeps the values.
pub proof fn lemma_step_unary_vector(
    state: LoweringView,
    known: Set<usize>,
    original: Env,
    lowered: Env,
    floor: nat,
    expr: ExprView,
    f: Functions,
)
    requires
        step_ready(state, known, original, lowered, floor, expr),
        expr.opr is Unary,
        expr.opr->Unary_0.var_type == VarType::Vector,
    ensures
        step_kept(state, known, original, lowered, floor, expr, f),
{
    let a = expr.opr->Unary_0;
    let kind = expr.opr->Unary_1;
    assert(has_entry(state.vectors, a.id));
    let src = state.vector(a);
    let va = original.vector(a);
    assert(vector_corresponds(src, original.value(a.id), lowered, floor, state.namer.ids));
    match kind {
        UnaryView::Index(path) => {
            let p = path[0] as int;
            let opr = OprView::Unary(src[p], UnaryView::Assign);
            assert(lowered.value(src[p].id) == Value::Scalar(va[p]));
            lemma_bound_scalar(
                state,
                known,
                original,
                lowered,
                floor,
                expr.id,
                opr,
                Value::Scalar(va[p]),
                f,
            );
        },
        UnaryView::Transpose => {},
        _ => {
            let oprs = unary_row(src, kind);
            let values = Seq::new(va.len(), |i: int| unary_value(kind, va[i], f));
            assert forall|k: int| 0 <= k < oprs.len() implies reads_below(
                #[trigger] oprs[k],
                state.namer.ids,
            ) && meaning(lowered, oprs[k], f) == Value::Scalar(values[k]) by {
                assert(lowered.value(src[k].id) == Value::Scalar(va[k]));
            }
            lemma_bound_row(state, known, original, lowered, floor, expr.id, oprs, values, f);
            assert(meaning(original, expr.opr, f) == Value::Vector(values));
        },
    }
}

/// Lowering a unary operation on a matrix keeps the values.
pub proof fn lemma_step_unary_matrix(
    state: LoweringView,
    known: Set<usize>,
    original: Env,
    lowered: Env,
    floor: nat,
    expr: ExprView,
    f: Functions,
)
    requires
        step_ready(state, known, original, lowered, floor, expr),
        expr.opr is Unary,
        expr.opr->Unary_0.var_type == VarType::Matrix,
    ensures
        step_kept(state, known, original, lowered, floor, expr, f),
{
    let a = expr.opr->Unary_0;
    let kind = expr.opr->Unary_1;
    assert(has_entry(state.matrices, a.id));
    let src = state.matrix(a);
    let m = original.matrix(a);
    assert(matrix_corresponds(src, original.value(a.id), lowered, floor, state.namer.ids));
    match kind {
        UnaryView::Index(path) => {
            let r = path[0] as int;
            let c = path[1] as int;
            let opr = OprView::Unary(src[r][c], UnaryView::Assign);
            assert(lowered.value(src[r][c].id) == Value::Scalar(m[r][c]));
            lemma_bound_scalar(
                state,
                known,
                original,
                lowered,
                floor,
                expr.id,
                opr,
                Value::Scalar(m[r][c]),
                f,
            );
        },
        UnaryView::Transpose => {
            let grid = unary_grid(src, UnaryView::Assign);
            let cols = src[0].len();
            assert(src[0].len() == m[0].len());
            assert forall|i: int, j: int|
                0 <= i < grid.len() && 0 <= j < grid[i].len() implies reads_below(
                #[trigger] grid[i][j],
                state.namer.ids,
            ) && meaning(lowered, grid[i][j], f) == Value::Scalar(m[i][j]) by {
                assert(lowered.value(src[i][j].id) == Value::Scalar(m[i][j]));
            }
            assert forall|i: int| 0 <= i < grid.len() implies (#[trigger] m[i]).len()
                == grid[i].len() by {
                assert(src[i].len() == m[i].len());
            }
            assert(rows_reach(grid, grid.len(), cols)) by {
                assert forall|i: int| 0 <= i < grid.len() implies (#[trigger] grid[i]).len()
                    >= cols by {
                    assert(src[i].len() >= cols);
                }
            }
            lemma_bound_transposed(
                state,
                known,
                original,
                lowered,
                floor,
                expr.id,
                grid,
                cols,
                m,
                f,
            );
        },
        _ => {
            let grid = unary_grid(src, kind);
            let values = Seq::new(
                m.len(),
                |i: int| Seq::new(m[i].len(), |j: int| unary_value(kind, m[i][j], f)),
            );
            assert forall|i: int, j: int|
                0 <= i < grid.len() && 0 <= j < grid[i].len() implies reads_below(
                #[trigger] grid[i][j],
                state.namer.ids,
            ) && meaning(lowered, grid[i][j], f) == Value::Scalar(values[i][j]) by {
                assert(src[i].len() == m[i].len());
                assert(lowered.value(src[i][j].id) == Value::Scalar(m[i][j]));
            }
            assert forall|i: int| 0 <= i < grid.len() implies (#[trigger] values[i]).len()
                == grid[i].len() by {
                assert(src[i].len() == m[i].len());
            }
            lemma_bound_grid(state, known, original, lowered, floor, expr.id, grid, values, f);
            assert(meaning(original, expr.opr, f) == Value::Matrix(values));
        },
    }
}

/// Lowering a cross or dot product keeps the values.
pub proof fn lemma_step_product(
    state: LoweringView,
    known: Set<usize>,
    original: Env,
    lowered: Env,
    floor: nat,
    expr: ExprView,
    f: Functions,
)
    requires
        step_ready(state, known, original, lowered, floor, expr),
        expr.opr is Binary,
        expr.opr->Binary_2 == OprBinary::Cross || expr.opr->Binary_2 == OprBinary::Dot,
    ensures
        step_kept(state, known, original, lowered, floor, expr, f),
{
    let a = expr.opr->Binary_0;
    let b = expr.opr->Binary_1;
    assert(has_entry(state.vectors, a.id));
    assert(has_entry(state.vectors, b.id));
    let sa = state.vector(a);
    let sb = state.vector(b);
    let va = original.vector(a);
    let vb = original.vector(b);
    assert(vector_corresponds(sa, original.value(a.id), lowered, floor, state.namer.ids));
    assert(vector_corresponds(sb, original.value(b.id), lowered, floor, state.namer.ids));
    if expr.opr->Binary_2 == OprBinary::Cross {
        lemma_bound_cross(state, known, original, lowered, floor, expr.id, sa, sb, va, vb, f);
    } else {
        lemma_bound_dot(
            state,
            known,
            original,
            lowered,
            floor,
            expr.id,
            sa,
            sb,
            va,
            vb,
            a.size->len as nat,
            f,
        );
    }
}

/// Lowering an arithmetic operation on two scalars keeps the values.
pub proof fn lemma_step_scalars(
    state: LoweringView,
    known: Set<usize>,
    original: Env,
    lowered: Env,
    floor: nat,
    expr: ExprView,
    f: Functions,
)
    requires
        step_ready(state, known, original, lowered, floor, expr),
        expr.opr is Binary,
        expr.opr->Binary_2 != OprBinary::Cross && expr.opr->Binary_2 != OprBinary::Dot,
        expr.opr->Binary_0.var_type == VarType::Scalar,
        expr.opr->Binary_1.var_type == VarType::Scalar,
    ensures
        step_kept(state, known, original, lowered, floor, expr, f),
{
    let a = expr.opr->Binary_0;
    let b = expr.opr->Binary_1;
    let kind = expr.opr->Binary_2;
    assert(lowered.value(a.id) == original.value(a.id));
    assert(lowered.value(b.id) == original.value(b.id));
    lemma_bound_scalar(
        state,
        known,
        original,
        lowered,
        floor,
        expr.id,
        expr.opr,
        Value::Scalar(apply(kind, original.scalar(a), original.scalar(b))),
        f,
    );
}

/// Lowering an arithmetic operation with a vector keeps the values.
pub proof fn lemma_step_vectors(
    state: LoweringView,
    known: Set<usize>,
    original: Env,
    lowered: Env,
    floor: nat,
    expr: ExprView,
    f: Functions,
)
    requires
        step_ready(state, known, original, lowered, floor, expr),
        expr.opr is Binary,
        expr.opr->Binary_2 != OprBinary::Cross && expr.opr->Binary_2 != OprBinary::Dot,
        expr.opr->Binary_0.var_type == VarType::Vector || expr.opr->Binary_1.var_type
            == VarType::Vector,
    ensures
        step_kept(state, known, original, lowered, floor, expr, f),
{
    let a = expr.opr->Binary_0;
    let b = expr.opr->Binary_1;
    let kind = expr.opr->Binary_2;
    match (a.var_type, b.var_type) {
        (VarType::Vector, VarType::Vector) => {
            assert(has_entry(state.vectors, a.id));
            assert(has_entry(state.vectors, b.id));
            let sa = state.vector(a);
            let sb = state.vector(b);
            let va = original.vector(a);
            let vb = original.vector(b);
            assert(vector_corresponds(sa, original.value(a.id), lowered, floor, state.namer.ids));
            assert(vector_corresponds(sb, original.value(b.id), lowered, floor, state.namer.ids));
            let n = a.size->len as nat;
            let oprs = zip_row(sa, sb, kind, n);
            let values = Seq::new(n, |i: int| apply(kind, va[i], vb[i]));
            assert forall|k: int| 0 <= k < oprs.len() implies reads_below(
                #[trigger] oprs[k],
                state.namer.ids,
            ) && meaning(lowered, oprs[k], f) == Value::Scalar(values[k]) by {
                assert(lowered.value(sa[k].id) == Value::Scalar(va[k]));
                assert(lowered.value(sb[k].id) == Value::Scalar(vb[k]));
            }
            lemma_bound_row(state, known, original, lowered, floor, expr.id, oprs, values, f);
            assert(meaning(original, expr.opr, f) == Value::Vector(values));
        },
        (VarType::Vector, VarType::Scalar) => {
            assert(has_entry(state.vectors, a.id));
            let sa = state.vector(a);
            let va = original.vector(a);
            assert(vector_corresponds(sa, original.value(a.id), lowered, floor, state.namer.ids));
            assert(lowered.value(b.id) == original.value(b.id));
            let oprs = scalar_right_row(sa, b, kind);
            let values = Seq::new(va.len(), |i: int| apply(kind, va[i], original.scalar(b)));
            assert forall|k: int| 0 <= k < oprs.len() implies reads_below(
                #[trigger] oprs[k],
                state.namer.ids,
            ) && meaning(lowered, oprs[k], f) == Value::Scalar(values[k]) by {
                assert(lowered.value(sa[k].id) == Value::Scalar(va[k]));
            }
            lemma_bound_row(state, known, original, lowered, floor, expr.id, oprs, values, f);
            assert(meaning(original, expr.opr, f) == Value::Vector(values));
        },
        (VarType::Scalar, VarType::Vector) => {
            assert(has_entry(state.vectors, b.id));
            let sb = state.vector(b);
            let vb = original.vector(b);
            assert(vector_corresponds(sb, original.value(b.id), lowered, floor, state.namer.ids));
            assert(lowered.value(a.id) == original.value(a.id));
            let oprs = scalar_left_row(a, sb, kind);
            let values = Seq::new(vb.len(), |i: int| apply(kind, original.scalar(a), vb[i]));
            assert forall|k: int| 0 <= k < oprs.len() implies reads_below(
                #[trigger] oprs[k],
                state.namer.ids,
            ) && meaning(lowered, oprs[k], f) == Value::Scalar(values[k]) by {
                assert(lowered.value(sb[k].id) == Value::Scalar(vb[k]));
            }
            lemma_bound_row(state, known, original, lowered, floor, expr.id, oprs, values, f);
            assert(meaning(original, expr.opr, f) == Value::Vector(values));
        },
        _ => {},
    }
}

/// Lowering an arithmetic operation with a matrix keeps the values.
pub proof fn lemma_step_matrices(
    state: LoweringView,
    known: Set<usize>,
    original: Env,
    lowered: Env,
    floor: nat,
    expr: ExprView,
    f: Functions,
)
    requires
        step_ready(state, known, original, lowered, floor, expr),
        expr.opr is Binary,
        expr.opr->Binary_2 != OprBinary::Cross && expr.opr->Binary_2 != OprBinary::Dot,
        expr.opr->Binary_0.var_type == VarType::Matrix || expr.opr->Binary_1.var_type
            == VarType::Matrix,
    ensures
        step_kept(state, known, original, lowered, floor, expr, f),
{
    let a = expr.opr->Binary_0;
    let b = expr.opr->Binary_1;
    let kind = expr.opr->Binary_2;
    match (a.var_type, b.var_type) {
        (VarType::Matrix, VarType::Matrix) => {
            assert(has_entry(state.matrices, a.id));
            assert(has_entry(state.matrices, b.id));
            let sa = state.matrix(a);
            let sb = state.matrix(b);
            let ma = original.matrix(a);
            let mb = original.matrix(b);
            assert(matrix_corresponds(sa, original.value(a.id), lowered, floor, state.namer.ids));
            assert(matrix_corresponds(sb, original.value(b.id), lowered, floor, state.namer.ids));
            let rows = a.size->row_size as nat;
            let cols = a.size->col_size as nat;
            let grid = zip_grid(sa, sb, kind, rows, cols);
            let values = Seq::new(
                rows,
                |i: int| Seq::new(cols, |j: int| apply(kind, ma[i][j], mb[i][j])),
            );
            assert forall|i: int, j: int|
                0 <= i < grid.len() && 0 <= j < grid[i].len() implies reads_below(
                #[trigger] grid[i][j],
                state.namer.ids,
            ) && meaning(lowered, grid[i][j], f) == Value::Scalar(values[i][j]) by {
                assert(sa[i].len() >= cols);
                assert(sb[i].len() >= cols);
                assert(lowered.value(sa[i][j].id) == Value::Scalar(ma[i][j]));
                assert(lowered.value(sb[i][j].id) == Value::Scalar(mb[i][j]));
            }
            lemma_bound_grid(state, known, original, lowered, floor, expr.id, grid, values, f);
            assert(meaning(original, expr.opr, f) == Value::Matrix(values));
        },
        (VarType::Matrix, VarType::Scalar) => {
            assert(has_entry(state.matrices, a.id));
            let sa = state.matrix(a);
            let ma = original.matrix(a);
            assert(matrix_corresponds(sa, original.value(a.id), lowered, floor, state.namer.ids));
            assert(lowered.value(b.id) == original.value(b.id));
            let grid = scalar_right_grid(sa, b, kind);
            let values = Seq::new(
                ma.len(),
                |i: int|
                    Seq::new(ma[i].len(), |j: int| apply(kind, ma[i][j], original.scalar(b))),
            );
            assert forall|i: int, j: int|
                0 <= i < grid.len() && 0 <= j < grid[i].len() implies reads_below(
                #[trigger] grid[i][j],
                state.namer.ids,
            ) && meaning(lowered, grid[i][j], f) == Value::Scalar(values[i][j]) by {
                assert(sa[i].len() == ma[i].len());
                assert(lowered.value(sa[i][j].id) == Value::Scalar(ma[i][j]));
            }
            assert forall|i: int| 0 <= i < grid.len() implies (#[trigger] values[i]).len()
                == grid[i].len() by {
                assert(sa[i].len() == ma[i].len());
            }
            lemma_bound_grid(state, known, original, lowered, floor, expr.id, grid, values, f);
            assert(meaning(original, expr.opr, f) == Value::Matrix(values));
        },
        (VarType::Scalar, VarType::Matrix) => {
            assert(has_entry(state.matrices, b.id));
            let sb = state.matrix(b);
            let mb = original.matrix(b);
            assert(matrix_corresponds(sb, original.value(b.id), lowered, floor, state.namer.ids));
            assert(lowered.value(a.id) == original.value(a.id));
            let grid = scalar_left_grid(a, sb, kind);
            let values = Seq::new(
                mb.len(),
                |i: int|
                    Seq::new(mb[i].len(), |j: int| apply(kind, original.scalar(a), mb[i][j])),
            );
            assert forall|i: int, j: int|
                0 <= i < grid.len() && 0 <= j < grid[i].len() implies reads_below(
                #[trigger] grid[i][j],
                state.namer.ids,
            ) && meaning(lowered, grid[i][j], f) == Value::Scalar(values[i][j]) by {
                assert(sb[i].len() == mb[i].len());
                assert(lowered.value(sb[i][j].id) == Value::Scalar(mb[i][j]));
            }
            assert forall|i: int| 0 <= i < grid.len() implies (#[trigger] values[i]).len()
                == grid[i].len() by {
                assert(sb[i].len() == mb[i].len());
            }
            lemma_bound_grid(state, known, original, lowered, floor, expr.id, grid, values, f);
            assert(meaning(original, expr.opr, f) == Value::Matrix(values));
        },
        _ => {},
    }
}

/// Lowering a node keeps the values: if the two environments correspond
/// before, they correspond after the program has computed the node and the
/// lowered program has run the nodes that the node was lowered to.
pub proof fn lemma_step_keeps_values(
    state: LoweringView,
    known: Set<usize>,
    original: Env,
    lowered: Env,
    floor: nat,
    expr: ExprView,
    f: Functions,
)
    requires
        step_ready(state, known, original, lowered, floor, expr),
    ensures
        step_kept(state, known, original, lowered, floor, expr, f),
{
    match expr.opr {
        OprView::ConstantScalar(_) => lemma_step_constant(
            state,
            known,
            original,
            lowered,
            floor,
            expr,
            f,
        ),
        OprView::ConstantVector(_) => lemma_step_constant(
            state,
            known,
            original,
            lowered,
            floor,
            expr,
            f,
        ),
        OprView::ConstantMatrix(_) => lemma_step_constant(
            state,
            known,
            original,
            lowered,
            floor,
            expr,
            f,
        ),
        OprView::ConstructScalar(_) => lemma_step_construct(
            state,
            known,
            original,
            lowered,
            floor,
            expr,
            f,
        ),
        OprView::ConstructVector(_) => lemma_step_construct(
            state,
            known,
            original,
            lowered,
            floor,
            expr,
            f,
        ),
        OprView::ConstructMatrix(_) => lemma_step_construct(
            state,
            known,
            original,
            lowered,
            floor,
            expr,
            f,
        ),
        OprView::Unary(a, _) => match a.var_type {
            VarType::Scalar => lemma_step_unary_scalar(
                state,
                known,
                original,
                lowered,
                floor,
                expr,
                f,
            ),
            VarType::Vector => lemma_step_unary_vector(
                state,
                known,
                original,
                lowered,
                floor,
                expr,
                f,
            ),
            VarType::Matrix => lemma_step_unary_matrix(
                state,
                known,
                original,
                lowered,
                floor,
                expr,
                f,
            ),
        },
        OprView::Binary(a, b, kind) => {
            if kind == OprBinary::Cross || kind == OprBinary::Dot {
                lemma_step_product(state, known, original, lowered, floor, expr, f);
            } else if a.var_type == VarType::Scalar && b.var_type == VarType::Scalar {
                lemma_step_scalars(state, known, original, lowered, floor, expr, f);
            } else if a.var_type == VarType::Matrix || b.var_type == VarType::Matrix {
                lemma_step_matrices(state, known, original, lowered, floor, expr, f);
            } else {
                lemma_step_vectors(state, known, original, lowered, floor, expr, f);
            }
        },
    }
}

/// The partial sums of a dot product leave the nodes before them as they
/// are.
pub proof fn lemma_sum_chain_body(state: LoweringView, products: Seq<IdentView>, k: nat)
    ensures
        state.sum_chain(products, k).body.len() == state.body.len() + k,
        forall|i: int|
            0 <= i < state.body.len() ==> state.sum_chain(products, k).body[i] == state.body[i],
    decreases k,
{
    if k > 0 {
        lemma_sum_chain_body(state, products, (k - 1) as nat);
    }
}

/// Carrying out a plan leaves the nodes that the pass has built as they are.
pub proof fn lemma_emit_extends(state: LoweringView, expr: ExprView, plan: PlanView)
    requires
        plan.valid(),
    ensures
        state.emit(expr, plan).body.len() >= state.body.len(),
        forall|i: int| 0 <= i < state.body.len() ==> state.emit(expr, plan).body[i] == state.body[i],
{
    let name = expr.id.name;
    match plan {
        PlanView::Keep => {},
        PlanView::Rebind(_) => {},
        PlanView::Row(oprs) => {
            lemma_row_body(state, name, oprs, oprs.len());
        },
        PlanView::Grid(grid) => {
            lemma_grid_body(state, name, grid, grid.len());
        },
        PlanView::Transposed(grid, _) => {
            lemma_grid_body(state, name, grid, grid.len());
        },
        PlanView::Cross(a, b) => {
            let ids = state.cross_ids(name);
            let s0 = state.reserve(element_name(name, 0)).reserve(element_name(name, 1)).reserve(
                element_name(name, 2),
            );
            let s1 = s0.cross_element(ids[0], 1, a[1], b[2], a[2], b[1]);
            let s2 = s1.cross_element(ids[1], 3, a[2], b[0], a[0], b[2]);
            let s3 = s2.cross_element(ids[2], 5, a[0], b[1], a[1], b[0]);
            assert(s0.body == state.body);
            assert forall|i: int| 0 <= i < state.body.len() implies s3.body[i]
                == state.body[i] by {
                assert(s1.body[i] == s0.body[i]);
                assert(s2.body[i] == s1.body[i]);
                assert(s3.body[i] == s2.body[i]);
            }
        },
        PlanView::Dot(a, b, n) => {
            let factors = zip_row(a, b, OprBinary::Mul, n);
            lemma_row_body(state, dot_name(), factors, n);
            let multiplied = state.bind_row(dot_name(), factors);
            let products = state.row_ids(dot_name(), factors);
            lemma_sum_chain_body(multiplied, products, (n - 1) as nat);
            let chain = multiplied.sum_chain(products, (n - 1) as nat);
            assert forall|i: int| 0 <= i < state.body.len() implies state.emit(
                expr,
                plan,
            ).body[i] == state.body[i] by {
                assert(chain.body[i] == multiplied.body[i]);
            }
        },
    }
}

/// The scalars that are known after the first `n` nodes were lowered.
pub open spec fn known_upto(
    state: LoweringView,
    known: Set<usize>,
    body: Seq<ExprView>,
    n: nat,
) -> Set<usize>
    decreases n,
{
    if n == 0 {
        known
    } else {
        known_after(
            state.lower_body(body, (n - 1) as nat)->Ok_0,
            known_upto(state, known, body, (n - 1) as nat),
            body[n - 1],
        )
    }
}

/// Each of the first `n` nodes binds an identifier of the program that was
/// not bound before, and uses as scalars only scalars that were bound
/// before it.
pub open spec fn well_scoped(
    state: LoweringView,
    known: Set<usize>,
    body: Seq<ExprView>,
    n: nat,
    floor: nat,
) -> bool
    decreases n,
{
    if n == 0 {
        true
    } else {
        &&& well_scoped(state, known, body, (n - 1) as nat, floor)
        &&& body[n - 1].id.id <= floor
        &&& unbound(
            state.lower_body(body, (n - 1) as nat)->Ok_0,
            known_upto(state, known, body, (n - 1) as nat),
            body[n - 1].id.id,
        )
        &&& scoped(known_upto(state, known, body, (n - 1) as nat), body[n - 1].opr)
    }
}

/// Lowering nodes keeps the values: if the two environments correspond
/// before the nodes, they correspond after the program has computed the
/// nodes and the lowered program has run all that they were lowered to.
pub proof fn lemma_body_keeps_values(
    state: LoweringView,
    known: Set<usize>,
    original: Env,
    lowered: Env,
    floor: nat,
    body: Seq<ExprView>,
    n: nat,
    f: Functions,
)
    requires
        corresponds(state, known, original, lowered, floor),
        state.lower_body(body, n) is Ok,
        well_scoped(state, known, body, n, floor),
    ensures
        ({
            let done = state.lower_body(body, n)->Ok_0;
            &&& done.body.len() >= state.body.len()
            &&& forall|i: int| 0 <= i < state.body.len() ==> done.body[i] == state.body[i]
            &&& corresponds(
                done,
                known_upto(state, known, body, n),
                run(original, body, 0, n, f),
                run(lowered, done.body, state.body.len(), done.body.len(), f),
                floor,
            )
        }),
    decreases n,
{
    if n > 0 {
        let m = (n - 1) as nat;
        lemma_body_keeps_values(state, known, original, lowered, floor, body, m, f);
        let before = state.lower_body(body, m)->Ok_0;
        let done = state.lower_body(body, n)->Ok_0;
        let expr = body[n - 1];
        let known_m = known_upto(state, known, body, m);
        let original_m = run(original, body, 0, m, f);
        let lowered_m = run(lowered, before.body, state.body.len(), before.body.len(), f);
        lemma_plan_valid(before, expr);
        lemma_emit_extends(before, expr, before.plan(expr)->Ok_0);
        lemma_step_keeps_values(before, known_m, original_m, lowered_m, floor, expr, f);
        lemma_run_split(lowered, done.body, state.body.len(), before.body.len(), done.body.len(), f);
        lemma_run_same_nodes(
            lowered,
            done.body,
            before.body,
            state.body.len(),
            before.body.len(),
            f,
        );
        assert forall|i: int| 0 <= i < state.body.len() implies done.body[i] == state.body[i] by {
            assert(done.body[i] == before.body[i]);
        }
    } else {
        assert(run(lowered, state.body, state.body.len(), state.body.len(), f) == lowered);
    }
}

/// Lowering inputs builds no nodes.
pub proof fn lemma_inputs_build_nothing(
    state: LoweringView,
    inputs: Seq<(IdentView, ProgramInputView)>,
    n: nat,
)
    requires
        state.lower_inputs(inputs, n) is Ok,
    ensures
        state.lower_inputs(inputs, n)->Ok_0.body == state.body,
    decreases n,
{
    if n > 0 {
        lemma_inputs_build_nothing(state, inputs, (n - 1) as nat);
        let before = state.lower_inputs(inputs, (n - 1) as nat)->Ok_0;
        match inputs[n - 1].1 {
            ProgramInputView::Scalar(_) => {},
            ProgramInputView::Vector(infos) => {
                lemma_declare_row_body(before, inputs[n - 1].0.name, infos, infos.len());
            },
            ProgramInputView::Matrix(grid) => {
                lemma_declare_grid_body(before, inputs[n - 1].0.name, grid, grid.len());
            },
        }
    }
}

/// Declaring a row of inputs builds no nodes.
pub proof fn lemma_declare_row_body(
    state: LoweringView,
    base: Seq<char>,
    infos: Seq<InputView>,
    n: nat,
)
    ensures
        state.declare_row_upto(base, infos, n).body == state.body,
    decreases n,
{
    if n > 0 {
        lemma_declare_row_body(state, base, infos, (n - 1) as nat);
    }
}

/// Declaring a grid of inputs builds no nodes.
pub proof fn lemma_declare_grid_body(
    state: LoweringView,
    base: Seq<char>,
    grid: Seq<Seq<InputView>>,
    n: nat,
)
    ensures
        state.declare_grid_upto(base, grid, n).body == state.body,
    decreases n,
{
    if n > 0 {
        lemma_declare_grid_body(state, base, grid, (n - 1) as nat);
        lemma_declare_row_body(
            state.declare_grid_upto(base, grid, (n - 1) as nat),
            element_name(base, n - 1),
            grid[n - 1],
            grid[n - 1].len(),
        );
    }
}

/// Scalarisation keeps the values. Take a program whose nodes bind each
/// identifier once and use as scalars only scalars bound before them, and
/// that can be lowered. Take values for its inputs, and for the inputs of
/// the lowered program the same values element by element. Then, for any
/// sine and cosine, what the lowered program computes corresponds to what
/// the program computes: every scalar of the program has the same value in
/// both, and every element of every vector and matrix of the program is the
/// value of the scalar that stands for it, exactly.
pub proof fn lemma_unroll_preserves_values(
    namer: NamerState,
    program: ProgramView,
    known: Set<usize>,
    original: Env,
    lowered: Env,
    f: Functions,
)
    requires
        crate::fresh::lowered(namer, program) is Ok,
        corresponds(
            LoweringView::start(namer).lower_inputs(program.inputs, program.inputs.len())->Ok_0,
            known,
            original,
            lowered,
            namer.ids,
        ),
        well_scoped(
            LoweringView::start(namer).lower_inputs(program.inputs, program.inputs.len())->Ok_0,
            known,
            program.body,
            program.body.len(),
            namer.ids,
        ),
    ensures
        ({
            let declared = LoweringView::start(namer).lower_inputs(
                program.inputs,
                program.inputs.len(),
            )->Ok_0;
            let done = crate::fresh::lowered(namer, program)->Ok_0;
            corresponds(
                done,
                known_upto(declared, known, program.body, program.body.len()),
                run(original, program.body, 0, program.body.len(), f),
                run(lowered, done.body, 0, done.body.len(), f),
                namer.ids,
            )
        }),
{
    let start = LoweringView::start(namer);
    let declared = start.lower_inputs(program.inputs, program.inputs.len())->Ok_0;
    lemma_inputs_build_nothing(start, program.inputs, program.inputs.len());
    assert(declared.body.len() == 0);
    lemma_body_keeps_values(
        declared,
        known,
        original,
        lowered,
        namer.ids,
        program.body,
        program.body.len(),
        f,
    );
}

/// What corresponding environments say of an output: a scalar that is
/// known has the same value in both, and the leaves of a vector or matrix
/// hold the values of its elements.
pub proof fn lemma_output_values(
    state: LoweringView,
    known: Set<usize>,
    original: Env,
    lowered: Env,
    floor: nat,
    id: IdentView,
)
    requires
        corresponds(state, known, original, lowered, floor),
        state.output_leaves(id) is Ok,
    ensures
        id.var_type == VarType::Scalar && known.contains(id.id) ==> lowered.value(id.id)
            == original.value(id.id),
        id.var_type == VarType::Vector ==> vector_corresponds(
            state.vector(id),
            original.value(id.id),
            lowered,
            floor,
            state.namer.ids,
        ),
        id.var_type == VarType::Matrix ==> matrix_corresponds(
            state.matrix(id),
            original.value(id.id),
            lowered,
            floor,
            state.namer.ids,
        ),
{
    if id.var_type == VarType::Vector {
        assert(has_entry(state.vectors, id.id));
    }
    if id.var_type == VarType::Matrix {
        assert(has_entry(state.matrices, id.id));
    }
}

/// Transposing a grid twice gives the grid back.
pub proof fn lemma_transpose_twice(values: Seq<Seq<real>>, rows: nat, cols: nat)
    requires
        values.len() == rows,
        rows_are(values, cols),
    ensures
        transposed(transposed(values, cols), rows) == values,
{
    let once = transposed(values, cols);
    let twice = transposed(once, rows);
    assert forall|i: int| 0 <= i < rows implies twice[i] =~= values[i] by {
        assert(values[i].len() == cols);
        assert forall|j: int| 0 <= j < cols implies twice[i][j] == values[i][j] by {
            assert(once[j][i] == values[i][j]);
        }
    }
    assert(twice =~= values);
}

/// The transpose of the transpose of a matrix, lowered, computes cell by
/// cell the values of the matrix: after the two transposes were lowered,
/// the scalar that stands for cell `(i, j)` of the second holds the value
/// of cell `(i, j)` of the matrix.
pub proof fn lemma_transpose_twice_lowered(
    state: LoweringView,
    known: Set<usize>,
    original: Env,
    lowered: Env,
    floor: nat,
    matrix: IdentView,
    once: IdentView,
    twice: IdentView,
    f: Functions,
)
    requires
        matrix.var_type == VarType::Matrix,
        once.var_type == VarType::Matrix,
        once.id != twice.id,
        ({
            let first = ExprView { id: once, opr: OprView::Unary(matrix, UnaryView::Transpose) };
            let second = ExprView { id: twice, opr: OprView::Unary(once, UnaryView::Transpose) };
            &&& step_ready(state, known, original, lowered, floor, first)
            &&& state.step(first)->Ok_0.step(second) is Ok
            &&& twice.id <= floor
            &&& unbound(state, known, twice.id)
            &&& original.matrix(matrix).len() > 0 ==> rows_are(
                original.matrix(matrix),
                original.matrix(matrix)[0].len(),
            ) && original.matrix(matrix)[0].len() > 0
        }),
    ensures
        ({
            let first = ExprView { id: once, opr: OprView::Unary(matrix, UnaryView::Transpose) };
            let second = ExprView { id: twice, opr: OprView::Unary(once, UnaryView::Transpose) };
            let middle = state.step(first)->Ok_0;
            let done = middle.step(second)->Ok_0;
            let after = run(lowered, done.body, state.body.len(), done.body.len(), f);
            matrix_corresponds(
                done.matrix(twice),
                Value::Matrix(original.matrix(matrix)),
                after,
                floor,
                done.namer.ids,
            )
        }),
{
    let first = ExprView { id: once, opr: OprView::Unary(matrix, UnaryView::Transpose) };
    let second = ExprView { id: twice, opr: OprView::Unary(once, UnaryView::Transpose) };
    let middle = state.step(first)->Ok_0;
    let done = middle.step(second)->Ok_0;
    let m = original.matrix(matrix);
    assert(has_entry(state.matrices, matrix.id));
    assert(matrix_corresponds(
        state.matrix(matrix),
        original.value(matrix.id),
        lowered,
        floor,
        state.namer.ids,
    ));
    lemma_step_keeps_values(state, known, original, lowered, floor, first, f);
    lemma_plan_valid(state, first);
    lemma_emit_extends(state, first, state.plan(first)->Ok_0);
    crate::shape::lemma_other_records_stay(state, first, twice);
    let original1 = original.set(once.id, meaning(original, first.opr, f));
    let lowered1 = run(lowered, middle.body, state.body.len(), middle.body.len(), f);
    let cols = m[0].len();
    let turned = transposed(m, cols);
    assert(meaning(original, first.opr, f) == Value::Matrix(turned));
    assert(original1.matrix(once) == turned);
    lemma_step_keeps_values(middle, known, original1, lowered1, floor, second, f);
    lemma_plan_valid(middle, second);
    lemma_emit_extends(middle, second, middle.plan(second)->Ok_0);
    let original2 = original1.set(twice.id, meaning(original1, second.opr, f));
    assert(turned.len() == cols);
    assert(turned[0].len() == m.len());
    assert(rows_are(turned, m.len()));
    lemma_transpose_twice(m, m.len(), cols);
    assert(meaning(original1, second.opr, f) == Value::Matrix(m));
    assert(has_entry(done.matrices, twice.id)) by {
        crate::shape::lemma_node_cardinality(middle, second);
    }
    lemma_run_split(lowered, done.body, state.body.len(), middle.body.len(), done.body.len(), f);
    lemma_run_same_nodes(lowered, done.body, middle.body, state.body.len(), middle.body.len(), f);
}

/// The outputs of the lowered program stand in the order of the program's
/// outputs, each under its own identifier with its leaves, when no output
/// was registered twice.
pub proof fn lemma_outputs_in_order(
    state: LoweringView,
    outputs: Seq<(IdentView, ProgramOutputView)>,
    n: nat,
)
    requires
        n <= outputs.len(),
        distinct(entry_ids(outputs)),
        state.lower_outputs(outputs, n) is Ok,
    ensures
        state.lower_outputs(outputs, n)->Ok_0.len() == n,
        forall|j: int|
            0 <= j < n ==> (#[trigger] state.lower_outputs(outputs, n)->Ok_0[j]).0 == outputs[j].0
                && state.output_leaves(outputs[j].0) == Ok::<ProgramOutputView, UnrollError>(
                state.lower_outputs(outputs, n)->Ok_0[j].1,
            ),
    decreases n,
{
    if n > 0 {
        lemma_outputs_in_order(state, outputs, (n - 1) as nat);
        let done = state.lower_outputs(outputs, (n - 1) as nat)->Ok_0;
        let key = outputs[n - 1].0;
        assert forall|i: int| 0 <= i < done.len() implies entry_ids(done)[i] != key.id by {
            assert(done[i].0 == outputs[i].0);
            assert(entry_ids(outputs)[i] != entry_ids(outputs)[n - 1]);
        }
        lemma_position_is(entry_ids(done), key.id, done.len() as int);
        assert(!has_entry(done, key.id));
    }
}

/// What the leaves of an output hold after the lowered program has run,
/// when `before` is what the program computed: a scalar output that is known
/// holds its own value, and a vector or matrix has one scalar leaf for each
/// of its elements, in the shape of its value, which holds the value of
/// that element.
pub open spec fn leaves_hold(
    id: IdentView,
    leaves: ProgramOutputView,
    known: Set<usize>,
    before: Env,
    after: Env,
) -> bool {
    match leaves {
        ProgramOutputView::Scalar(leaf) => leaf.id == id && (known.contains(id.id) ==> after.value(
            id.id,
        ) == before.value(id.id)),
        ProgramOutputView::Vector(row) => before.value(id.id) is Vector && row.len()
            == before.vector(id).len() && forall|k: int|
            0 <= k < row.len() ==> (#[trigger] row[k]).id.var_type == VarType::Scalar
                && after.value(row[k].id.id) == Value::Scalar(before.vector(id)[k]),
        ProgramOutputView::Matrix(grid) => before.value(id.id) is Matrix && grid.len()
            == before.matrix(id).len() && forall|i: int, j: int|
            0 <= i < grid.len() ==> (#[trigger] grid[i]).len() == before.matrix(id)[i].len() && (0
                <= j < grid[i].len() ==> (#[trigger] grid[i][j]).id.var_type == VarType::Scalar
                && after.value(grid[i][j].id.id) == Value::Scalar(before.matrix(id)[i][j])),
    }
}

/// The scalar program computes every output of the program it was lowered
/// from. Under the conditions of `lemma_unroll_preserves_values`, and when
/// no output was registered twice, output `j` of the scalar program stands
/// under the identifier of output `j` of the program, and after both have
/// run its leaves hold the values of that output element by element.
pub proof fn lemma_unrolled_outputs_hold_values(
    namer: NamerState,
    program: ProgramView,
    known: Set<usize>,
    original: Env,
    lowered: Env,
    f: Functions,
    j: int,
)
    requires
        unrolled(namer, program) is Ok,
        distinct(entry_ids(program.outputs)),
        0 <= j < program.outputs.len(),
        corresponds(
            LoweringView::start(namer).lower_inputs(program.inputs, program.inputs.len())->Ok_0,
            known,
            original,
            lowered,
            namer.ids,
        ),
        well_scoped(
            LoweringView::start(namer).lower_inputs(program.inputs, program.inputs.len())->Ok_0,
            known,
            program.body,
            program.body.len(),
            namer.ids,
        ),
    ensures
        ({
            let declared = LoweringView::start(namer).lower_inputs(
                program.inputs,
                program.inputs.len(),
            )->Ok_0;
            let scalar = unrolled(namer, program)->Ok_0.0;
            &&& scalar.outputs.len() == program.outputs.len()
            &&& scalar.outputs[j].0 == program.outputs[j].0
            &&& leaves_hold(
                program.outputs[j].0,
                scalar.outputs[j].1,
                known_upto(declared, known, program.body, program.body.len()),
                run(original, program.body, 0, program.body.len(), f),
                run(lowered, scalar.body, 0, scalar.body.len(), f),
            )
        }),
{
    let declared = LoweringView::start(namer).lower_inputs(
        program.inputs,
        program.inputs.len(),
    )->Ok_0;
    let done = crate::fresh::lowered(namer, program)->Ok_0;
    let scalar = unrolled(namer, program)->Ok_0.0;
    let id = program.outputs[j].0;
    let before = run(original, program.body, 0, program.body.len(), f);
    let after = run(lowered, scalar.body, 0, scalar.body.len(), f);
    let known_end = known_upto(declared, known, program.body, program.body.len());
    lemma_unroll_preserves_values(namer, program, known, original, lowered, f);
    lemma_outputs_in_order(done, program.outputs, program.outputs.len());
    assert(scalar.outputs == done.lower_outputs(program.outputs, program.outputs.len())->Ok_0);
    assert(done.output_leaves(id) == Ok::<ProgramOutputView, UnrollError>(scalar.outputs[j].1));
    lemma_output_values(done, known_end, before, after, namer.ids, id);
    match id.var_type {
        VarType::Scalar => {},
        VarType::Vector => {
            let ids = done.vector(id);
            let row = pending_row(ids);
            assert(scalar.outputs[j].1 == ProgramOutputView::Vector(row));
            assert forall|k: int| 0 <= k < row.len() implies (#[trigger] row[k]).id.var_type
                == VarType::Scalar && after.value(row[k].id.id) == Value::Scalar(
                before.vector(id)[k],
            ) by {
                assert(row[k].id == ids[k]);
            }
        },
        VarType::Matrix => {
            let ids = done.matrix(id);
            let grid = pending_grid(ids);
            assert(scalar.outputs[j].1 == ProgramOutputView::Matrix(grid));
            assert forall|i: int, k: int| 0 <= i < grid.len() implies (#[trigger] grid[i]).len()
                == before.matrix(id)[i].len() && (0 <= k < grid[i].len() ==> (
            #[trigger] grid[i][k]).id.var_type == VarType::Scalar && after.value(grid[i][k].id.id)
                == Value::Scalar(before.matrix(id)[i][k])) by {
                assert(grid[i] == pending_row(ids[i]));
                assert(ids[i].len() == before.matrix(id)[i].len());
                if 0 <= k < grid[i].len() {
                    assert(grid[i][k].id == ids[i][k]);
                }
            }
        },
    }
}

} // verus!
