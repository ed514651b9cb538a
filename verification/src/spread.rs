//! The values of a program's inputs, handed to the scalars that stand for
//! their elements in the lowered program.

use vstd::prelude::*;
use crate::fresh::{grid_counts_from, lemma_cells_step, lemma_declare_grid_counts, lemma_declare_row_counts, lemma_grid_counts_by_shape, lemma_room_fits, row_counts_from};
use crate::expr::{OprView, UnaryView};
use crate::identifier::{IdentView, VarType};
use crate::idmap::{distinct, entry_ids, entry_value, has_entry, lemma_upsert_lookup};
use crate::lowering::{cells, cells_upto, element_name, LoweringView};
use crate::meaning::{meaning, run, Env, Functions, Value};
use crate::naming::{Namer, NamerState};
use crate::plan::rows_are;
use crate::preserve::{agree_below, corresponds, known_upto, leaves_hold, lemma_outputs_in_order, lemma_transpose_twice, lemma_unrolled_outputs_hold_values, matrix_corresponds, vector_corresponds, well_scoped};
use crate::program::{InputView, Program, ProgramInputView, ProgramView};
use crate::unroll::{transposed, unrolled};

verus! {

/// The environment in which the first `n` of `ids` hold the first `n` of
/// `values`.
pub open spec fn with_row(env: Env, ids: Seq<IdentView>, values: Seq<real>, n: nat) -> Env
    decreases n,
{
    if n == 0 {
        env
    } else {
        with_row(env, ids, values, (n - 1) as nat).set(ids[n - 1].id, Value::Scalar(values[n - 1]))
    }
}

/// The environment in which the cells of the first `n` rows of `ids` hold
/// the cells of the first `n` rows of `values`.
pub open spec fn with_grid(env: Env, ids: Seq<Seq<IdentView>>, values: Seq<Seq<real>>, n: nat) -> Env
    decreases n,
{
    if n == 0 {
        env
    } else {
        with_row(
            with_grid(env, ids, values, (n - 1) as nat),
            ids[n - 1],
            values[n - 1],
            ids[n - 1].len(),
        )
    }
}

/// Identifiers numbered in order after `from` each hold their own value, and
/// every other number holds what it held.
pub proof fn lemma_with_row(env: Env, ids: Seq<IdentView>, values: Seq<real>, n: nat, from: nat)
    requires
        n <= ids.len(),
        row_counts_from(ids, from),
        from + ids.len() <= usize::MAX,
    ensures
        forall|k: int|
            0 <= k < n ==> with_row(env, ids, values, n).value((#[trigger] ids[k]).id)
                == Value::Scalar(values[k]),
        forall|x: usize|
            x <= from || x > from + n ==> #[trigger] with_row(env, ids, values, n).value(x)
                == env.value(x),
    decreases n,
{
    if n > 0 {
        lemma_with_row(env, ids, values, (n - 1) as nat, from);
        let earlier = with_row(env, ids, values, (n - 1) as nat);
        let now = with_row(env, ids, values, n);
        assert(ids[n - 1].id == from + (n - 1) + 1);
        assert forall|k: int| 0 <= k < n implies now.value((#[trigger] ids[k]).id)
            == Value::Scalar(values[k]) by {
            assert(ids[k].id == from + k + 1);
            if k < n - 1 {
                assert(earlier.value(ids[k].id) == Value::Scalar(values[k]));
            }
        }
        assert forall|x: usize| x <= from || x > from + n implies #[trigger] now.value(x)
            == env.value(x) by {
            assert(earlier.value(x) == env.value(x));
        }
    }
}

/// Identifiers numbered in row-major order after `from` each hold the value
/// of their own cell, and every other number holds what it held.
pub proof fn lemma_with_grid(
    env: Env,
    ids: Seq<Seq<IdentView>>,
    values: Seq<Seq<real>>,
    n: nat,
    from: nat,
)
    requires
        n <= ids.len(),
        grid_counts_from(ids, from),
        from + cells(ids) <= usize::MAX,
    ensures
        forall|i: int, j: int|
            0 <= i < n && 0 <= j < ids[i].len() ==> with_grid(env, ids, values, n).value(
                (#[trigger] ids[i][j]).id,
            ) == Value::Scalar(values[i][j]),
        forall|x: usize|
            x <= from || x > from + cells_upto(ids, n) ==> #[trigger] with_grid(
                env,
                ids,
                values,
                n,
            ).value(x) == env.value(x),
    decreases n,
{
    if n > 0 {
        let m = (n - 1) as nat;
        lemma_with_grid(env, ids, values, m, from);
        let earlier = with_grid(env, ids, values, m);
        let now = with_grid(env, ids, values, n);
        let row = ids[n - 1];
        let start = from + cells_upto(ids, m);
        crate::lowering::lemma_cells_monotone(ids, n, ids.len());
        assert forall|k: int| 0 <= k < row.len() implies (#[trigger] row[k]).id == start + k
            + 1 by {
            assert(ids[n - 1][k].id == from + cells_upto(ids, m) + k + 1);
        }
        lemma_with_row(earlier, row, values[n - 1], row.len(), start);
        assert forall|i: int, j: int| 0 <= i < n && 0 <= j < ids[i].len() implies now.value(
            (#[trigger] ids[i][j]).id,
        ) == Value::Scalar(values[i][j]) by {
            if i < n - 1 {
                lemma_cells_step(ids, i as nat, j as nat, m);
                assert(ids[i][j].id == from + cells_upto(ids, i as nat) + j + 1);
                assert(now.value(ids[i][j].id) == earlier.value(ids[i][j].id));
            } else {
                assert(row[j] == ids[i][j]);
            }
        }
        assert forall|x: usize| x <= from || x > from + cells_upto(ids, n) implies #[trigger] now.value(
            x,
        ) == env.value(x) by {
            assert(now.value(x) == earlier.value(x));
            assert(earlier.value(x) == env.value(x));
        }
    }
}

/// The scalars that a row of inputs declares are scalars.
pub proof fn lemma_declared_var_type(
    state: LoweringView,
    base: Seq<char>,
    infos: Seq<InputView>,
    n: nat,
    k: int,
)
    requires
        0 <= k < n,
        state.namer.ids + n <= usize::MAX,
    ensures
        state.declared_ids_upto(base, infos, n)[k].var_type == VarType::Scalar,
    decreases n,
{
    lemma_declare_row_counts(state, base, infos, n);
    lemma_declare_row_counts(state, base, infos, (n - 1) as nat);
    if k < n - 1 {
        lemma_declared_var_type(state, base, infos, (n - 1) as nat, k);
    }
}

/// The scalars that a grid of inputs declares are scalars.
pub proof fn lemma_declared_grid_var_type(
    state: LoweringView,
    base: Seq<char>,
    grid: Seq<Seq<InputView>>,
    n: nat,
    i: int,
    j: int,
)
    requires
        0 <= i < n <= grid.len(),
        0 <= j < grid[i].len(),
        state.namer.ids + cells_upto(grid, n) <= usize::MAX,
    ensures
        state.declared_grid_ids_upto(base, grid, n)[i][j].var_type == VarType::Scalar,
    decreases n,
{
    let m = (n - 1) as nat;
    lemma_declare_grid_counts(state, base, grid, n);
    lemma_declare_grid_counts(state, base, grid, m);
    if i < n - 1 {
        lemma_declared_grid_var_type(state, base, grid, m, i, j);
    } else {
        lemma_declared_var_type(
            state.declare_grid_upto(base, grid, m),
            element_name(base, n - 1),
            grid[n - 1],
            grid[n - 1].len(),
            j,
        );
    }
}

/// The numbers of the scalars among the first `n` inputs.
pub open spec fn scalar_inputs(inputs: Seq<(IdentView, ProgramInputView)>, n: nat) -> Set<usize> {
    Set::new(
        |x: usize|
            exists|j: int| 0 <= j < n && (#[trigger] inputs[j]).0.id == x && inputs[j].1 is Scalar,
    )
}

/// The environment gives every input a value of its kind and size: a number
/// to a scalar, as many numbers as it has ranges to a vector, and a grid of
/// the shape of its ranges to a matrix. No input has a number above `floor`.
pub open spec fn inputs_valued(
    original: Env,
    inputs: Seq<(IdentView, ProgramInputView)>,
    floor: nat,
) -> bool {
    forall|j: int|
        0 <= j < inputs.len() ==> {
            let id = (#[trigger] inputs[j]).0;
            &&& id.id <= floor
            &&& match inputs[j].1 {
                ProgramInputView::Scalar(_) => original.value(id.id) is Scalar,
                ProgramInputView::Vector(infos) => original.value(id.id) is Vector
                    && original.vector(id).len() == infos.len(),
                ProgramInputView::Matrix(grid) => original.value(id.id) is Matrix
                    && original.matrix(id).len() == grid.len() && forall|i: int|
                    0 <= i < grid.len() ==> (#[trigger] original.matrix(id)[i]).len()
                        == grid[i].len(),
            }
        }
}

/// The inputs of the lowered program for the values that `original` gives
/// the first `n` inputs of the program: a scalar keeps its value, and each
/// scalar that was declared for an element of a vector or matrix holds the
/// value of that element.
pub open spec fn spread_inputs(
    state: LoweringView,
    original: Env,
    inputs: Seq<(IdentView, ProgramInputView)>,
    n: nat,
) -> Env
    decreases n,
{
    if n == 0 {
        original
    } else {
        let env = spread_inputs(state, original, inputs, (n - 1) as nat);
        let before = state.lower_inputs(inputs, (n - 1) as nat)->Ok_0;
        let id = inputs[n - 1].0;
        match inputs[n - 1].1 {
            ProgramInputView::Scalar(_) => env,
            ProgramInputView::Vector(infos) => with_row(
                env,
                before.declared_ids(id.name, infos),
                original.vector(id),
                infos.len(),
            ),
            ProgramInputView::Matrix(grid) => with_grid(
                env,
                before.declared_grid_ids(id.name, grid),
                original.matrix(id),
                grid.len(),
            ),
        }
    }
}

/// The values spread over the declared scalars correspond to the values of
/// the inputs.
pub proof fn lemma_inputs_correspond(
    namer: NamerState,
    original: Env,
    inputs: Seq<(IdentView, ProgramInputView)>,
    n: nat,
)
    requires
        n <= inputs.len(),
        namer.ids <= usize::MAX,
        LoweringView::start(namer).lower_inputs(inputs, n) is Ok,
        inputs_valued(original, inputs, namer.ids),
    ensures
        corresponds(
            LoweringView::start(namer).lower_inputs(inputs, n)->Ok_0,
            scalar_inputs(inputs, n),
            original,
            spread_inputs(LoweringView::start(namer), original, inputs, n),
            namer.ids,
        ),
        agree_below(
            spread_inputs(LoweringView::start(namer), original, inputs, n),
            original,
            namer.ids,
        ),
    decreases n,
{
    let start = LoweringView::start(namer);
    let floor = namer.ids;
    if n == 0 {
        assert(start.vectors.len() == 0);
        assert(start.matrices.len() == 0);
        assert forall|x: usize| !has_entry(start.vectors, x) by {}
        assert forall|x: usize| !has_entry(start.matrices, x) by {}
    } else {
        let m = (n - 1) as nat;
        lemma_inputs_correspond(namer, original, inputs, m);
        let before = start.lower_inputs(inputs, m)->Ok_0;
        let next = start.lower_inputs(inputs, n)->Ok_0;
        let env = spread_inputs(start, original, inputs, m);
        let now = spread_inputs(start, original, inputs, n);
        let id = inputs[n - 1].0;
        let known = scalar_inputs(inputs, m);
        let known2 = scalar_inputs(inputs, n);
        assert(inputs[n - 1].0.id <= floor);
        assert forall|x: usize| known2.contains(x) implies x <= floor && original.value(
            x,
        ) is Scalar && env.value(x) == original.value(x) by {
            let j = choose|j: int|
                0 <= j < n && (#[trigger] inputs[j]).0.id == x && inputs[j].1 is Scalar;
            assert(inputs[j].0.id <= floor);
            assert(env.value(x) == original.value(x));
        }
        match inputs[n - 1].1 {
            ProgramInputView::Scalar(_) => {
                assert(next.vectors == before.vectors);
                assert(next.matrices == before.matrices);
            },
            ProgramInputView::Vector(infos) => {
                if infos.len() > 0 {
                    lemma_room_fits(before.namer, infos.len());
                }
                lemma_declare_row_counts(before, id.name, infos, infos.len());
                let ids = before.declared_ids(id.name, infos);
                let values = original.vector(id);
                lemma_with_row(env, ids, values, infos.len(), before.namer.ids);
                lemma_upsert_lookup(before.vectors, id, ids);
                assert(agree_below(now, env, before.namer.ids));
                assert forall|x: usize| known2.contains(x) implies #[trigger] now.value(x)
                    == original.value(x) by {
                    assert(env.value(x) == original.value(x));
                }
                assert forall|x: usize| #[trigger] has_entry(next.vectors, x) implies x <= floor
                    && vector_corresponds(
                    entry_value(next.vectors, x),
                    original.value(x),
                    now,
                    floor,
                    next.namer.ids,
                ) by {
                    if x == id.id {
                        assert forall|k: int| 0 <= k < ids.len() implies floor < (
                        #[trigger] ids[k]).id <= next.namer.ids && ids[k].var_type
                            == VarType::Scalar && now.value(ids[k].id) == Value::Scalar(
                            values[k],
                        ) by {
                            assert(ids[k].id == before.namer.ids + k + 1);
                            lemma_declared_var_type(before, id.name, infos, infos.len(), k);
                        }
                    } else {
                        assert(has_entry(before.vectors, x));
                        let old_ids = entry_value(before.vectors, x);
                        assert forall|k: int| 0 <= k < old_ids.len() implies now.value(
                            (#[trigger] old_ids[k]).id,
                        ) == env.value(old_ids[k].id) by {}
                    }
                }
                assert forall|x: usize| #[trigger] has_entry(next.matrices, x) implies x <= floor
                    && matrix_corresponds(
                    entry_value(next.matrices, x),
                    original.value(x),
                    now,
                    floor,
                    next.namer.ids,
                ) by {
                    assert(has_entry(before.matrices, x));
                    let old_ids = entry_value(before.matrices, x);
                    assert forall|i: int, j: int|
                        0 <= i < old_ids.len() && 0 <= j < old_ids[i].len() implies now.value(
                        (#[trigger] old_ids[i][j]).id,
                    ) == env.value(old_ids[i][j].id) by {}
                }
            },
            ProgramInputView::Matrix(grid) => {
                if cells(grid) > 0 {
                    lemma_room_fits(before.namer, cells(grid));
                }
                lemma_declare_grid_counts(before, id.name, grid, grid.len());
                let ids = before.declared_grid_ids(id.name, grid);
                let values = original.matrix(id);
                lemma_grid_counts_by_shape(ids, grid, before.namer.ids);
                lemma_with_grid(env, ids, values, grid.len(), before.namer.ids);
                lemma_upsert_lookup(before.matrices, id, ids);
                assert(agree_below(now, env, before.namer.ids));
                assert forall|x: usize| known2.contains(x) implies #[trigger] now.value(x)
                    == original.value(x) by {
                    assert(env.value(x) == original.value(x));
                }
                assert forall|x: usize| #[trigger] has_entry(next.vectors, x) implies x <= floor
                    && vector_corresponds(
                    entry_value(next.vectors, x),
                    original.value(x),
                    now,
                    floor,
                    next.namer.ids,
                ) by {
                    assert(has_entry(before.vectors, x));
                    let old_ids = entry_value(before.vectors, x);
                    assert forall|k: int| 0 <= k < old_ids.len() implies now.value(
                        (#[trigger] old_ids[k]).id,
                    ) == env.value(old_ids[k].id) by {}
                }
                assert forall|x: usize| #[trigger] has_entry(next.matrices, x) implies x <= floor
                    && matrix_corresponds(
                    entry_value(next.matrices, x),
                    original.value(x),
                    now,
                    floor,
                    next.namer.ids,
                ) by {
                    if x == id.id {
                        assert forall|i: int, j: int|
                            0 <= i < ids.len() && 0 <= j < ids[i].len() implies floor < (
                        #[trigger] ids[i][j]).id <= next.namer.ids && ids[i][j].var_type
                            == VarType::Scalar && now.value(ids[i][j].id) == Value::Scalar(
                            values[i][j],
                        ) by {
                            lemma_cells_step(ids, i as nat, j as nat, ids.len());
                            assert(ids[i][j].id == before.namer.ids + cells_upto(ids, i as nat)
                                + j + 1);
                            lemma_declared_grid_var_type(
                                before,
                                id.name,
                                grid,
                                grid.len(),
                                i,
                                j,
                            );
                        }
                    } else {
                        assert(has_entry(before.matrices, x));
                        let old_ids = entry_value(before.matrices, x);
                        assert forall|i: int, j: int|
                            0 <= i < old_ids.len() && 0 <= j < old_ids[i].len() implies now.value(
                            (#[trigger] old_ids[i][j]).id,
                        ) == env.value(old_ids[i][j].id) by {}
                    }
                }
            },
        }
    }
}

/// Scalarisation preserves the values of the outputs. Take a program that
/// can be lowered, whose nodes bind each identifier once and use as scalars
/// only scalars bound before them, and in which no output was registered
/// twice. Give its inputs any values of their kinds and sizes, and give the
/// scalar inputs of the lowered program the same values element by element.
/// Then for any sine and cosine, after both programs have run, output `j` of
/// the lowered program stands under the identifier of output `j` of the
/// program and its leaves hold the values of that output, element by
/// element, exactly.
pub proof fn lemma_unroll_computes_outputs(
    namer: NamerState,
    program: ProgramView,
    original: Env,
    f: Functions,
    j: int,
)
    requires
        namer.ids <= usize::MAX,
        unrolled(namer, program) is Ok,
        distinct(entry_ids(program.outputs)),
        0 <= j < program.outputs.len(),
        inputs_valued(original, program.inputs, namer.ids),
        well_scoped(
            LoweringView::start(namer).lower_inputs(program.inputs, program.inputs.len())->Ok_0,
            scalar_inputs(program.inputs, program.inputs.len()),
            program.body,
            program.body.len(),
            namer.ids,
        ),
    ensures
        ({
            let start = LoweringView::start(namer);
            let declared = start.lower_inputs(program.inputs, program.inputs.len())->Ok_0;
            let scalar = unrolled(namer, program)->Ok_0.0;
            let given = spread_inputs(start, original, program.inputs, program.inputs.len());
            &&& scalar.outputs.len() == program.outputs.len()
            &&& scalar.outputs[j].0 == program.outputs[j].0
            &&& leaves_hold(
                program.outputs[j].0,
                scalar.outputs[j].1,
                known_upto(
                    declared,
                    scalar_inputs(program.inputs, program.inputs.len()),
                    program.body,
                    program.body.len(),
                ),
                run(original, program.body, 0, program.body.len(), f),
                run(given, scalar.body, 0, scalar.body.len(), f),
            )
        }),
{
    let start = LoweringView::start(namer);
    lemma_inputs_correspond(namer, original, program.inputs, program.inputs.len());
    lemma_unrolled_outputs_hold_values(
        namer,
        program,
        scalar_inputs(program.inputs, program.inputs.len()),
        original,
        spread_inputs(start, original, program.inputs, program.inputs.len()),
        f,
        j,
    );
}

/// What `unroll_ir` returns computes what the program computes. Take a
/// program of the library whose nodes bind each identifier once and use as
/// scalars only scalars bound before them, and any values of the kinds and
/// sizes of its inputs. Where `unroll_ir` succeeds on it, output `j` of the
/// program it returns stands under the identifier of output `j`, and its
/// leaves hold the values of that output once both programs have run.
pub proof fn lemma_unroll_ir_preserves_values(
    namer: &Namer,
    program: &Program,
    original: Env,
    f: Functions,
    j: int,
)
    requires
        program.wf(),
        unrolled(namer@, program@) is Ok,
        0 <= j < program@.outputs.len(),
        inputs_valued(original, program@.inputs, namer@.ids),
        well_scoped(
            LoweringView::start(namer@).lower_inputs(program@.inputs, program@.inputs.len())->Ok_0,
            scalar_inputs(program@.inputs, program@.inputs.len()),
            program@.body,
            program@.body.len(),
            namer@.ids,
        ),
    ensures
        ({
            let start = LoweringView::start(namer@);
            let declared = start.lower_inputs(program@.inputs, program@.inputs.len())->Ok_0;
            let scalar = unrolled(namer@, program@)->Ok_0.0;
            let given = spread_inputs(start, original, program@.inputs, program@.inputs.len());
            &&& scalar.outputs.len() == program@.outputs.len()
            &&& scalar.outputs[j].0 == program@.outputs[j].0
            &&& leaves_hold(
                program@.outputs[j].0,
                scalar.outputs[j].1,
                known_upto(
                    declared,
                    scalar_inputs(program@.inputs, program@.inputs.len()),
                    program@.body,
                    program@.body.len(),
                ),
                run(original, program@.body, 0, program@.body.len(), f),
                run(given, scalar.body, 0, scalar.body.len(), f),
            )
        }),
{
    namer.lemma_view();
    program.lemma_entries_distinct();
    lemma_unroll_computes_outputs(namer@, program@, original, f, j);
}

/// What a program computes for the transpose of the transpose of a matrix
/// is the matrix, when the matrix has a cell and rows of one length.
pub proof fn lemma_transpose_twice_meaning(env: Env, matrix: IdentView, once: IdentView, f: Functions)
    requires
        matrix.var_type == VarType::Matrix,
        once.var_type == VarType::Matrix,
        env.value(matrix.id) is Matrix,
        env.matrix(matrix).len() > 0,
        env.matrix(matrix)[0].len() > 0,
        rows_are(env.matrix(matrix), env.matrix(matrix)[0].len()),
    ensures
        meaning(
            env.set(once.id, meaning(env, OprView::Unary(matrix, UnaryView::Transpose), f)),
            OprView::Unary(once, UnaryView::Transpose),
            f,
        ) == Value::Matrix(env.matrix(matrix)),
{
    let m = env.matrix(matrix);
    let cols = m[0].len();
    let turned = transposed(m, cols);
    assert(meaning(env, OprView::Unary(matrix, UnaryView::Transpose), f) == Value::Matrix(turned));
    let next = env.set(once.id, Value::Matrix(turned));
    assert(next.matrix(once) == turned);
    assert(turned.len() == cols);
    assert(turned[0].len() == m.len());
    lemma_transpose_twice(m, m.len(), cols);
}

/// Two matrix outputs that the program computes to the same value have, in
/// the program that `unroll_ir` returns, leaves of one shape that hold the
/// same numbers cell by cell; the identifiers of the leaves may differ. So
/// the leaves of the transpose of the transpose of a matrix hold what the
/// leaves of the matrix hold.
pub proof fn lemma_equal_outputs_equal_leaves(
    namer: &Namer,
    program: &Program,
    original: Env,
    f: Functions,
    first: int,
    second: int,
)
    requires
        program.wf(),
        unrolled(namer@, program@) is Ok,
        0 <= first < program@.outputs.len(),
        0 <= second < program@.outputs.len(),
        program@.outputs[first].0.var_type == VarType::Matrix,
        program@.outputs[second].0.var_type == VarType::Matrix,
        inputs_valued(original, program@.inputs, namer@.ids),
        well_scoped(
            LoweringView::start(namer@).lower_inputs(program@.inputs, program@.inputs.len())->Ok_0,
            scalar_inputs(program@.inputs, program@.inputs.len()),
            program@.body,
            program@.body.len(),
            namer@.ids,
        ),
        run(original, program@.body, 0, program@.body.len(), f).value(
            program@.outputs[first].0.id,
        ) == run(original, program@.body, 0, program@.body.len(), f).value(
            program@.outputs[second].0.id,
        ),
    ensures
        ({
            let start = LoweringView::start(namer@);
            let scalar = unrolled(namer@, program@)->Ok_0.0;
            let given = spread_inputs(start, original, program@.inputs, program@.inputs.len());
            let after = run(given, scalar.body, 0, scalar.body.len(), f);
            &&& scalar.outputs[first].1 is Matrix
            &&& scalar.outputs[second].1 is Matrix
            &&& scalar.outputs[first].1->Matrix_0.len() == scalar.outputs[second].1->Matrix_0.len()
            &&& forall|i: int, k: int|
                0 <= i < scalar.outputs[first].1->Matrix_0.len() && 0 <= k
                    < scalar.outputs[first].1->Matrix_0[i].len() ==> k
                    < scalar.outputs[second].1->Matrix_0[i].len() && after.value(
                    (#[trigger] scalar.outputs[first].1->Matrix_0[i][k]).id.id,
                ) == after.value(scalar.outputs[second].1->Matrix_0[i][k].id.id)
        }),
{
    lemma_unroll_ir_preserves_values(namer, program, original, f, first);
    lemma_unroll_ir_preserves_values(namer, program, original, f, second);
    let done = crate::fresh::lowered(namer@, program@)->Ok_0;
    let scalar = unrolled(namer@, program@)->Ok_0.0;
    program.lemma_entries_distinct();
    lemma_outputs_in_order(done, program@.outputs, program@.outputs.len());
    let a = scalar.outputs[first].1->Matrix_0;
    let b = scalar.outputs[second].1->Matrix_0;
    let before = run(original, program@.body, 0, program@.body.len(), f);
    assert forall|i: int, k: int| 0 <= i < a.len() && 0 <= k < a[i].len() implies k < b[i].len()
        && run(
        spread_inputs(
            LoweringView::start(namer@),
            original,
            program@.inputs,
            program@.inputs.len(),
        ),
        scalar.body,
        0,
        scalar.body.len(),
        f,
    ).value((#[trigger] a[i][k]).id.id) == run(
        spread_inputs(
            LoweringView::start(namer@),
            original,
            program@.inputs,
            program@.inputs.len(),
        ),
        scalar.body,
        0,
        scalar.body.len(),
        f,
    ).value(b[i][k].id.id) by {
        assert(a[i].len() == before.matrix(program@.outputs[first].0)[i].len());
        assert(b[i].len() == before.matrix(program@.outputs[second].0)[i].len());
        assert(b[i][k].id.var_type == VarType::Scalar);
    }
}

} // verus!
