//! What the analyser found, brought back to the outputs of a program.

use vstd::prelude::*;
use crate::daisy::{abs_real, errors_view, max_real, min_real, ranges_view, DaisyRange, ReportError};
use crate::identifier::IdentView;
use crate::idmap::{lemma_insert_entries, upsert, IdMap};
use crate::namemap::{has_name, named, NameMap};
use crate::program::{inputs_view, outputs_grid_view, outputs_row_view, outputs_view, Output, OutputView, Program, ProgramInput, ProgramInputView, ProgramOutput, ProgramOutputView, ProgramView};
use crate::rational::Real;

verus! {

/// A leaf with the range and the error bound that the reports give for its
/// name: the error spans from the negated magnitude of the bound to the
/// magnitude.
pub open spec fn analysed_leaf(
    leaf: OutputView,
    ranges: Seq<(Seq<char>, (real, real))>,
    errors: Seq<(Seq<char>, real)>,
) -> Result<OutputView, ReportError> {
    if !has_name(ranges, leaf.id.name) || !has_name(errors, leaf.id.name) {
        Err(ReportError::UnknownIdentifier)
    } else {
        Ok(
            OutputView {
                id: leaf.id,
                range: named(ranges, leaf.id.name),
                error: (
                    -abs_real(named(errors, leaf.id.name)),
                    abs_real(named(errors, leaf.id.name)),
                ),
            },
        )
    }
}

/// The first `n` leaves of a row, analysed; the first leaf without a report
/// fails the row.
pub open spec fn analysed_row(
    leaves: Seq<OutputView>,
    ranges: Seq<(Seq<char>, (real, real))>,
    errors: Seq<(Seq<char>, real)>,
    n: nat,
) -> Result<Seq<OutputView>, ReportError>
    decreases n,
{
    if n == 0 {
        Ok(Seq::empty())
    } else {
        match analysed_row(leaves, ranges, errors, (n - 1) as nat) {
            Err(e) => Err(e),
            Ok(done) => match analysed_leaf(leaves[n - 1], ranges, errors) {
                Err(e) => Err(e),
                Ok(leaf) => Ok(done.push(leaf)),
            },
        }
    }
}

/// The first `n` rows of a grid, analysed.
pub open spec fn analysed_grid(
    rows: Seq<Seq<OutputView>>,
    ranges: Seq<(Seq<char>, (real, real))>,
    errors: Seq<(Seq<char>, real)>,
    n: nat,
) -> Result<Seq<Seq<OutputView>>, ReportError>
    decreases n,
{
    if n == 0 {
        Ok(Seq::empty())
    } else {
        match analysed_grid(rows, ranges, errors, (n - 1) as nat) {
            Err(e) => Err(e),
            Ok(done) => match analysed_row(rows[n - 1], ranges, errors, rows[n - 1].len()) {
                Err(e) => Err(e),
                Ok(row) => Ok(done.push(row)),
            },
        }
    }
}

/// An output with every leaf analysed.
pub open spec fn analysed_output(
    output: ProgramOutputView,
    ranges: Seq<(Seq<char>, (real, real))>,
    errors: Seq<(Seq<char>, real)>,
) -> Result<ProgramOutputView, ReportError> {
    match output {
        ProgramOutputView::Scalar(leaf) => match analysed_leaf(leaf, ranges, errors) {
            Err(e) => Err(e),
            Ok(done) => Ok(ProgramOutputView::Scalar(done)),
        },
        ProgramOutputView::Vector(leaves) => match analysed_row(
            leaves,
            ranges,
            errors,
            leaves.len(),
        ) {
            Err(e) => Err(e),
            Ok(done) => Ok(ProgramOutputView::Vector(done)),
        },
        ProgramOutputView::Matrix(rows) => match analysed_grid(rows, ranges, errors, rows.len()) {
            Err(e) => Err(e),
            Ok(done) => Ok(ProgramOutputView::Matrix(done)),
        },
    }
}

/// The first `n` outputs, analysed, in their order.
pub open spec fn analysed_outputs(
    outputs: Seq<(IdentView, ProgramOutputView)>,
    ranges: Seq<(Seq<char>, (real, real))>,
    errors: Seq<(Seq<char>, real)>,
    n: nat,
) -> Result<Seq<(IdentView, ProgramOutputView)>, ReportError>
    decreases n,
{
    if n == 0 {
        Ok(Seq::empty())
    } else {
        match analysed_outputs(outputs, ranges, errors, (n - 1) as nat) {
            Err(e) => Err(e),
            Ok(done) => match analysed_output(outputs[n - 1].1, ranges, errors) {
                Err(e) => Err(e),
                Ok(output) => Ok(upsert(done, outputs[n - 1].0, output)),
            },
        }
    }
}

fn analyse_leaf(leaf: &Output, ranges: &NameMap<DaisyRange>, errors: &NameMap<Real>) -> (r: Result<
    Output,
    ReportError,
>)
    requires
        ranges.wf(),
        errors.wf(),
    ensures
        match analysed_leaf(leaf@, ranges_view(ranges), errors_view(errors)) {
            Ok(done) => r matches Ok(out) && out@ == done,
            Err(e) => r matches Err(f) && f == e,
        },
{
    proof {
        ranges.lemma_entries_with(|r: DaisyRange| r@);
        errors.lemma_entries_with(|e: Real| e@);
    }
    let range = match ranges.get(leaf.id.name.as_str()) {
        Some(range) => range,
        None => {
            return Err(ReportError::UnknownIdentifier);
        },
    };
    let error = match errors.get(leaf.id.name.as_str()) {
        Some(error) => error,
        None => {
            return Err(ReportError::UnknownIdentifier);
        },
    };
    let magnitude = error.abs();
    Ok(
        Output {
            id: leaf.id.clone(),
            range: (range.lower.clone(), range.upper.clone()),
            error: (magnitude.neg(), magnitude),
        },
    )
}

fn analyse_row(leaves: &Vec<Output>, ranges: &NameMap<DaisyRange>, errors: &NameMap<Real>) -> (r:
    Result<Vec<Output>, ReportError>)
    requires
        ranges.wf(),
        errors.wf(),
    ensures
        match analysed_row(
            outputs_row_view(leaves@),
            ranges_view(ranges),
            errors_view(errors),
            leaves@.len(),
        ) {
            Ok(done) => r matches Ok(out) && outputs_row_view(out@) == done,
            Err(e) => r matches Err(f) && f == e,
        },
{
    let ghost views = outputs_row_view(leaves@);
    let mut out: Vec<Output> = Vec::new();
    assert(outputs_row_view(out@) =~= Seq::empty());
    let mut i: usize = 0;
    while i < leaves.len()
        invariant
            i <= leaves.len(),
            ranges.wf(),
            errors.wf(),
            views == outputs_row_view(leaves@),
            analysed_row(views, ranges_view(ranges), errors_view(errors), i as nat) == Ok::<
                Seq<OutputView>,
                ReportError,
            >(outputs_row_view(out@)),
        decreases leaves.len() - i,
    {
        assert(views[i as int] == leaves@[i as int]@);
        match analyse_leaf(&leaves[i], ranges, errors) {
            Ok(leaf) => {
                let ghost before = outputs_row_view(out@);
                out.push(leaf);
                assert(outputs_row_view(out@) =~= before.push(leaf@));
            },
            Err(e) => {
                proof {
                    lemma_row_fails(
                        views,
                        ranges_view(ranges),
                        errors_view(errors),
                        (i + 1) as nat,
                        leaves@.len(),
                    );
                }
                return Err(e);
            },
        }
        i += 1;
    }
    Ok(out)
}

proof fn lemma_row_fails(
    leaves: Seq<OutputView>,
    ranges: Seq<(Seq<char>, (real, real))>,
    errors: Seq<(Seq<char>, real)>,
    n: nat,
    m: nat,
)
    requires
        n <= m,
        analysed_row(leaves, ranges, errors, n) is Err,
    ensures
        analysed_row(leaves, ranges, errors, m) == analysed_row(leaves, ranges, errors, n),
    decreases m - n,
{
    if n < m {
        lemma_row_fails(leaves, ranges, errors, n, (m - 1) as nat);
    }
}

proof fn lemma_grid_fails(
    rows: Seq<Seq<OutputView>>,
    ranges: Seq<(Seq<char>, (real, real))>,
    errors: Seq<(Seq<char>, real)>,
    n: nat,
    m: nat,
)
    requires
        n <= m,
        analysed_grid(rows, ranges, errors, n) is Err,
    ensures
        analysed_grid(rows, ranges, errors, m) == analysed_grid(rows, ranges, errors, n),
    decreases m - n,
{
    if n < m {
        lemma_grid_fails(rows, ranges, errors, n, (m - 1) as nat);
    }
}

proof fn lemma_outputs_fail(
    outputs: Seq<(IdentView, ProgramOutputView)>,
    ranges: Seq<(Seq<char>, (real, real))>,
    errors: Seq<(Seq<char>, real)>,
    n: nat,
    m: nat,
)
    requires
        n <= m,
        analysed_outputs(outputs, ranges, errors, n) is Err,
    ensures
        analysed_outputs(outputs, ranges, errors, m) == analysed_outputs(
            outputs,
            ranges,
            errors,
            n,
        ),
    decreases m - n,
{
    if n < m {
        lemma_outputs_fail(outputs, ranges, errors, n, (m - 1) as nat);
    }
}

fn analyse_grid(rows: &Vec<Vec<Output>>, ranges: &NameMap<DaisyRange>, errors: &NameMap<Real>) -> (r:
    Result<Vec<Vec<Output>>, ReportError>)
    requires
        ranges.wf(),
        errors.wf(),
    ensures
        match analysed_grid(
            outputs_grid_view(rows@),
            ranges_view(ranges),
            errors_view(errors),
            rows@.len(),
        ) {
            Ok(done) => r matches Ok(out) && outputs_grid_view(out@) == done,
            Err(e) => r matches Err(f) && f == e,
        },
{
    let ghost views = outputs_grid_view(rows@);
    let mut out: Vec<Vec<Output>> = Vec::new();
    assert(outputs_grid_view(out@) =~= Seq::empty());
    let mut i: usize = 0;
    while i < rows.len()
        invariant
            i <= rows.len(),
            ranges.wf(),
            errors.wf(),
            views == outputs_grid_view(rows@),
            analysed_grid(views, ranges_view(ranges), errors_view(errors), i as nat) == Ok::<
                Seq<Seq<OutputView>>,
                ReportError,
            >(outputs_grid_view(out@)),
        decreases rows.len() - i,
    {
        assert(views[i as int] == outputs_row_view(rows@[i as int]@));
        match analyse_row(&rows[i], ranges, errors) {
            Ok(row) => {
                let ghost before = outputs_grid_view(out@);
                out.push(row);
                assert(outputs_grid_view(out@) =~= before.push(outputs_row_view(row@)));
            },
            Err(e) => {
                proof {
                    lemma_grid_fails(
                        views,
                        ranges_view(ranges),
                        errors_view(errors),
                        (i + 1) as nat,
                        rows@.len(),
                    );
                }
                return Err(e);
            },
        }
        i += 1;
    }
    Ok(out)
}

fn analyse_output(output: &ProgramOutput, ranges: &NameMap<DaisyRange>, errors: &NameMap<Real>) -> (r:
    Result<ProgramOutput, ReportError>)
    requires
        ranges.wf(),
        errors.wf(),
    ensures
        match analysed_output(output@, ranges_view(ranges), errors_view(errors)) {
            Ok(done) => r matches Ok(out) && out@ == done,
            Err(e) => r matches Err(f) && f == e,
        },
{
    match output {
        ProgramOutput::Scalar { info } => match analyse_leaf(info, ranges, errors) {
            Ok(leaf) => Ok(ProgramOutput::Scalar { info: leaf }),
            Err(e) => Err(e),
        },
        ProgramOutput::Vector { info } => match analyse_row(info, ranges, errors) {
            Ok(row) => Ok(ProgramOutput::Vector { info: row }),
            Err(e) => Err(e),
        },
        ProgramOutput::Matrix { info } => match analyse_grid(info, ranges, errors) {
            Ok(grid) => Ok(ProgramOutput::Matrix { info: grid }),
            Err(e) => Err(e),
        },
    }
}

/// Gives every output leaf of `program` the range and the error bound that
/// the reports hold for its name. If a leaf has no range or no error bound,
/// the program stays as it is.
pub fn update_program_outputs(
    program: &mut Program,
    range_results: &NameMap<DaisyRange>,
    error_results: &NameMap<Real>,
) -> (r: Result<(), ReportError>)
    requires
        old(program).wf(),
        range_results.wf(),
        error_results.wf(),
    ensures
        final(program).wf(),
        match analysed_outputs(
            old(program)@.outputs,
            ranges_view(range_results),
            errors_view(error_results),
            old(program)@.outputs.len(),
        ) {
            Ok(outputs) => r is Ok && final(program)@ == (ProgramView { outputs, ..old(program)@ }),
            Err(e) => r == Err::<(), ReportError>(e) && final(program)@ == old(program)@,
        },
{
    let mut new_outputs: IdMap<ProgramOutput> = IdMap::new();
    assert(outputs_view(&new_outputs) =~= Seq::empty());
    let outputs = program.get_outputs();
    let n = outputs.len();
    let mut i: usize = 0;
    while i < n
        invariant
            i <= n,
            n == program@.outputs.len(),
            program.wf(),
            outputs.wf(),
            outputs_view(outputs) == program@.outputs,
            range_results.wf(),
            error_results.wf(),
            new_outputs.wf(),
            analysed_outputs(
                program@.outputs,
                ranges_view(range_results),
                errors_view(error_results),
                i as nat,
            ) == Ok::<Seq<(IdentView, ProgramOutputView)>, ReportError>(
                outputs_view(&new_outputs),
            ),
        decreases n - i,
    {
        let key = outputs.key_at(i);
        let value = outputs.value_at(i);
        assert(program@.outputs[i as int] == (key@, value@));
        match analyse_output(value, range_results, error_results) {
            Ok(output) => {
                let ghost before = new_outputs;
                let copy = key.clone();
                new_outputs.insert(copy, output);
                proof {
                    lemma_insert_entries(
                        &before,
                        &new_outputs,
                        copy,
                        output,
                        |v: ProgramOutput| v@,
                    );
                }
            },
            Err(e) => {
                proof {
                    lemma_outputs_fail(
                        program@.outputs,
                        ranges_view(range_results),
                        errors_view(error_results),
                        (i + 1) as nat,
                        n as nat,
                    );
                }
                return Err(e);
            },
        }
        i += 1;
    }
    program.set_outputs(new_outputs);
    Ok(())
}

/// The ranges of the scalar inputs by identifier, in declaration order, as
/// contracts see them.
pub open spec fn intervals_view(map: &IdMap<(Real, Real)>) -> Seq<(IdentView, (real, real))> {
    map.entries_with(|r: (Real, Real)| (r.0@, r.1@))
}

/// The intervals of the first `n` inputs, which must all be scalar.
pub open spec fn scalar_intervals(inputs: Seq<(IdentView, ProgramInputView)>, n: nat) -> Option<
    Seq<(IdentView, (real, real))>,
>
    decreases n,
{
    if n == 0 {
        Some(Seq::empty())
    } else {
        match (scalar_intervals(inputs, (n - 1) as nat), inputs[n - 1].1) {
            (Some(done), ProgramInputView::Scalar(info)) => Some(
                upsert(done, inputs[n - 1].0, (info.lower, info.upper)),
            ),
            _ => None,
        }
    }
}

proof fn lemma_intervals_fail(inputs: Seq<(IdentView, ProgramInputView)>, n: nat, m: nat)
    requires
        n <= m,
        scalar_intervals(inputs, n) is None,
    ensures
        scalar_intervals(inputs, m) is None,
    decreases m - n,
{
    if n < m {
        lemma_intervals_fail(inputs, n, (m - 1) as nat);
    }
}

impl Program {
    /// The range of every input, if all inputs are scalar; nothing for a
    /// program that still has a vector or matrix among its inputs.
    pub fn get_curr_intervals(&self) -> (r: Option<IdMap<(Real, Real)>>)
        requires
            self.wf(),
        ensures
            match scalar_intervals(self@.inputs, self@.inputs.len()) {
                Some(intervals) => r matches Some(map) && map.wf() && intervals_view(&map)
                    == intervals,
                None => r is None,
            },
    {
        let inputs = self.get_inputs();
        let n = inputs.len();
        let mut res: IdMap<(Real, Real)> = IdMap::new();
        assert(intervals_view(&res) =~= Seq::empty());
        let mut i: usize = 0;
        while i < n
            invariant
                i <= n,
                n == self@.inputs.len(),
                inputs.wf(),
                inputs_view(inputs) == self@.inputs,
                res.wf(),
                scalar_intervals(self@.inputs, i as nat) == Some(intervals_view(&res)),
            decreases n - i,
        {
            let key = inputs.key_at(i);
            let value = inputs.value_at(i);
            assert(self@.inputs[i as int] == (key@, value@));
            match value {
                ProgramInput::Scalar { info } => {
                    let ghost before = res;
                    let copy = key.clone();
                    let range = (info.range.0.clone(), info.range.1.clone());
                    res.insert(copy, range);
                    proof {
                        lemma_insert_entries(
                            &before,
                            &res,
                            copy,
                            range,
                            |r: (Real, Real)| (r.0@, r.1@),
                        );
                    }
                },
                _ => {
                    proof {
                        lemma_intervals_fail(self@.inputs, (i + 1) as nat, n as nat);
                    }
                    return None;
                },
            }
            i += 1;
        }
        Some(res)
    }
}

/// The span after one more interval: the interval itself at first, and
/// afterwards the span stretched to cover it.
pub open spec fn stretched(span: Option<(real, real)>, low: real, high: real) -> Option<
    (real, real),
> {
    match span {
        Some((a, b)) => Some((min_real(a, low), max_real(b, high))),
        None => Some((low, high)),
    }
}

/// The span of the first `n` reported ranges.
pub open spec fn ranges_span(ranges: Seq<(Seq<char>, (real, real))>, n: nat) -> Option<
    (real, real),
>
    decreases n,
{
    if n == 0 {
        None
    } else {
        stretched(ranges_span(ranges, (n - 1) as nat), ranges[n - 1].1.0, ranges[n - 1].1.1)
    }
}

/// The span stretched over the errors of the first `n` leaves of a row.
pub open spec fn row_span(span: Option<(real, real)>, leaves: Seq<OutputView>, n: nat) -> Option<
    (real, real),
>
    decreases n,
{
    if n == 0 {
        span
    } else {
        stretched(row_span(span, leaves, (n - 1) as nat), leaves[n - 1].error.0, leaves[n - 1].error.1)
    }
}

/// The span stretched over the errors of the first `n` rows of a grid.
pub open spec fn grid_span(span: Option<(real, real)>, rows: Seq<Seq<OutputView>>, n: nat) -> Option<
    (real, real),
>
    decreases n,
{
    if n == 0 {
        span
    } else {
        row_span(grid_span(span, rows, (n - 1) as nat), rows[n - 1], rows[n - 1].len())
    }
}

/// The span stretched over the errors of the leaves of one output.
pub open spec fn output_span(span: Option<(real, real)>, output: ProgramOutputView) -> Option<
    (real, real),
> {
    match output {
        ProgramOutputView::Scalar(leaf) => stretched(span, leaf.error.0, leaf.error.1),
        ProgramOutputView::Vector(leaves) => row_span(span, leaves, leaves.len()),
        ProgramOutputView::Matrix(rows) => grid_span(span, rows, rows.len()),
    }
}

/// The span of the errors of the leaves of the first `n` outputs.
pub open spec fn outputs_span(outputs: Seq<(IdentView, ProgramOutputView)>, n: nat) -> Option<
    (real, real),
>
    decreases n,
{
    if n == 0 {
        None
    } else {
        output_span(outputs_span(outputs, (n - 1) as nat), outputs[n - 1].1)
    }
}

/// The extremes of an analysis: the smallest lower and the largest upper
/// bound over all reported ranges, and over the errors of all output leaves.
#[derive(Debug)]
pub struct WorstValues {
    pub range_min: Real,
    pub range_max: Real,
    pub error_min: Real,
    pub error_max: Real,
}

/// A span as contracts see it.
pub open spec fn span_view(span: Option<(Real, Real)>) -> Option<(real, real)> {
    match span {
        Some((a, b)) => Some((a@, b@)),
        None => None,
    }
}

fn stretch(span: Option<(Real, Real)>, low: &Real, high: &Real) -> (r: Option<(Real, Real)>)
    ensures
        span_view(r) == stretched(span_view(span), low@, high@),
{
    match span {
        Some((a, b)) => Some((a.min(low), b.max(high))),
        None => Some((low.clone(), high.clone())),
    }
}

fn stretch_row(span: Option<(Real, Real)>, leaves: &Vec<Output>) -> (r: Option<(Real, Real)>)
    ensures
        span_view(r) == row_span(span_view(span), outputs_row_view(leaves@), leaves@.len()),
{
    let ghost start = span_view(span);
    let mut current = span;
    let mut i: usize = 0;
    while i < leaves.len()
        invariant
            i <= leaves.len(),
            span_view(current) == row_span(start, outputs_row_view(leaves@), i as nat),
        decreases leaves.len() - i,
    {
        assert(outputs_row_view(leaves@)[i as int] == leaves@[i as int]@);
        current = stretch(current, &leaves[i].error.0, &leaves[i].error.1);
        i += 1;
    }
    current
}

fn stretch_output(span: Option<(Real, Real)>, output: &ProgramOutput) -> (r: Option<(Real, Real)>)
    ensures
        span_view(r) == output_span(span_view(span), output@),
{
    match output {
        ProgramOutput::Scalar { info } => stretch(span, &info.error.0, &info.error.1),
        ProgramOutput::Vector { info } => stretch_row(span, info),
        ProgramOutput::Matrix { info } => {
            let ghost start = span_view(span);
            let mut current = span;
            let mut i: usize = 0;
            while i < info.len()
                invariant
                    i <= info.len(),
                    span_view(current) == grid_span(start, outputs_grid_view(info@), i as nat),
                decreases info.len() - i,
            {
                assert(outputs_grid_view(info@)[i as int] == outputs_row_view(info@[i as int]@));
                current = stretch_row(current, &info[i]);
                i += 1;
            }
            current
        },
    }
}

/// The extremes of an analysis, if there is at least one reported range and
/// at least one output leaf.
pub fn report_worst_values(range_results: &NameMap<DaisyRange>, program: &Program) -> (r: Option<
    WorstValues,
>)
    requires
        range_results.wf(),
        program.wf(),
    ensures
        match (
            ranges_span(ranges_view(range_results), ranges_view(range_results).len()),
            outputs_span(program@.outputs, program@.outputs.len()),
        ) {
            (Some(ranges), Some(errors)) => r matches Some(worst) && worst.range_min@ == ranges.0
                && worst.range_max@ == ranges.1 && worst.error_min@ == errors.0
                && worst.error_max@ == errors.1,
            _ => r is None,
        },
{
    let mut ranges: Option<(Real, Real)> = None;
    let n = range_results.len();
    let mut i: usize = 0;
    while i < n
        invariant
            i <= n,
            n == ranges_view(range_results).len(),
            range_results.wf(),
            span_view(ranges) == ranges_span(ranges_view(range_results), i as nat),
        decreases n - i,
    {
        let range = range_results.value_at(i);
        assert(ranges_view(range_results)[i as int].1 == range@);
        ranges = stretch(ranges, &range.lower, &range.upper);
        i += 1;
    }
    let outputs = program.get_outputs();
    let m = outputs.len();
    let mut errors: Option<(Real, Real)> = None;
    let mut j: usize = 0;
    while j < m
        invariant
            j <= m,
            m == program@.outputs.len(),
            outputs.wf(),
            outputs_view(outputs) == program@.outputs,
            span_view(errors) == outputs_span(program@.outputs, j as nat),
        decreases m - j,
    {
        let value = outputs.value_at(j);
        assert(program@.outputs[j as int].1 == value@);
        errors = stretch_output(errors, value);
        j += 1;
    }
    match (ranges, errors) {
        (Some((range_min, range_max)), Some((error_min, error_max))) => Some(
            WorstValues { range_min, range_max, error_min, error_max },
        ),
        _ => None,
    }
}

} // verus!
