//! A program: declared inputs with their ranges, registered outputs, and the
//! ordered list of nodes between them.

use vstd::prelude::*;
use crate::expr::{body_view, Expr, ExprView};
use crate::identifier::{IdentView, Identifier};
use crate::idmap::{distinct, entry_ids, lemma_insert_entries, upsert, IdMap};
use crate::rational::Real;

verus! {

/// The range of values that one scalar input may take.
#[derive(Debug)]
pub struct Input {
    pub range: (Real, Real),
}

/// The declared ranges of an input, element by element.
#[derive(Debug)]
#[allow(inconsistent_fields)]
pub enum ProgramInput {
    Scalar { info: Input },
    Vector { info: Vec<Input> },
    Matrix { info: Vec<Vec<Input>> },
}

/// One scalar leaf of an output: its identifier and, once an analysis has
/// run, the range of its value and of its roundoff error. Before that both
/// ranges are zero, which stands for "not yet computed".
#[derive(Debug)]
pub struct Output {
    pub id: Identifier,
    pub range: (Real, Real),
    pub error: (Real, Real),
}

/// The leaves of a registered output, element by element.
#[derive(Debug)]
#[allow(inconsistent_fields)]
pub enum ProgramOutput {
    Scalar { info: Output },
    Vector { info: Vec<Output> },
    Matrix { info: Vec<Vec<Output>> },
}

/// An input range as contracts see it.
pub struct InputView {
    pub lower: real,
    pub upper: real,
}

/// A declared input as contracts see it.
pub enum ProgramInputView {
    Scalar(InputView),
    Vector(Seq<InputView>),
    Matrix(Seq<Seq<InputView>>),
}

/// An output leaf as contracts see it.
pub struct OutputView {
    pub id: IdentView,
    pub range: (real, real),
    pub error: (real, real),
}

/// A registered output as contracts see it.
pub enum ProgramOutputView {
    Scalar(OutputView),
    Vector(Seq<OutputView>),
    Matrix(Seq<Seq<OutputView>>),
}

impl View for Input {
    type V = InputView;

    open spec fn view(&self) -> InputView {
        InputView { lower: self.range.0@, upper: self.range.1@ }
    }
}

/// The views of a list of input ranges.
pub open spec fn inputs_row_view(row: Seq<Input>) -> Seq<InputView> {
    Seq::new(row.len(), |i: int| row[i]@)
}

/// The views of a grid of input ranges.
pub open spec fn inputs_grid_view(rows: Seq<Vec<Input>>) -> Seq<Seq<InputView>> {
    Seq::new(rows.len(), |i: int| inputs_row_view(rows[i]@))
}

impl View for ProgramInput {
    type V = ProgramInputView;

    open spec fn view(&self) -> ProgramInputView {
        match *self {
            ProgramInput::Scalar { info } => ProgramInputView::Scalar(info@),
            ProgramInput::Vector { info } => ProgramInputView::Vector(inputs_row_view(info@)),
            ProgramInput::Matrix { info } => ProgramInputView::Matrix(inputs_grid_view(info@)),
        }
    }
}

impl View for Output {
    type V = OutputView;

    open spec fn view(&self) -> OutputView {
        OutputView {
            id: self.id@,
            range: (self.range.0@, self.range.1@),
            error: (self.error.0@, self.error.1@),
        }
    }
}

/// The views of a list of output leaves.
pub open spec fn outputs_row_view(row: Seq<Output>) -> Seq<OutputView> {
    Seq::new(row.len(), |i: int| row[i]@)
}

/// The views of a grid of output leaves.
pub open spec fn outputs_grid_view(rows: Seq<Vec<Output>>) -> Seq<Seq<OutputView>> {
    Seq::new(rows.len(), |i: int| outputs_row_view(rows[i]@))
}

impl View for ProgramOutput {
    type V = ProgramOutputView;

    open spec fn view(&self) -> ProgramOutputView {
        match *self {
            ProgramOutput::Scalar { info } => ProgramOutputView::Scalar(info@),
            ProgramOutput::Vector { info } => ProgramOutputView::Vector(outputs_row_view(info@)),
            ProgramOutput::Matrix { info } => ProgramOutputView::Matrix(outputs_grid_view(info@)),
        }
    }
}

impl Clone for Input {
    fn clone(&self) -> (r: Self)
        ensures
            r@ == self@,
    {
        Input { range: (self.range.0.clone(), self.range.1.clone()) }
    }
}

impl Clone for Output {
    fn clone(&self) -> (r: Self)
        ensures
            r@ == self@,
    {
        Output {
            id: self.id.clone(),
            range: (self.range.0.clone(), self.range.1.clone()),
            error: (self.error.0.clone(), self.error.1.clone()),
        }
    }
}

impl Output {
    /// A leaf for `id` whose ranges are not yet computed.
    pub fn pending(id: Identifier) -> (r: Output)
        ensures
            r@ == pending_output(id@),
    {
        Output {
            id,
            range: (Real::zero(), Real::zero()),
            error: (Real::zero(), Real::zero()),
        }
    }
}

/// The leaf for `id` before any analysis: both ranges zero.
pub open spec fn pending_output(id: IdentView) -> OutputView {
    OutputView { id, range: (0real, 0real), error: (0real, 0real) }
}

/// Copies a list of input ranges.
fn clone_inputs_row(row: &Vec<Input>) -> (r: Vec<Input>)
    ensures
        inputs_row_view(r@) == inputs_row_view(row@),
{
    let mut out: Vec<Input> = Vec::new();
    let mut i: usize = 0;
    while i < row.len()
        invariant
            i <= row.len(),
            out@.len() == i,
            forall|k: int| 0 <= k < i ==> (#[trigger] out@[k])@ == row@[k]@,
        decreases row.len() - i,
    {
        out.push(row[i].clone());
        i += 1;
    }
    assert(inputs_row_view(out@) =~= inputs_row_view(row@));
    out
}

/// Copies a grid of input ranges.
fn clone_inputs_grid(rows: &Vec<Vec<Input>>) -> (r: Vec<Vec<Input>>)
    ensures
        inputs_grid_view(r@) == inputs_grid_view(rows@),
{
    let mut out: Vec<Vec<Input>> = Vec::new();
    let mut i: usize = 0;
    while i < rows.len()
        invariant
            i <= rows.len(),
            out@.len() == i,
            forall|k: int|
                0 <= k < i ==> inputs_row_view((#[trigger] out@[k])@) == inputs_row_view(
                    rows@[k]@,
                ),
        decreases rows.len() - i,
    {
        out.push(clone_inputs_row(&rows[i]));
        i += 1;
    }
    assert(inputs_grid_view(out@) =~= inputs_grid_view(rows@));
    out
}

impl Clone for ProgramInput {
    fn clone(&self) -> (r: Self)
        ensures
            r@ == self@,
    {
        match self {
            ProgramInput::Scalar { info } => ProgramInput::Scalar { info: info.clone() },
            ProgramInput::Vector { info } => ProgramInput::Vector { info: clone_inputs_row(info) },
            ProgramInput::Matrix { info } => ProgramInput::Matrix {
                info: clone_inputs_grid(info),
            },
        }
    }
}

/// The inputs of a map as contracts see them.
pub open spec fn inputs_view(map: &IdMap<ProgramInput>) -> Seq<(IdentView, ProgramInputView)> {
    map.entries_with(|v: ProgramInput| v@)
}

/// The outputs of a map as contracts see them.
pub open spec fn outputs_view(map: &IdMap<ProgramOutput>) -> Seq<(IdentView, ProgramOutputView)> {
    map.entries_with(|v: ProgramOutput| v@)
}

/// A program as contracts see it.
pub struct ProgramView {
    pub inputs: Seq<(IdentView, ProgramInputView)>,
    pub outputs: Seq<(IdentView, ProgramOutputView)>,
    pub body: Seq<ExprView>,
}

impl ProgramView {
    /// The program without inputs, outputs or nodes.
    pub open spec fn empty() -> ProgramView {
        ProgramView { inputs: Seq::empty(), outputs: Seq::empty(), body: Seq::empty() }
    }
}

/// Inputs with their ranges, outputs, and the nodes in the order in which
/// they were created.
pub struct Program {
    inputs: IdMap<ProgramInput>,
    outputs: IdMap<ProgramOutput>,
    body: Vec<Expr>,
}

impl View for Program {
    type V = ProgramView;

    closed spec fn view(&self) -> ProgramView {
        ProgramView {
            inputs: inputs_view(&self.inputs),
            outputs: outputs_view(&self.outputs),
            body: body_view(self.body@),
        }
    }
}

impl Program {
    /// Both maps of the program are well formed.
    pub closed spec fn wf(&self) -> bool {
        self.inputs.wf() && self.outputs.wf()
    }

    /// No input is declared twice and no output is registered twice.
    pub proof fn lemma_entries_distinct(&self)
        requires
            self.wf(),
        ensures
            distinct(entry_ids(self@.inputs)),
            distinct(entry_ids(self@.outputs)),
    {
        self.inputs.lemma_ids_distinct();
        self.outputs.lemma_ids_distinct();
        self.inputs.lemma_entries_with(|v: ProgramInput| v@);
        self.outputs.lemma_entries_with(|v: ProgramOutput| v@);
    }

    /// An empty program.
    pub fn new() -> (r: Program)
        ensures
            r.wf(),
            r@ == ProgramView::empty(),
    {
        let r = Program { inputs: IdMap::new(), outputs: IdMap::new(), body: Vec::new() };
        assert(r@.inputs =~= Seq::empty());
        assert(r@.outputs =~= Seq::empty());
        assert(r@.body =~= Seq::empty());
        r
    }

    /// Appends a node to the body.
    pub fn add_expr(&mut self, expr: Expr)
        requires
            old(self).wf(),
        ensures
            final(self).wf(),
            final(self)@ == (ProgramView { body: old(self)@.body.push(expr@), ..old(self)@ }),
    {
        self.body.push(expr);
        assert(body_view(self.body@) =~= body_view(old(self).body@).push(expr@));
    }

    /// Declares an input, or replaces the ranges of one that was declared
    /// under the same identifier number.
    pub fn add_input(&mut self, id: Identifier, input: ProgramInput)
        requires
            old(self).wf(),
        ensures
            final(self).wf(),
            final(self)@ == (ProgramView {
                inputs: upsert(old(self)@.inputs, id@, input@),
                ..old(self)@
            }),
    {
        let ghost before = self.inputs;
        self.inputs.insert(id, input);
        proof {
            lemma_insert_entries(&before, &self.inputs, id, input, |v: ProgramInput| v@);
        }
    }

    /// Registers an output, or replaces the leaves of one that was registered
    /// under the same identifier number.
    pub fn add_output(&mut self, id: Identifier, output: ProgramOutput)
        requires
            old(self).wf(),
        ensures
            final(self).wf(),
            final(self)@ == (ProgramView {
                outputs: upsert(old(self)@.outputs, id@, output@),
                ..old(self)@
            }),
    {
        let ghost before = self.outputs;
        self.outputs.insert(id, output);
        proof {
            lemma_insert_entries(&before, &self.outputs, id, output, |v: ProgramOutput| v@);
        }
    }

    /// The declared inputs, in the order of their declaration.
    pub fn get_inputs(&self) -> (r: &IdMap<ProgramInput>)
        requires
            self.wf(),
        ensures
            r.wf(),
            inputs_view(r) == self@.inputs,
    {
        &self.inputs
    }

    /// The registered outputs, in the order of their registration.
    pub fn get_outputs(&self) -> (r: &IdMap<ProgramOutput>)
        requires
            self.wf(),
        ensures
            r.wf(),
            outputs_view(r) == self@.outputs,
    {
        &self.outputs
    }

    /// The nodes, in the order of their creation.
    pub fn get_body(&self) -> (r: &Vec<Expr>)
        ensures
            body_view(r@) == self@.body,
    {
        &self.body
    }

    /// Replaces the inputs.
    pub fn set_inputs(&mut self, inputs: IdMap<ProgramInput>)
        requires
            old(self).wf(),
            inputs.wf(),
        ensures
            final(self).wf(),
            final(self)@ == (ProgramView { inputs: inputs_view(&inputs), ..old(self)@ }),
    {
        self.inputs = inputs;
    }

    /// Replaces the outputs.
    pub fn set_outputs(&mut self, outputs: IdMap<ProgramOutput>)
        requires
            old(self).wf(),
            outputs.wf(),
        ensures
            final(self).wf(),
            final(self)@ == (ProgramView { outputs: outputs_view(&outputs), ..old(self)@ }),
    {
        self.outputs = outputs;
    }

    /// Replaces the body.
    pub fn set_body(&mut self, body: Vec<Expr>)
        requires
            old(self).wf(),
        ensures
            final(self).wf(),
            final(self)@ == (ProgramView { body: body_view(body@), ..old(self)@ }),
    {
        self.body = body;
    }

    /// Removes all inputs, outputs and nodes.
    pub fn clear(&mut self)
        ensures
            final(self).wf(),
            final(self)@ == ProgramView::empty(),
    {
        self.inputs.clear();
        self.outputs.clear();
        self.body.clear();
        assert(self@.inputs =~= Seq::empty());
        assert(self@.outputs =~= Seq::empty());
        assert(self@.body =~= Seq::empty());
    }
}

} // verus!
