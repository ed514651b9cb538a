//! The state of a scalarisation pass and the steps that create new scalar
//! identifiers: one per element of a vector, one per cell of a matrix.

use vstd::prelude::*;
use vstd::string::*;
use crate::expr::{body_view, Expr, ExprView, Opr, OprView};
use crate::identifier::{grid_view, idents_view, IdSize, IdentView, Identifier};
use crate::idmap::{lemma_insert_entries, upsert, IdMap};
use crate::naming::{Namer, NamerState};
use crate::program::{inputs_view, Input, InputView, ProgramInput, ProgramInputView};
use crate::text::{concat3, nat_text, usize_to_text};

verus! {

/// The name of element `i` of the value named `base`: `base`, an underscore
/// and the index. The cell in row `i` and column `j` is element `j` of
/// element `i`.
pub open spec fn element_name(base: Seq<char>, i: int) -> Seq<char> {
    base + seq!['_'] + nat_text(i as nat)
}

/// The views of a list of operations.
pub open spec fn oprs_view(oprs: Seq<Opr>) -> Seq<OprView> {
    Seq::new(oprs.len(), |i: int| oprs[i]@)
}

/// The views of a grid of operations.
pub open spec fn opr_grid_view(rows: Seq<Vec<Opr>>) -> Seq<Seq<OprView>> {
    Seq::new(rows.len(), |i: int| oprs_view(rows[i]@))
}

/// The number of cells in the first `n` rows of a grid.
pub open spec fn cells_upto<T>(grid: Seq<Seq<T>>, n: nat) -> nat
    decreases n,
{
    if n == 0 {
        0
    } else {
        cells_upto(grid, (n - 1) as nat) + grid[n - 1].len()
    }
}

/// The number of cells of a grid.
pub open spec fn cells<T>(grid: Seq<Seq<T>>) -> nat {
    cells_upto(grid, grid.len())
}

/// What a scalarisation pass has built so far: the state of the naming
/// service, the scalar inputs and nodes of the new program, and for each
/// vector and matrix of the old program the scalars that stand for its
/// elements.
pub struct LoweringView {
    pub namer: NamerState,
    pub inputs: Seq<(IdentView, ProgramInputView)>,
    pub body: Seq<ExprView>,
    pub vectors: Seq<(IdentView, Seq<IdentView>)>,
    pub matrices: Seq<(IdentView, Seq<Seq<IdentView>>)>,
}

impl LoweringView {
    /// The pass before its first step.
    pub open spec fn start(namer: NamerState) -> LoweringView {
        LoweringView {
            namer,
            inputs: Seq::empty(),
            body: Seq::empty(),
            vectors: Seq::empty(),
            matrices: Seq::empty(),
        }
    }

    /// The scalar identifier that the next request for `name` yields.
    pub open spec fn fresh(self, name: Seq<char>) -> IdentView {
        self.namer.fresh_identifier(name, IdSize::Scalar)
    }

    /// Appends a node that binds `id` to `opr`.
    pub open spec fn push(self, id: IdentView, opr: OprView) -> LoweringView {
        LoweringView { body: self.body.push(ExprView { id, opr }), ..self }
    }

    /// Binds `opr` to a new scalar made from `name`.
    pub open spec fn bind(self, name: Seq<char>, opr: OprView) -> LoweringView {
        LoweringView {
            namer: self.namer.after_identifier(name),
            body: self.body.push(ExprView { id: self.fresh(name), opr }),
            ..self
        }
    }

    /// Binds the first `n` of `oprs`, each to a new scalar named after `base`
    /// and its index.
    pub open spec fn bind_row_upto(self, base: Seq<char>, oprs: Seq<OprView>, n: nat) -> LoweringView
        decreases n,
    {
        if n == 0 {
            self
        } else {
            self.bind_row_upto(base, oprs, (n - 1) as nat).bind(
                element_name(base, n - 1),
                oprs[n - 1],
            )
        }
    }

    /// The scalars that `bind_row_upto` creates, in order.
    pub open spec fn row_ids_upto(self, base: Seq<char>, oprs: Seq<OprView>, n: nat) -> Seq<
        IdentView,
    >
        decreases n,
    {
        if n == 0 {
            Seq::empty()
        } else {
            self.row_ids_upto(base, oprs, (n - 1) as nat).push(
                self.bind_row_upto(base, oprs, (n - 1) as nat).fresh(element_name(base, n - 1)),
            )
        }
    }

    /// Binds every one of `oprs` to a new scalar.
    pub open spec fn bind_row(self, base: Seq<char>, oprs: Seq<OprView>) -> LoweringView {
        self.bind_row_upto(base, oprs, oprs.len())
    }

    /// The scalars that `bind_row` creates.
    pub open spec fn row_ids(self, base: Seq<char>, oprs: Seq<OprView>) -> Seq<IdentView> {
        self.row_ids_upto(base, oprs, oprs.len())
    }

    /// Binds the first `n` rows of `grid`, row by row.
    pub open spec fn bind_grid_upto(self, base: Seq<char>, grid: Seq<Seq<OprView>>, n: nat) -> LoweringView
        decreases n,
    {
        if n == 0 {
            self
        } else {
            self.bind_grid_upto(base, grid, (n - 1) as nat).bind_row(
                element_name(base, n - 1),
                grid[n - 1],
            )
        }
    }

    /// The scalars that `bind_grid_upto` creates, row by row.
    pub open spec fn grid_ids_upto(self, base: Seq<char>, grid: Seq<Seq<OprView>>, n: nat) -> Seq<
        Seq<IdentView>,
    >
        decreases n,
    {
        if n == 0 {
            Seq::empty()
        } else {
            self.grid_ids_upto(base, grid, (n - 1) as nat).push(
                self.bind_grid_upto(base, grid, (n - 1) as nat).row_ids(
                    element_name(base, n - 1),
                    grid[n - 1],
                ),
            )
        }
    }

    /// Binds every cell of `grid` to a new scalar, in row-major order.
    pub open spec fn bind_grid(self, base: Seq<char>, grid: Seq<Seq<OprView>>) -> LoweringView {
        self.bind_grid_upto(base, grid, grid.len())
    }

    /// The scalars that `bind_grid` creates.
    pub open spec fn grid_ids(self, base: Seq<char>, grid: Seq<Seq<OprView>>) -> Seq<
        Seq<IdentView>,
    > {
        self.grid_ids_upto(base, grid, grid.len())
    }

    /// Declares a new scalar input made from `name` with the range `info`.
    pub open spec fn declare(self, name: Seq<char>, info: InputView) -> LoweringView {
        LoweringView {
            namer: self.namer.after_identifier(name),
            inputs: upsert(self.inputs, self.fresh(name), ProgramInputView::Scalar(info)),
            ..self
        }
    }

    /// Declares the first `n` of `infos`, each as a new scalar input named
    /// after `base` and its index.
    pub open spec fn declare_row_upto(self, base: Seq<char>, infos: Seq<InputView>, n: nat) -> LoweringView
        decreases n,
    {
        if n == 0 {
            self
        } else {
            self.declare_row_upto(base, infos, (n - 1) as nat).declare(
                element_name(base, n - 1),
                infos[n - 1],
            )
        }
    }

    /// The scalars that `declare_row_upto` creates, in order.
    pub open spec fn declared_ids_upto(self, base: Seq<char>, infos: Seq<InputView>, n: nat) -> Seq<
        IdentView,
    >
        decreases n,
    {
        if n == 0 {
            Seq::empty()
        } else {
            self.declared_ids_upto(base, infos, (n - 1) as nat).push(
                self.declare_row_upto(base, infos, (n - 1) as nat).fresh(
                    element_name(base, n - 1),
                ),
            )
        }
    }

    /// Declares every one of `infos` as a new scalar input.
    pub open spec fn declare_row(self, base: Seq<char>, infos: Seq<InputView>) -> LoweringView {
        self.declare_row_upto(base, infos, infos.len())
    }

    /// The scalars that `declare_row` creates.
    pub open spec fn declared_ids(self, base: Seq<char>, infos: Seq<InputView>) -> Seq<IdentView> {
        self.declared_ids_upto(base, infos, infos.len())
    }

    /// Declares the first `n` rows of `grid`, row by row.
    pub open spec fn declare_grid_upto(self, base: Seq<char>, grid: Seq<Seq<InputView>>, n: nat) -> LoweringView
        decreases n,
    {
        if n == 0 {
            self
        } else {
            self.declare_grid_upto(base, grid, (n - 1) as nat).declare_row(
                element_name(base, n - 1),
                grid[n - 1],
            )
        }
    }

    /// The scalars that `declare_grid_upto` creates, row by row.
    pub open spec fn declared_grid_ids_upto(
        self,
        base: Seq<char>,
        grid: Seq<Seq<InputView>>,
        n: nat,
    ) -> Seq<Seq<IdentView>>
        decreases n,
    {
        if n == 0 {
            Seq::empty()
        } else {
            self.declared_grid_ids_upto(base, grid, (n - 1) as nat).push(
                self.declare_grid_upto(base, grid, (n - 1) as nat).declared_ids(
                    element_name(base, n - 1),
                    grid[n - 1],
                ),
            )
        }
    }

    /// Declares every cell of `grid` as a new scalar input, in row-major
    /// order.
    pub open spec fn declare_grid(self, base: Seq<char>, grid: Seq<Seq<InputView>>) -> LoweringView {
        self.declare_grid_upto(base, grid, grid.len())
    }

    /// The scalars that `declare_grid` creates.
    pub open spec fn declared_grid_ids(self, base: Seq<char>, grid: Seq<Seq<InputView>>) -> Seq<
        Seq<IdentView>,
    > {
        self.declared_grid_ids_upto(base, grid, grid.len())
    }

    /// Records `ids` as the elements of the vector `key`.
    pub open spec fn record_vector(self, key: IdentView, ids: Seq<IdentView>) -> LoweringView {
        LoweringView { vectors: upsert(self.vectors, key, ids), ..self }
    }

    /// Records `ids` as the cells of the matrix `key`.
    pub open spec fn record_matrix(self, key: IdentView, ids: Seq<Seq<IdentView>>) -> LoweringView {
        LoweringView { matrices: upsert(self.matrices, key, ids), ..self }
    }
}

/// The new program under construction and the elements recorded for the
/// vectors and matrices of the old one.
pub struct Lowering {
    pub inputs: IdMap<ProgramInput>,
    pub body: Vec<Expr>,
    pub vectors: IdMap<Vec<Identifier>>,
    pub matrices: IdMap<Vec<Vec<Identifier>>>,
}

/// The recorded vectors as contracts see them.
pub open spec fn vectors_view(map: &IdMap<Vec<Identifier>>) -> Seq<(IdentView, Seq<IdentView>)> {
    map.entries_with(|v: Vec<Identifier>| idents_view(v@))
}

/// The recorded matrices as contracts see them.
pub open spec fn matrices_view(map: &IdMap<Vec<Vec<Identifier>>>) -> Seq<
    (IdentView, Seq<Seq<IdentView>>),
> {
    map.entries_with(|v: Vec<Vec<Identifier>>| grid_view(v@))
}

impl Lowering {
    /// All four maps are well formed.
    pub open spec fn wf(&self) -> bool {
        self.inputs.wf() && self.vectors.wf() && self.matrices.wf()
    }

    /// The pass as contracts see it, beside the naming service in state
    /// `namer`.
    pub open spec fn view_with(&self, namer: NamerState) -> LoweringView {
        LoweringView {
            namer,
            inputs: inputs_view(&self.inputs),
            body: body_view(self.body@),
            vectors: vectors_view(&self.vectors),
            matrices: matrices_view(&self.matrices),
        }
    }

    /// A pass that has built nothing.
    pub fn new(namer: &Namer) -> (r: Lowering)
        ensures
            r.wf(),
            r.view_with(namer@) == LoweringView::start(namer@),
    {
        let r = Lowering {
            inputs: IdMap::new(),
            body: Vec::new(),
            vectors: IdMap::new(),
            matrices: IdMap::new(),
        };
        assert(r.view_with(namer@).inputs =~= Seq::empty());
        assert(r.view_with(namer@).body =~= Seq::empty());
        assert(r.view_with(namer@).vectors =~= Seq::empty());
        assert(r.view_with(namer@).matrices =~= Seq::empty());
        r
    }

    /// Appends a node that binds `id` to `opr`.
    pub fn push(&mut self, namer: &Namer, id: Identifier, opr: Opr)
        requires
            old(self).wf(),
        ensures
            final(self).wf(),
            final(self).view_with(namer@) == old(self).view_with(namer@).push(id@, opr@),
    {
        self.body.push(Expr::Let { id, opr });
        assert(body_view(self.body@) =~= body_view(old(self).body@).push(
            ExprView { id: id@, opr: opr@ },
        ));
    }

    /// Binds `opr` to a new scalar made from `name`.
    pub fn bind(&mut self, namer: &mut Namer, name: &str, opr: Opr) -> (r: Identifier)
        requires
            old(self).wf(),
            old(namer)@.room() >= 1,
        ensures
            final(self).wf(),
            r@ == old(self).view_with(old(namer)@).fresh(name@),
            final(self).view_with(final(namer)@) == old(self).view_with(old(namer)@).bind(
                name@,
                opr@,
            ),
            final(namer)@.room() >= old(namer)@.room() - 1,
    {
        let new_id = Identifier::new_scalar(namer, name);
        self.body.push(Expr::Let { id: new_id.clone(), opr });
        assert(body_view(self.body@) =~= body_view(old(self).body@).push(
            ExprView { id: new_id@, opr: opr@ },
        ));
        new_id
    }

    /// Binds each of `oprs` to a new scalar named after `base` and its index.
    pub fn bind_row(&mut self, namer: &mut Namer, base: &str, oprs: &Vec<Opr>) -> (r: Vec<
        Identifier,
    >)
        requires
            old(self).wf(),
            old(namer)@.room() >= oprs@.len(),
        ensures
            final(self).wf(),
            idents_view(r@) == old(self).view_with(old(namer)@).row_ids(base@, oprs_view(oprs@)),
            final(self).view_with(final(namer)@) == old(self).view_with(old(namer)@).bind_row(
                base@,
                oprs_view(oprs@),
            ),
            final(namer)@.room() >= old(namer)@.room() - oprs@.len(),
            r@.len() == oprs@.len(),
    {
        let ghost start = self.view_with(namer@);
        let ghost views = oprs_view(oprs@);
        let mut ids: Vec<Identifier> = Vec::new();
        let mut i: usize = 0;
        while i < oprs.len()
            invariant
                i <= oprs.len(),
                self.wf(),
                views == oprs_view(oprs@),
                ids@.len() == i,
                idents_view(ids@) == start.row_ids_upto(base@, views, i as nat),
                self.view_with(namer@) == start.bind_row_upto(base@, views, i as nat),
                namer@.room() >= old(namer)@.room() - i,
                old(namer)@.room() >= oprs@.len(),
            decreases oprs.len() - i,
        {
            let index = usize_to_text(i);
            let name = concat3(base, "_", index.as_str());
            proof {
                reveal_strlit("_");
                assert("_"@ =~= seq!['_']);
                assert(name@ =~= element_name(base@, i as int));
            }
            let id = self.bind(namer, name.as_str(), oprs[i].clone());
            ids.push(id);
            assert(idents_view(ids@) =~= start.row_ids_upto(base@, views, (i + 1) as nat));
            i += 1;
        }
        ids
    }

    /// Binds each cell of `grid` to a new scalar named after `base`, its row
    /// and its column, in row-major order.
    pub fn bind_grid(&mut self, namer: &mut Namer, base: &str, grid: &Vec<Vec<Opr>>) -> (r: Vec<
        Vec<Identifier>,
    >)
        requires
            old(self).wf(),
            old(namer)@.room() >= cells(opr_grid_view(grid@)),
        ensures
            final(self).wf(),
            grid_view(r@) == old(self).view_with(old(namer)@).grid_ids(
                base@,
                opr_grid_view(grid@),
            ),
            final(self).view_with(final(namer)@) == old(self).view_with(old(namer)@).bind_grid(
                base@,
                opr_grid_view(grid@),
            ),
            final(namer)@.room() >= old(namer)@.room() - cells(opr_grid_view(grid@)),
            r@.len() == grid@.len(),
    {
        let ghost start = self.view_with(namer@);
        let ghost views = opr_grid_view(grid@);
        let mut rows: Vec<Vec<Identifier>> = Vec::new();
        let mut i: usize = 0;
        while i < grid.len()
            invariant
                i <= grid.len(),
                self.wf(),
                views == opr_grid_view(grid@),
                rows@.len() == i,
                grid_view(rows@) == start.grid_ids_upto(base@, views, i as nat),
                self.view_with(namer@) == start.bind_grid_upto(base@, views, i as nat),
                namer@.room() >= old(namer)@.room() - cells_upto(views, i as nat),
                old(namer)@.room() >= cells(views),
            decreases grid.len() - i,
        {
            let index = usize_to_text(i);
            let name = concat3(base, "_", index.as_str());
            proof {
                reveal_strlit("_");
                assert("_"@ =~= seq!['_']);
                assert(name@ =~= element_name(base@, i as int));
                lemma_cells_monotone(views, (i + 1) as nat, views.len());
            }
            let row = self.bind_row(namer, name.as_str(), &grid[i]);
            rows.push(row);
            assert(grid_view(rows@) =~= start.grid_ids_upto(base@, views, (i + 1) as nat));
            i += 1;
        }
        rows
    }

    /// Declares a new scalar input made from `name` with the range `info`.
    pub fn declare(&mut self, namer: &mut Namer, name: &str, info: Input) -> (r: Identifier)
        requires
            old(self).wf(),
            old(namer)@.room() >= 1,
        ensures
            final(self).wf(),
            r@ == old(self).view_with(old(namer)@).fresh(name@),
            final(self).view_with(final(namer)@) == old(self).view_with(old(namer)@).declare(
                name@,
                info@,
            ),
            final(namer)@.room() >= old(namer)@.room() - 1,
    {
        let new_id = Identifier::new_scalar(namer, name);
        let ghost before = self.inputs;
        let input = ProgramInput::Scalar { info };
        self.inputs.insert(new_id.clone(), input);
        proof {
            lemma_insert_entries(&before, &self.inputs, new_id, input, |v: ProgramInput| v@);
        }
        new_id
    }

    /// Declares each of `infos` as a new scalar input named after `base` and
    /// its index.
    pub fn declare_row(&mut self, namer: &mut Namer, base: &str, infos: &Vec<Input>) -> (r: Vec<
        Identifier,
    >)
        requires
            old(self).wf(),
            old(namer)@.room() >= infos@.len(),
        ensures
            final(self).wf(),
            idents_view(r@) == old(self).view_with(old(namer)@).declared_ids(
                base@,
                crate::program::inputs_row_view(infos@),
            ),
            final(self).view_with(final(namer)@) == old(self).view_with(
                old(namer)@,
            ).declare_row(base@, crate::program::inputs_row_view(infos@)),
            final(namer)@.room() >= old(namer)@.room() - infos@.len(),
            r@.len() == infos@.len(),
    {
        let ghost start = self.view_with(namer@);
        let ghost views = crate::program::inputs_row_view(infos@);
        let mut ids: Vec<Identifier> = Vec::new();
        let mut i: usize = 0;
        while i < infos.len()
            invariant
                i <= infos.len(),
                self.wf(),
                views == crate::program::inputs_row_view(infos@),
                ids@.len() == i,
                idents_view(ids@) == start.declared_ids_upto(base@, views, i as nat),
                self.view_with(namer@) == start.declare_row_upto(base@, views, i as nat),
                namer@.room() >= old(namer)@.room() - i,
                old(namer)@.room() >= infos@.len(),
            decreases infos.len() - i,
        {
            let index = usize_to_text(i);
            let name = concat3(base, "_", index.as_str());
            proof {
                reveal_strlit("_");
                assert("_"@ =~= seq!['_']);
                assert(name@ =~= element_name(base@, i as int));
            }
            let id = self.declare(namer, name.as_str(), infos[i].clone());
            ids.push(id);
            assert(idents_view(ids@) =~= start.declared_ids_upto(base@, views, (i + 1) as nat));
            i += 1;
        }
        ids
    }

    /// Declares each cell of `grid` as a new scalar input named after `base`,
    /// its row and its column, in row-major order.
    pub fn declare_grid(&mut self, namer: &mut Namer, base: &str, grid: &Vec<Vec<Input>>) -> (r:
        Vec<Vec<Identifier>>)
        requires
            old(self).wf(),
            old(namer)@.room() >= cells(crate::program::inputs_grid_view(grid@)),
        ensures
            final(self).wf(),
            grid_view(r@) == old(self).view_with(old(namer)@).declared_grid_ids(
                base@,
                crate::program::inputs_grid_view(grid@),
            ),
            final(self).view_with(final(namer)@) == old(self).view_with(
                old(namer)@,
            ).declare_grid(base@, crate::program::inputs_grid_view(grid@)),
            final(namer)@.room() >= old(namer)@.room() - cells(
                crate::program::inputs_grid_view(grid@),
            ),
            r@.len() == grid@.len(),
    {
        let ghost start = self.view_with(namer@);
        let ghost views = crate::program::inputs_grid_view(grid@);
        let mut rows: Vec<Vec<Identifier>> = Vec::new();
        let mut i: usize = 0;
        while i < grid.len()
            invariant
                i <= grid.len(),
                self.wf(),
                views == crate::program::inputs_grid_view(grid@),
                rows@.len() == i,
                grid_view(rows@) == start.declared_grid_ids_upto(base@, views, i as nat),
                self.view_with(namer@) == start.declare_grid_upto(base@, views, i as nat),
                namer@.room() >= old(namer)@.room() - cells_upto(views, i as nat),
                old(namer)@.room() >= cells(views),
            decreases grid.len() - i,
        {
            let index = usize_to_text(i);
            let name = concat3(base, "_", index.as_str());
            proof {
                reveal_strlit("_");
                assert("_"@ =~= seq!['_']);
                assert(name@ =~= element_name(base@, i as int));
                lemma_cells_monotone(views, (i + 1) as nat, views.len());
            }
            let row = self.declare_row(namer, name.as_str(), &grid[i]);
            rows.push(row);
            assert(grid_view(rows@) =~= start.declared_grid_ids_upto(
                base@,
                views,
                (i + 1) as nat,
            ));
            i += 1;
        }
        rows
    }

    /// Records `ids` as the elements of the vector `key`.
    pub fn record_vector(&mut self, namer: &Namer, key: Identifier, ids: Vec<Identifier>)
        requires
            old(self).wf(),
        ensures
            final(self).wf(),
            final(self).view_with(namer@) == old(self).view_with(namer@).record_vector(
                key@,
                idents_view(ids@),
            ),
    {
        let ghost before = self.vectors;
        self.vectors.insert(key, ids);
        proof {
            lemma_insert_entries(
                &before,
                &self.vectors,
                key,
                ids,
                |v: Vec<Identifier>| idents_view(v@),
            );
        }
    }

    /// Records `ids` as the cells of the matrix `key`.
    pub fn record_matrix(&mut self, namer: &Namer, key: Identifier, ids: Vec<Vec<Identifier>>)
        requires
            old(self).wf(),
        ensures
            final(self).wf(),
            final(self).view_with(namer@) == old(self).view_with(namer@).record_matrix(
                key@,
                grid_view(ids@),
            ),
    {
        let ghost before = self.matrices;
        self.matrices.insert(key, ids);
        proof {
            lemma_insert_entries(
                &before,
                &self.matrices,
                key,
                ids,
                |v: Vec<Vec<Identifier>>| grid_view(v@),
            );
        }
    }
}

/// The cells of the first rows of a grid are not more than those of more
/// rows.
pub proof fn lemma_cells_monotone<T>(grid: Seq<Seq<T>>, a: nat, b: nat)
    requires
        a <= b,
    ensures
        cells_upto(grid, a) <= cells_upto(grid, b),
    decreases b - a,
{
    if a < b {
        lemma_cells_monotone(grid, a, (b - 1) as nat);
    }
}

} // verus!
