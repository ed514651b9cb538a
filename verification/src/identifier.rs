//! Identifiers: the unique number, name and shape of one value of a program.

use vstd::prelude::*;
use vstd::string::*;
use crate::naming::{add_name, gen_unique_id, lemma_first_free_goes_on, Namer, NamerState};

verus! {

/// The kind of value an identifier names.
#[derive(Debug, Clone, Copy, PartialEq, Eq, Hash, Structural)]
pub enum VarType {
    Scalar,
    Vector,
    Matrix,
}

/// The shape of the value an identifier names.
#[derive(Debug, Clone, Copy, PartialEq, Eq, Structural)]
pub enum IdSize {
    Scalar,
    Vector { len: usize },
    Matrix { row_size: usize, col_size: usize },
}

impl IdSize {
    /// The kind of value that has this shape.
    pub open spec fn spec_var_type(self) -> VarType {
        match self {
            IdSize::Scalar => VarType::Scalar,
            IdSize::Vector { .. } => VarType::Vector,
            IdSize::Matrix { .. } => VarType::Matrix,
        }
    }

    /// The kind of value that has this shape.
    #[verifier::when_used_as_spec(spec_var_type)]
    pub fn var_type(self) -> (r: VarType)
        ensures
            r == self.spec_var_type(),
    {
        match self {
            IdSize::Scalar => VarType::Scalar,
            IdSize::Vector { .. } => VarType::Vector,
            IdSize::Matrix { .. } => VarType::Matrix,
        }
    }
}

/// The name of one value of a program. Two identifiers name the same value
/// exactly when their numbers are equal; the name is what the analyser and the
/// generated code show.
#[derive(Debug)]
pub struct Identifier {
    pub id: usize,
    pub name: String,
    pub var_type: VarType,
    pub size: IdSize,
}

/// An identifier as contracts see it.
pub struct IdentView {
    pub id: usize,
    pub name: Seq<char>,
    pub var_type: VarType,
    pub size: IdSize,
}

impl View for Identifier {
    type V = IdentView;

    open spec fn view(&self) -> IdentView {
        IdentView { id: self.id, name: self.name@, var_type: self.var_type, size: self.size }
    }
}

impl Clone for Identifier {
    fn clone(&self) -> (r: Self)
        ensures
            r == *self,
    {
        Identifier {
            id: self.id,
            name: self.name.clone(),
            var_type: self.var_type,
            size: self.size,
        }
    }
}

impl PartialEq for Identifier {
    fn eq(&self, other: &Self) -> (r: bool) {
        self.id == other.id
    }
}

impl vstd::std_specs::cmp::PartialEqSpecImpl for Identifier {
    open spec fn obeys_eq_spec() -> bool {
        true
    }

    open spec fn eq_spec(&self, other: &Self) -> bool {
        self.id == other.id
    }
}

impl Eq for Identifier {

}

impl NamerState {
    /// The identifier that the next request for `requested` with shape `size`
    /// yields.
    pub open spec fn fresh_identifier(self, requested: Seq<char>, size: IdSize) -> IdentView {
        IdentView {
            id: (self.ids + 1) as usize,
            name: self.unique_name(requested),
            var_type: size.spec_var_type(),
            size,
        }
    }

    /// The state after an identifier was created for `requested`.
    pub open spec fn after_identifier(self, requested: Seq<char>) -> NamerState {
        self.after_id().after_name(requested)
    }
}

/// Creating an identifier uses up at most one unit of room.
pub proof fn lemma_room_after_identifier(state: NamerState, requested: Seq<char>)
    requires
        state.counter >= 0,
        state.room() >= 1,
    ensures
        state.after_identifier(requested).room() >= state.room() - 1,
        state.after_identifier(requested).counter >= 0,
        state.ids < usize::MAX,
{
    lemma_first_free_goes_on(
        state.names,
        state.base_name(requested),
        state.base_counter(requested) + 1,
        state.names.len(),
    );
}

impl Identifier {
    /// A new identifier of the given shape, with the next number and a name
    /// made from `name`.
    fn create(namer: &mut Namer, name: &str, size: IdSize) -> (r: Identifier)
        requires
            old(namer)@.room() >= 1,
        ensures
            r@ == old(namer)@.fresh_identifier(name@, size),
            final(namer)@ == old(namer)@.after_identifier(name@),
            final(namer)@.room() >= old(namer)@.room() - 1,
    {
        let _ = namer.has_room(1);
        proof {
            lemma_room_after_identifier(old(namer)@, name@);
        }
        let id = gen_unique_id(namer);
        let unique = add_name(namer, name);
        Identifier { id, name: unique, var_type: size.var_type(), size }
    }

    /// A new identifier for a scalar.
    pub fn new_scalar(namer: &mut Namer, name: &str) -> (r: Identifier)
        requires
            old(namer)@.room() >= 1,
        ensures
            r@ == old(namer)@.fresh_identifier(name@, IdSize::Scalar),
            final(namer)@ == old(namer)@.after_identifier(name@),
            final(namer)@.room() >= old(namer)@.room() - 1,
    {
        Identifier::create(namer, name, IdSize::Scalar)
    }

    /// A new identifier for a vector of `size` elements.
    pub fn new_vector(namer: &mut Namer, name: &str, size: usize) -> (r: Identifier)
        requires
            old(namer)@.room() >= 1,
        ensures
            r@ == old(namer)@.fresh_identifier(name@, IdSize::Vector { len: size }),
            final(namer)@ == old(namer)@.after_identifier(name@),
            final(namer)@.room() >= old(namer)@.room() - 1,
    {
        Identifier::create(namer, name, IdSize::Vector { len: size })
    }

    /// A new identifier for a matrix of `row_size` rows and `col_size`
    /// columns.
    pub fn new_matrix(namer: &mut Namer, name: &str, row_size: usize, col_size: usize) -> (r:
        Identifier)
        requires
            old(namer)@.room() >= 1,
        ensures
            r@ == old(namer)@.fresh_identifier(name@, IdSize::Matrix { row_size, col_size }),
            final(namer)@ == old(namer)@.after_identifier(name@),
            final(namer)@.room() >= old(namer)@.room() - 1,
    {
        Identifier::create(namer, name, IdSize::Matrix { row_size, col_size })
    }

    /// The identifier's name.
    pub fn name(&self) -> (r: &String)
        ensures
            r@ == self@.name,
    {
        &self.name
    }
}

/// The views of a list of identifiers.
pub open spec fn idents_view(ids: Seq<Identifier>) -> Seq<IdentView> {
    Seq::new(ids.len(), |i: int| ids[i]@)
}

/// The views of a grid of identifiers.
pub open spec fn grid_view(rows: Seq<Vec<Identifier>>) -> Seq<Seq<IdentView>> {
    Seq::new(rows.len(), |i: int| idents_view(rows[i]@))
}

/// Copies a list of identifiers.
pub fn clone_idents(ids: &Vec<Identifier>) -> (r: Vec<Identifier>)
    ensures
        r@ == ids@,
{
    let mut out: Vec<Identifier> = Vec::new();
    let mut i: usize = 0;
    while i < ids.len()
        invariant
            i <= ids.len(),
            out@ == ids@.subrange(0, i as int),
        decreases ids.len() - i,
    {
        out.push(ids[i].clone());
        assert(out@ =~= ids@.subrange(0, i + 1));
        i += 1;
    }
    assert(out@ =~= ids@);
    out
}

} // verus!
