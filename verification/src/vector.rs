//! Symbolic vectors.

use vstd::prelude::*;
use vstd::string::*;
use crate::expr::{clone_reals, reals_view, OprBinary, OprUnary, OprView, UnaryView};
use crate::identifier::{idents_view, IdSize, IdentView, Identifier};
use crate::idmap::upsert;
use crate::naming::Namer;
use crate::program::{inputs_row_view, outputs_row_view, pending_output, Input, InputView, Output, OutputView, Program, ProgramInput, ProgramInputView, ProgramOutput, ProgramOutputView, ProgramView};
use crate::rational::Real;
use crate::scalar::{appended, Scalar};
use crate::session::{create_binary_scalar_expr, create_binary_vector_expr, create_construct_vector_expr, create_index_vector_expr, create_unary_vector_expr, create_vector_constant, Session, SessionView};
use crate::text::{concat, concat3, nat_text, usize_to_text};
use crate::values::{combine_rows, combine_spread, defined_on_all, dot_value, negate_values, negated, spread_right, zip_values, Request};

verus! {

/// A vector of the program under construction: its identifier, and the
/// values that its elements take when every input has its default value.
#[derive(Debug)]
pub struct Vector {
    pub id: Identifier,
    pub value: Vec<Real>,
}

impl Clone for Vector {
    fn clone(&self) -> (r: Self)
        ensures
            r.id == self.id,
            r.value@ == self.value@,
    {
        Vector { id: self.id.clone(), value: clone_reals(&self.value) }
    }
}

/// The shape of a vector of `n` elements.
pub open spec fn vector_size(n: nat) -> IdSize {
    IdSize::Vector { len: n as usize }
}

/// The node that extracts element `i` of the vector `v`: named after the
/// vector and the index.
pub open spec fn element_request(v: IdentView, i: int) -> Request {
    Request {
        name: v.name + "_index_"@ + nat_text(i as nat),
        size: IdSize::Scalar,
        opr: OprView::Unary(v, UnaryView::Index(seq![i as usize])),
    }
}

/// One extraction for each of the first `n` elements of `v`.
pub open spec fn element_requests(v: IdentView, n: nat) -> Seq<Request> {
    Seq::new(n, |i: int| element_request(v, i))
}

/// The nodes that rebuild `v` with a constant in place of element `index`:
/// a constant named after the vector and the index there, an extraction
/// everywhere else.
pub open spec fn replace_requests(v: IdentView, n: nat, index: int, value: real) -> Seq<Request> {
    Seq::new(
        n,
        |i: int|
            if i == index {
                Request {
                    name: v.name + "_set_val_"@ + nat_text(i as nat),
                    size: IdSize::Scalar,
                    opr: OprView::ConstantScalar(value),
                }
            } else {
                element_request(v, i)
            },
    )
}

/// The nodes that extend `v` by a constant: an extraction for each element
/// and the constant, named after the vector, last.
pub open spec fn extend_requests(v: IdentView, n: nat, value: real) -> Seq<Request> {
    element_requests(v, n).push(
        Request {
            name: v.name + "_push_val"@,
            size: IdSize::Scalar,
            opr: OprView::ConstantScalar(value),
        },
    )
}

/// The identifiers of a list of scalars.
pub open spec fn scalar_ids(scalars: Seq<&Scalar>) -> Seq<IdentView> {
    Seq::new(scalars.len(), |i: int| scalars[i].id@)
}

/// The values of a list of scalars.
pub open spec fn scalar_values(scalars: Seq<&Scalar>) -> Seq<real> {
    Seq::new(scalars.len(), |i: int| scalars[i].value@)
}

/// The cross product of two vectors of three elements.
pub open spec fn cross_value(a: Seq<real>, b: Seq<real>) -> Seq<real> {
    seq![a[1] * b[2] - a[2] * b[1], a[2] * b[0] - a[0] * b[2], a[0] * b[1] - a[1] * b[0]]
}

impl Vector {
    /// A constant vector.
    pub fn new_rational(session: &mut Session, name: &str, values: Vec<Real>) -> (r: Vector)
        requires
            old(session).wf(),
            old(session)@.namer.room() >= 1,
        ensures
            final(session).wf(),
            final(session)@.namer.room() >= old(session)@.namer.room() - 1,
            r.value@ == values@,
            appended(
                old(session)@,
                final(session)@,
                r.id@,
                name@,
                vector_size(values@.len()),
                OprView::ConstantVector(reals_view(values@)),
            ),
    {
        let new_id = create_vector_constant(session, name, clone_reals(&values));
        Vector { id: new_id, value: values }
    }

    /// The same vector under the name `new_name`, bound by a node that no
    /// pass folds away. The vector's identifier must say that it is one.
    pub fn define(&self, session: &mut Session, new_name: String) -> (r: Vector)
        requires
            old(session).wf(),
            old(session)@.namer.room() >= 1,
            self.id.size is Vector,
        ensures
            final(session).wf(),
            final(session)@.namer.room() >= old(session)@.namer.room() - 1,
            r.value@ == self.value@,
            appended(
                old(session)@,
                final(session)@,
                r.id@,
                new_name@,
                self.id.size,
                OprView::Unary(self.id@, UnaryView::AssignNoOpt),
            ),
    {
        let new_id = create_unary_vector_expr(
            session,
            new_name.as_str(),
            self.id.clone(),
            OprUnary::AssignNoOpt,
        );
        Vector { id: new_id, value: clone_reals(&self.value) }
    }

    /// The vector whose elements are the given scalars.
    pub fn from_scalars(session: &mut Session, name: &str, scalars: Vec<&Scalar>) -> (r: Vector)
        requires
            old(session).wf(),
            old(session)@.namer.room() >= 1,
        ensures
            final(session).wf(),
            final(session)@.namer.room() >= old(session)@.namer.room() - 1,
            reals_view(r.value@) == scalar_values(scalars@),
            appended(
                old(session)@,
                final(session)@,
                r.id@,
                name@,
                vector_size(scalars@.len()),
                OprView::ConstructVector(scalar_ids(scalars@)),
            ),
    {
        let mut ids: Vec<Identifier> = Vec::new();
        let mut values: Vec<Real> = Vec::new();
        let mut i: usize = 0;
        while i < scalars.len()
            invariant
                i <= scalars.len(),
                ids@.len() == i,
                values@.len() == i,
                forall|k: int| 0 <= k < i ==> (#[trigger] ids@[k])@ == scalars@[k].id@,
                forall|k: int| 0 <= k < i ==> (#[trigger] values@[k])@ == scalars@[k].value@,
            decreases scalars.len() - i,
        {
            ids.push(scalars[i].id.clone());
            values.push(scalars[i].value.clone());
            i += 1;
        }
        assert(idents_view(ids@) =~= scalar_ids(scalars@));
        assert(reals_view(values@) =~= scalar_values(scalars@));
        let new_id = create_construct_vector_expr(session, name, ids);
        Vector { id: new_id, value: values }
    }

    /// A constant vector with the values of `vector`.
    pub fn from_vector(session: &mut Session, name: &str, vector: &Vector) -> (r: Vector)
        requires
            old(session).wf(),
            old(session)@.namer.room() >= 1,
        ensures
            final(session).wf(),
            final(session)@.namer.room() >= old(session)@.namer.room() - 1,
            r.value@ == vector.value@,
            appended(
                old(session)@,
                final(session)@,
                r.id@,
                name@,
                vector_size(vector.value@.len()),
                OprView::ConstantVector(reals_view(vector.value@)),
            ),
    {
        Vector::new_rational(session, name, clone_reals(&vector.value))
    }

    /// The number of elements.
    pub fn size(&self) -> (r: usize)
        ensures
            r == self.value@.len(),
    {
        self.value.len()
    }

    /// Element `index` as a scalar.
    pub fn get(&self, session: &mut Session, index: usize) -> (r: Scalar)
        requires
            old(session).wf(),
            old(session)@.namer.room() >= 1,
            index < self.value@.len(),
        ensures
            final(session).wf(),
            final(session)@.namer.room() >= old(session)@.namer.room() - 1,
            r.value == self.value@[index as int],
            appended(
                old(session)@,
                final(session)@,
                r.id@,
                element_request(self.id@, index as int).name,
                IdSize::Scalar,
                element_request(self.id@, index as int).opr,
            ),
    {
        let number = usize_to_text(index);
        let name = concat3(self.id.name.as_str(), "_index_", number.as_str());
        let new_id = create_index_vector_expr(session, name.as_str(), self.id.clone(), index);
        Scalar { id: new_id, value: self.value[index].clone() }
    }

    /// Element `index` as a scalar.
    pub fn at(&self, session: &mut Session, index: usize) -> (r: Scalar)
        requires
            old(session).wf(),
            old(session)@.namer.room() >= 1,
            index < self.value@.len(),
        ensures
            final(session).wf(),
            final(session)@.namer.room() >= old(session)@.namer.room() - 1,
            r.value == self.value@[index as int],
            appended(
                old(session)@,
                final(session)@,
                r.id@,
                element_request(self.id@, index as int).name,
                IdSize::Scalar,
                element_request(self.id@, index as int).opr,
            ),
    {
        self.get(session, index)
    }

    /// The vector's name.
    pub fn get_name(&self) -> (r: &str)
        ensures
            r@ == self.id@.name,
    {
        self.id.name.as_str()
    }

    /// Extracts the first `n` elements, one node each.
    pub fn extract(&self, session: &mut Session, n: usize) -> (r: Vec<Scalar>)
        requires
            old(session).wf(),
            n <= self.value@.len(),
            old(session)@.namer.room() >= n,
        ensures
            final(session).wf(),
            final(session)@.namer.room() >= old(session)@.namer.room() - n,
            r@.len() == n,
            final(session)@ == old(session)@.bind_all(
                element_requests(self.id@, n as nat),
                n as nat,
            ),
            forall|k: int| 0 <= k < n ==> (#[trigger] r@[k]).value == self.value@[k],
            Seq::new(n as nat, |k: int| r@[k].id@) == old(session)@.bound_all(
                element_requests(self.id@, n as nat),
                n as nat,
            ),
            ids_of(r@) == old(session)@.bound_all(element_requests(self.id@, n as nat), n as nat),
    {
        let ghost start = session@;
        let ghost requests = element_requests(self.id@, n as nat);
        let mut scalars: Vec<Scalar> = Vec::new();
        let mut i: usize = 0;
        while i < n
            invariant
                i <= n <= self.value@.len(),
                session.wf(),
                requests == element_requests(self.id@, n as nat),
                start.namer.room() >= n,
                session@.namer.room() >= start.namer.room() - i,
                scalars@.len() == i,
                session@ == start.bind_all(requests, i as nat),
                forall|k: int| 0 <= k < i ==> (#[trigger] scalars@[k]).value == self.value@[k],
                Seq::new(i as nat, |k: int| scalars@[k].id@) == start.bound_all(
                    requests,
                    i as nat,
                ),
            decreases n - i,
        {
            let scalar = self.get(session, i);
            scalars.push(scalar);
            assert(Seq::new((i + 1) as nat, |k: int| scalars@[k].id@) =~= start.bound_all(
                requests,
                (i + 1) as nat,
            ));
            i += 1;
        }
        assert(ids_of(scalars@) =~= Seq::new(n as nat, |k: int| scalars@[k].id@));
        scalars
    }

    /// The dot product with `other`, which has as many elements.
    pub fn dot(&self, session: &mut Session, other: &Vector) -> (r: Scalar)
        requires
            old(session).wf(),
            old(session)@.namer.room() >= 1,
            self.value@.len() == other.value@.len(),
        ensures
            final(session).wf(),
            final(session)@.namer.room() >= old(session)@.namer.room() - 1,
            r.value@ == dot_value(
                reals_view(self.value@),
                reals_view(other.value@),
                self.value@.len(),
            ),
            appended(
                old(session)@,
                final(session)@,
                r.id@,
                self.id@.name + "_dot_"@ + other.id@.name,
                IdSize::Scalar,
                OprView::Binary(self.id@, other.id@, OprBinary::Dot),
            ),
    {
        let name = concat3(self.id.name.as_str(), "_dot_", other.id.name.as_str());
        let new_id = create_binary_scalar_expr(
            session,
            name.as_str(),
            self.id.clone(),
            other.id.clone(),
            OprBinary::Dot,
        );
        let mut sum = Real::zero();
        let mut i: usize = 0;
        while i < self.value.len()
            invariant
                i <= self.value@.len(),
                self.value@.len() == other.value@.len(),
                sum@ == dot_value(reals_view(self.value@), reals_view(other.value@), i as nat),
            decreases self.value.len() - i,
        {
            let product = self.value[i].mul(&other.value[i]);
            sum = sum.add(&product);
            i += 1;
        }
        Scalar { id: new_id, value: sum }
    }

    /// The cross product with `other`; both have three elements.
    pub fn cross(&self, session: &mut Session, other: &Vector) -> (r: Vector)
        requires
            old(session).wf(),
            old(session)@.namer.room() >= 1,
            self.value@.len() == 3,
            other.value@.len() == 3,
        ensures
            final(session).wf(),
            final(session)@.namer.room() >= old(session)@.namer.room() - 1,
            reals_view(r.value@) == cross_value(
                reals_view(self.value@),
                reals_view(other.value@),
            ),
            appended(
                old(session)@,
                final(session)@,
                r.id@,
                self.id@.name + "_cross_"@ + other.id@.name,
                vector_size(3),
                OprView::Binary(self.id@, other.id@, OprBinary::Cross),
            ),
    {
        let name = concat3(self.id.name.as_str(), "_cross_", other.id.name.as_str());
        let new_id = create_binary_vector_expr(
            session,
            name.as_str(),
            self.id.clone(),
            other.id.clone(),
            OprBinary::Cross,
            3,
        );
        let a = &self.value;
        let b = &other.value;
        let mut value: Vec<Real> = Vec::new();
        value.push(a[1].mul(&b[2]).sub(&a[2].mul(&b[1])));
        value.push(a[2].mul(&b[0]).sub(&a[0].mul(&b[2])));
        value.push(a[0].mul(&b[1]).sub(&a[1].mul(&b[0])));
        assert(reals_view(value@) =~= cross_value(reals_view(a@), reals_view(b@)));
        Vector { id: new_id, value }
    }

    /// An operation element by element on two vectors of one length.
    fn operate(&self, session: &mut Session, other: &Vector, kind: OprBinary, name: &str) -> (r:
        Vector)
        requires
            old(session).wf(),
            old(session)@.namer.room() >= 1,
            self.value@.len() == other.value@.len(),
            defined_on_all(kind, reals_view(other.value@)),
        ensures
            final(session).wf(),
            final(session)@.namer.room() >= old(session)@.namer.room() - 1,
            reals_view(r.value@) == zip_values(
                kind,
                reals_view(self.value@),
                reals_view(other.value@),
            ),
            appended(
                old(session)@,
                final(session)@,
                r.id@,
                name@,
                vector_size(self.value@.len()),
                OprView::Binary(self.id@, other.id@, kind),
            ),
    {
        let new_id = create_binary_vector_expr(
            session,
            name,
            self.id.clone(),
            other.id.clone(),
            kind,
            self.value.len(),
        );
        Vector { id: new_id, value: combine_rows(kind, &self.value, &other.value) }
    }

    /// The sum of two vectors of one length, element by element.
    pub fn add(&self, session: &mut Session, other: &Vector) -> (r: Vector)
        requires
            old(session).wf(),
            old(session)@.namer.room() >= 1,
            self.value@.len() == other.value@.len(),
        ensures
            final(session).wf(),
            final(session)@.namer.room() >= old(session)@.namer.room() - 1,
            reals_view(r.value@) == zip_values(
                OprBinary::Add,
                reals_view(self.value@),
                reals_view(other.value@),
            ),
            appended(
                old(session)@,
                final(session)@,
                r.id@,
                "vector_add"@,
                vector_size(self.value@.len()),
                OprView::Binary(self.id@, other.id@, OprBinary::Add),
            ),
    {
        self.operate(session, other, OprBinary::Add, "vector_add")
    }

    /// The difference of two vectors of one length, element by element.
    pub fn sub(&self, session: &mut Session, other: &Vector) -> (r: Vector)
        requires
            old(session).wf(),
            old(session)@.namer.room() >= 1,
            self.value@.len() == other.value@.len(),
        ensures
            final(session).wf(),
            final(session)@.namer.room() >= old(session)@.namer.room() - 1,
            reals_view(r.value@) == zip_values(
                OprBinary::Sub,
                reals_view(self.value@),
                reals_view(other.value@),
            ),
            appended(
                old(session)@,
                final(session)@,
                r.id@,
                "vector_sub"@,
                vector_size(self.value@.len()),
                OprView::Binary(self.id@, other.id@, OprBinary::Sub),
            ),
    {
        self.operate(session, other, OprBinary::Sub, "vector_sub")
    }

    /// The product of two vectors of one length, element by element.
    pub fn mul(&self, session: &mut Session, other: &Vector) -> (r: Vector)
        requires
            old(session).wf(),
            old(session)@.namer.room() >= 1,
            self.value@.len() == other.value@.len(),
        ensures
            final(session).wf(),
            final(session)@.namer.room() >= old(session)@.namer.room() - 1,
            reals_view(r.value@) == zip_values(
                OprBinary::Mul,
                reals_view(self.value@),
                reals_view(other.value@),
            ),
            appended(
                old(session)@,
                final(session)@,
                r.id@,
                "vector_mul"@,
                vector_size(self.value@.len()),
                OprView::Binary(self.id@, other.id@, OprBinary::Mul),
            ),
    {
        self.operate(session, other, OprBinary::Mul, "vector_mul")
    }

    /// The quotient of two vectors of one length, element by element; no
    /// element of the divisor has the value zero.
    pub fn div(&self, session: &mut Session, other: &Vector) -> (r: Vector)
        requires
            old(session).wf(),
            old(session)@.namer.room() >= 1,
            self.value@.len() == other.value@.len(),
            defined_on_all(OprBinary::Div, reals_view(other.value@)),
        ensures
            final(session).wf(),
            final(session)@.namer.room() >= old(session)@.namer.room() - 1,
            reals_view(r.value@) == zip_values(
                OprBinary::Div,
                reals_view(self.value@),
                reals_view(other.value@),
            ),
            appended(
                old(session)@,
                final(session)@,
                r.id@,
                "vector_div"@,
                vector_size(self.value@.len()),
                OprView::Binary(self.id@, other.id@, OprBinary::Div),
            ),
    {
        self.operate(session, other, OprBinary::Div, "vector_div")
    }

    /// The vector with `scalar` added to each element. The node has the
    /// scalar as its first operand.
    pub fn add_scalar(&self, session: &mut Session, scalar: &Scalar) -> (r: Vector)
        requires
            old(session).wf(),
            old(session)@.namer.room() >= 1,
        ensures
            final(session).wf(),
            final(session)@.namer.room() >= old(session)@.namer.room() - 1,
            reals_view(r.value@) == spread_right(
                OprBinary::Add,
                reals_view(self.value@),
                scalar.value@,
            ),
            appended(
                old(session)@,
                final(session)@,
                r.id@,
                scalar.id@.name + "_plus_"@ + self.id@.name,
                vector_size(self.value@.len()),
                OprView::Binary(scalar.id@, self.id@, OprBinary::Add),
            ),
    {
        let name = concat3(scalar.id.name.as_str(), "_plus_", self.id.name.as_str());
        let new_id = create_binary_vector_expr(
            session,
            name.as_str(),
            scalar.id.clone(),
            self.id.clone(),
            OprBinary::Add,
            self.value.len(),
        );
        Vector { id: new_id, value: combine_spread(OprBinary::Add, &self.value, &scalar.value) }
    }

    /// The vector with `scalar` subtracted from each element.
    pub fn sub_scalar(&self, session: &mut Session, scalar: &Scalar) -> (r: Vector)
        requires
            old(session).wf(),
            old(session)@.namer.room() >= 1,
        ensures
            final(session).wf(),
            final(session)@.namer.room() >= old(session)@.namer.room() - 1,
            reals_view(r.value@) == spread_right(
                OprBinary::Sub,
                reals_view(self.value@),
                scalar.value@,
            ),
            appended(
                old(session)@,
                final(session)@,
                r.id@,
                self.id@.name + "_minus_"@ + scalar.id@.name,
                vector_size(self.value@.len()),
                OprView::Binary(self.id@, scalar.id@, OprBinary::Sub),
            ),
    {
        let name = concat3(self.id.name.as_str(), "_minus_", scalar.id.name.as_str());
        let new_id = create_binary_vector_expr(
            session,
            name.as_str(),
            self.id.clone(),
            scalar.id.clone(),
            OprBinary::Sub,
            self.value.len(),
        );
        Vector { id: new_id, value: combine_spread(OprBinary::Sub, &self.value, &scalar.value) }
    }

    /// The vector with each element multiplied by `scalar`. The node has the
    /// scalar as its first operand.
    pub fn mul_scalar(&self, session: &mut Session, scalar: &Scalar) -> (r: Vector)
        requires
            old(session).wf(),
            old(session)@.namer.room() >= 1,
        ensures
            final(session).wf(),
            final(session)@.namer.room() >= old(session)@.namer.room() - 1,
            reals_view(r.value@) == spread_right(
                OprBinary::Mul,
                reals_view(self.value@),
                scalar.value@,
            ),
            appended(
                old(session)@,
                final(session)@,
                r.id@,
                self.id@.name + "_mul_"@ + scalar.id@.name,
                vector_size(self.value@.len()),
                OprView::Binary(scalar.id@, self.id@, OprBinary::Mul),
            ),
    {
        let name = concat3(self.id.name.as_str(), "_mul_", scalar.id.name.as_str());
        let new_id = create_binary_vector_expr(
            session,
            name.as_str(),
            scalar.id.clone(),
            self.id.clone(),
            OprBinary::Mul,
            self.value.len(),
        );
        Vector { id: new_id, value: combine_spread(OprBinary::Mul, &self.value, &scalar.value) }
    }

    /// The vector with each element divided by `scalar`, whose value is not
    /// zero.
    pub fn div_scalar(&self, session: &mut Session, scalar: &Scalar) -> (r: Vector)
        requires
            old(session).wf(),
            old(session)@.namer.room() >= 1,
            scalar.value@ != 0real,
        ensures
            final(session).wf(),
            final(session)@.namer.room() >= old(session)@.namer.room() - 1,
            reals_view(r.value@) == spread_right(
                OprBinary::Div,
                reals_view(self.value@),
                scalar.value@,
            ),
            appended(
                old(session)@,
                final(session)@,
                r.id@,
                self.id@.name + "_div_scalar"@,
                vector_size(self.value@.len()),
                OprView::Binary(self.id@, scalar.id@, OprBinary::Div),
            ),
    {
        let name = concat(self.id.name.as_str(), "_div_scalar");
        let new_id = create_binary_vector_expr(
            session,
            name.as_str(),
            self.id.clone(),
            scalar.id.clone(),
            OprBinary::Div,
            self.value.len(),
        );
        Vector { id: new_id, value: combine_spread(OprBinary::Div, &self.value, &scalar.value) }
    }

    /// The vector with the sign of each element changed. The vector's
    /// identifier must say that it is one.
    pub fn neg(&self, session: &mut Session) -> (r: Vector)
        requires
            old(session).wf(),
            old(session)@.namer.room() >= 1,
            self.id.size is Vector,
        ensures
            final(session).wf(),
            final(session)@.namer.room() >= old(session)@.namer.room() - 1,
            reals_view(r.value@) == negated(reals_view(self.value@)),
            appended(
                old(session)@,
                final(session)@,
                r.id@,
                "vector_neg"@,
                self.id.size,
                OprView::Unary(self.id@, UnaryView::Neg),
            ),
    {
        let new_id = create_unary_vector_expr(
            session,
            "vector_neg",
            self.id.clone(),
            OprUnary::Neg,
        );
        Vector { id: new_id, value: negate_values(&self.value) }
    }

    /// The sine of each element: binds a sine node named after the vector
    /// and holds `values`. The library computes with exact rationals only,
    /// so the caller supplies the sines, one for each element.
    pub fn sin(&self, session: &mut Session, values: Vec<Real>) -> (r: Vector)
        requires
            old(session).wf(),
            old(session)@.namer.room() >= 1,
            self.id.size is Vector,
            values@.len() == self.value@.len(),
        ensures
            final(session).wf(),
            final(session)@.namer.room() >= old(session)@.namer.room() - 1,
            r.value == values,
            appended(
                old(session)@,
                final(session)@,
                r.id@,
                self.id@.name + "_sin"@,
                self.id.size,
                OprView::Unary(self.id@, UnaryView::Sine),
            ),
    {
        let name = concat(self.id.name.as_str(), "_sin");
        let new_id = create_unary_vector_expr(
            session,
            name.as_str(),
            self.id.clone(),
            OprUnary::Sine,
        );
        Vector { id: new_id, value: values }
    }

    /// The cosine of each element: binds a cosine node named after the
    /// vector and holds `values`, the cosines that the caller supplies, one
    /// for each element.
    pub fn cos(&self, session: &mut Session, values: Vec<Real>) -> (r: Vector)
        requires
            old(session).wf(),
            old(session)@.namer.room() >= 1,
            self.id.size is Vector,
            values@.len() == self.value@.len(),
        ensures
            final(session).wf(),
            final(session)@.namer.room() >= old(session)@.namer.room() - 1,
            r.value == values,
            appended(
                old(session)@,
                final(session)@,
                r.id@,
                self.id@.name + "_cos"@,
                self.id.size,
                OprView::Unary(self.id@, UnaryView::Cosine),
            ),
    {
        let name = concat(self.id.name.as_str(), "_cos");
        let new_id = create_unary_vector_expr(
            session,
            name.as_str(),
            self.id.clone(),
            OprUnary::Cosine,
        );
        Vector { id: new_id, value: values }
    }
}

/// The identifiers of a list of scalars.
pub open spec fn ids_of(scalars: Seq<Scalar>) -> Seq<IdentView> {
    Seq::new(scalars.len(), |i: int| scalars[i].id@)
}

/// The values of a list of scalars.
pub open spec fn values_of(scalars: Seq<Scalar>) -> Seq<real> {
    Seq::new(scalars.len(), |i: int| scalars[i].value@)
}

/// Gathers scalars into a vector named `name`.
pub fn gather(session: &mut Session, name: &str, scalars: &Vec<Scalar>) -> (r: Vector)
    requires
        old(session).wf(),
        old(session)@.namer.room() >= 1,
    ensures
        final(session).wf(),
        final(session)@.namer.room() >= old(session)@.namer.room() - 1,
        reals_view(r.value@) == values_of(scalars@),
        r.value@.len() == scalars@.len(),
        appended(
            old(session)@,
            final(session)@,
            r.id@,
            name@,
            vector_size(scalars@.len()),
            OprView::ConstructVector(ids_of(scalars@)),
        ),
{
    let mut ids: Vec<Identifier> = Vec::new();
    let mut values: Vec<Real> = Vec::new();
    let mut i: usize = 0;
    while i < scalars.len()
        invariant
            i <= scalars.len(),
            ids@.len() == i,
            values@.len() == i,
            forall|k: int| 0 <= k < i ==> (#[trigger] ids@[k])@ == scalars@[k].id@,
            forall|k: int| 0 <= k < i ==> (#[trigger] values@[k])@ == scalars@[k].value@,
        decreases scalars.len() - i,
    {
        ids.push(scalars[i].id.clone());
        values.push(scalars[i].value.clone());
        i += 1;
    }
    assert(idents_view(ids@) =~= ids_of(scalars@));
    assert(reals_view(values@) =~= values_of(scalars@));
    let new_id = create_construct_vector_expr(session, name, ids);
    Vector { id: new_id, value: values }
}

impl Vector {
    /// Replaces element `index` by the constant `value`: the vector is
    /// rebuilt from a new constant and the extracted other elements, and
    /// names the rebuilt vector afterwards.
    pub fn set(&mut self, session: &mut Session, index: usize, value: Real)
        requires
            old(session).wf(),
            index < old(self).value@.len(),
            old(session)@.namer.room() >= old(self).value@.len() + 1,
        ensures
            final(session).wf(),
            final(session)@.namer.room() >= old(session)@.namer.room() - old(self).value@.len()
                - 1,
            reals_view(final(self).value@) == reals_view(old(self).value@).update(
                index as int,
                value@,
            ),
            ({
                let n = old(self).value@.len();
                let requests = replace_requests(old(self).id@, n, index as int, value@);
                appended(
                    old(session)@.bind_all(requests, n),
                    final(session)@,
                    final(self).id@,
                    old(self).id@.name,
                    vector_size(n),
                    OprView::ConstructVector(old(session)@.bound_all(requests, n)),
                )
            }),
    {
        let n = self.value.len();
        let ghost start = session@;
        let ghost requests = replace_requests(self.id@, n as nat, index as int, value@);
        let mut scalars: Vec<Scalar> = Vec::new();
        let mut i: usize = 0;
        while i < n
            invariant
                i <= n,
                n == self.value@.len(),
                index < n,
                session.wf(),
                *self == *old(self),
                requests == replace_requests(self.id@, n as nat, index as int, value@),
                start.namer.room() >= n + 1,
                session@.namer.room() >= start.namer.room() - i,
                scalars@.len() == i,
                session@ == start.bind_all(requests, i as nat),
                ids_of(scalars@) == start.bound_all(requests, i as nat),
                forall|k: int|
                    0 <= k < i ==> (#[trigger] scalars@[k]).value@ == (if k == index {
                        value@
                    } else {
                        self.value@[k]@
                    }),
            decreases n - i,
        {
            let scalar = if i == index {
                let number = usize_to_text(i);
                let name = concat3(self.id.name.as_str(), "_set_val_", number.as_str());
                Scalar::new_rational(session, name.as_str(), value.clone())
            } else {
                self.get(session, i)
            };
            scalars.push(scalar);
            assert(ids_of(scalars@) =~= start.bound_all(requests, (i + 1) as nat));
            i += 1;
        }
        let rebuilt = gather(session, self.id.name.as_str(), &scalars);
        assert(reals_view(rebuilt.value@) =~= reals_view(self.value@).update(
            index as int,
            value@,
        ));
        self.id = rebuilt.id;
        self.value = rebuilt.value;
    }

    /// Appends the constant `value`: the vector is rebuilt from its
    /// extracted elements and a new constant, and names the rebuilt vector
    /// afterwards.
    pub fn push_value(&mut self, session: &mut Session, value: Real)
        requires
            old(session).wf(),
            old(self).value@.len() < usize::MAX,
            old(session)@.namer.room() >= old(self).value@.len() + 2,
        ensures
            final(session).wf(),
            final(session)@.namer.room() >= old(session)@.namer.room() - old(self).value@.len()
                - 2,
            reals_view(final(self).value@) == reals_view(old(self).value@).push(value@),
            ({
                let n = old(self).value@.len();
                let requests = extend_requests(old(self).id@, n, value@);
                appended(
                    old(session)@.bind_all(requests, n + 1),
                    final(session)@,
                    final(self).id@,
                    old(self).id@.name,
                    vector_size(n + 1),
                    OprView::ConstructVector(old(session)@.bound_all(requests, n + 1)),
                )
            }),
    {
        let n = self.value.len();
        let ghost start = session@;
        let ghost gets = element_requests(self.id@, n as nat);
        let ghost requests = extend_requests(self.id@, n as nat, value@);
        let mut scalars = self.extract(session, n);
        proof {
            lemma_bind_all_prefix(start, gets, requests, n as nat);
            assert(ids_of(scalars@) =~= Seq::new(n as nat, |k: int| scalars@[k].id@));
        }
        let name = concat(self.id.name.as_str(), "_push_val");
        let added = Scalar::new_rational(session, name.as_str(), value);
        scalars.push(added);
        assert(ids_of(scalars@) =~= start.bound_all(requests, (n + 1) as nat));
        let rebuilt = gather(session, self.id.name.as_str(), &scalars);
        assert(reals_view(rebuilt.value@) =~= reals_view(self.value@).push(value@));
        self.id = rebuilt.id;
        self.value = rebuilt.value;
    }

    /// Removes the last element and returns its value: the vector is rebuilt
    /// from its extracted other elements, or as an empty constant when none
    /// is left, and names the rebuilt vector afterwards.
    pub fn pop(&mut self, session: &mut Session) -> (r: Real)
        requires
            old(session).wf(),
            old(self).value@.len() >= 1,
            old(session)@.namer.room() >= old(self).value@.len(),
        ensures
            final(session).wf(),
            final(session)@.namer.room() >= old(session)@.namer.room() - old(self).value@.len(),
            r == old(self).value@.last(),
            reals_view(final(self).value@) == reals_view(old(self).value@).drop_last(),
            ({
                let n = (old(self).value@.len() - 1) as nat;
                let requests = element_requests(old(self).id@, n);
                appended(
                    old(session)@.bind_all(requests, n),
                    final(session)@,
                    final(self).id@,
                    old(self).id@.name,
                    vector_size(n),
                    if n == 0 {
                        OprView::ConstantVector(Seq::empty())
                    } else {
                        OprView::ConstructVector(old(session)@.bound_all(requests, n))
                    },
                )
            }),
    {
        let n = self.value.len() - 1;
        let ghost start = session@;
        let popped = self.value[n].clone();
        let scalars = self.extract(session, n);
        proof {
            assert(ids_of(scalars@) =~= Seq::new(n as nat, |k: int| scalars@[k].id@));
        }
        let rebuilt = if n == 0 {
            let empty: Vec<Real> = Vec::new();
            assert(reals_view(empty@) =~= Seq::<real>::empty());
            Vector::new_rational(session, self.id.name.as_str(), empty)
        } else {
            gather(session, self.id.name.as_str(), &scalars)
        };
        assert(reals_view(rebuilt.value@) =~= reals_view(self.value@).drop_last());
        self.id = rebuilt.id;
        self.value = rebuilt.value;
        popped
    }
}

/// Binding the first requests of a list is binding the same requests of a
/// list that starts with them.
pub proof fn lemma_bind_all_prefix(start: SessionView, a: Seq<Request>, b: Seq<Request>, n: nat)
    requires
        n <= a.len(),
        n <= b.len(),
        forall|i: int| 0 <= i < n ==> a[i] == b[i],
    ensures
        start.bind_all(a, n) == start.bind_all(b, n),
        start.bound_all(a, n) == start.bound_all(b, n),
    decreases n,
{
    if n > 0 {
        lemma_bind_all_prefix(start, a, b, (n - 1) as nat);
    }
}

/// The ranges of a list of inputs.
pub open spec fn ranges_row_view(ranges: Seq<(Real, Real)>) -> Seq<InputView> {
    Seq::new(ranges.len(), |i: int| InputView { lower: ranges[i].0@, upper: ranges[i].1@ })
}

impl Program {
    /// Declares a vector input with the range of each element; the vector has
    /// the default values, and as many elements as there are default values.
    /// The identifier is made by `namer`.
    pub fn add_input_vector(
        &mut self,
        namer: &mut Namer,
        name: &str,
        range: Vec<(Real, Real)>,
        default_value: Vec<Real>,
    ) -> (r: Vector)
        requires
            old(self).wf(),
            old(namer)@.room() >= 1,
        ensures
            final(self).wf(),
            final(namer)@ == old(namer)@.after_identifier(name@),
            final(namer)@.room() >= old(namer)@.room() - 1,
            r.value@ == default_value@,
            r.id@ == old(namer)@.fresh_identifier(name@, vector_size(default_value@.len())),
            final(self)@ == (ProgramView {
                inputs: upsert(
                    old(self)@.inputs,
                    r.id@,
                    ProgramInputView::Vector(ranges_row_view(range@)),
                ),
                ..old(self)@
            }),
    {
        let size = default_value.len();
        let new_id = Identifier::new_vector(namer, name, size);
        let mut info: Vec<Input> = Vec::new();
        let mut i: usize = 0;
        while i < range.len()
            invariant
                i <= range.len(),
                info@.len() == i,
                forall|k: int|
                    0 <= k < i ==> (#[trigger] info@[k])@ == (InputView {
                        lower: range@[k].0@,
                        upper: range@[k].1@,
                    }),
            decreases range.len() - i,
        {
            info.push(Input { range: (range[i].0.clone(), range[i].1.clone()) });
            i += 1;
        }
        assert(inputs_row_view(info@) =~= ranges_row_view(range@));
        self.add_input(new_id.clone(), ProgramInput::Vector { info });
        Vector { id: new_id, value: default_value }
    }
}

/// Declares a vector input with the range of each element; the vector has
/// the default values, and as many elements as there are default values.
pub fn add_input_vector(
    session: &mut Session,
    name: &str,
    range: Vec<(Real, Real)>,
    default_value: Vec<Real>,
) -> (r: Vector)
    requires
        old(session).wf(),
        old(session)@.namer.room() >= 1,
    ensures
        final(session).wf(),
        final(session)@.namer.room() >= old(session)@.namer.room() - 1,
        r.value@ == default_value@,
        r.id@ == old(session)@.bound(name@, vector_size(default_value@.len())),
        final(session)@ == (SessionView {
            namer: old(session)@.namer.after_identifier(name@),
            program: ProgramView {
                inputs: upsert(
                    old(session)@.program.inputs,
                    r.id@,
                    ProgramInputView::Vector(ranges_row_view(range@)),
                ),
                ..old(session)@.program
            },
        }),
{
    session.program.add_input_vector(&mut session.namer, name, range, default_value)
}

/// One pending leaf for the identifier `id` for each of `n` elements.
pub open spec fn pending_leaves(id: IdentView, n: nat) -> Seq<OutputView> {
    Seq::new(n, |i: int| pending_output(id))
}

/// Registers `output` as an output of the program under `name`: the vector
/// is first bound again under that name, which is what `output` names
/// afterwards. Each element gets a leaf that carries the vector's identifier.
pub fn register_vector_output(session: &mut Session, output: &mut Vector, name: &str)
    requires
        old(session).wf(),
        old(session)@.namer.room() >= 1,
        old(output).id.size is Vector,
    ensures
        final(session).wf(),
        final(session)@.namer.room() >= old(session)@.namer.room() - 1,
        final(output).value@ == old(output).value@,
        final(output).id@ == old(session)@.bound(name@, old(output).id.size),
        final(session)@ == ({
            let defined = old(session)@.bind(
                name@,
                old(output).id.size,
                OprView::Unary(old(output).id@, UnaryView::AssignNoOpt),
            );
            SessionView {
                program: ProgramView {
                    outputs: upsert(
                        defined.program.outputs,
                        final(output).id@,
                        ProgramOutputView::Vector(
                            pending_leaves(final(output).id@, old(output).value@.len()),
                        ),
                    ),
                    ..defined.program
                },
                ..defined
            }
        }),
{
    let defined = output.define(session, String::from_str(name));
    *output = defined;
    let mut info: Vec<Output> = Vec::new();
    let mut i: usize = 0;
    while i < output.value.len()
        invariant
            i <= output.value@.len(),
            info@.len() == i,
            forall|k: int| 0 <= k < i ==> (#[trigger] info@[k])@ == pending_output(output.id@),
        decreases output.value.len() - i,
    {
        info.push(Output::pending(output.id.clone()));
        i += 1;
    }
    assert(outputs_row_view(info@) =~= pending_leaves(output.id@, output.value@.len()));
    session.program.add_output(output.id.clone(), ProgramOutput::Vector { info });
}

} // verus!
