//! Symbolic scalars.

use vstd::prelude::*;
use vstd::string::*;
use crate::expr::{OprBinary, OprUnary, OprView, UnaryView};
use crate::identifier::{IdSize, IdentView, Identifier};
use crate::idmap::upsert;
use crate::naming::Namer;
use crate::program::{pending_output, Input, InputView, Output, Program, ProgramInput, ProgramInputView, ProgramOutput, ProgramOutputView, ProgramView};
use crate::rational::Real;
use crate::session::{create_binary_scalar_expr, create_construct_scalar_expr, create_scalar_constant, create_unary_scalar_expr, Session, SessionView};
use crate::text::{concat, concat3};
use crate::values::{apply, combine, defined_on};

verus! {

/// A scalar of the program under construction: its identifier, and the value
/// that it takes when every input has its default value.
#[derive(Debug)]
pub struct Scalar {
    pub id: Identifier,
    pub value: Real,
}

impl Clone for Scalar {
    fn clone(&self) -> (r: Self)
        ensures
            r == *self,
    {
        Scalar { id: self.id.clone(), value: self.value.clone() }
    }
}

/// `before` became `after` by one node that binds `opr` to the new
/// identifier `id`, made from `name` with shape `size`.
pub open spec fn appended(
    before: SessionView,
    after: SessionView,
    id: IdentView,
    name: Seq<char>,
    size: IdSize,
    opr: OprView,
) -> bool {
    id == before.bound(name, size) && after == before.bind(name, size, opr)
}

/// Values that a scalar can be made from under a name.
pub trait IntoScalarValue: Sized {
    /// The value of the scalar that is made.
    spec fn scalar_value(self) -> real;

    /// The operation that the scalar is bound to.
    spec fn scalar_opr(self) -> OprView;

    /// Makes the scalar: one node binds `scalar_opr` to a new identifier
    /// made from `name`.
    fn into_scalar_with_name(self, session: &mut Session, name: &str) -> (r: Scalar)
        requires
            old(session).wf(),
            old(session)@.namer.room() >= 1,
        ensures
            final(session).wf(),
            final(session)@.namer.room() >= old(session)@.namer.room() - 1,
            r.value@ == self.scalar_value(),
            appended(
                old(session)@,
                final(session)@,
                r.id@,
                name@,
                IdSize::Scalar,
                self.scalar_opr(),
            ),
    ;
}

impl IntoScalarValue for &Scalar {
    open spec fn scalar_value(self) -> real {
        self.value@
    }

    open spec fn scalar_opr(self) -> OprView {
        OprView::ConstructScalar(self.id@)
    }

    fn into_scalar_with_name(self, session: &mut Session, name: &str) -> (r: Scalar) {
        Scalar::from_scalar(session, name, self)
    }
}

impl Scalar {
    /// A constant.
    pub fn new_rational(session: &mut Session, name: &str, value: Real) -> (r: Scalar)
        requires
            old(session).wf(),
            old(session)@.namer.room() >= 1,
        ensures
            final(session).wf(),
            final(session)@.namer.room() >= old(session)@.namer.room() - 1,
            r.value@ == value@,
            appended(
                old(session)@,
                final(session)@,
                r.id@,
                name@,
                IdSize::Scalar,
                OprView::ConstantScalar(value@),
            ),
    {
        let new_id = create_scalar_constant(session, name, value.clone());
        Scalar { id: new_id, value }
    }

    /// The same value under the name `new_name`, bound by a node that no
    /// pass folds away.
    pub fn define(&self, session: &mut Session, new_name: String) -> (r: Scalar)
        requires
            old(session).wf(),
            old(session)@.namer.room() >= 1,
        ensures
            final(session).wf(),
            final(session)@.namer.room() >= old(session)@.namer.room() - 1,
            r.value@ == self.value@,
            appended(
                old(session)@,
                final(session)@,
                r.id@,
                new_name@,
                IdSize::Scalar,
                OprView::Unary(self.id@, UnaryView::AssignNoOpt),
            ),
    {
        let new_id = create_unary_scalar_expr(
            session,
            new_name.as_str(),
            self.id.clone(),
            OprUnary::AssignNoOpt,
        );
        Scalar { id: new_id, value: self.value.clone() }
    }

    /// A scalar made from `scalar`, with the same value.
    pub fn from_scalar(session: &mut Session, name: &str, scalar: &Scalar) -> (r: Scalar)
        requires
            old(session).wf(),
            old(session)@.namer.room() >= 1,
        ensures
            final(session).wf(),
            final(session)@.namer.room() >= old(session)@.namer.room() - 1,
            r.value@ == scalar.value@,
            appended(
                old(session)@,
                final(session)@,
                r.id@,
                name@,
                IdSize::Scalar,
                OprView::ConstructScalar(scalar.id@),
            ),
    {
        let new_id = create_construct_scalar_expr(session, name, scalar.id.clone());
        Scalar { id: new_id, value: scalar.value.clone() }
    }

    /// A scalar made from anything that a scalar can be made from.
    pub fn from_any<T: IntoScalarValue>(session: &mut Session, name: &str, t: T) -> (r: Scalar)
        requires
            old(session).wf(),
            old(session)@.namer.room() >= 1,
        ensures
            final(session).wf(),
            final(session)@.namer.room() >= old(session)@.namer.room() - 1,
            r.value@ == t.scalar_value(),
            appended(old(session)@, final(session)@, r.id@, name@, IdSize::Scalar, t.scalar_opr()),
    {
        t.into_scalar_with_name(session, name)
    }

    /// An arithmetic operation on two scalars, bound under the names of both
    /// with `word` between them.
    fn operate(&self, session: &mut Session, other: &Scalar, kind: OprBinary, word: &str) -> (r:
        Scalar)
        requires
            old(session).wf(),
            old(session)@.namer.room() >= 1,
            defined_on(kind, other.value@),
        ensures
            final(session).wf(),
            final(session)@.namer.room() >= old(session)@.namer.room() - 1,
            r.value@ == apply(kind, self.value@, other.value@),
            appended(
                old(session)@,
                final(session)@,
                r.id@,
                self.id@.name + word@ + other.id@.name,
                IdSize::Scalar,
                OprView::Binary(self.id@, other.id@, kind),
            ),
    {
        let name = concat3(self.id.name.as_str(), word, other.id.name.as_str());
        let new_id = create_binary_scalar_expr(
            session,
            name.as_str(),
            self.id.clone(),
            other.id.clone(),
            kind,
        );
        Scalar { id: new_id, value: combine(kind, &self.value, &other.value) }
    }

    /// The sum of two scalars.
    pub fn add(&self, session: &mut Session, other: &Scalar) -> (r: Scalar)
        requires
            old(session).wf(),
            old(session)@.namer.room() >= 1,
        ensures
            final(session).wf(),
            final(session)@.namer.room() >= old(session)@.namer.room() - 1,
            r.value@ == self.value@ + other.value@,
            appended(
                old(session)@,
                final(session)@,
                r.id@,
                self.id@.name + "_plus_"@ + other.id@.name,
                IdSize::Scalar,
                OprView::Binary(self.id@, other.id@, OprBinary::Add),
            ),
    {
        self.operate(session, other, OprBinary::Add, "_plus_")
    }

    /// The difference of two scalars.
    pub fn sub(&self, session: &mut Session, other: &Scalar) -> (r: Scalar)
        requires
            old(session).wf(),
            old(session)@.namer.room() >= 1,
        ensures
            final(session).wf(),
            final(session)@.namer.room() >= old(session)@.namer.room() - 1,
            r.value@ == self.value@ - other.value@,
            appended(
                old(session)@,
                final(session)@,
                r.id@,
                self.id@.name + "_minus_"@ + other.id@.name,
                IdSize::Scalar,
                OprView::Binary(self.id@, other.id@, OprBinary::Sub),
            ),
    {
        self.operate(session, other, OprBinary::Sub, "_minus_")
    }

    /// The product of two scalars.
    pub fn mul(&self, session: &mut Session, other: &Scalar) -> (r: Scalar)
        requires
            old(session).wf(),
            old(session)@.namer.room() >= 1,
        ensures
            final(session).wf(),
            final(session)@.namer.room() >= old(session)@.namer.room() - 1,
            r.value@ == self.value@ * other.value@,
            appended(
                old(session)@,
                final(session)@,
                r.id@,
                self.id@.name + "_mul_"@ + other.id@.name,
                IdSize::Scalar,
                OprView::Binary(self.id@, other.id@, OprBinary::Mul),
            ),
    {
        self.operate(session, other, OprBinary::Mul, "_mul_")
    }

    /// The quotient of two scalars; the value of the divisor is not zero.
    pub fn div(&self, session: &mut Session, other: &Scalar) -> (r: Scalar)
        requires
            old(session).wf(),
            old(session)@.namer.room() >= 1,
            other.value@ != 0real,
        ensures
            final(session).wf(),
            final(session)@.namer.room() >= old(session)@.namer.room() - 1,
            r.value@ == self.value@ / other.value@,
            appended(
                old(session)@,
                final(session)@,
                r.id@,
                self.id@.name + "_div_"@ + other.id@.name,
                IdSize::Scalar,
                OprView::Binary(self.id@, other.id@, OprBinary::Div),
            ),
    {
        self.operate(session, other, OprBinary::Div, "_div_")
    }

    /// The scalar with its sign changed.
    pub fn neg(&self, session: &mut Session) -> (r: Scalar)
        requires
            old(session).wf(),
            old(session)@.namer.room() >= 1,
        ensures
            final(session).wf(),
            final(session)@.namer.room() >= old(session)@.namer.room() - 1,
            r.value@ == -self.value@,
            appended(
                old(session)@,
                final(session)@,
                r.id@,
                "neg_"@ + self.id@.name,
                IdSize::Scalar,
                OprView::Unary(self.id@, UnaryView::Neg),
            ),
    {
        let name = concat("neg_", self.id.name.as_str());
        let new_id = create_unary_scalar_expr(
            session,
            name.as_str(),
            self.id.clone(),
            OprUnary::Neg,
        );
        Scalar { id: new_id, value: self.value.neg() }
    }
}

impl Program {
    /// Declares a scalar input with its range; the scalar has the default value.
    /// The identifier is made by `namer`.
    pub fn add_input_scalar(
        &mut self,
        namer: &mut Namer,
        name: &str,
        range: (Real, Real),
        default_value: Real,
    ) -> (r: Scalar)
        requires
            old(self).wf(),
            old(namer)@.room() >= 1,
        ensures
            final(self).wf(),
            final(namer)@ == old(namer)@.after_identifier(name@),
            final(namer)@.room() >= old(namer)@.room() - 1,
            r.value@ == default_value@,
            r.id@ == old(namer)@.fresh_identifier(name@, IdSize::Scalar),
            final(self)@ == (ProgramView {
                inputs: upsert(
                    old(self)@.inputs,
                    r.id@,
                    ProgramInputView::Scalar(InputView { lower: range.0@, upper: range.1@ }),
                ),
                ..old(self)@
            }),
    {
        let new_id = Identifier::new_scalar(namer, name);
        self.add_input(new_id.clone(), ProgramInput::Scalar { info: Input { range } });
        Scalar { id: new_id, value: default_value }
    }
}

/// Declares a scalar input with its range; the scalar has the default value.
pub fn add_input_scalar(
    session: &mut Session,
    name: &str,
    range: (Real, Real),
    default_value: Real,
) -> (r: Scalar)
    requires
        old(session).wf(),
        old(session)@.namer.room() >= 1,
    ensures
        final(session).wf(),
        final(session)@.namer.room() >= old(session)@.namer.room() - 1,
        r.value@ == default_value@,
        r.id@ == old(session)@.bound(name@, IdSize::Scalar),
        final(session)@ == (SessionView {
            namer: old(session)@.namer.after_identifier(name@),
            program: ProgramView {
                inputs: upsert(
                    old(session)@.program.inputs,
                    r.id@,
                    ProgramInputView::Scalar(InputView { lower: range.0@, upper: range.1@ }),
                ),
                ..old(session)@.program
            },
        }),
{
    session.program.add_input_scalar(&mut session.namer, name, range, default_value)
}

/// Registers `output` as an output of the program under `name`: the scalar
/// is first bound again under that name, which is what `output` names
/// afterwards.
pub fn register_scalar_output(session: &mut Session, output: &mut Scalar, name: &str)
    requires
        old(session).wf(),
        old(session)@.namer.room() >= 1,
    ensures
        final(session).wf(),
        final(session)@.namer.room() >= old(session)@.namer.room() - 1,
        final(output).value@ == old(output).value@,
        final(output).id@ == old(session)@.bound(name@, IdSize::Scalar),
        final(session)@ == ({
            let defined = old(session)@.bind(
                name@,
                IdSize::Scalar,
                OprView::Unary(old(output).id@, UnaryView::AssignNoOpt),
            );
            SessionView {
                program: ProgramView {
                    outputs: upsert(
                        defined.program.outputs,
                        final(output).id@,
                        ProgramOutputView::Scalar(pending_output(final(output).id@)),
                    ),
                    ..defined.program
                },
                ..defined
            }
        }),
{
    let defined = output.define(session, String::from_str(name));
    *output = defined;
    session.program.add_output(
        output.id.clone(),
        ProgramOutput::Scalar { info: Output::pending(output.id.clone()) },
    );
}

} // verus!
