//! What a program computes: the value of every identifier, given the values
//! of the inputs.

use vstd::prelude::*;
use crate::expr::{ExprView, OprBinary, OprView, UnaryView};
use crate::identifier::{IdentView, VarType};
use crate::unroll::transposed;
use crate::values::{apply, dot_value};
use crate::vector::cross_value;

verus! {

/// The value of an identifier.
pub enum Value {
    Scalar(real),
    Vector(Seq<real>),
    Matrix(Seq<Seq<real>>),
}

/// The functions that the programs leave open: sine and cosine stand for any
/// two functions on numbers.
pub struct Functions {
    pub sine: spec_fn(real) -> real,
    pub cosine: spec_fn(real) -> real,
}

/// The values of identifiers, by identifier number.
pub struct Env {
    pub at: spec_fn(usize) -> Value,
}

impl Env {
    /// The environment with `value` for the number `id`.
    pub open spec fn set(self, id: usize, value: Value) -> Env {
        Env {
            at: |x: usize|
                if x == id {
                    value
                } else {
                    (self.at)(x)
                },
        }
    }

    /// The value of the number `id`.
    pub open spec fn value(self, id: usize) -> Value {
        (self.at)(id)
    }

    /// The number that a scalar identifier stands for.
    pub open spec fn scalar(self, id: IdentView) -> real {
        match self.value(id.id) {
            Value::Scalar(x) => x,
            _ => 0real,
        }
    }

    /// The numbers that a vector identifier stands for.
    pub open spec fn vector(self, id: IdentView) -> Seq<real> {
        match self.value(id.id) {
            Value::Vector(v) => v,
            _ => Seq::empty(),
        }
    }

    /// The numbers that a matrix identifier stands for.
    pub open spec fn matrix(self, id: IdentView) -> Seq<Seq<real>> {
        match self.value(id.id) {
            Value::Matrix(m) => m,
            _ => Seq::empty(),
        }
    }
}

/// The value of a unary operation on a number. Taking an element or the
/// transpose of a number leaves it as it is.
pub open spec fn unary_value(kind: UnaryView, x: real, f: Functions) -> real {
    match kind {
        UnaryView::Neg => -x,
        UnaryView::Sine => (f.sine)(x),
        UnaryView::Cosine => (f.cosine)(x),
        _ => x,
    }
}

/// The value of a unary operation on the value of a vector.
pub open spec fn unary_on_vector(kind: UnaryView, v: Seq<real>, f: Functions) -> Value {
    match kind {
        UnaryView::Index(path) => Value::Scalar(v[path[0] as int]),
        _ => Value::Vector(Seq::new(v.len(), |i: int| unary_value(kind, v[i], f))),
    }
}

/// The value of a unary operation on the value of a matrix.
pub open spec fn unary_on_matrix(kind: UnaryView, m: Seq<Seq<real>>, f: Functions) -> Value {
    match kind {
        UnaryView::Index(path) => Value::Scalar(m[path[0] as int][path[1] as int]),
        UnaryView::Transpose => Value::Matrix(transposed(m, m[0].len())),
        _ => Value::Matrix(
            Seq::new(m.len(), |i: int| Seq::new(m[i].len(), |j: int| unary_value(kind, m[i][j], f))),
        ),
    }
}

/// The value of an arithmetic operation, by the kinds of its operands:
/// element by element over the declared shape for two vectors or two
/// matrices, and with the scalar at every element otherwise.
pub open spec fn arithmetic_value(env: Env, a: IdentView, b: IdentView, kind: OprBinary) -> Value {
    match (a.var_type, b.var_type) {
        (VarType::Scalar, VarType::Scalar) => Value::Scalar(
            apply(kind, env.scalar(a), env.scalar(b)),
        ),
        (VarType::Vector, VarType::Vector) => Value::Vector(
            Seq::new(
                a.size->len as nat,
                |i: int| apply(kind, env.vector(a)[i], env.vector(b)[i]),
            ),
        ),
        (VarType::Matrix, VarType::Matrix) => Value::Matrix(
            Seq::new(
                a.size->row_size as nat,
                |i: int|
                    Seq::new(
                        a.size->col_size as nat,
                        |j: int| apply(kind, env.matrix(a)[i][j], env.matrix(b)[i][j]),
                    ),
            ),
        ),
        (VarType::Vector, VarType::Scalar) => Value::Vector(
            Seq::new(
                env.vector(a).len(),
                |i: int| apply(kind, env.vector(a)[i], env.scalar(b)),
            ),
        ),
        (VarType::Matrix, VarType::Scalar) => Value::Matrix(
            Seq::new(
                env.matrix(a).len(),
                |i: int|
                    Seq::new(
                        env.matrix(a)[i].len(),
                        |j: int| apply(kind, env.matrix(a)[i][j], env.scalar(b)),
                    ),
            ),
        ),
        (VarType::Scalar, VarType::Vector) => Value::Vector(
            Seq::new(
                env.vector(b).len(),
                |i: int| apply(kind, env.scalar(a), env.vector(b)[i]),
            ),
        ),
        (VarType::Scalar, VarType::Matrix) => Value::Matrix(
            Seq::new(
                env.matrix(b).len(),
                |i: int|
                    Seq::new(
                        env.matrix(b)[i].len(),
                        |j: int| apply(kind, env.scalar(a), env.matrix(b)[i][j]),
                    ),
            ),
        ),
        _ => Value::Scalar(0real),
    }
}

/// The value that a node gives to its identifier.
pub open spec fn meaning(env: Env, opr: OprView, f: Functions) -> Value {
    match opr {
        OprView::ConstantScalar(value) => Value::Scalar(value),
        OprView::ConstantVector(values) => Value::Vector(values),
        OprView::ConstantMatrix(values) => Value::Matrix(values),
        OprView::ConstructScalar(id) => Value::Scalar(env.scalar(id)),
        OprView::ConstructVector(ids) => Value::Vector(
            Seq::new(ids.len(), |i: int| env.scalar(ids[i])),
        ),
        OprView::ConstructMatrix(ids) => Value::Matrix(
            Seq::new(ids.len(), |i: int| Seq::new(ids[i].len(), |j: int| env.scalar(ids[i][j]))),
        ),
        OprView::Unary(a, kind) => match a.var_type {
            VarType::Scalar => Value::Scalar(unary_value(kind, env.scalar(a), f)),
            VarType::Vector => unary_on_vector(kind, env.vector(a), f),
            VarType::Matrix => unary_on_matrix(kind, env.matrix(a), f),
        },
        OprView::Binary(a, b, kind) => match kind {
            OprBinary::Cross => Value::Vector(cross_value(env.vector(a), env.vector(b))),
            OprBinary::Dot => Value::Scalar(
                dot_value(env.vector(a), env.vector(b), a.size->len as nat),
            ),
            _ => arithmetic_value(env, a, b, kind),
        },
    }
}

/// The environment after the nodes from position `from` up to position `to`
/// were run in order, each giving its identifier the value of its
/// operation.
pub open spec fn run(env: Env, body: Seq<ExprView>, from: nat, to: nat, f: Functions) -> Env
    decreases to,
{
    if to <= from {
        env
    } else {
        let before = run(env, body, from, (to - 1) as nat, f);
        before.set(body[to - 1].id.id, meaning(before, body[to - 1].opr, f))
    }
}

/// Whether the operation has an operand with the number `x`.
pub open spec fn reads(opr: OprView, x: usize) -> bool {
    match opr {
        OprView::ConstructScalar(id) => id.id == x,
        OprView::ConstructVector(ids) => exists|i: int| 0 <= i < ids.len() && #[trigger] ids[i].id == x,
        OprView::ConstructMatrix(ids) => exists|i: int, j: int|
            0 <= i < ids.len() && 0 <= j < ids[i].len() && #[trigger] ids[i][j].id == x,
        OprView::Unary(a, _) => a.id == x,
        OprView::Binary(a, b, _) => a.id == x || b.id == x,
        _ => false,
    }
}

/// The two environments give the same value to every operand of the
/// operation.
pub open spec fn agree_on(first: Env, second: Env, opr: OprView) -> bool {
    forall|x: usize| reads(opr, x) ==> first.value(x) == second.value(x)
}

/// The value of an operation depends on the values of its operands only.
pub proof fn lemma_meaning_reads(first: Env, second: Env, opr: OprView, f: Functions)
    requires
        agree_on(first, second, opr),
    ensures
        meaning(first, opr, f) == meaning(second, opr, f),
{
    match opr {
        OprView::ConstructScalar(id) => {
            assert(reads(opr, id.id));
        },
        OprView::ConstructVector(ids) => {
            assert forall|i: int| 0 <= i < ids.len() implies first.scalar(ids[i])
                == second.scalar(ids[i]) by {
                assert(reads(opr, ids[i].id));
            }
            assert(Seq::new(ids.len(), |i: int| first.scalar(ids[i])) =~= Seq::new(
                ids.len(),
                |i: int| second.scalar(ids[i]),
            ));
        },
        OprView::ConstructMatrix(ids) => {
            assert forall|i: int, j: int|
                0 <= i < ids.len() && 0 <= j < ids[i].len() implies first.scalar(ids[i][j])
                == second.scalar(ids[i][j]) by {
                assert(reads(opr, ids[i][j].id));
            }
            let a = Seq::new(
                ids.len(),
                |i: int| Seq::new(ids[i].len(), |j: int| first.scalar(ids[i][j])),
            );
            let b = Seq::new(
                ids.len(),
                |i: int| Seq::new(ids[i].len(), |j: int| second.scalar(ids[i][j])),
            );
            assert forall|i: int| 0 <= i < ids.len() implies a[i] =~= b[i] by {}
            assert(a =~= b);
        },
        OprView::Unary(a, _) => {
            assert(reads(opr, a.id));
        },
        OprView::Binary(a, b, _) => {
            assert(reads(opr, a.id));
            assert(reads(opr, b.id));
        },
        _ => {},
    }
}

/// Running nodes in two steps is running them in one.
pub proof fn lemma_run_split(env: Env, body: Seq<ExprView>, from: nat, mid: nat, to: nat, f: Functions)
    requires
        from <= mid <= to,
    ensures
        run(env, body, from, to, f) == run(run(env, body, from, mid, f), body, mid, to, f),
    decreases to,
{
    if to > mid {
        lemma_run_split(env, body, from, mid, (to - 1) as nat, f);
    }
}

/// Running nodes reads only the nodes that are run.
pub proof fn lemma_run_same_nodes(
    env: Env,
    first: Seq<ExprView>,
    second: Seq<ExprView>,
    from: nat,
    to: nat,
    f: Functions,
)
    requires
        forall|i: int| from <= i < to ==> first[i] == second[i],
    ensures
        run(env, first, from, to, f) == run(env, second, from, to, f),
    decreases to,
{
    if to > from {
        lemma_run_same_nodes(env, first, second, from, (to - 1) as nat, f);
    }
}

} // verus!
