//! Reference values of symbolic operations, element by element, and the
//! bookkeeping for operations that append several nodes.

use vstd::prelude::*;
use crate::expr::{real_grid_view, reals_view, OprBinary, OprView};
use crate::identifier::{IdSize, IdentView};
use crate::rational::Real;
use crate::session::SessionView;

verus! {

/// The value of an arithmetic operation on `x` and `y`. The cross and dot
/// products are no operations on two numbers and yield zero here.
pub open spec fn apply(kind: OprBinary, x: real, y: real) -> real {
    match kind {
        OprBinary::Add => x + y,
        OprBinary::Sub => x - y,
        OprBinary::Mul => x * y,
        OprBinary::Div => x / y,
        _ => 0real,
    }
}

/// Whether `kind` is one of the four arithmetic operations.
pub open spec fn is_arithmetic(kind: OprBinary) -> bool {
    kind == OprBinary::Add || kind == OprBinary::Sub || kind == OprBinary::Mul || kind
        == OprBinary::Div
}

/// `kind` can be applied with `y` on the right: no division by zero.
pub open spec fn defined_on(kind: OprBinary, y: real) -> bool {
    is_arithmetic(kind) && (kind == OprBinary::Div ==> y != 0real)
}

/// `kind` can be applied with every element of `ys` on the right.
pub open spec fn defined_on_all(kind: OprBinary, ys: Seq<real>) -> bool {
    is_arithmetic(kind) && (kind == OprBinary::Div ==> forall|i: int|
        0 <= i < ys.len() ==> ys[i] != 0real)
}

/// `kind` can be applied with every cell of `ys` on the right.
pub open spec fn defined_on_grid(kind: OprBinary, ys: Seq<Seq<real>>) -> bool {
    is_arithmetic(kind) && (kind == OprBinary::Div ==> forall|i: int, j: int|
        0 <= i < ys.len() && 0 <= j < ys[i].len() ==> ys[i][j] != 0real)
}

/// Element by element.
pub open spec fn zip_values(kind: OprBinary, a: Seq<real>, b: Seq<real>) -> Seq<real> {
    Seq::new(a.len(), |i: int| apply(kind, a[i], b[i]))
}

/// Each element with `s` on its right.
pub open spec fn spread_right(kind: OprBinary, a: Seq<real>, s: real) -> Seq<real> {
    Seq::new(a.len(), |i: int| apply(kind, a[i], s))
}

/// Cell by cell.
pub open spec fn zip_grid_values(kind: OprBinary, a: Seq<Seq<real>>, b: Seq<Seq<real>>) -> Seq<
    Seq<real>,
> {
    Seq::new(a.len(), |i: int| zip_values(kind, a[i], b[i]))
}

/// Each cell with `s` on its right.
pub open spec fn spread_right_grid(kind: OprBinary, a: Seq<Seq<real>>, s: real) -> Seq<Seq<real>> {
    Seq::new(a.len(), |i: int| spread_right(kind, a[i], s))
}

/// Each element negated.
pub open spec fn negated(a: Seq<real>) -> Seq<real> {
    Seq::new(a.len(), |i: int| -a[i])
}

/// Each cell negated.
pub open spec fn negated_grid(a: Seq<Seq<real>>) -> Seq<Seq<real>> {
    Seq::new(a.len(), |i: int| negated(a[i]))
}

/// Every row has `cols` cells.
pub open spec fn is_grid<T>(rows: Seq<Seq<T>>, cols: nat) -> bool {
    forall|i: int| 0 <= i < rows.len() ==> (#[trigger] rows[i]).len() == cols
}

/// The two grids have the same number of rows, and row by row the same
/// number of cells.
pub open spec fn same_shape<A, B>(a: Seq<Seq<A>>, b: Seq<Seq<B>>) -> bool {
    a.len() == b.len() && forall|i: int| 0 <= i < a.len() ==> (#[trigger] a[i]).len() == b[i].len()
}

/// The sum of the products of the first `n` pairs of elements, taken in
/// order from zero.
pub open spec fn dot_value(a: Seq<real>, b: Seq<real>, n: nat) -> real
    decreases n,
{
    if n == 0 {
        0real
    } else {
        dot_value(a, b, (n - 1) as nat) + a[n - 1] * b[n - 1]
    }
}

/// Column `j` of a grid.
pub open spec fn column<T>(rows: Seq<Seq<T>>, j: int) -> Seq<T> {
    Seq::new(rows.len(), |i: int| rows[i][j])
}

/// The value of one arithmetic operation.
pub fn combine(kind: OprBinary, a: &Real, b: &Real) -> (r: Real)
    requires
        defined_on(kind, b@),
    ensures
        r@ == apply(kind, a@, b@),
{
    match kind {
        OprBinary::Add => a.add(b),
        OprBinary::Sub => a.sub(b),
        OprBinary::Mul => a.mul(b),
        _ => a.div(b),
    }
}

/// The values of an operation element by element.
pub fn combine_rows(kind: OprBinary, a: &Vec<Real>, b: &Vec<Real>) -> (r: Vec<Real>)
    requires
        a@.len() == b@.len(),
        defined_on_all(kind, reals_view(b@)),
    ensures
        reals_view(r@) == zip_values(kind, reals_view(a@), reals_view(b@)),
        r@.len() == a@.len(),
{
    let mut out: Vec<Real> = Vec::new();
    let mut i: usize = 0;
    while i < a.len()
        invariant
            i <= a.len(),
            a@.len() == b@.len(),
            defined_on_all(kind, reals_view(b@)),
            out@.len() == i,
            forall|k: int| 0 <= k < i ==> (#[trigger] out@[k])@ == apply(kind, a@[k]@, b@[k]@),
        decreases a.len() - i,
    {
        assert(reals_view(b@)[i as int] == b@[i as int]@);
        out.push(combine(kind, &a[i], &b[i]));
        i += 1;
    }
    assert(reals_view(out@) =~= zip_values(kind, reals_view(a@), reals_view(b@)));
    out
}

/// The values of an operation with `s` on the right of each element.
pub fn combine_spread(kind: OprBinary, a: &Vec<Real>, s: &Real) -> (r: Vec<Real>)
    requires
        defined_on(kind, s@),
    ensures
        reals_view(r@) == spread_right(kind, reals_view(a@), s@),
        r@.len() == a@.len(),
{
    let mut out: Vec<Real> = Vec::new();
    let mut i: usize = 0;
    while i < a.len()
        invariant
            i <= a.len(),
            defined_on(kind, s@),
            out@.len() == i,
            forall|k: int| 0 <= k < i ==> (#[trigger] out@[k])@ == apply(kind, a@[k]@, s@),
        decreases a.len() - i,
    {
        out.push(combine(kind, &a[i], s));
        i += 1;
    }
    assert(reals_view(out@) =~= spread_right(kind, reals_view(a@), s@));
    out
}

/// The values of an operation cell by cell.
pub fn combine_grids(kind: OprBinary, a: &Vec<Vec<Real>>, b: &Vec<Vec<Real>>) -> (r: Vec<
    Vec<Real>,
>)
    requires
        same_shape(real_grid_view(a@), real_grid_view(b@)),
        defined_on_grid(kind, real_grid_view(b@)),
    ensures
        real_grid_view(r@) == zip_grid_values(kind, real_grid_view(a@), real_grid_view(b@)),
        same_shape(real_grid_view(r@), real_grid_view(a@)),
{
    let mut out: Vec<Vec<Real>> = Vec::new();
    let mut i: usize = 0;
    while i < a.len()
        invariant
            i <= a.len(),
            same_shape(real_grid_view(a@), real_grid_view(b@)),
            defined_on_grid(kind, real_grid_view(b@)),
            out@.len() == i,
            forall|k: int|
                0 <= k < i ==> reals_view((#[trigger] out@[k])@) == zip_values(
                    kind,
                    reals_view(a@[k]@),
                    reals_view(b@[k]@),
                ),
        decreases a.len() - i,
    {
        proof {
            assert(real_grid_view(a@)[i as int].len() == real_grid_view(b@)[i as int].len());
            assert forall|j: int| 0 <= j < b@[i as int]@.len() && kind
                == OprBinary::Div implies reals_view(b@[i as int]@)[j] != 0real by {
                assert(real_grid_view(b@)[i as int][j] == reals_view(b@[i as int]@)[j]);
            }
        }
        out.push(combine_rows(kind, &a[i], &b[i]));
        i += 1;
    }
    assert(real_grid_view(out@) =~= zip_grid_values(kind, real_grid_view(a@), real_grid_view(b@)));
    assert(same_shape(real_grid_view(out@), real_grid_view(a@))) by {
        assert forall|k: int| 0 <= k < out@.len() implies (#[trigger] real_grid_view(
            out@,
        )[k]).len() == real_grid_view(a@)[k].len() by {
            assert(reals_view(out@[k]@).len() == reals_view(a@[k]@).len());
        }
    }
    out
}

/// The values of an operation with `s` on the right of each cell.
pub fn combine_spread_grid(kind: OprBinary, a: &Vec<Vec<Real>>, s: &Real) -> (r: Vec<Vec<Real>>)
    requires
        defined_on(kind, s@),
    ensures
        real_grid_view(r@) == spread_right_grid(kind, real_grid_view(a@), s@),
        same_shape(real_grid_view(r@), real_grid_view(a@)),
{
    let mut out: Vec<Vec<Real>> = Vec::new();
    let mut i: usize = 0;
    while i < a.len()
        invariant
            i <= a.len(),
            defined_on(kind, s@),
            out@.len() == i,
            forall|k: int|
                0 <= k < i ==> reals_view((#[trigger] out@[k])@) == spread_right(
                    kind,
                    reals_view(a@[k]@),
                    s@,
                ),
        decreases a.len() - i,
    {
        out.push(combine_spread(kind, &a[i], s));
        i += 1;
    }
    assert(real_grid_view(out@) =~= spread_right_grid(kind, real_grid_view(a@), s@));
    assert(same_shape(real_grid_view(out@), real_grid_view(a@))) by {
        assert forall|k: int| 0 <= k < out@.len() implies (#[trigger] real_grid_view(
            out@,
        )[k]).len() == real_grid_view(a@)[k].len() by {
            assert(reals_view(out@[k]@).len() == reals_view(a@[k]@).len());
        }
    }
    out
}

/// Each element negated.
pub fn negate_values(a: &Vec<Real>) -> (r: Vec<Real>)
    ensures
        reals_view(r@) == negated(reals_view(a@)),
        r@.len() == a@.len(),
{
    let mut out: Vec<Real> = Vec::new();
    let mut i: usize = 0;
    while i < a.len()
        invariant
            i <= a.len(),
            out@.len() == i,
            forall|k: int| 0 <= k < i ==> (#[trigger] out@[k])@ == -a@[k]@,
        decreases a.len() - i,
    {
        out.push(a[i].neg());
        i += 1;
    }
    assert(reals_view(out@) =~= negated(reals_view(a@)));
    out
}

/// Each cell negated.
pub fn negate_grid(a: &Vec<Vec<Real>>) -> (r: Vec<Vec<Real>>)
    ensures
        real_grid_view(r@) == negated_grid(real_grid_view(a@)),
        same_shape(real_grid_view(r@), real_grid_view(a@)),
{
    let mut out: Vec<Vec<Real>> = Vec::new();
    let mut i: usize = 0;
    while i < a.len()
        invariant
            i <= a.len(),
            out@.len() == i,
            forall|k: int|
                0 <= k < i ==> reals_view((#[trigger] out@[k])@) == negated(reals_view(a@[k]@)),
        decreases a.len() - i,
    {
        out.push(negate_values(&a[i]));
        i += 1;
    }
    assert(real_grid_view(out@) =~= negated_grid(real_grid_view(a@)));
    assert(same_shape(real_grid_view(out@), real_grid_view(a@))) by {
        assert forall|k: int| 0 <= k < out@.len() implies (#[trigger] real_grid_view(
            out@,
        )[k]).len() == real_grid_view(a@)[k].len() by {
            assert(reals_view(out@[k]@).len() == reals_view(a@[k]@).len());
        }
    }
    out
}

/// What one appended node is made from: the requested name, the shape of
/// its identifier, and its operation.
pub struct Request {
    pub name: Seq<char>,
    pub size: IdSize,
    pub opr: OprView,
}

impl SessionView {
    /// The session after the first `n` requests were bound, in order.
    pub open spec fn bind_all(self, requests: Seq<Request>, n: nat) -> SessionView
        decreases n,
    {
        if n == 0 {
            self
        } else {
            self.bind_all(requests, (n - 1) as nat).bind(
                requests[n - 1].name,
                requests[n - 1].size,
                requests[n - 1].opr,
            )
        }
    }

    /// The identifiers that `bind_all` creates, in order.
    pub open spec fn bound_all(self, requests: Seq<Request>, n: nat) -> Seq<IdentView>
        decreases n,
    {
        if n == 0 {
            Seq::empty()
        } else {
            self.bound_all(requests, (n - 1) as nat).push(
                self.bind_all(requests, (n - 1) as nat).bound(
                    requests[n - 1].name,
                    requests[n - 1].size,
                ),
            )
        }
    }

    /// The session after the first `n` rows of requests were bound, row by
    /// row.
    pub open spec fn bind_rows(self, rows: Seq<Seq<Request>>, n: nat) -> SessionView
        decreases n,
    {
        if n == 0 {
            self
        } else {
            self.bind_rows(rows, (n - 1) as nat).bind_all(rows[n - 1], rows[n - 1].len())
        }
    }

    /// The identifiers that `bind_rows` creates, row by row.
    pub open spec fn bound_rows(self, rows: Seq<Seq<Request>>, n: nat) -> Seq<Seq<IdentView>>
        decreases n,
    {
        if n == 0 {
            Seq::empty()
        } else {
            self.bound_rows(rows, (n - 1) as nat).push(
                self.bind_rows(rows, (n - 1) as nat).bound_all(rows[n - 1], rows[n - 1].len()),
            )
        }
    }
}

} // verus!
