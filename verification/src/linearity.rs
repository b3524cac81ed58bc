//! Detection of linear constraints.
//!
//! A constraint whose Jacobian entries are the same at two points counts as
//! linear, if every variable that it depends on could be moved.

use crate::float::{
    abs, absolute, finite, is_finite, le, lt, num_le, num_lt, FloatOp, Fpu, ONE, TENTH, TEN_M12,
    TEN_M20, TEN_M4, ZERO,
};
use crate::preprocessing::points::{constant_rows, row_is_constant};
use crate::problem::{outcome, NlpProblem, ProblemShape};
use vstd::prelude::*;

verus! {

/// The value held within those of its bounds that are finite.
pub open spec fn held<F: Fn(FloatOp, u64, u64) -> u64>(
    v: u64,
    l: u64,
    u: u64,
    fpu: Fpu<F>,
) -> u64 {
    let a = if finite(l) {
        fpu.calc(FloatOp::Max, v, l)
    } else {
        v
    };
    if finite(u) {
        fpu.calc(FloatOp::Min, a, u)
    } else {
        a
    }
}

/// A value away from `x` and within its bounds: up where that is far enough,
/// else down.
pub open spec fn displaced<F: Fn(FloatOp, u64, u64) -> u64>(
    x: u64,
    l: u64,
    u: u64,
    fpu: Fpu<F>,
) -> u64 {
    let step = fpu.sum(ONE, fpu.product(TENTH, absolute(x)));
    let up = held(fpu.sum(x, step), l, u, fpu);
    if num_lt(absolute(fpu.difference(up, x)), TEN_M4) {
        held(fpu.difference(x, step), l, u, fpu)
    } else {
        up
    }
}

/// The second point.
pub open spec fn second_point<F: Fn(FloatOp, u64, u64) -> u64>(
    s: ProblemShape,
    x0: Seq<u64>,
    fpu: Fpu<F>,
) -> Seq<u64> {
    Seq::new(s.n, |i: int| displaced(x0[i], s.x_l[i], s.x_u[i], fpu))
}

/// Variable `i` could be moved far enough.
pub open spec fn is_moved<F: Fn(FloatOp, u64, u64) -> u64>(
    s: ProblemShape,
    x0: Seq<u64>,
    i: int,
    fpu: Fpu<F>,
) -> bool {
    num_le(TEN_M4, absolute(fpu.difference(second_point(s, x0, fpu)[i], x0[i])))
}

/// Every variable with an entry of some size in row `r` could be moved.
pub open spec fn is_tested<F: Fn(FloatOp, u64, u64) -> u64>(
    s: ProblemShape,
    x0: Seq<u64>,
    v0: Seq<u64>,
    r: int,
    fpu: Fpu<F>,
) -> bool {
    forall|k: int|
        0 <= k < s.jac_rows.len() && #[trigger] s.jac_rows[k] == r ==> is_moved(
            s,
            x0,
            s.jac_cols[k] as int,
            fpu,
        ) || !num_lt(TEN_M20, absolute(v0[k]))
}

/// Which constraints are linear, where `v0` and `v1` are the Jacobian entries at
/// the two points.
pub open spec fn linear_constraints<F: Fn(FloatOp, u64, u64) -> u64>(
    s: ProblemShape,
    x0: Seq<u64>,
    v0: Seq<u64>,
    v1: Seq<u64>,
    fpu: Fpu<F>,
) -> Seq<bool> {
    Seq::new(
        s.m,
        |r: int|
            row_is_constant(s.jac_rows, v0, v1, TEN_M12, r, fpu) && is_tested(s, x0, v0, r, fpu),
    )
}

/// Which constraints are linear by the Jacobians at the two points: none, where
/// one of them could not be evaluated.
pub open spec fn linear_by<F: Fn(FloatOp, u64, u64) -> u64>(
    s: ProblemShape,
    x0: Seq<u64>,
    a: Option<Seq<u64>>,
    b: Option<Seq<u64>>,
    fpu: Fpu<F>,
) -> Seq<bool> {
    match (a, b) {
        (Some(v0), Some(v1)) => linear_constraints(s, x0, v0, v1, fpu),
        _ => Seq::new(s.m, |r: int| false),
    }
}

/// The Jacobian gives `a` and `b` at the two points.
pub open spec fn jacobians_at<P: NlpProblem + ?Sized, F: Fn(FloatOp, u64, u64) -> u64>(
    p: &P,
    x0: Seq<u64>,
    a: Option<Seq<u64>>,
    b: Option<Seq<u64>>,
    fpu: Fpu<F>,
) -> bool {
    let s = p.shape();
    &&& p.jacobian_gives(x0, a) && (a matches Some(v) ==> v.len() == s.jac_rows.len())
    &&& p.jacobian_gives(second_point(s, x0, fpu), b) && (b matches Some(v) ==> v.len()
        == s.jac_rows.len())
}

fn hold<F: Fn(FloatOp, u64, u64) -> u64>(v: u64, l: u64, u: u64, fpu: &Fpu<F>) -> (r: u64)
    requires
        fpu.sound(),
    ensures
        r == held(v, l, u, *fpu),
{
    let mut r: u64 = v;
    if is_finite(l) {
        r = fpu.max(r, l);
    }
    if is_finite(u) {
        r = fpu.min(r, u);
    }
    r
}

/// Which constraints are linear. Where an evaluation fails none is taken for
/// linear.
pub fn detect_linear_constraints<P: NlpProblem + ?Sized, F: Fn(FloatOp, u64, u64) -> u64>(
    problem: &P,
    x0: &[u64],
    fpu: &Fpu<F>,
) -> (linear: Vec<bool>)
    requires
        fpu.sound(),
        problem.posed(),
        problem.shape().well_formed(),
        x0@.len() == problem.shape().n,
    ensures
        linear@.len() == problem.shape().m,
        problem.shape().jac_rows.len() == 0 ==> linear@ == Seq::new(
            problem.shape().m,
            |r: int| true,
        ),
        problem.shape().m > 0 && problem.shape().jac_rows.len() > 0 ==> exists|
            a: Option<Seq<u64>>,
            b: Option<Seq<u64>>,
        | #[trigger]
            jacobians_at(problem, x0@, a, b, *fpu) && linear@ == linear_by(
                problem.shape(),
                x0@,
                a,
                b,
                *fpu,
            ),
{
    let n: usize = problem.num_variables();
    let m: usize = problem.num_constraints();
    if m == 0 {
        return Vec::new();
    }
    let ghost s = problem.shape();
    let (rows, cols): (Vec<usize>, Vec<usize>) = problem.jacobian_structure();
    let nnz: usize = rows.len();
    if nnz == 0 {
        return vec![true; m];
    }
    let mut x_l: Vec<u64> = vec![ZERO; n];
    let mut x_u: Vec<u64> = vec![ZERO; n];
    problem.bounds(&mut x_l, &mut x_u);
    let mut v0: Vec<u64> = vec![ZERO; nnz];
    let ok0: bool = problem.jacobian_values(x0, true, &mut v0);
    let mut x1: Vec<u64> = Vec::with_capacity(n);
    let mut moved: Vec<bool> = Vec::with_capacity(n);
    for i in 0..n
        invariant
            fpu.sound(),
            n == s.n,
            x0@.len() == n,
            s.x_l == x_l@,
            s.x_u == x_u@,
            x_l@.len() == n,
            x_u@.len() == n,
            x1@ == second_point(s, x0@, *fpu).take(i as int),
            moved@.len() == i,
            forall|k: int| 0 <= k < i ==> #[trigger] moved@[k] == is_moved(s, x0@, k, *fpu),
    {
        let x: u64 = x0[i];
        let step: u64 = fpu.add(ONE, fpu.mul(TENTH, abs(x)));
        let mut v: u64 = hold(fpu.add(x, step), x_l[i], x_u[i], fpu);
        if lt(abs(fpu.sub(v, x)), TEN_M4) {
            v = hold(fpu.sub(x, step), x_l[i], x_u[i], fpu);
        }
        assert(v == second_point(s, x0@, *fpu)[i as int]);
        x1.push(v);
        moved.push(le(TEN_M4, abs(fpu.sub(v, x))));
        assert(x1@ =~= second_point(s, x0@, *fpu).take(i + 1));
    }
    assert(x1@ =~= second_point(s, x0@, *fpu));
    let mut v1: Vec<u64> = vec![ZERO; nnz];
    let ok1: bool = problem.jacobian_values(&x1, true, &mut v1);
    let ghost a = outcome(ok0, v0@);
    let ghost b = outcome(ok1, v1@);
    assert(jacobians_at(problem, x0@, a, b, *fpu));
    if !ok0 || !ok1 {
        let linear: Vec<bool> = vec![false; m];
        assert(linear@ =~= linear_by(s, x0@, a, b, *fpu));
        return linear;
    }
    let mut tested: Vec<bool> = vec![true; m];
    for k in 0..nnz
        invariant
            nnz == rows@.len(),
            s.well_formed(),
            rows@ == s.jac_rows,
            cols@ == s.jac_cols,
            m == s.m,
            n == s.n,
            v0@.len() == nnz,
            moved@.len() == n,
            forall|k: int| 0 <= k < n ==> #[trigger] moved@[k] == is_moved(s, x0@, k, *fpu),
            tested@.len() == m,
            forall|r: int|
                0 <= r < m ==> #[trigger] tested@[r] == (forall|q: int|
                    0 <= q < k && #[trigger] s.jac_rows[q] == r ==> is_moved(
                        s,
                        x0@,
                        s.jac_cols[q] as int,
                        *fpu,
                    ) || !num_lt(TEN_M20, absolute(v0@[q]))),
    {
        let row: usize = rows[k];
        let col: usize = cols[k];
        assert(s.jac_rows[k as int] < s.m);
        assert(s.jac_cols[k as int] < s.n);
        let ghost was = tested@;
        if !moved[col] && lt(TEN_M20, abs(v0[k])) {
            tested.set(row, false);
        }
        proof {
            assert forall|r: int| 0 <= r < m implies #[trigger] tested@[r] == (forall|q: int|
                0 <= q < k + 1 && #[trigger] s.jac_rows[q] == r ==> is_moved(
                    s,
                    x0@,
                    s.jac_cols[q] as int,
                    *fpu,
                ) || !num_lt(TEN_M20, absolute(v0@[q]))) by {
                assert(was[r] == (forall|q: int|
                    0 <= q < k && #[trigger] s.jac_rows[q] == r ==> is_moved(
                        s,
                        x0@,
                        s.jac_cols[q] as int,
                        *fpu,
                    ) || !num_lt(TEN_M20, absolute(v0@[q]))));
                assert(s.jac_rows[k as int] == row);
            }
        }
    }
    let mut linear: Vec<bool> = constant_rows(m, &rows, &v0, &v1, TEN_M12, fpu);
    let ghost same = linear@;
    for i in 0..m
        invariant
            linear@.len() == m,
            tested@.len() == m,
            same.len() == m,
            forall|r: int|
                0 <= r < m ==> #[trigger] linear@[r] == if r < i {
                    same[r] && tested@[r]
                } else {
                    same[r]
                },
    {
        if !tested[i] {
            linear.set(i, false);
        }
    }
    assert(linear@ =~= linear_constraints(s, x0@, v0@, v1@, *fpu)) by {
        assert forall|r: int| 0 <= r < m implies linear@[r] == #[trigger] linear_constraints(
            s,
            x0@,
            v0@,
            v1@,
            *fpu,
        )[r] by {
            assert(same[r] == row_is_constant(rows@, v0@, v1@, TEN_M12, r, *fpu));
            assert(tested@[r] == is_tested(s, x0@, v0@, r, *fpu));
        }
    }
    linear
}

} // verus!
