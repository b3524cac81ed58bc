//! Tightened bounds keep what is feasible.

use crate::float::{finite, num_lt, FloatOp, Fpu, ZERO};
use crate::preprocessing::points::{free_variables, kept, lemma_kept, places, places_invert};
use crate::preprocessing::tightening::{
    constant_part, implied_range, row_constant, row_terms, tightened, TightenData,
};
use crate::preprocessing::{reduced_bounds, selected, tighten_data, Evaluations};
use crate::problem::ProblemShape;
use vstd::prelude::*;

verus! {

/// `x` lies between those of the bounds that are finite.
pub open spec fn within(x: real, l: u64, u: u64, value: spec_fn(u64) -> real) -> bool {
    &&& finite(l) ==> value(l) <= x
    &&& finite(u) ==> x <= value(u)
}

/// The range that a bound `b` of a row implies is exact: the difference to the
/// constant, and the quotient by the coefficient `a`.
pub open spec fn exact_bound<F: Fn(FloatOp, u64, u64) -> u64>(
    b: u64,
    constant: u64,
    a: u64,
    fpu: Fpu<F>,
    value: spec_fn(u64) -> real,
) -> bool {
    let d = fpu.difference(b, constant);
    finite(b) ==> value(d) == value(b) - value(constant) && value(fpu.quotient(d, a)) * value(a)
        == value(d)
}

/// Tightening by a row with the coefficient `a`, the bounds `l` and `u`, and the
/// constant `constant` makes no rounding error.
pub open spec fn exact_row<F: Fn(FloatOp, u64, u64) -> u64>(
    l: u64,
    u: u64,
    constant: u64,
    a: u64,
    fpu: Fpu<F>,
    value: spec_fn(u64) -> real,
) -> bool {
    &&& if num_lt(ZERO, a) {
        value(a) > (0 as real)
    } else {
        value(a) < (0 as real)
    }
    &&& exact_bound(l, constant, a, fpu, value)
    &&& exact_bound(u, constant, a, fpu, value)
}

/// The constant of a row is computed from its value `g` at `x0` without a rounding
/// error.
pub open spec fn exact_constant<F: Fn(FloatOp, u64, u64) -> u64>(
    g: u64,
    a: u64,
    x0: u64,
    fpu: Fpu<F>,
    value: spec_fn(u64) -> real,
) -> bool {
    &&& value(fpu.product(a, x0)) == value(a) * value(x0)
    &&& value(row_constant(g, a, x0, fpu)) == value(g) - value(fpu.product(a, x0))
}

/// Row `r` tightens a bound: it is linear, and one free variable is in it.
pub open spec fn tightens(d: TightenData, r: int) -> bool {
    d.linear[r] && row_terms(d.rows, d.cols, d.vals, d.free, r, d.rows.len()).len() == 1
}

/// The value of row `r` at `x`, if the row changes with its one free variable
/// only, and in proportion to that. Without the values of the constraints, the row
/// is taken to be what its entries make of the variables.
pub open spec fn affine_value<F: Fn(FloatOp, u64, u64) -> u64>(
    d: TightenData,
    r: int,
    x: Seq<real>,
    fpu: Fpu<F>,
    value: spec_fn(u64) -> real,
) -> real {
    let (c, a) = row_terms(d.rows, d.cols, d.vals, d.free, r, d.rows.len())[0];
    match d.g0 {
        Some(g) => value(g[r]) + value(a) * (x[c as int] - value(d.x0[c as int])),
        None => value(constant_part(d, r, c as int, a, fpu)) + value(a) * x[c as int],
    }
}

/// Every row that tightens a bound is exact, and holds at `x`.
pub open spec fn rows_hold<F: Fn(FloatOp, u64, u64) -> u64>(
    d: TightenData,
    x: Seq<real>,
    fpu: Fpu<F>,
    value: spec_fn(u64) -> real,
) -> bool {
    forall|r: int|
        0 <= r < d.linear.len() && #[trigger] tightens(d, r) ==> {
            let (c, a) = row_terms(d.rows, d.cols, d.vals, d.free, r, d.rows.len())[0];
            let constant = constant_part(d, r, c as int, a, fpu);
            &&& exact_row(d.g_l[r], d.g_u[r], constant, a, fpu, value)
            &&& d.g0 matches Some(g) ==> exact_constant(g[r], a, d.x0[c as int], fpu, value)
            &&& within(affine_value(d, r, x, fpu, value), d.g_l[r], d.g_u[r], value)
        }
}

proof fn lemma_quotient_below(q: real, a: real, x: real)
    by (nonlinear_arith)
    requires
        q * a <= x * a,
        a > (0 as real),
    ensures
        q <= x,
{
}

proof fn lemma_quotient_above(q: real, a: real, x: real)
    by (nonlinear_arith)
    requires
        q * a <= x * a,
        a < (0 as real),
    ensures
        x <= q,
{
}

/// What satisfies a row lies in the range that the row implies.
proof fn lemma_implied<F: Fn(FloatOp, u64, u64) -> u64>(
    l: u64,
    u: u64,
    constant: u64,
    a: u64,
    x: real,
    fpu: Fpu<F>,
    value: spec_fn(u64) -> real,
)
    requires
        exact_row(l, u, constant, a, fpu, value),
        within(value(constant) + value(a) * x, l, u, value),
    ensures
        ({
            let r = implied_range(l, u, constant, a, fpu);
            &&& finite(r.0) ==> value(r.0) <= x
            &&& finite(r.1) ==> x <= value(r.1)
        }),
{
    let av = value(a);
    assert(av * x == x * av) by (nonlinear_arith);
    if finite(l) {
        let q = value(fpu.quotient(fpu.difference(l, constant), a));
        assert(q * av <= x * av);
        if num_lt(ZERO, a) {
            lemma_quotient_below(q, av, x);
        } else {
            lemma_quotient_above(q, av, x);
        }
    }
    if finite(u) {
        let q = value(fpu.quotient(fpu.difference(u, constant), a));
        assert(x * av <= q * av);
        if num_lt(ZERO, a) {
            lemma_quotient_below(x, av, q);
        } else {
            lemma_quotient_above(x, av, q);
        }
    }
}

/// Tightening never cuts off a feasible point: what lies within the bounds of
/// the free variables, and satisfies every linear constraint in one free
/// variable, lies within the tightened bounds. No operation of the tightening
/// may make a rounding error.
pub proof fn tightening_keeps_feasible_points<F: Fn(FloatOp, u64, u64) -> u64>(
    d: TightenData,
    l: Seq<u64>,
    u: Seq<u64>,
    x: Seq<real>,
    k: nat,
    fpu: Fpu<F>,
    value: spec_fn(u64) -> real,
)
    requires
        d.free.len() <= usize::MAX,
        k <= d.linear.len(),
        l.len() == kept(d.free, d.free.len()).len(),
        u.len() == l.len(),
        forall|i: int| 0 <= i < d.rows.len() ==> (#[trigger] d.cols[i]) < d.free.len(),
        rows_hold(d, x, fpu, value),
        forall|j: int|
            0 <= j < l.len() ==> within(
                x[kept(d.free, d.free.len())[j] as int],
                #[trigger] l[j],
                u[j],
                value,
            ),
    ensures
        tightened(d, l, u, k, fpu).0.len() == l.len(),
        tightened(d, l, u, k, fpu).1.len() == l.len(),
        forall|j: int|
            0 <= j < l.len() ==> within(
                x[kept(d.free, d.free.len())[j] as int],
                #[trigger] tightened(d, l, u, k, fpu).0[j],
                tightened(d, l, u, k, fpu).1[j],
                value,
            ),
    decreases k,
{
    if k > 0 {
        tightening_keeps_feasible_points(d, l, u, x, (k - 1) as nat, fpu, value);
        let map = kept(d.free, d.free.len());
        let (bl, bu) = tightened(d, l, u, (k - 1) as nat, fpu);
        let (nl, nu) = tightened(d, l, u, k, fpu);
        let t = row_terms(d.rows, d.cols, d.vals, d.free, k - 1, d.rows.len());
        if tightens(d, k - 1) {
            let (c, a) = t[0];
            lemma_terms_free(d, k - 1, d.rows.len());
            places_invert(d.free, c as int);
            let j = places(d.free)[c as int]->Some_0 as int;
            let (av, y, x0) = (value(a), x[c as int], value(d.x0[c as int]));
            assert(av * (y - x0) == av * y - av * x0) by (nonlinear_arith);
            lemma_implied(
                d.g_l[k - 1],
                d.g_u[k - 1],
                constant_part(d, k - 1, c as int, a, fpu),
                a,
                y,
                fpu,
                value,
            );
            assert(within(x[map[j] as int], bl[j], bu[j], value));
            assert forall|i: int| 0 <= i < l.len() implies within(
                x[map[i] as int],
                #[trigger] nl[i],
                nu[i],
                value,
            ) by {
                assert(within(x[map[i] as int], bl[i], bu[i], value));
            }
        }
    }
}

/// The terms of a row are at free variables.
proof fn lemma_terms_free(d: TightenData, r: int, k: nat)
    requires
        k <= d.rows.len(),
        forall|i: int| 0 <= i < d.rows.len() ==> (#[trigger] d.cols[i]) < d.free.len(),
    ensures
        forall|i: int|
            #![trigger row_terms(d.rows, d.cols, d.vals, d.free, r, k)[i]]
            0 <= i < row_terms(d.rows, d.cols, d.vals, d.free, r, k).len() ==> {
                let c = row_terms(d.rows, d.cols, d.vals, d.free, r, k)[i].0;
                c < d.free.len() && d.free[c as int]
            },
    decreases k,
{
    if k > 0 {
        lemma_terms_free(d, r, (k - 1) as nat);
        let before = row_terms(d.rows, d.cols, d.vals, d.free, r, (k - 1) as nat);
        let now = row_terms(d.rows, d.cols, d.vals, d.free, r, k);
        assert forall|i: int| #![trigger now[i]] 0 <= i < now.len() implies ({
            let c = now[i].0;
            c < d.free.len() && d.free[c as int]
        }) by {
            if i < before.len() {
                assert(now[i] == before[i]);
            } else {
                assert(d.cols[k - 1] < d.free.len());
            }
        }
    }
}

/// The bounds of the reduced problem keep every feasible point of a problem
/// whose linear constraints are affine: a point within the bounds of the
/// variables, at which the constraints that tighten a bound hold, restricted to
/// the free variables. No operation of the tightening may make a rounding error.
pub proof fn reduced_bounds_keep_feasible_points<F: Fn(FloatOp, u64, u64) -> u64>(
    s: ProblemShape,
    e: Evaluations,
    bound_push: u64,
    x: Seq<real>,
    fpu: Fpu<F>,
    value: spec_fn(u64) -> real,
)
    requires
        s.well_formed(),
        s.n <= usize::MAX,
        match (e.t0, e.t1) {
            (Some(v0), Some(v1)) => rows_hold(
                tighten_data(s, v0, v1, e.tg, bound_push, fpu),
                x,
                fpu,
                value,
            ),
            _ => true,
        },
        forall|i: int| 0 <= i < s.n ==> within(x[i], #[trigger] s.x_l[i], s.x_u[i], value),
    ensures
        ({
            let map = kept(free_variables(s.x_l, s.x_u, fpu), s.n);
            let (l, u) = reduced_bounds(s, e, bound_push, fpu);
            &&& l.len() == map.len()
            &&& u.len() == map.len()
            &&& forall|j: int|
                0 <= j < map.len() ==> within(x[map[j] as int], #[trigger] l[j], u[j], value)
        }),
{
    let free = free_variables(s.x_l, s.x_u, fpu);
    let map = kept(free, s.n);
    let (l, u) = (selected(s.x_l, map), selected(s.x_u, map));
    lemma_kept(free, s.n);
    assert forall|j: int| 0 <= j < map.len() implies within(
        x[map[j] as int],
        #[trigger] l[j],
        u[j],
        value,
    ) by {
        assert(within(x[map[j] as int], s.x_l[map[j] as int], s.x_u[map[j] as int], value));
    }
    match (e.t0, e.t1) {
        (Some(v0), Some(v1)) => {
            let d = tighten_data(s, v0, v1, e.tg, bound_push, fpu);
            tightening_keeps_feasible_points(d, l, u, x, s.m, fpu, value);
        },
        _ => {},
    }
}

} // verus!
