//! A reduced problem stands for the problem that it was made from.

use crate::float::{
    absolute, finite, num_lt, FloatOp, Fpu, ONE, TENTH, TEN_M10, TEN_M4, TWO, ZERO,
};
use crate::kkt::barrier::zeros;
use crate::kkt_aug::system::scattered;
use crate::linear_solver::real_matrix::{
    exact, picks_larger, picks_smaller, reads_numbers, reads_order,
};
use crate::preprocessing::feasibility::within;
use crate::preprocessing::points::{
    fixed_values, free_variables, kept, lemma_kept, moved, places, places_invert,
};
use crate::preprocessing::redundancy::{kept_constraints, RedundancyData};
use crate::preprocessing::repetition::{affine_at, distinct_numbers, left_out_constraints_hold};
use crate::preprocessing::tightening::{
    constant_part, implied_range, narrowed, row_terms, tightened, TightenData,
};
use crate::preprocessing::{
    constraints_kept, looks_at_bounds, looks_at_pairs, reduction_of, remapped, selected,
    tighten_data, Evaluations, PreprocessedProblem,
};
use crate::problem::{NlpProblem, ProblemShape};
use vstd::prelude::*;

verus! {

/// A variable is fixed if and only if both of its bounds are finite and closer than
/// `1e-10`; then its value is the mean of its bounds, and so within them.
pub proof fn fixed_variables_lie_between_their_bounds<F: Fn(FloatOp, u64, u64) -> u64>(
    x_l: Seq<u64>,
    x_u: Seq<u64>,
    i: int,
    fpu: Fpu<F>,
    value: spec_fn(u64) -> real,
)
    requires
        0 <= i < x_l.len(),
        value(TWO) == (2 as real),
        finite(x_l[i]) && finite(x_u[i]) ==> {
            &&& exact(FloatOp::Add, x_l[i], x_u[i], fpu, value)
            &&& exact(FloatOp::Div, fpu.sum(x_l[i], x_u[i]), TWO, fpu, value)
            &&& value(x_l[i]) <= value(x_u[i])
        },
    ensures
        !free_variables(x_l, x_u, fpu)[i] <==> finite(x_l[i]) && finite(x_u[i]) && num_lt(
            absolute(fpu.difference(x_u[i], x_l[i])),
            TEN_M10,
        ),
        !free_variables(x_l, x_u, fpu)[i] ==> {
            let v = value(fixed_values(x_l, x_u, fpu)[i]);
            &&& v + v == value(x_l[i]) + value(x_u[i])
            &&& within(v, x_l[i], x_u[i], value)
        },
{
    if !free_variables(x_l, x_u, fpu)[i] {
        let v = value(fixed_values(x_l, x_u, fpu)[i]);
        assert(v * (2 as real) == v + v) by (nonlinear_arith);
    }
}

/// What is within a narrowed range is within the range.
proof fn lemma_narrowed<F: Fn(FloatOp, u64, u64) -> u64>(
    range: (u64, u64),
    other: (u64, u64),
    bound_push: u64,
    x: real,
    fpu: Fpu<F>,
    value: spec_fn(u64) -> real,
)
    requires
        reads_order(value),
        within(
            x,
            narrowed(range, other, bound_push, fpu).0,
            narrowed(range, other, bound_push, fpu).1,
            value,
        ),
    ensures
        within(x, range.0, range.1, value),
{
    let r = narrowed(range, other, bound_push, fpu);
    if finite(range.0) && r.0 != range.0 {
        assert(num_lt(range.0, r.0) <==> value(range.0) < value(r.0));
    }
    if finite(range.1) && r.1 != range.1 {
        assert(num_lt(r.1, range.1) <==> value(r.1) < value(range.1));
    }
}

/// Tightening only narrows: a point within the tightened bounds is within the bounds.
pub proof fn tightening_only_narrows<F: Fn(FloatOp, u64, u64) -> u64>(
    d: TightenData,
    l: Seq<u64>,
    u: Seq<u64>,
    k: nat,
    x: Seq<real>,
    fpu: Fpu<F>,
    value: spec_fn(u64) -> real,
)
    requires
        reads_order(value),
        d.free.len() <= usize::MAX,
        l.len() == kept(d.free, d.free.len()).len(),
        u.len() == l.len(),
        x.len() == l.len(),
        forall|i: int| 0 <= i < d.rows.len() ==> (#[trigger] d.cols[i]) < d.free.len(),
        tightened(d, l, u, k, fpu).0.len() == l.len(),
        tightened(d, l, u, k, fpu).1.len() == l.len(),
        forall|j: int|
            0 <= j < l.len() ==> within(
                #[trigger] x[j],
                tightened(d, l, u, k, fpu).0[j],
                tightened(d, l, u, k, fpu).1[j],
                value,
            ),
    ensures
        forall|j: int| 0 <= j < l.len() ==> within(#[trigger] x[j], l[j], u[j], value),
    decreases k,
{
    if k > 0 {
        lemma_tightened_len(d, l, u, (k - 1) as nat, fpu);
        let (bl, bu) = tightened(d, l, u, (k - 1) as nat, fpu);
        let (nl, nu) = tightened(d, l, u, k, fpu);
        assert forall|j: int| 0 <= j < l.len() implies within(
            #[trigger] x[j],
            bl[j],
            bu[j],
            value,
        ) by {
            assert(within(x[j], nl[j], nu[j], value));
            let t = row_terms(
                d.rows,
                d.cols,
                d.vals,
                d.free,
                k - 1,
                d.rows.len(),
            );
            if d.linear[k - 1] && t.len() == 1 {
                let (c, a) = t[0];
                lemma_term_column(d, k - 1, d.rows.len());
                if d.free[c as int] {
                    places_invert(d.free, c as int);
                }
                match places(d.free)[c as int] {
                    Some(p) => {
                        if p == j {
                            let constant = constant_part(
                                d,
                                k - 1,
                                c as int,
                                a,
                                fpu,
                            );
                            let other = implied_range(
                                d.g_l[k - 1],
                                d.g_u[k - 1],
                                constant,
                                a,
                                fpu,
                            );
                            lemma_narrowed(
                                (bl[j], bu[j]),
                                other,
                                d.bound_push,
                                x[j],
                                fpu,
                                value,
                            );
                        }
                    },
                    None => {},
                }
            }
        }
        tightening_only_narrows(d, l, u, (k - 1) as nat, x, fpu, value);
    }
}

proof fn lemma_tightened_len<F: Fn(FloatOp, u64, u64) -> u64>(
    d: TightenData,
    l: Seq<u64>,
    u: Seq<u64>,
    k: nat,
    fpu: Fpu<F>,
)
    requires
        d.free.len() <= usize::MAX,
        l.len() == kept(d.free, d.free.len()).len(),
        u.len() == l.len(),
        forall|i: int| 0 <= i < d.rows.len() ==> (#[trigger] d.cols[i]) < d.free.len(),
    ensures
        tightened(d, l, u, k, fpu).0.len() == l.len(),
        tightened(d, l, u, k, fpu).1.len() == l.len(),
    decreases k,
{
    if k > 0 {
        lemma_tightened_len(d, l, u, (k - 1) as nat, fpu);
        let t = row_terms(
            d.rows,
            d.cols,
            d.vals,
            d.free,
            k - 1,
            d.rows.len(),
        );
        if t.len() == 1 {
            lemma_term_column(d, k - 1, d.rows.len());
            let c = t[0].0 as int;
            if d.free[c] {
                places_invert(d.free, c);
            }
        }
    }
}

proof fn lemma_term_column(d: TightenData, r: int, k: nat)
    requires
        k <= d.rows.len(),
        forall|i: int| 0 <= i < d.rows.len() ==> (#[trigger] d.cols[i]) < d.free.len(),
    ensures
        forall|i: int|
            #![trigger row_terms(d.rows, d.cols, d.vals, d.free, r, k)[i]]
            0 <= i < row_terms(
                d.rows,
                d.cols,
                d.vals,
                d.free,
                r,
                k,
            ).len() ==> row_terms(
                d.rows,
                d.cols,
                d.vals,
                d.free,
                r,
                k,
            )[i].0 < d.free.len(),
    decreases k,
{
    if k > 0 {
        lemma_term_column(d, r, (k - 1) as nat);
        let before = row_terms(
            d.rows,
            d.cols,
            d.vals,
            d.free,
            r,
            (k - 1) as nat,
        );
        let now = row_terms(
            d.rows,
            d.cols,
            d.vals,
            d.free,
            r,
            k,
        );
        assert(d.cols[k - 1] < d.free.len());
        assert forall|i: int| #![trigger now[i]] 0 <= i < now.len() implies now[i].0
            < d.free.len() by {
            if i < before.len() {
                assert(now[i] == before[i]);
            }
        }
    }
}

/// A point within the bounds of the reduced problem, with the fixed variables at their
/// values, is within the bounds of the problem.
pub proof fn expanded_points_keep_the_bounds<
    P: NlpProblem + ?Sized,
    F: Fn(FloatOp, u64, u64) -> u64,
>(
    p: PreprocessedProblem<'_, P>,
    e: Evaluations,
    bound_push: u64,
    x: Seq<u64>,
    i: int,
    fpu: Fpu<F>,
    value: spec_fn(u64) -> real,
)
    requires
        p.well_formed(),
        p.model() == reduction_of(p.inner.shape(), e, bound_push, fpu),
        reads_order(value),
        x.len() == p.var_map@.len(),
        0 <= i < p.n_orig,
        forall|j: int|
            0 <= j < x.len() ==> within(
                value(#[trigger] x[j]),
                p.shape().x_l[j],
                p.shape().x_u[j],
                value,
            ),
        ({
            let s = p.inner.shape();
            &&& value(TWO) == (2 as real)
            &&& finite(s.x_l[i]) && finite(s.x_u[i]) ==> {
                &&& exact(FloatOp::Add, s.x_l[i], s.x_u[i], fpu, value)
                &&& exact(FloatOp::Div, fpu.sum(s.x_l[i], s.x_u[i]), TWO, fpu, value)
                &&& value(s.x_l[i]) <= value(s.x_u[i])
            }
        }),
    ensures
        within(
            value(p.expanded(x)[i]),
            p.inner.shape().x_l[i],
            p.inner.shape().x_u[i],
            value,
        ),
{
    let s = p.inner.shape();
    let free = free_variables(s.x_l, s.x_u, fpu);
    let map = kept(free, s.n);
    lemma_kept(free, s.n);
    fixed_variables_lie_between_their_bounds(s.x_l, s.x_u, i, fpu, value);
    if free[i] {
        places_invert(free, i);
        let q = places(free)[i]->Some_0 as int;
        let (l, u) = (selected(s.x_l, map), selected(s.x_u, map));
        let point = Seq::new(x.len(), |j: int| value(x[j]));
        assert forall|j: int| 0 <= j < x.len() implies within(
            #[trigger] point[j],
            p.tightened_x_l@[j],
            p.tightened_x_u@[j],
            value,
        ) by {
            assert(within(value(x[j]), p.shape().x_l[j], p.shape().x_u[j], value));
        }
        assert(within(point[q], l[q], u[q], value)) by {
            match (e.t0, e.t1) {
                (Some(v0), Some(v1)) => {
                    if looks_at_bounds(s) {
                        let d = tighten_data(s, v0, v1, e.tg, bound_push, fpu);
                        assert forall|k: int| 0 <= k < d.rows.len() implies (#[trigger] d.cols[k])
                            < d.free.len() by {
                            assert(s.jac_cols[k] < s.n);
                        }
                        tightening_only_narrows(d, l, u, s.m, point, fpu, value);
                    }
                },
                _ => {},
            }
        }
    }
}

/// Each entry of a reduced pattern stands for an entry of the pattern, in order: the one
/// in the row and the column that its own row and column stand for, or, where a triangle
/// is kept, in their mirror place. Every entry whose row and column are kept has one.
pub proof fn remapped_entries_stand_for_entries(
    rows: Seq<usize>,
    cols: Seq<usize>,
    keep_rows: Seq<bool>,
    keep_cols: Seq<bool>,
    lower: bool,
    k: nat,
)
    requires
        keep_rows.len() <= usize::MAX,
        keep_cols.len() <= usize::MAX,
        lower ==> keep_rows == keep_cols,
        k <= rows.len(),
        rows.len() == cols.len(),
        k <= usize::MAX,
        forall|e: int| 0 <= e < rows.len() ==> (#[trigger] rows[e]) < keep_rows.len(),
        forall|e: int| 0 <= e < cols.len() ==> (#[trigger] cols[e]) < keep_cols.len(),
    ensures
        ({
            let m = remapped(rows, cols, places(keep_rows), places(keep_cols), lower, k);
            let row_map = kept(keep_rows, keep_rows.len());
            let col_map = kept(keep_cols, keep_cols.len());
            &&& m.rows.len() == m.from.len()
            &&& m.cols.len() == m.from.len()
            &&& forall|q: int|
                0 <= q < m.from.len() ==> {
                    let e = #[trigger] m.from[q] as int;
                    &&& e < k
                    &&& m.rows[q] < row_map.len()
                    &&& m.cols[q] < col_map.len()
                    &&& !lower ==> row_map[m.rows[q] as int] == rows[e] && col_map[m.cols[q] as int]
                        == cols[e]
                    &&& lower ==> m.rows[q] >= m.cols[q] && ((row_map[m.rows[q] as int] == rows[e]
                        && row_map[m.cols[q] as int] == cols[e]) || (row_map[m.rows[q] as int]
                        == cols[e] && row_map[m.cols[q] as int] == rows[e]))
                }
            &&& forall|q: int, r: int|
                0 <= q < r < m.from.len() ==> (#[trigger] m.from[q]) < (#[trigger] m.from[r])
            &&& forall|e: usize|
                e < k ==> (#[trigger] m.from.contains(e) <==> keep_rows[rows[e as int] as int]
                    && keep_cols[cols[e as int] as int])
        }),
    decreases k,
{
    let row_map = kept(keep_rows, keep_rows.len());
    let col_map = kept(keep_cols, keep_cols.len());
    let m = remapped(rows, cols, places(keep_rows), places(keep_cols), lower, k);
    if k > 0 {
        remapped_entries_stand_for_entries(
            rows,
            cols,
            keep_rows,
            keep_cols,
            lower,
            (k - 1) as nat,
        );
        let b = remapped(
            rows,
            cols,
            places(keep_rows),
            places(keep_cols),
            lower,
            (k - 1) as nat,
        );
        let (r, c) = (rows[k - 1] as int, cols[k - 1] as int);
        assert(rows[k - 1] < keep_rows.len() && cols[k - 1] < keep_cols.len());
        if keep_rows[r] {
            places_invert(keep_rows, r);
        }
        if keep_cols[c] {
            places_invert(keep_cols, c);
        }
        let last = (k - 1) as usize;
        let now = keep_rows[r] && keep_cols[c];
        assert forall|e: usize| e < k implies (#[trigger] m.from.contains(e)
            <==> keep_rows[rows[e as int] as int] && keep_cols[cols[e as int] as int]) by {
            if b.from.contains(e) {
                let q = choose|q: int| 0 <= q < b.from.len() && b.from[q] == e;
                assert(m.from[q] == e);
            }
            if now {
                assert(m.from[b.from.len() as int] == last);
            }
            if m.from.contains(e) {
                let q = choose|q: int| 0 <= q < m.from.len() && m.from[q] == e;
                if q < b.from.len() {
                    assert(b.from[q] == e);
                    assert(b.from.contains(e));
                }
            }
        }
        assert forall|q: int, r: int| 0 <= q < r < m.from.len() implies (#[trigger] m.from[q]) < (
        #[trigger] m.from[r]) by {
            assert(m.from[q] == b.from[q]);
        }
        assert forall|q: int| 0 <= q < m.from.len() implies ({
            let e = #[trigger] m.from[q] as int;
            &&& e < k
            &&& m.rows[q] < row_map.len()
            &&& m.cols[q] < col_map.len()
            &&& !lower ==> row_map[m.rows[q] as int] == rows[e] && col_map[m.cols[q] as int]
                == cols[e]
            &&& lower ==> m.rows[q] >= m.cols[q] && ((row_map[m.rows[q] as int] == rows[e]
                && row_map[m.cols[q] as int] == cols[e]) || (row_map[m.rows[q] as int] == cols[e]
                && row_map[m.cols[q] as int] == rows[e]))
        }) by {
            if q < b.from.len() {
                assert(m.from[q] == b.from[q]);
                assert(m.rows[q] == b.rows[q] && m.cols[q] == b.cols[q]);
            }
        }
    }
}

/// Values that are scattered stand at their places, and the rest is zero.
pub proof fn scattered_values_stand(len: nat, map: Seq<usize>, vals: Seq<u64>, k: nat)
    requires
        k <= map.len(),
        forall|i: int| 0 <= i < map.len() ==> (#[trigger] map[i]) < len,
        forall|i: int, j: int| 0 <= i < j < map.len() ==> (#[trigger] map[i]) < (#[trigger] map[j]),
    ensures
        ({
            let r = scattered(zeros(len), map, vals, k);
            &&& r.len() == len
            &&& forall|i: int| 0 <= i < k ==> r[(#[trigger] map[i]) as int] == vals[i]
            &&& forall|q: int|
                0 <= q < len && (forall|i: int| 0 <= i < k ==> (#[trigger] map[i]) != q)
                    ==> #[trigger] r[q] == ZERO
        }),
    decreases k,
{
    if k > 0 {
        scattered_values_stand(len, map, vals, (k - 1) as nat);
        let b = scattered(zeros(len), map, vals, (k - 1) as nat);
        let r = scattered(zeros(len), map, vals, k);
        assert(map[k - 1] < len);
        assert forall|i: int| 0 <= i < k implies r[(#[trigger] map[i]) as int] == vals[i] by {
            if i < k - 1 {
                assert(map[i] < map[k - 1]);
            }
        }
        assert forall|q: int|
            0 <= q < len && (forall|i: int| 0 <= i < k ==> (#[trigger] map[i]) != q)
            implies #[trigger] r[q] == ZERO by {
            assert(map[k - 1] != q);
            assert(b[q] == ZERO);
        }
    }
}

/// The reduced problem has the data of what it keeps: constraint bounds, starting point and
/// multipliers are those of the kept constraints and the free variables.
pub proof fn reduced_problems_keep_their_data<P: NlpProblem + ?Sized>(
    p: PreprocessedProblem<'_, P>,
    lambda: Seq<u64>,
    i: int,
)
    requires
        p.well_formed(),
        forall|a: int, b: int|
            0 <= a < b < p.constr_map@.len() ==> (#[trigger] p.constr_map@[a]) < (
            #[trigger] p.constr_map@[b]),
    ensures
        0 <= i < p.var_map@.len() ==> p.shape().x0[i] == p.inner.shape().x0[p.var_map@[i] as int],
        0 <= i < p.constr_map@.len() ==> {
            let r = p.constr_map@[i] as int;
            &&& p.shape().g_l[i] == p.inner.shape().g_l[r]
            &&& p.shape().g_u[i] == p.inner.shape().g_u[r]
            &&& p.expanded_multipliers(lambda)[r] == lambda[i]
        },
        p.shape().n == p.var_map@.len(),
        p.shape().m == p.constr_map@.len(),
{
    scattered_values_stand(p.m_orig as nat, p.constr_map@, lambda, p.constr_map@.len());
}

/// Leaving out constraints keeps the feasible set of the problem: if the kept constraints
/// of the reduction hold after a step `w` from the first point, and the constraints are
/// affine, then all constraints hold, within both of their bounds.
pub proof fn reduced_constraints_imply_all<F: Fn(FloatOp, u64, u64) -> u64>(
    s: ProblemShape,
    e: Evaluations,
    bound_push: u64,
    v0: Seq<u64>,
    v1: Seq<u64>,
    g0: Seq<u64>,
    g1: Seq<u64>,
    w: spec_fn(int) -> real,
    j: int,
    known: Set<u64>,
    fpu: Fpu<F>,
    value: spec_fn(u64) -> real,
)
    requires
        s.m <= usize::MAX,
        e.j0 == Some(v0),
        e.j1 == Some(v1),
        e.g0 == Some(g0),
        e.g1 == Some(g1),
        ({
            let d = RedundancyData {
                rows: s.jac_rows,
                cols: s.jac_cols,
                free: free_variables(s.x_l, s.x_u, fpu),
                v0,
                v1,
                g0,
                g1,
                g_l: s.g_l,
                g_u: s.g_u,
            };
            let map = reduction_of(s, e, bound_push, fpu).constr_map;
            &&& d.well_formed()
            &&& s.g_l.len() == s.m
            &&& distinct_numbers(d, known, fpu, value)
            &&& forall|q: int|
                0 <= q < map.len() ==> within(
                    affine_at(d, (#[trigger] map[q]) as int, w, value),
                    s.g_l[map[q] as int],
                    s.g_u[map[q] as int],
                    value,
                )
        }),
        0 <= j < s.m,
    ensures
        within(
            affine_at(
                RedundancyData {
                    rows: s.jac_rows,
                    cols: s.jac_cols,
                    free: free_variables(s.x_l, s.x_u, fpu),
                    v0,
                    v1,
                    g0,
                    g1,
                    g_l: s.g_l,
                    g_u: s.g_u,
                },
                j,
                w,
                value,
            ),
            s.g_l[j],
            s.g_u[j],
            value,
        ),
{
    let d = RedundancyData {
        rows: s.jac_rows,
        cols: s.jac_cols,
        free: free_variables(s.x_l, s.x_u, fpu),
        v0,
        v1,
        g0,
        g1,
        g_l: s.g_l,
        g_u: s.g_u,
    };
    let keep = constraints_kept(s, e, fpu);
    let map = kept(keep, s.m);
    assert(keep.len() == s.m);
    if looks_at_pairs(s) {
        assert forall|i: int| 0 <= i < d.g_l.len() && kept_constraints(d, fpu)[i] implies within(
            #[trigger] affine_at(d, i, w, value),
            d.g_l[i],
            d.g_u[i],
            value,
        ) by {
            assert(keep[i]);
            places_invert(keep, i);
            let q = places(keep)[i]->Some_0 as int;
            assert(map[q] == i);
            assert(reduction_of(s, e, bound_push, fpu).constr_map[q] == i);
            assert(within(affine_at(d, map[q] as int, w, value), d.g_l[i], d.g_u[i], value));
        }
        left_out_constraints_hold(d, w, j, known, fpu, value);
    } else {
        assert(keep[j]);
        places_invert(keep, j);
        let q = places(keep)[j]->Some_0 as int;
        assert(map[q] == j);
        assert(reduction_of(s, e, bound_push, fpu).constr_map[q] == j);
    }
}

/// The trial value of a variable is within its bounds, and it is away from the variable by
/// at least `1e-4`, or at the lower bound: it is above it by one and a tenth of its size,
/// or at the upper bound, unless that is too near; then below it by as much, or at the lower
/// bound.
pub proof fn trial_values_move<F: Fn(FloatOp, u64, u64) -> u64>(
    x: u64,
    l: u64,
    u: u64,
    fpu: Fpu<F>,
    value: spec_fn(u64) -> real,
)
    requires
        reads_numbers(value),
        reads_order(value),
        within(value(x), l, u, value),
        ({
            let size = absolute(x);
            let tenth = fpu.product(TENTH, size);
            let step = fpu.sum(ONE, tenth);
            let up = fpu.sum(x, step);
            let high = if finite(u) {
                fpu.calc(FloatOp::Min, up, u)
            } else {
                up
            };
            let down = fpu.difference(x, step);
            let gap = fpu.difference(high, x);
            &&& exact(FloatOp::Mul, TENTH, size, fpu, value)
            &&& exact(FloatOp::Add, ONE, tenth, fpu, value)
            &&& exact(FloatOp::Add, x, step, fpu, value)
            &&& exact(FloatOp::Sub, x, step, fpu, value)
            &&& exact(FloatOp::Sub, high, x, fpu, value)
            &&& finite(u) ==> picks_smaller(up, u, fpu, value)
            &&& finite(l) ==> picks_larger(down, l, fpu, value)
            &&& finite(absolute(gap))
            &&& finite(TEN_M4)
            &&& value(size) >= (0 as real)
            &&& value(TENTH) >= (0 as real)
            &&& value(absolute(gap)) == if value(gap) >= (0 as real) {
                value(gap)
            } else {
                -value(gap)
            }
        }),
    ensures
        ({
            let r = value(moved(x, l, u, fpu));
            let step = (1 as real) + value(TENTH) * value(absolute(x));
            &&& within(r, l, u, value)
            &&& r >= value(x) ==> (r == value(x) + step || (finite(u) && r == value(u)) || (finite(l)
                && r == value(l)))
            &&& r < value(x) ==> r == value(x) - step || (finite(l) && r == value(l))
            &&& r - value(x) >= value(TEN_M4) || (finite(u) && value(u) - value(x) < value(TEN_M4) && (
            r == value(x) - step || (finite(l) && r == value(l)))) || step < value(TEN_M4)
        }),
{
    let size = absolute(x);
    let tenth = fpu.product(TENTH, size);
    let step = fpu.sum(ONE, tenth);
    let up = fpu.sum(x, step);
    let high = if finite(u) {
        fpu.calc(FloatOp::Min, up, u)
    } else {
        up
    };
    let gap = fpu.difference(high, x);
    assert(num_lt(absolute(gap), TEN_M4) <==> value(absolute(gap)) < value(TEN_M4));
    let (a, b) = (value(TENTH), value(size));
    assert(a * b >= (0 as real)) by (nonlinear_arith)
        requires
            a >= (0 as real),
            b >= (0 as real),
    ;
}

} // verus!
