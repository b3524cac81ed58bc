//! Leaving out constraints keeps what is feasible.

use crate::float::{absolute, finite, num_lt, FloatOp, Fpu, ONE, TEN_M10, ZERO};
use crate::preprocessing::feasibility::within;
use crate::preprocessing::redundancy::{
    by_column, inserted, kept_constraints, redundant_repeats_kept, row_list, RedundancyData,
};
use vstd::prelude::*;

verus! {

/// Two numbers that are not farther apart than `1e-10` are the same.
pub open spec fn told_apart<F: Fn(FloatOp, u64, u64) -> u64>(
    a: u64,
    b: u64,
    fpu: Fpu<F>,
    value: spec_fn(u64) -> real,
) -> bool {
    let gap = absolute(fpu.difference(a, b));
    num_lt(gap, TEN_M10) || !num_lt(TEN_M10, gap) ==> {
        &&& finite(a) == finite(b)
        &&& finite(a) ==> value(a) == value(b)
        &&& !finite(a) ==> a == b
    }
}

/// Two constraints whose values at two points are not farther apart than `1e-10`
/// of their size have the same values.
pub open spec fn values_told_apart<F: Fn(FloatOp, u64, u64) -> u64>(
    a0: u64,
    b0: u64,
    a1: u64,
    b1: u64,
    fpu: Fpu<F>,
    value: spec_fn(u64) -> real,
) -> bool {
    let gap = fpu.calc(
        FloatOp::Max,
        absolute(fpu.difference(a0, b0)),
        absolute(fpu.difference(a1, b1)),
    );
    let size = fpu.calc(
        FloatOp::Max,
        fpu.calc(FloatOp::Max, absolute(a0), absolute(b0)),
        ONE,
    );
    !num_lt(fpu.product(TEN_M10, size), gap) ==> value(a0) == value(b0) && value(a1) == value(b1)
}

/// The numbers of a problem can be told apart; `known` holds its bounds and the
/// entries of its Jacobian.
pub open spec fn distinct_numbers<F: Fn(FloatOp, u64, u64) -> u64>(
    d: RedundancyData,
    known: Set<u64>,
    fpu: Fpu<F>,
    value: spec_fn(u64) -> real,
) -> bool {
    &&& forall|a: u64, b: u64|
        known.contains(a) && known.contains(b) ==> #[trigger] told_apart(a, b, fpu, value)
    &&& forall|e: int| 0 <= e < d.v0.len() ==> known.contains(#[trigger] d.v0[e]) && finite(d.v0[e])
    &&& forall|e: int| 0 <= e < d.v1.len() ==> known.contains(#[trigger] d.v1[e]) && finite(d.v1[e])
    &&& forall|i: int| 0 <= i < d.g_l.len() ==> known.contains(#[trigger] d.g_l[i])
    &&& forall|i: int| 0 <= i < d.g_u.len() ==> known.contains(#[trigger] d.g_u[i])
    &&& forall|i: int, j: int|
        0 <= i < d.g_l.len() && 0 <= j < d.g_l.len() ==> values_told_apart(
            #[trigger] d.g0[i],
            #[trigger] d.g0[j],
            d.g1[i],
            d.g1[j],
            fpu,
            value,
        )
}

/// The product of row `r` of a Jacobian and `w`, over the first `k` entries, in
/// free columns.
pub open spec fn row_product(
    rows: Seq<usize>,
    cols: Seq<usize>,
    vals: Seq<u64>,
    free: Seq<bool>,
    r: int,
    w: spec_fn(int) -> real,
    k: nat,
    value: spec_fn(u64) -> real,
) -> real
    decreases k,
{
    if k == 0 {
        0 as real
    } else {
        row_product(rows, cols, vals, free, r, w, (k - 1) as nat, value) + (if rows[k - 1] == r
            && free[cols[k - 1] as int] {
            value(vals[k - 1]) * w(cols[k - 1] as int)
        } else {
            0 as real
        })
    }
}

spec fn list_product(
    l: Seq<(usize, u64)>,
    w: spec_fn(int) -> real,
    value: spec_fn(u64) -> real,
) -> real
    decreases l.len(),
{
    if l.len() == 0 {
        0 as real
    } else {
        list_product(l.drop_last(), w, value) + value(l.last().1) * w(l.last().0 as int)
    }
}

spec fn drawn_from(l: Seq<(usize, u64)>, known: Set<u64>) -> bool {
    forall|k: int| 0 <= k < l.len() ==> known.contains((#[trigger] l[k]).1) && finite(l[k].1)
}

proof fn lemma_inserted(
    s: Seq<(usize, u64)>,
    e: (usize, u64),
    w: spec_fn(int) -> real,
    known: Set<u64>,
    value: spec_fn(u64) -> real,
)
    requires
        drawn_from(s, known),
        known.contains(e.1),
        finite(e.1),
    ensures
        list_product(inserted(s, e), w, value) == list_product(s, w, value) + value(e.1) * w(
            e.0 as int,
        ),
        drawn_from(inserted(s, e), known),
    decreases s.len(),
{
    if s.len() == 0 || s.last().0 <= e.0 {
        assert(s.push(e).drop_last() =~= s);
    } else {
        lemma_inserted(s.drop_last(), e, w, known, value);
        let mid = inserted(s.drop_last(), e);
        assert(mid.push(s.last()).drop_last() =~= mid);
        assert(s[s.len() - 1] == s.last());
    }
}

proof fn lemma_by_column(
    s: Seq<(usize, u64)>,
    w: spec_fn(int) -> real,
    known: Set<u64>,
    value: spec_fn(u64) -> real,
)
    requires
        drawn_from(s, known),
    ensures
        list_product(by_column(s), w, value) == list_product(s, w, value),
        drawn_from(by_column(s), known),
    decreases s.len(),
{
    if s.len() > 0 {
        lemma_by_column(s.drop_last(), w, known, value);
        assert(s[s.len() - 1] == s.last());
        lemma_inserted(by_column(s.drop_last()), s.last(), w, known, value);
    }
}

proof fn lemma_row_list(
    rows: Seq<usize>,
    cols: Seq<usize>,
    vals: Seq<u64>,
    free: Seq<bool>,
    r: int,
    w: spec_fn(int) -> real,
    k: nat,
    known: Set<u64>,
    value: spec_fn(u64) -> real,
)
    requires
        k <= vals.len(),
        forall|e: int| 0 <= e < vals.len() ==> known.contains(#[trigger] vals[e]) && finite(vals[e]),
    ensures
        list_product(row_list(rows, cols, vals, free, r, k), w, value) == row_product(
            rows,
            cols,
            vals,
            free,
            r,
            w,
            k,
            value,
        ),
        drawn_from(row_list(rows, cols, vals, free, r, k), known),
    decreases k,
{
    if k > 0 {
        lemma_row_list(rows, cols, vals, free, r, w, (k - 1) as nat, known, value);
        let before = row_list(rows, cols, vals, free, r, (k - 1) as nat);
        let e = (cols[k - 1], vals[k - 1]);
        assert(before.push(e).drop_last() =~= before);
        assert(known.contains(vals[k - 1]));
    }
}

proof fn lemma_agreeing<F: Fn(FloatOp, u64, u64) -> u64>(
    a: Seq<(usize, u64)>,
    b: Seq<(usize, u64)>,
    w: spec_fn(int) -> real,
    known: Set<u64>,
    fpu: Fpu<F>,
    value: spec_fn(u64) -> real,
)
    requires
        a.len() == b.len(),
        forall|k: int|
            0 <= k < a.len() ==> (#[trigger] a[k]).0 == b[k].0 && num_lt(
                absolute(fpu.difference(a[k].1, b[k].1)),
                TEN_M10,
            ),
        drawn_from(a, known),
        drawn_from(b, known),
        forall|p: u64, q: u64|
            known.contains(p) && known.contains(q) ==> #[trigger] told_apart(p, q, fpu, value),
    ensures
        list_product(a, w, value) == list_product(b, w, value),
    decreases a.len(),
{
    if a.len() > 0 {
        lemma_agreeing(a.drop_last(), b.drop_last(), w, known, fpu, value);
        let k = a.len() - 1;
        assert(a[k] == a.last() && b[k] == b.last());
        assert(told_apart(a[k].1, b[k].1, fpu, value));
    }
}

/// A constraint that is left out repeats an earlier one that is kept: it has the
/// lower and the upper bound of that one, and its values and, for every vector,
/// its product with the rows of the Jacobian at both points. The numbers of the
/// problem have to be farther apart than the tolerance, or the same.
pub proof fn left_out_constraints_are_copies<F: Fn(FloatOp, u64, u64) -> u64>(
    d: RedundancyData,
    j: int,
    known: Set<u64>,
    fpu: Fpu<F>,
    value: spec_fn(u64) -> real,
) -> (i: int)
    requires
        d.well_formed(),
        0 <= j < d.g_l.len(),
        !kept_constraints(d, fpu)[j],
        distinct_numbers(d, known, fpu, value),
    ensures
        0 <= i < j,
        kept_constraints(d, fpu)[i],
        finite(d.g_l[i]) == finite(d.g_l[j]),
        finite(d.g_l[j]) ==> value(d.g_l[i]) == value(d.g_l[j]),
        !finite(d.g_l[j]) ==> d.g_l[i] == d.g_l[j],
        finite(d.g_u[i]) == finite(d.g_u[j]),
        finite(d.g_u[j]) ==> value(d.g_u[i]) == value(d.g_u[j]),
        !finite(d.g_u[j]) ==> d.g_u[i] == d.g_u[j],
        value(d.g0[i]) == value(d.g0[j]),
        value(d.g1[i]) == value(d.g1[j]),
        forall|w: spec_fn(int) -> real| #[trigger]
            row_product(d.rows, d.cols, d.v0, d.free, i, w, d.rows.len(), value) == row_product(
                d.rows,
                d.cols,
                d.v0,
                d.free,
                j,
                w,
                d.rows.len(),
                value,
            ),
        forall|w: spec_fn(int) -> real| #[trigger]
            row_product(d.rows, d.cols, d.v1, d.free, i, w, d.rows.len(), value) == row_product(
                d.rows,
                d.cols,
                d.v1,
                d.free,
                j,
                w,
                d.rows.len(),
                value,
            ),
{
    redundant_repeats_kept(d, j, fpu);
    let i = choose|i: int|
        0 <= i < j && kept_constraints(d, fpu)[i] && #[trigger] d.repeats(i, j, fpu);
    assert(told_apart(d.g_l[i], d.g_l[j], fpu, value));
    assert(told_apart(d.g_u[i], d.g_u[j], fpu, value));
    assert(values_told_apart(d.g0[i], d.g0[j], d.g1[i], d.g1[j], fpu, value));
    let n = d.rows.len();
    assert forall|w: spec_fn(int) -> real| #[trigger]
        row_product(d.rows, d.cols, d.v0, d.free, i, w, n, value) == row_product(
            d.rows,
            d.cols,
            d.v0,
            d.free,
            j,
            w,
            n,
            value,
        ) by {
        let a = row_list(d.rows, d.cols, d.v0, d.free, i, n);
        let b = row_list(d.rows, d.cols, d.v0, d.free, j, n);
        lemma_row_list(d.rows, d.cols, d.v0, d.free, i, w, n, known, value);
        lemma_row_list(d.rows, d.cols, d.v0, d.free, j, w, n, known, value);
        lemma_by_column(a, w, known, value);
        lemma_by_column(b, w, known, value);
        lemma_agreeing(by_column(a), by_column(b), w, known, fpu, value);
    }
    assert forall|w: spec_fn(int) -> real| #[trigger]
        row_product(d.rows, d.cols, d.v1, d.free, i, w, n, value) == row_product(
            d.rows,
            d.cols,
            d.v1,
            d.free,
            j,
            w,
            n,
            value,
        ) by {
        let a = row_list(d.rows, d.cols, d.v1, d.free, i, n);
        let b = row_list(d.rows, d.cols, d.v1, d.free, j, n);
        lemma_row_list(d.rows, d.cols, d.v1, d.free, i, w, n, known, value);
        lemma_row_list(d.rows, d.cols, d.v1, d.free, j, w, n, known, value);
        lemma_by_column(a, w, known, value);
        lemma_by_column(b, w, known, value);
        lemma_agreeing(by_column(a), by_column(b), w, known, fpu, value);
    }
    i
}

/// The value of constraint `r` after a step `w` from the first point, if the
/// constraint is affine.
pub open spec fn affine_at(
    d: RedundancyData,
    r: int,
    w: spec_fn(int) -> real,
    value: spec_fn(u64) -> real,
) -> real {
    value(d.g0[r]) + row_product(d.rows, d.cols, d.v0, d.free, r, w, d.rows.len(), value)
}

/// Leaving out constraints keeps the feasible set: a point at which the affine
/// constraints that are kept are within their bounds has every constraint that
/// is left out within both of its bounds.
pub proof fn left_out_constraints_hold<F: Fn(FloatOp, u64, u64) -> u64>(
    d: RedundancyData,
    w: spec_fn(int) -> real,
    j: int,
    known: Set<u64>,
    fpu: Fpu<F>,
    value: spec_fn(u64) -> real,
)
    requires
        d.well_formed(),
        0 <= j < d.g_l.len(),
        distinct_numbers(d, known, fpu, value),
        forall|i: int|
            0 <= i < d.g_l.len() && kept_constraints(d, fpu)[i] ==> within(
                #[trigger] affine_at(d, i, w, value),
                d.g_l[i],
                d.g_u[i],
                value,
            ),
    ensures
        within(affine_at(d, j, w, value), d.g_l[j], d.g_u[j], value),
{
    if !kept_constraints(d, fpu)[j] {
        let i = left_out_constraints_are_copies(d, j, known, fpu, value);
        assert(within(affine_at(d, i, w, value), d.g_l[i], d.g_u[i], value));
        assert(row_product(d.rows, d.cols, d.v0, d.free, i, w, d.rows.len(), value)
            == row_product(d.rows, d.cols, d.v0, d.free, j, w, d.rows.len(), value));
    } else {
        assert(within(affine_at(d, j, w, value), d.g_l[j], d.g_u[j], value));
    }
}

/// A number less itself is zero, of two zeros a zero is the larger, and no tolerance is
/// below zero.
pub open spec fn nothing_differs_from_itself<F: Fn(FloatOp, u64, u64) -> u64>(
    d: RedundancyData,
    known: Set<u64>,
    fpu: Fpu<F>,
) -> bool {
    &&& fpu.calc(FloatOp::Max, ZERO, ZERO) == ZERO
    &&& forall|a: u64| #[trigger] known.contains(a) ==> fpu.difference(a, a) == ZERO
    &&& forall|a: u64| !num_lt(#[trigger] fpu.product(TEN_M10, a), ZERO)
    &&& forall|e: int| 0 <= e < d.v0.len() ==> known.contains(#[trigger] d.v0[e])
    &&& forall|e: int| 0 <= e < d.v1.len() ==> known.contains(#[trigger] d.v1[e])
    &&& forall|i: int|
        0 <= i < d.g_l.len() ==> known.contains(#[trigger] d.g_l[i]) && known.contains(d.g_u[i])
            && known.contains(d.g0[i]) && known.contains(d.g1[i])
}

spec fn all_known(l: Seq<(usize, u64)>, known: Set<u64>) -> bool {
    forall|k: int| 0 <= k < l.len() ==> known.contains((#[trigger] l[k]).1)
}

proof fn lemma_row_known(
    rows: Seq<usize>,
    cols: Seq<usize>,
    vals: Seq<u64>,
    free: Seq<bool>,
    r: int,
    k: nat,
    known: Set<u64>,
)
    requires
        k <= vals.len(),
        forall|e: int| 0 <= e < vals.len() ==> known.contains(#[trigger] vals[e]),
    ensures
        all_known(row_list(rows, cols, vals, free, r, k), known),
    decreases k,
{
    if k > 0 {
        lemma_row_known(rows, cols, vals, free, r, (k - 1) as nat, known);
        assert(known.contains(vals[k - 1]));
    }
}

proof fn lemma_insert_known(s: Seq<(usize, u64)>, e: (usize, u64), known: Set<u64>)
    requires
        all_known(s, known),
        known.contains(e.1),
    ensures
        all_known(inserted(s, e), known),
    decreases s.len(),
{
    if !(s.len() == 0 || s.last().0 <= e.0) {
        lemma_insert_known(s.drop_last(), e, known);
        assert(s[s.len() - 1] == s.last());
    }
}

proof fn lemma_order_known(s: Seq<(usize, u64)>, known: Set<u64>)
    requires
        all_known(s, known),
    ensures
        all_known(by_column(s), known),
    decreases s.len(),
{
    if s.len() > 0 {
        lemma_order_known(s.drop_last(), known);
        assert(s[s.len() - 1] == s.last());
        lemma_insert_known(by_column(s.drop_last()), s.last(), known);
    }
}

/// An exact copy of an earlier constraint is left out: the same bounds and values, and the same
/// entries of the Jacobian in free columns at both points. So of constraints that are copies of each
/// other only the first one is kept.
pub proof fn exact_copies_are_left_out<F: Fn(FloatOp, u64, u64) -> u64>(
    d: RedundancyData,
    i: int,
    j: int,
    known: Set<u64>,
    fpu: Fpu<F>,
)
    requires
        d.well_formed(),
        0 <= i < j < d.g_l.len(),
        kept_constraints(d, fpu)[i],
        d.g_l[i] == d.g_l[j],
        d.g_u[i] == d.g_u[j],
        d.g0[i] == d.g0[j],
        d.g1[i] == d.g1[j],
        row_list(d.rows, d.cols, d.v0, d.free, i, d.rows.len()) == row_list(
            d.rows,
            d.cols,
            d.v0,
            d.free,
            j,
            d.rows.len(),
        ),
        row_list(d.rows, d.cols, d.v1, d.free, i, d.rows.len()) == row_list(
            d.rows,
            d.cols,
            d.v1,
            d.free,
            j,
            d.rows.len(),
        ),
        nothing_differs_from_itself(d, known, fpu),
    ensures
        !kept_constraints(d, fpu)[j],
{
    let n = d.rows.len();
    lemma_row_known(d.rows, d.cols, d.v0, d.free, i, n, known);
    lemma_row_known(d.rows, d.cols, d.v1, d.free, i, n, known);
    lemma_order_known(row_list(d.rows, d.cols, d.v0, d.free, i, n), known);
    lemma_order_known(row_list(d.rows, d.cols, d.v1, d.free, i, n), known);
    assert(known.contains(d.g_l[i]));
    assert(num_lt(absolute(ZERO), TEN_M10));
    assert(!num_lt(TEN_M10, absolute(ZERO)));
    assert forall|k: int| 0 <= k < d.row0(i).len() implies (#[trigger] d.row0(i)[k]).0 == d.row0(
        j,
    )[k].0 && num_lt(
        absolute(fpu.difference(d.row0(i)[k].1, d.row0(j)[k].1)),
        TEN_M10,
    ) by {
        assert(known.contains(d.row0(i)[k].1));
    }
    assert forall|k: int| 0 <= k < d.row1(i).len() implies (#[trigger] d.row1(i)[k]).0 == d.row1(
        j,
    )[k].0 && num_lt(
        absolute(fpu.difference(d.row1(i)[k].1, d.row1(j)[k].1)),
        TEN_M10,
    ) by {
        assert(known.contains(d.row1(i)[k].1));
    }
    assert(d.repeats(i, j, fpu));
    redundant_repeats_kept(d, j, fpu);
}

} // verus!
