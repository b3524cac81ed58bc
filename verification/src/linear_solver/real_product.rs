//! The product of a matrix and a vector is that of the real ones.

use crate::float::{num_eq, FloatOp, Fpu, ZERO};
use crate::linear_solver::linear_algebra::{lemma_same, lemma_zero_tail, times};
use crate::linear_solver::model::{dense_dot, MatrixModel};
use crate::linear_solver::real_matrix::{
    entries_total, exact_term, matrix_of, reads_numbers, vector_of,
};
use crate::linear_solver::sparse_matrix::{entries_dot, upper, Triplet};
use vstd::prelude::*;

verus! {

/// A row that has `v` more at place `c` than another.
pub proof fn lemma_one_more(
    g: spec_fn(int, int) -> real,
    h: spec_fn(int, int) -> real,
    x: spec_fn(int) -> real,
    r: int,
    c: int,
    v: real,
    n: nat,
)
    requires
        forall|j: int| 0 <= j < n && j != c ==> #[trigger] h(r, j) == g(r, j),
        h(r, c) == g(r, c) + v,
        0 <= c,
    ensures
        times(h, x, r, n) == times(g, x, r, n) + (if c < n {
            v * x(c)
        } else {
            0 as real
        }),
    decreases n,
{
    if n > 0 {
        lemma_one_more(g, h, x, r, c, v, (n - 1) as nat);
        if c == n - 1 {
            let (a, b) = (g(r, c), x(c));
            assert((a + v) * b == a * b + v * b) by (nonlinear_arith);
        }
    }
}

/// The entries lie in the upper triangle of an `n` by `n` matrix.
pub open spec fn in_upper_triangle(t: Seq<Triplet>, n: int) -> bool {
    forall|p: int| 0 <= p < t.len() ==> 0 <= (#[trigger] t[p]).row <= t[p].col < n
}

/// The step of a product with row `r` of the entries does not round.
pub open spec fn exact_entry_step<F: Fn(FloatOp, u64, u64) -> u64>(
    t: Seq<Triplet>,
    x: Seq<u64>,
    r: int,
    p: int,
    fpu: Fpu<F>,
    value: spec_fn(u64) -> real,
) -> bool {
    let e = t[p];
    let acc = entries_dot(t, x, r, p as nat, fpu);
    &&& e.row == r ==> exact_term(acc, e.val, x[e.col], false, fpu, value)
    &&& e.row != r && e.col == r ==> exact_term(acc, e.val, x[e.row], false, fpu, value)
}

pub open spec fn exact_row_step<F: Fn(FloatOp, u64, u64) -> u64>(
    row: Seq<u64>,
    x: Seq<u64>,
    p: int,
    fpu: Fpu<F>,
    value: spec_fn(u64) -> real,
) -> bool {
    exact_term(dense_dot(row, x, p as nat, fpu), row[p], x[p], false, fpu, value)
}

/// The product of row `r` and `x` does not round.
pub open spec fn exact_product<F: Fn(FloatOp, u64, u64) -> u64>(
    m: MatrixModel,
    x: Seq<u64>,
    r: int,
    fpu: Fpu<F>,
    value: spec_fn(u64) -> real,
) -> bool {
    match m {
        MatrixModel::Dense { n, rows } => forall|p: int|
            0 <= p < n ==> #[trigger] exact_row_step(rows[r], x, p, fpu, value),
        MatrixModel::Sparse { n, entries } => forall|p: int|
            0 <= p < entries.len() ==> #[trigger] exact_entry_step(entries, x, r, p, fpu, value),
    }
}

spec fn first_entries(
    t: Seq<Triplet>,
    k: nat,
    value: spec_fn(u64) -> real,
) -> spec_fn(int, int) -> real {
    |i: int, j: int| entries_total(t, i, j, k, value)
}

proof fn lemma_entries_product<F: Fn(FloatOp, u64, u64) -> u64>(
    t: Seq<Triplet>,
    x: Seq<u64>,
    r: int,
    n: int,
    k: nat,
    fpu: Fpu<F>,
    value: spec_fn(u64) -> real,
)
    requires
        reads_numbers(value),
        0 <= r < n,
        k <= t.len(),
        in_upper_triangle(t, n),
        forall|p: int|
            0 <= p < t.len() ==> #[trigger] exact_entry_step(t, x, r, p, fpu, value),
    ensures
        value(entries_dot(t, x, r, k, fpu)) == times(
            first_entries(t, k, value),
            vector_of(x, value),
            r,
            n as nat,
        ),
    decreases k,
{
    let h = first_entries(t, k, value);
    let xs = vector_of(x, value);
    if k == 0 {
        assert(num_eq(ZERO, ZERO));
        assert forall|j: int| 0 <= j < n implies #[trigger] h(r, j) == (0 as real) || xs(j) == (
        0 as real) by {}
        lemma_zero_tail(h, xs, r, 0, n as nat);
    } else {
        let g = first_entries(t, (k - 1) as nat, value);
        let e = t[k - 1];
        lemma_entries_product(t, x, r, n, (k - 1) as nat, fpu, value);
        assert(exact_entry_step(t, x, r, k - 1, fpu, value));
        assert(0 <= e.row <= e.col < n);
        if e.row == r || e.col == r {
            let c = if e.row == r {
                e.col
            } else {
                e.row
            };
            assert forall|j: int| 0 <= j < n && j != c implies #[trigger] h(r, j) == g(r, j) by {}
            lemma_one_more(g, h, xs, r, c, value(e.val), n as nat);
        } else {
            assert forall|j: int| 0 <= j < n implies #[trigger] h(r, j) == g(r, j) by {}
            lemma_same(h, xs, r, g, xs, r, n as nat);
        }
    }
}

proof fn lemma_row_product<F: Fn(FloatOp, u64, u64) -> u64>(
    row: Seq<u64>,
    x: Seq<u64>,
    g: spec_fn(int, int) -> real,
    r: int,
    k: nat,
    fpu: Fpu<F>,
    value: spec_fn(u64) -> real,
)
    requires
        reads_numbers(value),
        forall|j: int| 0 <= j < k ==> #[trigger] g(r, j) == value(row[j]),
        forall|p: int| 0 <= p < k ==> #[trigger] exact_row_step(row, x, p, fpu, value),
    ensures
        value(dense_dot(row, x, k, fpu)) == times(g, vector_of(x, value), r, k),
    decreases k,
{
    assert(num_eq(ZERO, ZERO));
    if k > 0 {
        lemma_row_product(row, x, g, r, (k - 1) as nat, fpu, value);
        assert(exact_row_step(row, x, k - 1, fpu, value));
        assert(g(r, k - 1) == value(row[k - 1]));
    }
}

/// Where nothing rounds, the product of a matrix and a vector is that of the real
/// matrix and the real vector, whether the matrix is dense or a list of entries.
pub proof fn products_are_those_of_the_matrix<F: Fn(FloatOp, u64, u64) -> u64>(
    m: MatrixModel,
    x: Seq<u64>,
    r: int,
    fpu: Fpu<F>,
    value: spec_fn(u64) -> real,
)
    requires
        reads_numbers(value),
        0 <= r < m.dim(),
        m is Sparse ==> in_upper_triangle(m->entries, m.dim()),
        exact_product(m, x, r, fpu, value),
    ensures
        value(m.dot(x, r, fpu)) == times(
            matrix_of(m, value),
            vector_of(x, value),
            r,
            m.dim() as nat,
        ),
{
    let g = matrix_of(m, value);
    let xs = vector_of(x, value);
    match m {
        MatrixModel::Dense { n, rows } => {
            lemma_row_product(rows[r], x, g, r, n as nat, fpu, value);
        },
        MatrixModel::Sparse { n, entries } => {
            lemma_entries_product(entries, x, r, n, entries.len(), fpu, value);
            let h = first_entries(entries, entries.len(), value);
            assert forall|j: int| 0 <= j < n implies #[trigger] h(r, j) == g(r, j) by {}
            lemma_same(h, xs, r, g, xs, r, n as nat);
        },
    }
}

} // verus!
