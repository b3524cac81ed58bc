//! The assembled system is the Newton system of the condensed problem.

use crate::float::{negated, num_eq, FloatOp, Fpu, ZERO};
use crate::kkt::assemble::{
    assembled, assembled_blocks, assembled_rhs, block_added, dual_entry, dual_start, empty_matrix,
    equations_set, slack_row_at, slacks_added, transposed_subtracted, triplets_added,
    values_on_diagonal, AssemblyData, SlackData,
};
use crate::kkt::barrier::paired;
use crate::linear_solver::model::MatrixModel;
use crate::linear_solver::real_matrix::{entries_total, exact_term, matrix_of, reads_numbers};
use crate::linear_solver::sparse_matrix::{diagonal, upper, Triplet};
use vstd::prelude::*;

verus! {

/// `(p, q)` is the place `(i, j)` or its mirror place.
pub open spec fn same_place(p: int, q: int, i: int, j: int) -> bool {
    (p == i && q == j) || (p == j && q == i)
}

/// The sum of the first `k` entries of a triplet list at a place and its mirror
/// place. Row `r` of the list stands in row `place(r)`.
pub open spec fn listed_total(
    rows: Seq<usize>,
    cols: Seq<usize>,
    vals: Seq<u64>,
    place: spec_fn(int) -> int,
    i: int,
    j: int,
    k: nat,
    value: spec_fn(u64) -> real,
) -> real
    decreases k,
{
    if k == 0 {
        0 as real
    } else {
        listed_total(rows, cols, vals, place, i, j, (k - 1) as nat, value) + (if same_place(
            place(rows[k - 1] as int),
            cols[k - 1] as int,
            i,
            j,
        ) {
            value(vals[k - 1])
        } else {
            0 as real
        })
    }
}

/// The sum of the diagonals of the first `k` inequalities that stand at a place.
pub open spec fn slack_total<F: Fn(FloatOp, u64, u64) -> u64>(
    n: int,
    map: Seq<usize>,
    d: SlackData,
    i: int,
    j: int,
    k: nat,
    fpu: Fpu<F>,
    value: spec_fn(u64) -> real,
) -> real
    decreases k,
{
    if k == 0 {
        0 as real
    } else {
        slack_total(n, map, d, i, j, (k - 1) as nat, fpu, value) + (match slack_row_at(
            d,
            k - 1,
            fpu,
        ).0 {
            Some(v) => if i == j && i == n + map[k - 1] {
                value(v)
            } else {
                0 as real
            },
            None => 0 as real,
        })
    }
}

proof fn lemma_prefix(
    t: Seq<Triplet>,
    e: Triplet,
    i: int,
    j: int,
    k: nat,
    value: spec_fn(u64) -> real,
)
    requires
        k <= t.len(),
    ensures
        entries_total(t.push(e), i, j, k, value) == entries_total(t, i, j, k, value),
    decreases k,
{
    if k > 0 {
        lemma_prefix(t, e, i, j, (k - 1) as nat, value);
        assert(t.push(e)[k - 1] == t[k - 1]);
    }
}

/// Adding to a sparse matrix adds to the matrix it stands for, at the place and
/// at its mirror place.
pub proof fn additions_add<F: Fn(FloatOp, u64, u64) -> u64>(
    m: MatrixModel,
    p: int,
    q: int,
    v: u64,
    i: int,
    j: int,
    fpu: Fpu<F>,
    value: spec_fn(u64) -> real,
)
    requires
        m is Sparse,
    ensures
        m.added(p, q, v, fpu) is Sparse,
        matrix_of(m.added(p, q, v, fpu), value)(i, j) == matrix_of(m, value)(i, j) + (
        if same_place(p, q, i, j) {
            value(v)
        } else {
            0 as real
        }),
{
    let t = m->entries;
    lemma_prefix(t, upper(p, q, v), i, j, t.len(), value);
    let now = t.push(upper(p, q, v));
    assert(now[now.len() - 1] == upper(p, q, v));
}

pub(crate) proof fn lemma_triplets<F: Fn(FloatOp, u64, u64) -> u64>(
    m: MatrixModel,
    rows: Seq<usize>,
    cols: Seq<usize>,
    vals: Seq<u64>,
    k: nat,
    i: int,
    j: int,
    fpu: Fpu<F>,
    value: spec_fn(u64) -> real,
)
    requires
        m is Sparse,
    ensures
        triplets_added(m, rows, cols, vals, k, fpu) is Sparse,
        matrix_of(triplets_added(m, rows, cols, vals, k, fpu), value)(i, j) == matrix_of(m, value)(
            i,
            j,
        ) + listed_total(rows, cols, vals, |r: int| r, i, j, k, value),
    decreases k,
{
    if k > 0 {
        lemma_triplets(m, rows, cols, vals, (k - 1) as nat, i, j, fpu, value);
        additions_add(
            triplets_added(m, rows, cols, vals, (k - 1) as nat, fpu),
            rows[k - 1] as int,
            cols[k - 1] as int,
            vals[k - 1],
            i,
            j,
            fpu,
            value,
        );
    }
}

proof fn lemma_block<F: Fn(FloatOp, u64, u64) -> u64>(
    m: MatrixModel,
    n: int,
    map: Seq<usize>,
    rows: Seq<usize>,
    cols: Seq<usize>,
    vals: Seq<u64>,
    k: nat,
    i: int,
    j: int,
    fpu: Fpu<F>,
    value: spec_fn(u64) -> real,
)
    requires
        m is Sparse,
    ensures
        block_added(m, n, map, rows, cols, vals, k, fpu) is Sparse,
        matrix_of(block_added(m, n, map, rows, cols, vals, k, fpu), value)(i, j) == matrix_of(
            m,
            value,
        )(i, j) + listed_total(rows, cols, vals, |r: int| n + map[r], i, j, k, value),
    decreases k,
{
    if k > 0 {
        lemma_block(m, n, map, rows, cols, vals, (k - 1) as nat, i, j, fpu, value);
        additions_add(
            block_added(m, n, map, rows, cols, vals, (k - 1) as nat, fpu),
            n + map[rows[k - 1] as int],
            cols[k - 1] as int,
            vals[k - 1],
            i,
            j,
            fpu,
            value,
        );
    }
}

/// Values that are added to a part of the diagonal of a sparse matrix stand there,
/// and nowhere else.
pub proof fn diagonals_add<F: Fn(FloatOp, u64, u64) -> u64>(
    m: MatrixModel,
    offset: int,
    vals: Seq<u64>,
    k: nat,
    i: int,
    j: int,
    fpu: Fpu<F>,
    value: spec_fn(u64) -> real,
)
    requires
        m is Sparse,
    ensures
        values_on_diagonal(m, offset, vals, k, fpu) is Sparse,
        matrix_of(values_on_diagonal(m, offset, vals, k, fpu), value)(i, j) == matrix_of(m, value)(
            i,
            j,
        ) + (if i == j && offset <= i < offset + k {
            value(vals[i - offset])
        } else {
            0 as real
        }),
    decreases k,
{
    if k > 0 {
        diagonals_add(m, offset, vals, (k - 1) as nat, i, j, fpu, value);
        additions_add(
            values_on_diagonal(m, offset, vals, (k - 1) as nat, fpu),
            offset + k - 1,
            offset + k - 1,
            vals[k - 1],
            i,
            j,
            fpu,
            value,
        );
    }
}

proof fn lemma_slacks<F: Fn(FloatOp, u64, u64) -> u64>(
    m: MatrixModel,
    rhs: Seq<u64>,
    n: int,
    map: Seq<usize>,
    d: SlackData,
    k: nat,
    i: int,
    j: int,
    fpu: Fpu<F>,
    value: spec_fn(u64) -> real,
)
    requires
        m is Sparse,
    ensures
        slacks_added(m, rhs, n, map, d, k, fpu).0 is Sparse,
        matrix_of(slacks_added(m, rhs, n, map, d, k, fpu).0, value)(i, j) == matrix_of(m, value)(
            i,
            j,
        ) + slack_total(n, map, d, i, j, k, fpu, value),
    decreases k,
{
    if k > 0 {
        lemma_slacks(m, rhs, n, map, d, (k - 1) as nat, i, j, fpu, value);
        match slack_row_at(d, k - 1, fpu).0 {
            Some(v) => {
                let before = slacks_added(m, rhs, n, map, d, (k - 1) as nat, fpu).0;
                let p = n + map[k - 1];
                additions_add(before, p, p, v, i, j, fpu, value);
            },
            None => {},
        }
    }
}

pub(crate) proof fn lemma_empty(n: int, i: int, j: int, k: nat, value: spec_fn(u64) -> real)
    requires
        reads_numbers(value),
        k <= diagonal(0, n, 0).len(),
    ensures
        entries_total(diagonal(0, n, 0), i, j, k, value) == (0 as real),
    decreases k,
{
    if k > 0 {
        lemma_empty(n, i, j, (k - 1) as nat, value);
        assert(num_eq(0, ZERO));
        assert(value(0) == (0 as real));
    }
}

/// The assembled matrix is the sum of its parts: the Hessian and its mirror image,
/// the barrier diagonal on the diagonal of the variables, the rows of the two
/// Jacobians below the variables, each in the row of its constraint, with their
/// mirror images, and the diagonals of the inequalities in their rows.
pub proof fn assembled_matrix_is_the_kkt_matrix<F: Fn(FloatOp, u64, u64) -> u64>(
    d: AssemblyData,
    i: int,
    j: int,
    fpu: Fpu<F>,
    value: spec_fn(u64) -> real,
)
    requires
        reads_numbers(value),
        0 <= i < d.n + d.n_c + d.n_d,
        0 <= j < d.n + d.n_c + d.n_d,
    ensures
        ({
            let n = d.n as int;
            let hessian = listed_total(
                d.hess_rows,
                d.hess_cols,
                d.hess_vals,
                |r: int| r,
                i,
                j,
                paired(d.hess_rows, d.hess_cols),
                value,
            );
            let barrier = if i == j && i < n {
                value(d.sigma[i])
            } else {
                0 as real
            };
            let equations = listed_total(
                d.jac_c_rows,
                d.jac_c_cols,
                d.jac_c_vals,
                |r: int| n + d.c_map[r],
                i,
                j,
                paired(d.jac_c_rows, d.jac_c_cols),
                value,
            );
            let inequalities = listed_total(
                d.jac_d_rows,
                d.jac_d_cols,
                d.jac_d_vals,
                |r: int| n + d.d_map[r],
                i,
                j,
                paired(d.jac_d_rows, d.jac_d_cols),
                value,
            );
            matrix_of(assembled(d, true, fpu).0, value)(i, j) == hessian + barrier + equations
                + inequalities + slack_total(n, d.d_map, d.slacks, i, j, d.n_d, fpu, value)
        }),
{
    let n = d.n as int;
    let dim = n + d.n_c + d.n_d;
    let zero = empty_matrix(dim, true);
    lemma_empty(dim, i, j, diagonal(0, dim, 0).len(), value);
    assert(matrix_of(zero, value)(i, j) == (0 as real));
    let count = paired(d.hess_rows, d.hess_cols);
    lemma_triplets(zero, d.hess_rows, d.hess_cols, d.hess_vals, count, i, j, fpu, value);
    let hessian = triplets_added(zero, d.hess_rows, d.hess_cols, d.hess_vals, count, fpu);
    diagonals_add(hessian, 0, d.sigma, d.n, i, j, fpu, value);
    let barrier = values_on_diagonal(hessian, 0, d.sigma, d.n, fpu);
    let c = paired(d.jac_c_rows, d.jac_c_cols);
    lemma_block(
        barrier,
        n,
        d.c_map,
        d.jac_c_rows,
        d.jac_c_cols,
        d.jac_c_vals,
        c,
        i,
        j,
        fpu,
        value,
    );
    let equations = block_added(
        barrier,
        n,
        d.c_map,
        d.jac_c_rows,
        d.jac_c_cols,
        d.jac_c_vals,
        c,
        fpu,
    );
    lemma_block(
        equations,
        n,
        d.d_map,
        d.jac_d_rows,
        d.jac_d_cols,
        d.jac_d_vals,
        paired(d.jac_d_rows, d.jac_d_cols),
        i,
        j,
        fpu,
        value,
    );
    lemma_slacks(
        assembled_blocks(d, true, fpu),
        assembled_rhs(d, fpu),
        n,
        d.d_map,
        d.slacks,
        d.n_d,
        i,
        j,
        fpu,
        value,
    );
}

/// The products of the first `k` Jacobian entries in column `j` with the
/// multipliers of their rows.
pub open spec fn pulled_total(
    rows: Seq<usize>,
    cols: Seq<usize>,
    vals: Seq<u64>,
    y: Seq<u64>,
    j: int,
    k: nat,
    value: spec_fn(u64) -> real,
) -> real
    decreases k,
{
    if k == 0 {
        0 as real
    } else {
        pulled_total(rows, cols, vals, y, j, (k - 1) as nat, value) + (if cols[k - 1] == j {
            value(vals[k - 1]) * value(y[rows[k - 1] as int])
        } else {
            0 as real
        })
    }
}

/// The product of entry `e` is subtracted without rounding.
pub open spec fn exact_pull_at<F: Fn(FloatOp, u64, u64) -> u64>(
    rhs: Seq<u64>,
    rows: Seq<usize>,
    cols: Seq<usize>,
    vals: Seq<u64>,
    y: Seq<u64>,
    e: int,
    fpu: Fpu<F>,
    value: spec_fn(u64) -> real,
) -> bool {
    cols[e] < rhs.len() && exact_term(
        transposed_subtracted(rhs, rows, cols, vals, y, e as nat, fpu)[cols[e] as int],
        vals[e],
        y[rows[e] as int],
        true,
        fpu,
        value,
    )
}

/// The products are subtracted without rounding.
pub open spec fn exact_pull<F: Fn(FloatOp, u64, u64) -> u64>(
    rhs: Seq<u64>,
    rows: Seq<usize>,
    cols: Seq<usize>,
    vals: Seq<u64>,
    y: Seq<u64>,
    k: nat,
    fpu: Fpu<F>,
    value: spec_fn(u64) -> real,
) -> bool {
    forall|e: int|
        0 <= e < k ==> #[trigger] exact_pull_at(rhs, rows, cols, vals, y, e, fpu, value)
}

proof fn lemma_pull<F: Fn(FloatOp, u64, u64) -> u64>(
    rhs: Seq<u64>,
    rows: Seq<usize>,
    cols: Seq<usize>,
    vals: Seq<u64>,
    y: Seq<u64>,
    j: int,
    k: nat,
    fpu: Fpu<F>,
    value: spec_fn(u64) -> real,
)
    requires
        exact_pull(rhs, rows, cols, vals, y, k, fpu, value),
        0 <= j < rhs.len(),
    ensures
        transposed_subtracted(rhs, rows, cols, vals, y, k, fpu).len() == rhs.len(),
        value(transposed_subtracted(rhs, rows, cols, vals, y, k, fpu)[j]) == value(rhs[j])
            - pulled_total(rows, cols, vals, y, j, k, value),
    decreases k,
{
    if k > 0 {
        let b = (k - 1) as nat;
        lemma_pull(rhs, rows, cols, vals, y, j, b, fpu, value);
        assert(exact_pull_at(rhs, rows, cols, vals, y, k - 1, fpu, value));
    }
}

proof fn lemma_equations(
    rhs: Seq<u64>,
    n: int,
    map: Seq<usize>,
    c_x: Seq<u64>,
    k: nat,
)
    requires
        0 <= n,
        k <= map.len(),
        forall|a: int| 0 <= a < k ==> n + (#[trigger] map[a]) < rhs.len(),
        forall|a: int, b: int| 0 <= a < b < k ==> (#[trigger] map[a]) != (#[trigger] map[b]),
    ensures
        equations_set(rhs, n, map, c_x, k).len() == rhs.len(),
        forall|a: int|
            0 <= a < k ==> equations_set(rhs, n, map, c_x, k)[n + (#[trigger] map[a])] == negated(
                c_x[a],
            ),
        forall|i: int|
            0 <= i < rhs.len() && (forall|a: int| 0 <= a < k ==> n + (#[trigger] map[a]) != i)
                ==> #[trigger] equations_set(rhs, n, map, c_x, k)[i] == rhs[i],
    decreases k,
{
    if k > 0 {
        let b = (k - 1) as nat;
        lemma_equations(rhs, n, map, c_x, b);
        let before = equations_set(rhs, n, map, c_x, b);
        let now = equations_set(rhs, n, map, c_x, k);
        assert(n + map[k - 1] < rhs.len());
        assert forall|a: int| 0 <= a < k implies now[n + (#[trigger] map[a])] == negated(c_x[a]) by {
            if a < k - 1 {
                assert(map[a] != map[k - 1]);
            }
        }
        assert forall|i: int|
            0 <= i < rhs.len() && (forall|a: int| 0 <= a < k ==> n + (#[trigger] map[a]) != i)
            implies #[trigger] now[i] == rhs[i] by {
            assert(n + map[k - 1] != i);
            assert(before[i] == rhs[i]);
        }
    }
}

proof fn lemma_slack_rhs<F: Fn(FloatOp, u64, u64) -> u64>(
    m: MatrixModel,
    rhs: Seq<u64>,
    n: int,
    map: Seq<usize>,
    d: SlackData,
    k: nat,
    fpu: Fpu<F>,
)
    requires
        0 <= n,
        k <= map.len(),
        forall|a: int| 0 <= a < k ==> n + (#[trigger] map[a]) < rhs.len(),
        forall|a: int, b: int| 0 <= a < b < k ==> (#[trigger] map[a]) != (#[trigger] map[b]),
    ensures
        ({
            let now = slacks_added(m, rhs, n, map, d, k, fpu).1;
            &&& now.len() == rhs.len()
            &&& forall|a: int|
                0 <= a < k ==> now[n + (#[trigger] map[a])] == slack_row_at(d, a, fpu).1
            &&& forall|i: int|
                0 <= i < rhs.len() && (forall|a: int| 0 <= a < k ==> n + (#[trigger] map[a]) != i)
                    ==> #[trigger] now[i] == rhs[i]
        }),
    decreases k,
{
    if k > 0 {
        let b = (k - 1) as nat;
        lemma_slack_rhs(m, rhs, n, map, d, b, fpu);
        let before = slacks_added(m, rhs, n, map, d, b, fpu).1;
        let now = slacks_added(m, rhs, n, map, d, k, fpu).1;
        assert(n + map[k - 1] < rhs.len());
        assert forall|a: int| 0 <= a < k implies now[n + (#[trigger] map[a])] == slack_row_at(
            d,
            a,
            fpu,
        ).1 by {
            if a < k - 1 {
                assert(map[a] != map[k - 1]);
            }
        }
        assert forall|i: int|
            0 <= i < rhs.len() && (forall|a: int| 0 <= a < k ==> n + (#[trigger] map[a]) != i)
            implies #[trigger] now[i] == rhs[i] by {
            assert(n + map[k - 1] != i);
            assert(before[i] == rhs[i]);
        }
    }
}

/// The constraints are told apart: no two equations, no two inequalities, and no
/// equation and inequality share a row.
pub open spec fn separate_rows(d: AssemblyData) -> bool {
    &&& d.n_c <= d.c_map.len()
    &&& d.n_d <= d.d_map.len()
    &&& forall|a: int| 0 <= a < d.n_c ==> (#[trigger] d.c_map[a]) < d.n_c + d.n_d
    &&& forall|a: int| 0 <= a < d.n_d ==> (#[trigger] d.d_map[a]) < d.n_c + d.n_d
    &&& forall|a: int, b: int|
        0 <= a < b < d.n_c ==> (#[trigger] d.c_map[a]) != (#[trigger] d.c_map[b])
    &&& forall|a: int, b: int|
        0 <= a < b < d.n_d ==> (#[trigger] d.d_map[a]) != (#[trigger] d.d_map[b])
    &&& forall|a: int, b: int|
        0 <= a < d.n_c && 0 <= b < d.n_d ==> (#[trigger] d.c_map[a]) != (#[trigger] d.d_map[b])
}

/// The assembled right-hand side holds, where nothing rounds: for a variable, what
/// the barrier function gives, less the transposed Jacobians times the multipliers;
/// for an equation, minus its residual; and for an inequality, that of its condensed
/// row.
pub proof fn assembled_rhs_is_the_newton_residual<F: Fn(FloatOp, u64, u64) -> u64>(
    d: AssemblyData,
    sparse: bool,
    fpu: Fpu<F>,
    value: spec_fn(u64) -> real,
)
    requires
        reads_numbers(value),
        separate_rows(d),
        ({
            let start = dual_start(
                d.n,
                d.n + d.n_c + d.n_d,
                d.grad_f,
                d.x,
                d.x_l,
                d.x_u,
                d.slacks.mu,
                d.kappa_d,
                fpu,
            );
            let c = paired(d.jac_c_rows, d.jac_c_cols);
            let with_c = transposed_subtracted(
                start,
                d.jac_c_rows,
                d.jac_c_cols,
                d.jac_c_vals,
                d.y_c,
                c,
                fpu,
            );
            &&& exact_pull(
                start,
                d.jac_c_rows,
                d.jac_c_cols,
                d.jac_c_vals,
                d.y_c,
                c,
                fpu,
                value,
            )
            &&& exact_pull(
                with_c,
                d.jac_d_rows,
                d.jac_d_cols,
                d.jac_d_vals,
                d.slacks.y_d,
                paired(d.jac_d_rows, d.jac_d_cols),
                fpu,
                value,
            )
        }),
    ensures
        ({
            let rhs = assembled(d, sparse, fpu).1;
            let n = d.n as int;
            &&& rhs.len() == d.n + d.n_c + d.n_d
            &&& forall|j: int|
                0 <= j < n ==> value(#[trigger] rhs[j]) == value(
                    dual_entry(
                        d.grad_f[j],
                        d.x[j],
                        d.x_l[j],
                        d.x_u[j],
                        d.slacks.mu,
                        d.kappa_d,
                        fpu,
                    ),
                ) - pulled_total(
                    d.jac_c_rows,
                    d.jac_c_cols,
                    d.jac_c_vals,
                    d.y_c,
                    j,
                    paired(d.jac_c_rows, d.jac_c_cols),
                    value,
                ) - pulled_total(
                    d.jac_d_rows,
                    d.jac_d_cols,
                    d.jac_d_vals,
                    d.slacks.y_d,
                    j,
                    paired(d.jac_d_rows, d.jac_d_cols),
                    value,
                )
            &&& forall|a: int|
                0 <= a < d.n_c ==> value(rhs[n + (#[trigger] d.c_map[a])]) == -value(d.c_x[a])
            &&& forall|a: int|
                0 <= a < d.n_d ==> rhs[n + (#[trigger] d.d_map[a])] == slack_row_at(
                    d.slacks,
                    a,
                    fpu,
                ).1
        }),
{
    let n = d.n as int;
    let dim = d.n + d.n_c + d.n_d;
    let start = dual_start(
        d.n,
        dim,
        d.grad_f,
        d.x,
        d.x_l,
        d.x_u,
        d.slacks.mu,
        d.kappa_d,
        fpu,
    );
    let c = paired(d.jac_c_rows, d.jac_c_cols);
    let e = paired(d.jac_d_rows, d.jac_d_cols);
    let with_c = transposed_subtracted(
        start,
        d.jac_c_rows,
        d.jac_c_cols,
        d.jac_c_vals,
        d.y_c,
        c,
        fpu,
    );
    let with_d = transposed_subtracted(
        with_c,
        d.jac_d_rows,
        d.jac_d_cols,
        d.jac_d_vals,
        d.slacks.y_d,
        e,
        fpu,
    );
    if dim > 0 {
        lemma_pull(start, d.jac_c_rows, d.jac_c_cols, d.jac_c_vals, d.y_c, 0, c, fpu, value);
        lemma_pull(
            with_c,
            d.jac_d_rows,
            d.jac_d_cols,
            d.jac_d_vals,
            d.slacks.y_d,
            0,
            e,
            fpu,
            value,
        );
        let primal = assembled_rhs(d, fpu);
        lemma_equations(with_d, n, d.c_map, d.c_x, d.n_c);
        lemma_slack_rhs(
            assembled_blocks(d, sparse, fpu),
            primal,
            n,
            d.d_map,
            d.slacks,
            d.n_d,
            fpu,
        );
        let rhs = assembled(d, sparse, fpu).1;
        assert forall|j: int| 0 <= j < n implies value(#[trigger] rhs[j]) == value(start[j])
            - pulled_total(d.jac_c_rows, d.jac_c_cols, d.jac_c_vals, d.y_c, j, c, value)
            - pulled_total(
            d.jac_d_rows,
            d.jac_d_cols,
            d.jac_d_vals,
            d.slacks.y_d,
            j,
            e,
            value,
        ) by {
            lemma_pull(start, d.jac_c_rows, d.jac_c_cols, d.jac_c_vals, d.y_c, j, c, fpu, value);
            lemma_pull(
                with_c,
                d.jac_d_rows,
                d.jac_d_cols,
                d.jac_d_vals,
                d.slacks.y_d,
                j,
                e,
                fpu,
                value,
            );
            assert(primal[j] == with_d[j]);
            assert(rhs[j] == primal[j]);
        }
        assert forall|a: int| 0 <= a < d.n_c implies value(rhs[n + (#[trigger] d.c_map[a])])
            == -value(d.c_x[a]) by {
            let i = n + d.c_map[a];
            assert(primal[i] == negated(d.c_x[a]));
            assert forall|b: int| 0 <= b < d.n_d implies n + (#[trigger] d.d_map[b]) != i by {
                assert(d.c_map[a] != d.d_map[b]);
            }
            assert(rhs[i] == primal[i]);
            assert(value(negated(d.c_x[a])) == -value(d.c_x[a]));
        }
    } else {
        if c > 0 {
            assert(exact_pull_at(
                start,
                d.jac_c_rows,
                d.jac_c_cols,
                d.jac_c_vals,
                d.y_c,
                0,
                fpu,
                value,
            ));
        }
        if e > 0 {
            assert(exact_pull_at(
                with_c,
                d.jac_d_rows,
                d.jac_d_cols,
                d.jac_d_vals,
                d.slacks.y_d,
                0,
                fpu,
                value,
            ));
        }
    }
}

} // verus!
