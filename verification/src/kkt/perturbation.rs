//! A product without the perturbations is that of the unperturbed matrix.

use crate::float::{finite, negated, num_eq, num_lt, FloatOp, Fpu, ZERO};
use crate::kkt::assemble::unperturbed_product;
use crate::kkt::factor::{shifted, Layout};
use crate::linear_solver::linear_algebra::{times, unit};
use crate::linear_solver::model::MatrixModel;
use crate::linear_solver::real_matrix::{
    entries_total, exact_term, matrix_of, reads_numbers, reads_order, vector_of,
};
use crate::linear_solver::real_product::{
    exact_product, in_upper_triangle, lemma_one_more, products_are_those_of_the_matrix,
};
use crate::linear_solver::sparse_matrix::{diagonal, Triplet};
use vstd::prelude::*;

verus! {

/// What the perturbations add to the diagonal in row `r`.
pub open spec fn shift_at<F: Fn(FloatOp, u64, u64) -> u64>(
    n: int,
    delta_c_diag: Seq<u64>,
    delta_w: u64,
    delta_c_ic: u64,
    r: int,
    fpu: Fpu<F>,
    value: spec_fn(u64) -> real,
) -> real {
    let total = fpu.sum(delta_c_diag[r - n], delta_c_ic);
    if r < n {
        if num_lt(ZERO, delta_w) {
            value(delta_w)
        } else {
            0 as real
        }
    } else if num_lt(ZERO, total) {
        -value(total)
    } else {
        0 as real
    }
}

/// The perturbation of row `r` is taken off without rounding.
pub open spec fn exact_removal<F: Fn(FloatOp, u64, u64) -> u64>(
    matrix: MatrixModel,
    n: int,
    delta_c_diag: Seq<u64>,
    x: Seq<u64>,
    delta_w: u64,
    delta_c_ic: u64,
    r: int,
    fpu: Fpu<F>,
    value: spec_fn(u64) -> real,
) -> bool {
    let total = fpu.sum(delta_c_diag[r - n], delta_c_ic);
    let y = matrix.dot(x, r, fpu);
    &&& r < n && num_lt(ZERO, delta_w) ==> exact_term(y, delta_w, x[r], true, fpu, value)
    &&& r >= n && num_lt(ZERO, total) ==> exact_term(y, total, x[r], false, fpu, value)
}

/// Where nothing rounds, the product without the perturbations is that of the
/// matrix `a` to which they were added.
pub proof fn perturbations_are_undone<F: Fn(FloatOp, u64, u64) -> u64>(
    matrix: MatrixModel,
    a: spec_fn(int, int) -> real,
    n: int,
    m: int,
    delta_c_diag: Seq<u64>,
    x: Seq<u64>,
    delta_w: u64,
    delta_c_ic: u64,
    r: int,
    fpu: Fpu<F>,
    value: spec_fn(u64) -> real,
)
    requires
        reads_numbers(value),
        0 <= n,
        0 <= m,
        matrix.dim() == n + m,
        matrix is Sparse ==> in_upper_triangle(matrix->entries, n + m),
        0 <= r < n + m,
        forall|j: int|
            0 <= j < n + m ==> #[trigger] matrix_of(matrix, value)(r, j) == a(r, j) + unit(r, j)
                * shift_at(n, delta_c_diag, delta_w, delta_c_ic, r, fpu, value),
        exact_product(matrix, x, r, fpu, value),
        exact_removal(matrix, n, delta_c_diag, x, delta_w, delta_c_ic, r, fpu, value),
    ensures
        value(
            unperturbed_product(matrix, n, m, delta_c_diag, x, delta_w, delta_c_ic, fpu)[r],
        ) == times(a, vector_of(x, value), r, (n + m) as nat),
{
    let g = matrix_of(matrix, value);
    let xs = vector_of(x, value);
    let s = shift_at(n, delta_c_diag, delta_w, delta_c_ic, r, fpu, value);
    products_are_those_of_the_matrix(matrix, x, r, fpu, value);
    assert((1 as real) * s == s && (0 as real) * s == (0 as real)) by (nonlinear_arith);
    assert(g(r, r) == a(r, r) + unit(r, r) * s);
    assert forall|j: int| 0 <= j < n + m && j != r implies #[trigger] g(r, j) == a(r, j) by {
        assert(g(r, j) == a(r, j) + unit(r, j) * s);
    }
    lemma_one_more(a, g, xs, r, r, s, (n + m) as nat);
    let v = xs(r);
    assert((0 as real) * v == (0 as real)) by (nonlinear_arith);
    if r >= n {
        let t = value(fpu.sum(delta_c_diag[r - n], delta_c_ic));
        assert((-t) * v == -(t * v)) by (nonlinear_arith);
    }
}

proof fn lemma_appended(
    t: Seq<Triplet>,
    start: int,
    end: int,
    delta: u64,
    i: int,
    j: int,
    k: nat,
    value: spec_fn(u64) -> real,
)
    requires
        k <= t.len() + diagonal(start, end, delta).len(),
    ensures
        entries_total(t + diagonal(start, end, delta), i, j, k, value) == if k <= t.len() {
            entries_total(t, i, j, k, value)
        } else {
            entries_total(t, i, j, t.len(), value) + (if i == j && start <= i < start + (k
                - t.len()) {
                value(delta)
            } else {
                0 as real
            })
        },
    decreases k,
{
    if k > 0 {
        lemma_appended(t, start, end, delta, i, j, (k - 1) as nat, value);
        let all = t + diagonal(start, end, delta);
        if k <= t.len() {
            assert(all[k - 1] == t[k - 1]);
        } else {
            assert(all[k - 1] == diagonal(start, end, delta)[k - 1 - t.len()]);
        }
    }
}

proof fn lemma_shifted<F: Fn(FloatOp, u64, u64) -> u64>(
    m: MatrixModel,
    start: int,
    len: int,
    delta: u64,
    apply: bool,
    i: int,
    j: int,
    fpu: Fpu<F>,
    value: spec_fn(u64) -> real,
)
    requires
        m is Sparse,
        0 <= len,
    ensures
        shifted(m, start, len, delta, apply, fpu) is Sparse,
        matrix_of(shifted(m, start, len, delta, apply, fpu), value)(i, j) == matrix_of(m, value)(
            i,
            j,
        ) + (if apply && i == j && start <= i < start + len {
            value(delta)
        } else {
            0 as real
        }),
{
    if apply {
        let t = m->entries;
        let d = diagonal(start, start + len, delta);
        lemma_appended(t, start, start + len, delta, i, j, t.len() + d.len(), value);
    }
}

/// A perturbed KKT matrix is the matrix with the perturbation of the Hessian added
/// to the diagonal of the variables, and that of the constraints taken off the
/// diagonal of the constraints. Nothing else changes, and perturbations that are not
/// positive change nothing.
pub proof fn perturbations_shift_the_diagonal<F: Fn(FloatOp, u64, u64) -> u64>(
    matrix: MatrixModel,
    n: int,
    m: int,
    dx: u64,
    dc: u64,
    i: int,
    j: int,
    fpu: Fpu<F>,
    value: spec_fn(u64) -> real,
)
    requires
        reads_numbers(value),
        reads_order(value),
        finite(dx),
        finite(dc),
        matrix is Sparse,
        0 <= n,
        0 <= m,
        0 <= i < n + m,
        0 <= j < n + m,
    ensures
        ({
            let now = matrix_of(Layout::Kkt { n, m }.perturbed(matrix, dx, dc, fpu), value)(i, j);
            let was = matrix_of(matrix, value)(i, j);
            now == was + (if i != j {
                0 as real
            } else if i < n {
                if value(dx) > (0 as real) {
                    value(dx)
                } else {
                    0 as real
                }
            } else {
                if value(dc) > (0 as real) {
                    -value(dc)
                } else {
                    0 as real
                }
            })
        }),
{
    reveal(Layout::perturbed);
    assert(finite(ZERO) && num_eq(ZERO, ZERO));
    assert(value(ZERO) == (0 as real));
    assert(num_lt(ZERO, dx) <==> value(ZERO) < value(dx));
    assert(num_lt(ZERO, dc) <==> value(ZERO) < value(dc));
    assert(value(negated(dc)) == -value(dc));
    lemma_shifted(matrix, 0, n, dx, num_lt(ZERO, dx), i, j, fpu, value);
    let a = shifted(matrix, 0, n, dx, num_lt(ZERO, dx), fpu);
    lemma_shifted(a, n, m, negated(dc), num_lt(ZERO, dc) && m > 0, i, j, fpu, value);
}

/// A perturbed augmented matrix has the perturbation of the primal unknowns on the
/// diagonal of the variables and of the slacks, and that of the constraints taken
/// off the diagonal of the equations and the inequalities.
pub proof fn augmented_perturbations_shift_the_diagonal<F: Fn(FloatOp, u64, u64) -> u64>(
    matrix: MatrixModel,
    n: int,
    n_c: int,
    n_d: int,
    dx: u64,
    dc: u64,
    i: int,
    j: int,
    fpu: Fpu<F>,
    value: spec_fn(u64) -> real,
)
    requires
        reads_numbers(value),
        reads_order(value),
        finite(dx),
        finite(dc),
        matrix is Sparse,
        0 <= n,
        0 <= n_c,
        0 <= n_d,
        0 <= i < n + n_d + n_c + n_d,
        0 <= j < n + n_d + n_c + n_d,
    ensures
        ({
            let now = matrix_of(
                Layout::Augmented { n, n_c, n_d }.perturbed(matrix, dx, dc, fpu),
                value,
            )(i, j);
            let was = matrix_of(matrix, value)(i, j);
            now == was + (if i != j {
                0 as real
            } else if i < n + n_d {
                value(dx)
            } else {
                -value(dc)
            })
        }),
{
    reveal(Layout::perturbed);
    assert(finite(ZERO) && num_eq(ZERO, ZERO));
    assert(value(ZERO) == (0 as real));
    assert(num_eq(dx, ZERO) <==> value(dx) == value(ZERO));
    assert(num_eq(dc, ZERO) <==> value(dc) == value(ZERO));
    assert(value(negated(dc)) == -value(dc));
    let ax = !num_eq(dx, ZERO);
    let ac = !num_eq(dc, ZERO);
    lemma_shifted(matrix, 0, n, dx, ax, i, j, fpu, value);
    let a = shifted(matrix, 0, n, dx, ax, fpu);
    lemma_shifted(a, n, n_d, dx, ax && n_d > 0, i, j, fpu, value);
    let b = shifted(a, n, n_d, dx, ax && n_d > 0, fpu);
    lemma_shifted(b, n + n_d, n_c, negated(dc), ac && n_c > 0, i, j, fpu, value);
    let c = shifted(b, n + n_d, n_c, negated(dc), ac && n_c > 0, fpu);
    lemma_shifted(c, n + n_d + n_c, n_d, negated(dc), ac && n_d > 0, i, j, fpu, value);
}

} // verus!
