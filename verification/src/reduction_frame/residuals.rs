//! What an accepted solution of a dense system leaves over.

use crate::float::{absolute, finite, nan, negated, num_lt, FloatOp, Fpu, ONE, TEN_M8, ZERO};
use crate::kkt::direction::amax;
use crate::kkt::measures::{reads_sizes, size};
use crate::linear_solver::real_matrix::{exact, exact_term, reads_numbers, reads_order};
use crate::linear_solver::table::cell;
use crate::reduction_frame::dense::{dense_solution, residual_max, row_times};
use crate::reduction_frame::stationarity_rhs;
use vstd::prelude::*;

verus! {

/// The product of a row and the first `k` elements of a vector.
pub open spec fn row_sum(
    m: Seq<u64>,
    dim: int,
    row: int,
    x: Seq<u64>,
    k: nat,
    value: spec_fn(u64) -> real,
) -> real
    decreases k,
{
    if k == 0 {
        0 as real
    } else {
        row_sum(m, dim, row, x, (k - 1) as nat, value) + value(cell(m, dim, row, k - 1)) * value(
            x[k - 1],
        )
    }
}

/// Column `j` is added to the product of a row without rounding.
pub open spec fn exact_column<F: Fn(FloatOp, u64, u64) -> u64>(
    m: Seq<u64>,
    dim: int,
    row: int,
    x: Seq<u64>,
    j: int,
    fpu: Fpu<F>,
    value: spec_fn(u64) -> real,
) -> bool {
    exact_term(
        row_times(m, dim, row, x, j as nat, fpu),
        cell(m, dim, row, j),
        x[j],
        false,
        fpu,
        value,
    )
}

/// The residual of a row is computed without rounding.
pub open spec fn exact_residual<F: Fn(FloatOp, u64, u64) -> u64>(
    m: Seq<u64>,
    x: Seq<u64>,
    rhs: Seq<u64>,
    dim: int,
    row: int,
    fpu: Fpu<F>,
    value: spec_fn(u64) -> real,
) -> bool {
    let p = row_times(m, dim, row, x, dim as nat, fpu);
    &&& forall|j: int| 0 <= j < dim ==> #[trigger] exact_column(m, dim, row, x, j, fpu, value)
    &&& exact(FloatOp::Sub, p, rhs[row], fpu, value)
    &&& !nan(fpu.difference(p, rhs[row]))
}

proof fn lemma_row<F: Fn(FloatOp, u64, u64) -> u64>(
    m: Seq<u64>,
    dim: int,
    row: int,
    x: Seq<u64>,
    k: nat,
    fpu: Fpu<F>,
    value: spec_fn(u64) -> real,
)
    requires
        value(ZERO) == (0 as real),
        k <= dim,
        forall|j: int| 0 <= j < dim ==> #[trigger] exact_column(m, dim, row, x, j, fpu, value),
    ensures
        value(row_times(m, dim, row, x, k, fpu)) == row_sum(m, dim, row, x, k, value),
    decreases k,
{
    if k > 0 {
        lemma_row(m, dim, row, x, (k - 1) as nat, fpu, value);
        assert(exact_column(m, dim, row, x, k - 1, fpu, value));
    }
}

proof fn lemma_residuals<F: Fn(FloatOp, u64, u64) -> u64>(
    m: Seq<u64>,
    x: Seq<u64>,
    rhs: Seq<u64>,
    dim: int,
    k: nat,
    i: int,
    fpu: Fpu<F>,
    value: spec_fn(u64) -> real,
)
    requires
        reads_sizes(fpu, value),
        k <= dim,
        forall|r: int| 0 <= r < dim ==> #[trigger] exact_residual(m, x, rhs, dim, r, fpu, value),
    ensures
        !nan(residual_max(m, x, rhs, dim, k, fpu)),
        0 <= i < k ==> size(row_sum(m, dim, i, x, dim as nat, value) - value(rhs[i])) <= value(
            residual_max(m, x, rhs, dim, k, fpu),
        ),
    decreases k,
{
    if k > 0 {
        lemma_residuals(m, x, rhs, dim, (k - 1) as nat, i, fpu, value);
        let r = k - 1;
        assert(exact_residual(m, x, rhs, dim, r, fpu, value));
        lemma_row(m, dim, r, x, dim as nat, fpu, value);
        let d = fpu.difference(row_times(m, dim, r, x, dim as nat, fpu), rhs[r]);
        let before = residual_max(m, x, rhs, dim, (k - 1) as nat, fpu);
        assert(!nan(absolute(d)));
        assert(value(absolute(d)) == size(value(d)));
        assert(!nan(fpu.calc(FloatOp::Max, before, absolute(d))));
    }
}

/// A solution that is accepted solves every row of the system up to the accepted residual, which is `1e-8` of the greatest
/// magnitude of the right-hand side, or of one.
pub proof fn accepted_solutions_solve<F: Fn(FloatOp, u64, u64) -> u64>(
    m: Seq<u64>,
    rhs: Seq<u64>,
    dim: int,
    i: int,
    fpu: Fpu<F>,
    value: spec_fn(u64) -> real,
)
    requires
        reads_sizes(fpu, value),
        reads_order(value),
        0 <= i < dim,
        dense_solution(m, rhs, dim, fpu) is Ok,
        ({
            let x = dense_solution(m, rhs, dim, fpu)->Ok_0;
            let scale = fpu.calc(FloatOp::Max, amax(rhs, fpu), ONE);
            &&& forall|r: int|
                0 <= r < dim ==> #[trigger] exact_residual(m, x, rhs, dim, r, fpu, value)
            &&& exact(FloatOp::Mul, TEN_M8, scale, fpu, value)
            &&& finite(fpu.product(TEN_M8, scale))
            &&& finite(residual_max(m, x, rhs, dim, dim as nat, fpu))
        }),
    ensures
        ({
            let x = dense_solution(m, rhs, dim, fpu)->Ok_0;
            let scale = fpu.calc(FloatOp::Max, amax(rhs, fpu), ONE);
            &&& x.len() == dim
            &&& size(row_sum(m, dim, i, x, dim as nat, value) - value(rhs[i])) <= value(TEN_M8)
                * value(scale)
        }),
{
    let x = dense_solution(m, rhs, dim, fpu)->Ok_0;
    lemma_residuals(m, x, rhs, dim, dim as nat, i, fpu, value);
    let scale = fpu.calc(FloatOp::Max, amax(rhs, fpu), ONE);
    let (a, b) = (fpu.product(TEN_M8, scale), residual_max(m, x, rhs, dim, dim as nat, fpu));
    assert(value(a) < value(b) ==> num_lt(a, b));
}

/// What the multipliers of removed constraints have to make up for in a removed variable: minus the gradient of the objective,
/// plus the multiplier of its lower bound, less that of its upper bound.
pub proof fn removed_variables_ask_for_stationarity<F: Fn(FloatOp, u64, u64) -> u64>(
    vars: Seq<usize>,
    grad: Seq<u64>,
    z_l: Seq<u64>,
    z_u: Seq<u64>,
    k: int,
    fpu: Fpu<F>,
    value: spec_fn(u64) -> real,
)
    requires
        reads_numbers(value),
        0 <= k < vars.len(),
        ({
            let v = vars[k] as int;
            &&& exact(FloatOp::Sub, grad[v], z_l[v], fpu, value)
            &&& exact(FloatOp::Add, fpu.difference(grad[v], z_l[v]), z_u[v], fpu, value)
        }),
    ensures
        ({
            let v = vars[k] as int;
            value(grad[v]) - value(z_l[v]) + value(z_u[v]) + value(
                stationarity_rhs(vars, grad, z_l, z_u, fpu)[k],
            ) == (0 as real)
        }),
{
    let v = vars[k] as int;
    let t = fpu.sum(fpu.difference(grad[v], z_l[v]), z_u[v]);
    assert(value(negated(t)) == -value(t));
}

} // verus!
