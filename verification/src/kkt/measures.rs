//! What the norms, residuals, products and ratios of a direction measure.

use crate::float::{absolute, finite, nan, negated, num_eq, num_lt, FloatOp, Fpu, TEN_P6, ZERO};
use crate::kkt::assemble::dual_entry;
use crate::kkt::barrier::{affine_entry, jacobian_product, slack, zeros};
use crate::kkt::direction::{amax, amax_upto, BoundModel, DirectionTask};
use crate::kkt::refined::{full_norms, full_ratio, max_abs, FullNorms};
use crate::kkt_aug::folding::exact_dual;
use crate::kkt_aug::step::transposed_product;
use crate::linear_solver::linear_algebra::times;
use crate::linear_solver::real_matrix::{
    exact, exact_term, matrix_of, picks_larger, picks_smaller, reads_numbers, vector_of,
};
use crate::linear_solver::real_product::{
    exact_product, in_upper_triangle, products_are_those_of_the_matrix,
};
use vstd::prelude::*;

verus! {

/// The magnitude of a number.
pub open spec fn size(a: real) -> real {
    if a >= (0 as real) {
        a
    } else {
        -a
    }
}

/// Magnitudes are what they stand for, and the larger one of two numbers is picked.
pub open spec fn reads_sizes<F: Fn(FloatOp, u64, u64) -> u64>(
    fpu: Fpu<F>,
    value: spec_fn(u64) -> real,
) -> bool {
    &&& forall|a: u64| value(#[trigger] absolute(a)) == size(value(a))
    &&& forall|a: u64, b: u64|
        !nan(a) && !nan(b) ==> picks_larger(a, b, fpu, value) && !nan(
            #[trigger] fpu.calc(FloatOp::Max, a, b),
        )
    &&& forall|a: u64| !nan(a) ==> !nan(#[trigger] absolute(a))
    &&& value(ZERO) == (0 as real)
    &&& !nan(ZERO)
}

/// No number in the list is missing.
pub open spec fn all_numbers(v: Seq<u64>) -> bool {
    forall|i: int| 0 <= i < v.len() ==> !nan(#[trigger] v[i])
}

proof fn lemma_amax<F: Fn(FloatOp, u64, u64) -> u64>(
    v: Seq<u64>,
    k: nat,
    fpu: Fpu<F>,
    value: spec_fn(u64) -> real,
)
    requires
        reads_sizes(fpu, value),
        all_numbers(v),
        k <= v.len(),
    ensures
        !nan(amax_upto(v, k, fpu)),
        value(amax_upto(v, k, fpu)) >= (0 as real),
        forall|i: int| 0 <= i < k ==> size(value(#[trigger] v[i])) <= value(amax_upto(v, k, fpu)),
        value(amax_upto(v, k, fpu)) == (0 as real) || exists|i: int|
            0 <= i < k && size(value(#[trigger] v[i])) == value(amax_upto(v, k, fpu)),
    decreases k,
{
    if k > 0 {
        lemma_amax(v, (k - 1) as nat, fpu, value);
        let before = amax_upto(v, (k - 1) as nat, fpu);
        let last = v[k - 1];
        assert(!nan(last));
        assert(!nan(absolute(last)));
        assert(picks_larger(before, absolute(last), fpu, value) && !nan(
            fpu.calc(FloatOp::Max, before, absolute(last)),
        ));
        assert(value(absolute(last)) == size(value(last)));
        let now = amax_upto(v, k, fpu);
        if value(now) == value(absolute(last)) {
            assert(size(value(v[k - 1])) == value(now));
        }
    }
}

/// A norm is the greatest magnitude: none in the vector is greater, and one is that great, unless all are zero.
pub proof fn norms_are_greatest_magnitudes<F: Fn(FloatOp, u64, u64) -> u64>(
    v: Seq<u64>,
    fpu: Fpu<F>,
    value: spec_fn(u64) -> real,
)
    requires
        reads_sizes(fpu, value),
        all_numbers(v),
    ensures
        forall|i: int| 0 <= i < v.len() ==> size(value(#[trigger] v[i])) <= value(amax(v, fpu)),
        value(amax(v, fpu)) == (0 as real) || exists|i: int|
            0 <= i < v.len() && size(value(#[trigger] v[i])) == value(amax(v, fpu)),
{
    lemma_amax(v, v.len(), fpu, value);
}

/// A residual is what the product of the matrix and a solution lacks to the right-hand side.
pub proof fn residuals_are_what_is_missing<F: Fn(FloatOp, u64, u64) -> u64>(
    t: DirectionTask,
    sol: Seq<u64>,
    i: int,
    fpu: Fpu<F>,
    value: spec_fn(u64) -> real,
)
    requires
        reads_numbers(value),
        0 <= i < t.rhs.len(),
        t.rhs.len() == t.matrix.dim(),
        t.matrix is Sparse ==> in_upper_triangle(t.matrix->entries, t.matrix.dim()),
        exact_product(t.matrix, sol, i, fpu, value),
        exact(FloatOp::Sub, t.rhs[i], t.matrix.dot(sol, i, fpu), fpu, value),
    ensures
        value(t.residual(sol, fpu)[i]) + times(
            matrix_of(t.matrix, value),
            vector_of(sol, value),
            i,
            t.rhs.len(),
        ) == value(t.rhs[i]),
{
    products_are_those_of_the_matrix(t.matrix, sol, i, fpu, value);
}

/// The ratio of a solution is the norm of its residual over the norm of the right-hand side and that of the solution, where the
/// latter counts at most a million times the former; where both are zero it is the norm of the residual.
pub proof fn ratios_are_relative_residuals<F: Fn(FloatOp, u64, u64) -> u64>(
    t: DirectionTask,
    sol: Seq<u64>,
    fpu: Fpu<F>,
    value: spec_fn(u64) -> real,
)
    requires
        reads_numbers(value),
        t.bounds is None,
        ({
            let (r, s) = (amax(t.rhs, fpu), amax(sol, fpu));
            let cap = fpu.product(TEN_P6, r);
            let least = fpu.calc(FloatOp::Min, s, cap);
            &&& exact(FloatOp::Add, r, s, fpu, value)
            &&& exact(FloatOp::Mul, TEN_P6, r, fpu, value)
            &&& picks_smaller(s, cap, fpu, value)
            &&& exact(FloatOp::Add, least, r, fpu, value)
            &&& exact(FloatOp::Div, amax(t.residual(sol, fpu), fpu), fpu.sum(least, r), fpu, value)
        }),
    ensures
        ({
            let (r, s) = (value(amax(t.rhs, fpu)), value(amax(sol, fpu)));
            let resid = value(amax(t.residual(sol, fpu), fpu));
            let cap = value(TEN_P6) * r;
            if num_eq(fpu.sum(amax(t.rhs, fpu), amax(sol, fpu)), ZERO) {
                r + s == (0 as real) && value(t.ratio(sol, fpu)) == resid
            } else {
                value(t.ratio(sol, fpu)) * ((if s <= cap {
                    s
                } else {
                    cap
                }) + r) == resid
            }
        }),
{
}

/// The sum of the products of the first `k` entries in a row and what stands in their columns.
pub open spec fn row_total(
    rows: Seq<usize>,
    cols: Seq<usize>,
    vals: Seq<u64>,
    x: Seq<u64>,
    i: int,
    k: nat,
    value: spec_fn(u64) -> real,
) -> real
    decreases k,
{
    if k == 0 {
        0 as real
    } else {
        row_total(rows, cols, vals, x, i, (k - 1) as nat, value) + (if rows[k - 1] == i {
            value(vals[k - 1]) * value(x[cols[k - 1] as int])
        } else {
            0 as real
        })
    }
}

/// Entry `e` is added to the product without rounding.
pub open spec fn exact_product_at<F: Fn(FloatOp, u64, u64) -> u64>(
    n: nat,
    m: nat,
    rows: Seq<usize>,
    cols: Seq<usize>,
    vals: Seq<u64>,
    x: Seq<u64>,
    e: int,
    fpu: Fpu<F>,
    value: spec_fn(u64) -> real,
) -> bool {
    let before = jacobian_product(n, m, rows, cols, vals, x, e as nat, fpu);
    &&& rows[e] < m && cols[e] < n
    &&& exact_term(before[rows[e] as int], vals[e], x[cols[e] as int], false, fpu, value)
}

/// The product of a Jacobian and a step is that of the matrix that its entries add up to.
pub proof fn jacobian_products_are_products<F: Fn(FloatOp, u64, u64) -> u64>(
    n: nat,
    m: nat,
    rows: Seq<usize>,
    cols: Seq<usize>,
    vals: Seq<u64>,
    x: Seq<u64>,
    k: nat,
    i: int,
    fpu: Fpu<F>,
    value: spec_fn(u64) -> real,
)
    requires
        reads_numbers(value),
        0 <= i < m,
        k <= rows.len(),
        k <= cols.len(),
        forall|e: int|
            0 <= e < k ==> #[trigger] exact_product_at(n, m, rows, cols, vals, x, e, fpu, value),
    ensures
        jacobian_product(n, m, rows, cols, vals, x, k, fpu).len() == m,
        value(jacobian_product(n, m, rows, cols, vals, x, k, fpu)[i]) == row_total(
            rows,
            cols,
            vals,
            x,
            i,
            k,
            value,
        ),
    decreases k,
{
    if k > 0 {
        jacobian_products_are_products(
            n,
            m,
            rows,
            cols,
            vals,
            x,
            (k - 1) as nat,
            i,
            fpu,
            value,
        );
        assert(exact_product_at(n, m, rows, cols, vals, x, k - 1, fpu, value));
    } else {
        assert(num_eq(ZERO, ZERO));
        assert(zeros(m)[i] == ZERO);
        assert(value(ZERO) == (0 as real));
    }
}

/// Entry `e` is added to the transposed product without rounding.
pub open spec fn exact_transposed_at<F: Fn(FloatOp, u64, u64) -> u64>(
    n: nat,
    m: nat,
    rows: Seq<usize>,
    cols: Seq<usize>,
    vals: Seq<u64>,
    y: Seq<u64>,
    e: int,
    fpu: Fpu<F>,
    value: spec_fn(u64) -> real,
) -> bool {
    let before = transposed_product(rows, cols, vals, y, n, m, e as nat, fpu);
    &&& rows[e] < m && cols[e] < n
    &&& exact_term(before[cols[e] as int], vals[e], y[rows[e] as int], false, fpu, value)
}

/// The product of a transposed Jacobian and multipliers is that of the transposed matrix that its entries add up to.
pub proof fn transposed_products_are_products<F: Fn(FloatOp, u64, u64) -> u64>(
    n: nat,
    m: nat,
    rows: Seq<usize>,
    cols: Seq<usize>,
    vals: Seq<u64>,
    y: Seq<u64>,
    k: nat,
    j: int,
    fpu: Fpu<F>,
    value: spec_fn(u64) -> real,
)
    requires
        reads_numbers(value),
        0 <= j < n,
        k <= rows.len(),
        k <= cols.len(),
        forall|e: int|
            0 <= e < k ==> #[trigger] exact_transposed_at(n, m, rows, cols, vals, y, e, fpu, value),
    ensures
        transposed_product(rows, cols, vals, y, n, m, k, fpu).len() == n,
        value(transposed_product(rows, cols, vals, y, n, m, k, fpu)[j]) == row_total(
            cols,
            rows,
            vals,
            y,
            j,
            k,
            value,
        ),
    decreases k,
{
    if k > 0 {
        transposed_products_are_products(
            n,
            m,
            rows,
            cols,
            vals,
            y,
            (k - 1) as nat,
            j,
            fpu,
            value,
        );
        assert(exact_transposed_at(n, m, rows, cols, vals, y, k - 1, fpu, value));
    } else {
        assert(num_eq(ZERO, ZERO));
        assert(zeros(n)[j] == ZERO);
        assert(value(ZERO) == (0 as real));
    }
}

/// The sums that take centering and damping out of an entry do not round.
pub open spec fn exact_affine<F: Fn(FloatOp, u64, u64) -> u64>(
    r: u64,
    x: u64,
    lower: u64,
    upper: u64,
    mu: u64,
    kappa_d: u64,
    fpu: Fpu<F>,
    value: spec_fn(u64) -> real,
) -> bool {
    let (q_l, q_u) = (
        fpu.quotient(mu, slack(x, lower, fpu)),
        fpu.quotient(mu, slack(upper, x, fpu)),
    );
    let a = if finite(lower) {
        fpu.difference(r, q_l)
    } else {
        r
    };
    let b = if finite(upper) {
        fpu.sum(a, q_u)
    } else {
        a
    };
    let damping = fpu.product(kappa_d, mu);
    &&& finite(lower) ==> exact(FloatOp::Sub, r, q_l, fpu, value) && slack(x, lower, fpu)
        == fpu.difference(x, lower)
    &&& finite(upper) ==> exact(FloatOp::Add, a, q_u, fpu, value) && slack(upper, x, fpu)
        == fpu.difference(upper, x)
    &&& num_lt(ZERO, kappa_d) && finite(lower) != finite(upper) ==> {
        &&& finite(lower) ==> exact(FloatOp::Add, b, damping, fpu, value)
        &&& finite(upper) ==> exact(FloatOp::Sub, b, damping, fpu, value)
    }
}

/// The affine entry of a variable that is inside its bounds is what its right-hand side has without a barrier: minus the
/// gradient. Centering and damping are taken out as they came in.
pub proof fn affine_entries_leave_the_barrier_out<F: Fn(FloatOp, u64, u64) -> u64>(
    grad: u64,
    x: u64,
    lower: u64,
    upper: u64,
    mu: u64,
    kappa_d: u64,
    fpu: Fpu<F>,
    value: spec_fn(u64) -> real,
)
    requires
        reads_numbers(value),
        exact_dual(grad, x, lower, upper, mu, kappa_d, fpu, value),
        exact_affine(
            dual_entry(grad, x, lower, upper, mu, kappa_d, fpu),
            x,
            lower,
            upper,
            mu,
            kappa_d,
            fpu,
            value,
        ),
    ensures
        value(
            affine_entry(
                dual_entry(grad, x, lower, upper, mu, kappa_d, fpu),
                x,
                lower,
                upper,
                mu,
                kappa_d,
                fpu,
            ),
        ) == -value(grad),
{
    assert(value(negated(grad)) == -value(grad));
}

/// The residuals of the complementarity equations of variable `i` do not round.
pub open spec fn exact_full<F: Fn(FloatOp, u64, u64) -> u64>(
    b: BoundModel,
    dx: Seq<u64>,
    dz_l: Seq<u64>,
    dz_u: Seq<u64>,
    i: int,
    fpu: Fpu<F>,
    value: spec_fn(u64) -> real,
) -> bool {
    let s_l = slack(b.x[i], b.x_l[i], fpu);
    let s_u = slack(b.x_u[i], b.x[i], fpu);
    &&& finite(b.x_l[i]) ==> {
        let (p, q, zs) = (
            fpu.product(s_l, dz_l[i]),
            fpu.product(b.z_l[i], dx[i]),
            fpu.product(b.z_l[i], s_l),
        );
        let r = fpu.difference(fpu.sum(p, q), fpu.difference(b.mu, zs));
        &&& exact(FloatOp::Mul, s_l, dz_l[i], fpu, value)
        &&& exact(FloatOp::Mul, b.z_l[i], dx[i], fpu, value)
        &&& exact(FloatOp::Mul, b.z_l[i], s_l, fpu, value)
        &&& exact(FloatOp::Add, p, q, fpu, value)
        &&& exact(FloatOp::Sub, b.mu, zs, fpu, value)
        &&& exact(FloatOp::Sub, fpu.sum(p, q), fpu.difference(b.mu, zs), fpu, value)
        &&& !nan(r)
    }
    &&& finite(b.x_u[i]) ==> {
        let (p, q, zs) = (
            fpu.product(s_u, dz_u[i]),
            fpu.product(b.z_u[i], dx[i]),
            fpu.product(b.z_u[i], s_u),
        );
        let r = fpu.difference(fpu.difference(p, q), fpu.difference(b.mu, zs));
        &&& exact(FloatOp::Mul, s_u, dz_u[i], fpu, value)
        &&& exact(FloatOp::Mul, b.z_u[i], dx[i], fpu, value)
        &&& exact(FloatOp::Mul, b.z_u[i], s_u, fpu, value)
        &&& exact(FloatOp::Sub, p, q, fpu, value)
        &&& exact(FloatOp::Sub, b.mu, zs, fpu, value)
        &&& exact(FloatOp::Sub, fpu.difference(p, q), fpu.difference(b.mu, zs), fpu, value)
        &&& !nan(r)
    }
}

/// The norms of the complementarity residuals bound what every variable is off the linearized equations `s dz + z dx = mu - z s`
/// at a lower and `s dz - z dx = mu - z s` at an upper bound, and the norm of the solution bounds all steps.
pub proof fn full_norms_bound_the_residuals<F: Fn(FloatOp, u64, u64) -> u64>(
    b: BoundModel,
    rhs: u64,
    dx: Seq<u64>,
    dz_l: Seq<u64>,
    dz_u: Seq<u64>,
    k: nat,
    i: int,
    fpu: Fpu<F>,
    value: spec_fn(u64) -> real,
)
    requires
        reads_sizes(fpu, value),
        all_numbers(dx),
        all_numbers(dz_l),
        all_numbers(dz_u),
        k <= dx.len(),
        k <= dz_l.len(),
        k <= dz_u.len(),
        forall|i: int|
            0 <= i < k ==> #[trigger] exact_full(b, dx, dz_l, dz_u, i, fpu, value),
    ensures
        ({
            let f = full_norms(b, rhs, dx, dz_l, dz_u, k, fpu);
            &&& !nan(f.lower) && !nan(f.upper) && !nan(f.sol)
            &&& 0 <= i < k ==> {
                let s_l = value(slack(b.x[i], b.x_l[i], fpu));
                let s_u = value(slack(b.x_u[i], b.x[i], fpu));
                let (x, l, u) = (value(dx[i]), value(dz_l[i]), value(dz_u[i]));
                let (z_l, z_u, mu) = (value(b.z_l[i]), value(b.z_u[i]), value(b.mu));
                &&& finite(b.x_l[i]) ==> size(s_l * l + z_l * x - (mu - z_l * s_l)) <= value(f.lower)
                &&& finite(b.x_u[i]) ==> size(s_u * u - z_u * x - (mu - z_u * s_u)) <= value(f.upper)
                &&& size(x) <= value(f.sol) && size(l) <= value(f.sol) && size(u) <= value(f.sol)
            }
        }),
    decreases k,
{
    if k > 0 {
        full_norms_bound_the_residuals(
            b,
            rhs,
            dx,
            dz_l,
            dz_u,
            (k - 1) as nat,
            i,
            fpu,
            value,
        );
        let e = k - 1;
        assert(exact_full(b, dx, dz_l, dz_u, e, fpu, value));
        let a = full_norms(b, rhs, dx, dz_l, dz_u, (k - 1) as nat, fpu);
        lemma_max_abs(a.sol, dx[e], fpu, value);
        let s1 = max_abs(a.sol, dx[e], fpu);
        lemma_max_abs(s1, dz_l[e], fpu, value);
        let s2 = max_abs(s1, dz_l[e], fpu);
        lemma_max_abs(s2, dz_u[e], fpu, value);
        if finite(b.x_l[e]) {
            let s = slack(b.x[e], b.x_l[e], fpu);
            let zs = fpu.product(b.z_l[e], s);
            let r = fpu.difference(
                fpu.sum(fpu.product(s, dz_l[e]), fpu.product(b.z_l[e], dx[e])),
                fpu.difference(b.mu, zs),
            );
            lemma_max_abs(a.lower, r, fpu, value);
        }
        if finite(b.x_u[e]) {
            let s = slack(b.x_u[e], b.x[e], fpu);
            let zs = fpu.product(b.z_u[e], s);
            let r = fpu.difference(
                fpu.difference(fpu.product(s, dz_u[e]), fpu.product(b.z_u[e], dx[e])),
                fpu.difference(b.mu, zs),
            );
            lemma_max_abs(a.upper, r, fpu, value);
        }
    }
}

proof fn lemma_max_abs<F: Fn(FloatOp, u64, u64) -> u64>(
    a: u64,
    v: u64,
    fpu: Fpu<F>,
    value: spec_fn(u64) -> real,
)
    requires
        reads_sizes(fpu, value),
        !nan(a),
        !nan(v),
    ensures
        !nan(max_abs(a, v, fpu)),
        value(max_abs(a, v, fpu)) >= value(a),
        value(max_abs(a, v, fpu)) >= size(value(v)),
{
    assert(!nan(absolute(v)));
    assert(value(absolute(v)) == size(value(v)));
    assert(!nan(fpu.calc(FloatOp::Max, a, absolute(v))));
}

/// The ratio of the complementarity residuals is the greater one of their norms over the norms of the right-hand side and of the
/// solution, where the latter counts at most a million times the former.
pub proof fn full_ratios_are_relative_residuals<F: Fn(FloatOp, u64, u64) -> u64>(
    f: FullNorms,
    fpu: Fpu<F>,
    value: spec_fn(u64) -> real,
)
    requires
        picks_larger(f.lower, f.upper, fpu, value),
        ({
            let cap = fpu.product(TEN_P6, f.rhs);
            let least = fpu.calc(FloatOp::Min, f.sol, cap);
            let resid = fpu.calc(FloatOp::Max, f.lower, f.upper);
            &&& exact(FloatOp::Mul, TEN_P6, f.rhs, fpu, value)
            &&& picks_smaller(f.sol, cap, fpu, value)
            &&& exact(FloatOp::Add, least, f.rhs, fpu, value)
            &&& exact(FloatOp::Div, resid, fpu.sum(least, f.rhs), fpu, value)
        }),
    ensures
        ({
            let resid = if value(f.lower) >= value(f.upper) {
                value(f.lower)
            } else {
                value(f.upper)
            };
            let cap = value(TEN_P6) * value(f.rhs);
            if num_eq(f.rhs, ZERO) && num_eq(f.sol, ZERO) {
                value(full_ratio(f, fpu)) == resid
            } else {
                value(full_ratio(f, fpu)) * ((if value(f.sol) <= cap {
                    value(f.sol)
                } else {
                    cap
                }) + value(f.rhs)) == resid
            }
        }),
{
}

} // verus!
