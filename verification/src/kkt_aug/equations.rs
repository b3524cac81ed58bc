//! The augmented system is the Newton system of the primal-dual equations.

use crate::float::{finite, negated, num_eq, num_lt, FloatOp, Fpu, MINUS_ONE, ONE, ZERO};
use crate::kkt::assemble::{empty_matrix, triplets_added, values_on_diagonal};
use crate::kkt::assembly::{additions_add, diagonals_add, lemma_empty, lemma_triplets, listed_total};
use crate::kkt::barrier::{paired, slack, zeros};
use crate::kkt::layout::{constraints_of, is_equation};
use crate::kkt_aug::agreement::{
    lemma_listed, lemma_listed_entry, lemma_scattered_constraints, lemma_unlisted,
};
use crate::kkt_aug::system::{
    aug_matrix, complementarity, folded, folded_entry, gathered, lagrangian_entry,
    lemma_constraints_few, lowered, outer_rhs, partition_inverts, partition_of, picked, raised,
    recovered, repeated, routed, slack_complementarity, slacks_coupled, AugData, Iterate,
    OuterModel, PartitionModel,
};
use crate::linear_solver::model::MatrixModel;
use crate::linear_solver::real_matrix::{exact, matrix_of, reads_numbers};
use crate::linear_solver::sparse_matrix::diagonal;
use vstd::prelude::*;

verus! {

/// The row of the augmented matrix that a constraint stands in.
pub open spec fn row_of(n: int, p: PartitionModel, r: int) -> int {
    match p.eq_pos[r] {
        Some(k) => n + p.n_d + k,
        None => n + p.n_d + p.n_c + p.ineq_pos[r]->0,
    }
}

proof fn lemma_routed<F: Fn(FloatOp, u64, u64) -> u64>(
    m: MatrixModel,
    n: int,
    p: PartitionModel,
    rows: Seq<usize>,
    cols: Seq<usize>,
    vals: Seq<u64>,
    k: nat,
    i: int,
    j: int,
    fpu: Fpu<F>,
    value: spec_fn(u64) -> real,
)
    requires
        m is Sparse,
        k <= rows.len(),
        forall|e: int|
            0 <= e < rows.len() ==> p.eq_pos[#[trigger] rows[e] as int] is Some
                || p.ineq_pos[rows[e] as int] is Some,
    ensures
        ({
            let now = routed(
                m,
                p.eq_pos,
                p.ineq_pos,
                n + p.n_d,
                n + p.n_d + p.n_c,
                rows,
                cols,
                vals,
                k,
                fpu,
            );
            &&& now is Sparse
            &&& matrix_of(now, value)(i, j) == matrix_of(m, value)(i, j) + listed_total(
                rows,
                cols,
                vals,
                |r: int| row_of(n, p, r),
                i,
                j,
                k,
                value,
            )
        }),
    decreases k,
{
    if k > 0 {
        lemma_routed(m, n, p, rows, cols, vals, (k - 1) as nat, i, j, fpu, value);
        let before = routed(
            m,
            p.eq_pos,
            p.ineq_pos,
            n + p.n_d,
            n + p.n_d + p.n_c,
            rows,
            cols,
            vals,
            (k - 1) as nat,
            fpu,
        );
        let r = rows[k - 1] as int;
        additions_add(
            before,
            row_of(n, p, r),
            cols[k - 1] as int,
            vals[k - 1],
            i,
            j,
            fpu,
            value,
        );
    }
}

proof fn lemma_coupled<F: Fn(FloatOp, u64, u64) -> u64>(
    m: MatrixModel,
    yd: int,
    so: int,
    k: nat,
    i: int,
    j: int,
    fpu: Fpu<F>,
    value: spec_fn(u64) -> real,
)
    requires
        m is Sparse,
        reads_numbers(value),
        so + k <= yd,
    ensures
        slacks_coupled(m, yd, so, k, fpu) is Sparse,
        matrix_of(slacks_coupled(m, yd, so, k, fpu), value)(i, j) == matrix_of(m, value)(i, j) + (
        if (yd <= i < yd + k && j == so + (i - yd)) || (yd <= j < yd + k && i == so + (j - yd)) {
            -1 as real
        } else {
            0 as real
        }),
    decreases k,
{
    assert(value(negated(ONE)) == -value(ONE));
    assert(negated(ONE) == MINUS_ONE);
    if k > 0 {
        lemma_coupled(m, yd, so, (k - 1) as nat, i, j, fpu, value);
        let before = slacks_coupled(m, yd, so, (k - 1) as nat, fpu);
        additions_add(before, yd + k - 1, so + k - 1, MINUS_ONE, i, j, fpu, value);
    }
}

proof fn lemma_lowered<F: Fn(FloatOp, u64, u64) -> u64>(
    m: MatrixModel,
    offset: int,
    delta: u64,
    n: nat,
    i: int,
    j: int,
    fpu: Fpu<F>,
    value: spec_fn(u64) -> real,
)
    requires
        m is Sparse,
        reads_numbers(value),
    ensures
        lowered(m, offset, delta, n, fpu) is Sparse,
        matrix_of(lowered(m, offset, delta, n, fpu), value)(i, j) == matrix_of(m, value)(i, j) - (
        if i == j && offset <= i < offset + n {
            value(delta)
        } else {
            0 as real
        }),
{
    assert(num_eq(delta, ZERO) ==> value(delta) == (0 as real));
    assert(value(negated(delta)) == -value(delta));
    diagonals_add(m, offset, repeated(negated(delta), n), n, i, j, fpu, value);
}

/// The part of a diagonal at a place.
pub open spec fn on_diagonal(
    vals: Seq<u64>,
    delta: u64,
    offset: int,
    n: int,
    i: int,
    j: int,
    value: spec_fn(u64) -> real,
) -> real {
    if i == j && offset <= i < offset + n {
        value(vals[i - offset]) + value(delta)
    } else {
        0 as real
    }
}

/// The augmented matrix is the sum of its parts: the Hessian and its mirror image, the barrier diagonals of the variables
/// and of the slacks with their perturbations, the rows of the Jacobian, those of equations before those of
/// inequalities, with their mirror images, minus one where a slack meets its inequality, and minus the perturbations of
/// the constraints on the diagonal. No diagonal may round.
pub proof fn augmented_matrix_is_the_kkt_matrix<F: Fn(FloatOp, u64, u64) -> u64>(
    n: int,
    p: PartitionModel,
    d: AugData,
    delta_x: u64,
    delta_s: u64,
    delta_c: u64,
    delta_d: u64,
    i: int,
    j: int,
    fpu: Fpu<F>,
    value: spec_fn(u64) -> real,
)
    requires
        reads_numbers(value),
        0 <= n,
        0 <= p.n_c,
        0 <= p.n_d,
        d.sigma_x.len() >= n,
        d.sigma_s.len() >= p.n_d,
        0 <= i < n + p.n_d + p.n_c + p.n_d,
        0 <= j < n + p.n_d + p.n_c + p.n_d,
        forall|e: int|
            0 <= e < d.jac_rows.len() ==> p.eq_pos[#[trigger] d.jac_rows[e] as int] is Some
                || p.ineq_pos[d.jac_rows[e] as int] is Some,
        forall|k: int| 0 <= k < n ==> exact(FloatOp::Add, #[trigger] d.sigma_x[k], delta_x, fpu, value),
        forall|k: int|
            0 <= k < p.n_d ==> exact(FloatOp::Add, #[trigger] d.sigma_s[k], delta_s, fpu, value),
    ensures
        ({
            let (yc, yd) = (n + p.n_d, n + p.n_d + p.n_c);
            let hessian = listed_total(
                d.hess_rows,
                d.hess_cols,
                d.hess_vals,
                |r: int| r,
                i,
                j,
                paired(d.hess_rows, d.hess_cols),
                value,
            );
            let jacobian = listed_total(
                d.jac_rows,
                d.jac_cols,
                d.jac_vals,
                |r: int| row_of(n, p, r),
                i,
                j,
                paired(d.jac_rows, d.jac_cols),
                value,
            );
            let coupling: real = if (i >= yd && j == i - yd + n) || (j >= yd && i == j - yd + n) {
                -1 as real
            } else {
                0 as real
            };
            let lower: real = if i != j || i < yc {
                0 as real
            } else if i < yd {
                value(delta_c)
            } else {
                value(delta_d)
            };
            matrix_of(
                aug_matrix(n, p, d, delta_x, delta_s, delta_c, delta_d, true, fpu),
                value,
            )(i, j) == hessian + on_diagonal(d.sigma_x, delta_x, 0, n, i, j, value) + on_diagonal(
                d.sigma_s,
                delta_s,
                n,
                p.n_d,
                i,
                j,
                value,
            ) + jacobian + coupling - lower
        }),
{
    let (yc, yd) = (n + p.n_d, n + p.n_d + p.n_c);
    let dim = n + p.n_d + p.n_c + p.n_d;
    let zero = empty_matrix(dim, true);
    lemma_empty(dim, i, j, diagonal(0, dim, 0).len(), value);
    assert(matrix_of(zero, value)(i, j) == (0 as real));
    let count = paired(d.hess_rows, d.hess_cols);
    lemma_triplets(zero, d.hess_rows, d.hess_cols, d.hess_vals, count, i, j, fpu, value);
    let hessian = triplets_added(zero, d.hess_rows, d.hess_cols, d.hess_vals, count, fpu);
    let sx = raised(d.sigma_x, delta_x, fpu);
    diagonals_add(hessian, 0, sx, n as nat, i, j, fpu, value);
    let variables = values_on_diagonal(hessian, 0, sx, n as nat, fpu);
    let ss = raised(d.sigma_s, delta_s, fpu);
    diagonals_add(variables, n, ss, p.n_d as nat, i, j, fpu, value);
    let slacks = values_on_diagonal(variables, n, ss, p.n_d as nat, fpu);
    if i == j && i < n {
        assert(exact(FloatOp::Add, d.sigma_x[i], delta_x, fpu, value));
    }
    if i == j && n <= i < n + p.n_d {
        assert(exact(FloatOp::Add, d.sigma_s[i - n], delta_s, fpu, value));
    }
    let c = paired(d.jac_rows, d.jac_cols);
    lemma_routed(slacks, n, p, d.jac_rows, d.jac_cols, d.jac_vals, c, i, j, fpu, value);
    let jacobian = routed(
        slacks,
        p.eq_pos,
        p.ineq_pos,
        yc,
        yd,
        d.jac_rows,
        d.jac_cols,
        d.jac_vals,
        c,
        fpu,
    );
    lemma_coupled(jacobian, yd, n, p.n_d as nat, i, j, fpu, value);
    let coupled = slacks_coupled(jacobian, yd, n, p.n_d as nat, fpu);
    lemma_lowered(coupled, yc, delta_c, p.n_c as nat, i, j, fpu, value);
    let once = lowered(coupled, yc, delta_c, p.n_c as nat, fpu);
    lemma_lowered(once, yd, delta_d, p.n_d as nat, i, j, fpu, value);
}

/// The sums in an entry of the gradient of the Lagrangian do not round.
pub open spec fn exact_lagrangian<F: Fn(FloatOp, u64, u64) -> u64>(
    r: u64,
    lower: u64,
    upper: u64,
    z_l: u64,
    z_u: u64,
    mu: u64,
    kappa_d: u64,
    fpu: Fpu<F>,
    value: spec_fn(u64) -> real,
) -> bool {
    let a = if finite(lower) {
        fpu.difference(r, z_l)
    } else {
        r
    };
    let b = if finite(upper) {
        fpu.sum(a, z_u)
    } else {
        a
    };
    &&& finite(lower) ==> exact(FloatOp::Sub, r, z_l, fpu, value)
    &&& finite(upper) ==> exact(FloatOp::Add, a, z_u, fpu, value)
    &&& exact(FloatOp::Mul, kappa_d, mu, fpu, value)
    &&& exact(FloatOp::Add, b, fpu.product(kappa_d, mu), fpu, value)
    &&& exact(FloatOp::Sub, b, fpu.product(kappa_d, mu), fpu, value)
}

/// The gradient of the Lagrangian has the multipliers of finite lower bounds with a minus and those of finite upper
/// bounds with a plus. Damping pushes a variable with one bound alone towards that bound; with none or two it is left
/// out.
pub proof fn lagrangian_entries_balance<F: Fn(FloatOp, u64, u64) -> u64>(
    r: u64,
    lower: u64,
    upper: u64,
    z_l: u64,
    z_u: u64,
    mu: u64,
    kappa_d: u64,
    fpu: Fpu<F>,
    value: spec_fn(u64) -> real,
)
    requires
        exact_lagrangian(r, lower, upper, z_l, z_u, mu, kappa_d, fpu, value),
    ensures
        ({
            let low = if finite(lower) {
                value(z_l)
            } else {
                0 as real
            };
            let high = if finite(upper) {
                value(z_u)
            } else {
                0 as real
            };
            let side: real = if finite(lower) == finite(upper) || !num_lt(ZERO, kappa_d) {
                0 as real
            } else if finite(lower) {
                1 as real
            } else {
                -1 as real
            };
            value(lagrangian_entry(r, lower, upper, z_l, z_u, mu, kappa_d, fpu)) == value(r) - low
                + high + side * (value(kappa_d) * value(mu))
        }),
{
    let damping = value(kappa_d) * value(mu);
    assert((1 as real) * damping == damping) by (nonlinear_arith);
    assert((-1 as real) * damping == -damping) by (nonlinear_arith);
    assert((0 as real) * damping == (0 as real)) by (nonlinear_arith);
}

/// The residual of a complementarity is what the product of a multiplier and its distance is above the barrier parameter;
/// there is none without a bound.
pub proof fn complementarities_are_products<F: Fn(FloatOp, u64, u64) -> u64>(
    bound: u64,
    z: u64,
    distance: u64,
    mu: u64,
    fpu: Fpu<F>,
    value: spec_fn(u64) -> real,
)
    requires
        reads_numbers(value),
        finite(bound) ==> exact(FloatOp::Mul, z, distance, fpu, value) && exact(
            FloatOp::Sub,
            fpu.product(z, distance),
            mu,
            fpu,
            value,
        ),
    ensures
        finite(bound) ==> value(complementarity(bound, z, distance, mu, fpu)) + value(mu) == value(
            z,
        ) * value(distance),
        !finite(bound) ==> value(complementarity(bound, z, distance, mu, fpu)) == (0 as real),
{
    assert(num_eq(ZERO, ZERO));
    assert(value(ZERO) == (0 as real));
}

proof fn lemma_count_grows<F: Fn(FloatOp, u64, u64) -> u64>(
    g_l: Seq<u64>,
    g_u: Seq<u64>,
    i: nat,
    m: nat,
    equation: bool,
    fpu: Fpu<F>,
)
    requires
        i <= m,
    ensures
        constraints_of(g_l, g_u, i, equation, fpu).len() <= constraints_of(
            g_l,
            g_u,
            m,
            equation,
            fpu,
        ).len(),
    decreases m,
{
    if i < m {
        lemma_count_grows(g_l, g_u, i, (m - 1) as nat, equation, fpu);
    }
}

/// The places of the equations are in order, and there is room for them.
proof fn lemma_places<F: Fn(FloatOp, u64, u64) -> u64>(
    g_l: Seq<u64>,
    g_u: Seq<u64>,
    i: int,
    fpu: Fpu<F>,
)
    requires
        g_l.len() <= usize::MAX,
        0 <= i < g_l.len(),
        is_equation(g_l[i], g_u[i], fpu),
    ensures
        ({
            let p = partition_of(g_l, g_u, fpu);
            &&& p.eq_pos[i] is Some
            &&& p.eq_pos[i]->0 < p.n_c
            &&& forall|k: int|
                i < k < g_l.len() && (#[trigger] p.eq_pos[k]) is Some ==> p.eq_pos[i]->0
                    < p.eq_pos[k]->0
        }),
{
    let m = g_l.len();
    let p = partition_of(g_l, g_u, fpu);
    lemma_constraints_few(g_l, g_u, i as nat, true, fpu);
    lemma_count_grows(g_l, g_u, (i + 1) as nat, m, true, fpu);
    assert forall|k: int| i < k < m && (#[trigger] p.eq_pos[k]) is Some implies p.eq_pos[i]->0
        < p.eq_pos[k]->0 by {
        lemma_count_grows(g_l, g_u, (i + 1) as nat, k as nat, true, fpu);
        lemma_constraints_few(g_l, g_u, k as nat, true, fpu);
    }
}

/// Gathering puts the value of an equation at its place.
proof fn lemma_gathered<F: Fn(FloatOp, u64, u64) -> u64>(
    g_l: Seq<u64>,
    g_u: Seq<u64>,
    base: Seq<u64>,
    vals: Seq<u64>,
    k: nat,
    i: int,
    fpu: Fpu<F>,
)
    requires
        g_l.len() <= usize::MAX,
        k <= g_l.len(),
        0 <= i < g_l.len(),
        is_equation(g_l[i], g_u[i], fpu),
        base.len() == partition_of(g_l, g_u, fpu).n_c,
    ensures
        ({
            let p = partition_of(g_l, g_u, fpu);
            let now = gathered(base, p.eq_pos, vals, k);
            &&& now.len() == base.len()
            &&& i < k ==> now[p.eq_pos[i]->0 as int] == vals[i]
        }),
    decreases k,
{
    if k > 0 {
        lemma_gathered(g_l, g_u, base, vals, (k - 1) as nat, i, fpu);
        lemma_places(g_l, g_u, i, fpu);
        if is_equation(g_l[k - 1], g_u[k - 1], fpu) {
            lemma_places(g_l, g_u, k - 1, fpu);
        }
    }
}

/// The residuals at an iterate are those of the primal-dual equations: the gradient of the Lagrangian by a variable, the
/// same by the slack of an inequality, where the constraint multiplier is taken away, what an equation is above its target,
/// what an inequality is above its slack, and each complementarity at its own bound.
pub proof fn outer_residuals_are_those_of_the_equations<F: Fn(FloatOp, u64, u64) -> u64>(
    n: nat,
    it: Iterate,
    j_t_y: Seq<u64>,
    mu: u64,
    kappa_d: u64,
    j: int,
    i: int,
    fpu: Fpu<F>,
    value: spec_fn(u64) -> real,
)
    requires
        reads_numbers(value),
        it.covers(n as int, it.g_l.len() as int),
        it.g_l.len() <= usize::MAX,
        0 <= j < n,
        0 <= i < it.g_l.len(),
        exact(FloatOp::Add, it.grad_f[j], j_t_y[j], fpu, value),
        is_equation(it.g_l[i], it.g_u[i], fpu) ==> exact(
            FloatOp::Sub,
            it.g[i],
            it.g_l[i],
            fpu,
            value,
        ),
        !is_equation(it.g_l[i], it.g_u[i], fpu) ==> exact(
            FloatOp::Sub,
            it.g[i],
            it.s[i],
            fpu,
            value,
        ),
    ensures
        ({
            let p = partition_of(it.g_l, it.g_u, fpu);
            let rhs = outer_rhs(n, p, it, j_t_y, mu, kappa_d, fpu);
            let (d_l, d_u) = (slack(it.x[j], it.x_l[j], fpu), slack(it.x_u[j], it.x[j], fpu));
            &&& exists|r: u64|
                value(r) == value(it.grad_f[j]) + value(j_t_y[j]) && rhs.x[j]
                    == #[trigger] lagrangian_entry(
                    r,
                    it.x_l[j],
                    it.x_u[j],
                    it.z_l[j],
                    it.z_u[j],
                    mu,
                    kappa_d,
                    fpu,
                )
            &&& rhs.z_l[j] == complementarity(it.x_l[j], it.z_l[j], d_l, mu, fpu)
            &&& rhs.z_u[j] == complementarity(it.x_u[j], it.z_u[j], d_u, mu, fpu)
            &&& is_equation(it.g_l[i], it.g_u[i], fpu) ==> value(
                rhs.y_c[p.eq_pos[i]->0 as int],
            ) == value(it.g[i]) - value(it.g_l[i]) && rhs.v_l[i] == ZERO && rhs.v_u[i] == ZERO
            &&& !is_equation(it.g_l[i], it.g_u[i], fpu) ==> {
                let k = p.ineq_pos[i]->0 as int;
                let (s_l, s_u) = (slack(it.s[i], it.g_l[i], fpu), slack(it.g_u[i], it.s[i], fpu));
                &&& value(rhs.y_d[k]) == value(it.g[i]) - value(it.s[i])
                &&& exists|r: u64|
                    value(r) == -value(it.y[i]) && rhs.s[k] == #[trigger] lagrangian_entry(
                        r,
                        it.g_l[i],
                        it.g_u[i],
                        it.v_l[i],
                        it.v_u[i],
                        mu,
                        kappa_d,
                        fpu,
                    )
                &&& rhs.v_l[i] == complementarity(it.g_l[i], it.v_l[i], s_l, mu, fpu)
                &&& rhs.v_u[i] == complementarity(it.g_u[i], it.v_u[i], s_u, mu, fpu)
            }
        }),
{
    let p = partition_of(it.g_l, it.g_u, fpu);
    let m = it.g.len();
    let map = p.ineq_to_constraint;
    let rhs = outer_rhs(n, p, it, j_t_y, mu, kappa_d, fpu);
    let r = fpu.sum(it.grad_f[j], j_t_y[j]);
    assert(rhs.x[j] == lagrangian_entry(
        r,
        it.x_l[j],
        it.x_u[j],
        it.z_l[j],
        it.z_u[j],
        mu,
        kappa_d,
        fpu,
    ));
    let below = slack_complementarity(it, map, false, mu, fpu);
    let above = slack_complementarity(it, map, true, mu, fpu);
    lemma_scattered_constraints(it.g_l, it.g_u, below, i, fpu);
    lemma_scattered_constraints(it.g_l, it.g_u, above, i, fpu);
    if is_equation(it.g_l[i], it.g_u[i], fpu) {
        let vals = Seq::new(m, |i: int| fpu.difference(it.g[i], it.g_l[i]));
        lemma_gathered(it.g_l, it.g_u, zeros(p.n_c as nat), vals, m, i, fpu);
    } else {
        partition_inverts(it.g_l, it.g_u, i, fpu);
        let k = p.ineq_pos[i]->0 as int;
        assert(map[k] == i);
        let q = negated(it.y[i]);
        assert(value(q) == -value(it.y[i]));
        assert(rhs.s[k] == lagrangian_entry(
            q,
            it.g_l[i],
            it.g_u[i],
            it.v_l[i],
            it.v_u[i],
            mu,
            kappa_d,
            fpu,
        ));
    }
}

/// The complementarities that are folded into an entry are over the distances, without rounding.
pub open spec fn exact_fold<F: Fn(FloatOp, u64, u64) -> u64>(
    r: u64,
    v: u64,
    lower: u64,
    upper: u64,
    c_l: u64,
    c_u: u64,
    fpu: Fpu<F>,
    value: spec_fn(u64) -> real,
) -> bool {
    let (d_l, d_u) = (slack(v, lower, fpu), slack(upper, v, fpu));
    let (q_l, q_u) = (fpu.quotient(c_l, d_l), fpu.quotient(c_u, d_u));
    let b = if finite(lower) {
        fpu.difference(negated(r), q_l)
    } else {
        negated(r)
    };
    &&& finite(lower) ==> exact(FloatOp::Div, c_l, d_l, fpu, value) && exact(
        FloatOp::Sub,
        negated(r),
        q_l,
        fpu,
        value,
    )
    &&& finite(upper) ==> exact(FloatOp::Div, c_u, d_u, fpu, value) && exact(
        FloatOp::Add,
        b,
        q_u,
        fpu,
        value,
    )
}

/// A folded entry is what is left of a row when the steps of the bound multipliers are taken out: with the steps that make
/// each complementarity zero to first order, `d dz + z dx = -c` at a lower and `d dz - z dx = -c` at an upper bound, the row
/// `h - dz_l + dz_u = -r` holds exactly where `h` and the barrier terms `z dx / d` make up the entry.
pub proof fn folded_entries_eliminate_the_multipliers<F: Fn(FloatOp, u64, u64) -> u64>(
    r: u64,
    v: u64,
    lower: u64,
    upper: u64,
    c_l: u64,
    c_u: u64,
    h: real,
    dx: real,
    z_l: real,
    z_u: real,
    dz_l: real,
    dz_u: real,
    b_l: real,
    b_u: real,
    fpu: Fpu<F>,
    value: spec_fn(u64) -> real,
)
    requires
        reads_numbers(value),
        exact_fold(r, v, lower, upper, c_l, c_u, fpu, value),
        finite(lower) ==> ({
            let d = value(slack(v, lower, fpu));
            d != (0 as real) && d * dz_l + z_l * dx == -value(c_l) && b_l * d == z_l * dx
        }),
        !finite(lower) ==> dz_l == (0 as real) && b_l == (0 as real),
        finite(upper) ==> ({
            let d = value(slack(upper, v, fpu));
            d != (0 as real) && d * dz_u - z_u * dx == -value(c_u) && b_u * d == z_u * dx
        }),
        !finite(upper) ==> dz_u == (0 as real) && b_u == (0 as real),
    ensures
        h - dz_l + dz_u == -value(r) <==> h + b_l + b_u == value(
            folded_entry(r, v, lower, upper, c_l, c_u, fpu),
        ),
{
    assert(value(negated(r)) == -value(r));
    if finite(lower) {
        let d = value(slack(v, lower, fpu));
        let q = value(fpu.quotient(c_l, slack(v, lower, fpu)));
        let g = dz_l + b_l + q;
        assert(d * g == d * dz_l + b_l * d + q * d) by (nonlinear_arith)
            requires
                g == dz_l + b_l + q,
        ;
        assert(g == (0 as real)) by (nonlinear_arith)
            requires
                d * g == (0 as real),
                d != (0 as real),
        ;
    }
    if finite(upper) {
        let d = value(slack(upper, v, fpu));
        let q = value(fpu.quotient(c_u, slack(upper, v, fpu)));
        let g = dz_u - b_u + q;
        assert(d * g == d * dz_u - b_u * d + q * d) by (nonlinear_arith)
            requires
                g == dz_u - b_u + q,
        ;
        assert(g == (0 as real)) by (nonlinear_arith)
            requires
                d * g == (0 as real),
                d != (0 as real),
        ;
    }
}

/// Each row of the right-hand side belongs to its residual: variables, slacks of inequalities, equations, inequalities, and
/// those of the constraints change their sign.
pub proof fn folded_rows_are_in_order<F: Fn(FloatOp, u64, u64) -> u64>(
    n: nat,
    p: PartitionModel,
    rhs: OuterModel,
    it: Iterate,
    j: int,
    k: int,
    q: int,
    fpu: Fpu<F>,
    value: spec_fn(u64) -> real,
)
    requires
        reads_numbers(value),
        0 <= j < n,
        0 <= k < p.n_d,
        0 <= q < p.n_c,
    ensures
        ({
            let f = folded(
                n as int,
                p,
                rhs,
                it.x,
                it.x_l,
                it.x_u,
                it.s,
                it.g_l,
                it.g_u,
                fpu,
            );
            let i = p.ineq_to_constraint[k] as int;
            &&& f.len() == n + p.n_d + p.n_c + p.n_d
            &&& f[j] == folded_entry(
                rhs.x[j],
                it.x[j],
                it.x_l[j],
                it.x_u[j],
                rhs.z_l[j],
                rhs.z_u[j],
                fpu,
            )
            &&& f[n + k] == folded_entry(
                rhs.s[k],
                it.s[i],
                it.g_l[i],
                it.g_u[i],
                rhs.v_l[i],
                rhs.v_u[i],
                fpu,
            )
            &&& value(f[n + p.n_d + q]) + value(rhs.y_c[q]) == (0 as real)
            &&& value(f[n + p.n_d + p.n_c + k]) + value(rhs.y_d[k]) == (0 as real)
        }),
{
    assert(value(negated(rhs.y_c[q])) == -value(rhs.y_c[q]));
    assert(value(negated(rhs.y_d[k])) == -value(rhs.y_d[k]));
}

proof fn lemma_picked(base: Seq<u64>, place: Seq<Option<usize>>, vals: Seq<u64>, k: nat, i: int)
    requires
        k <= place.len() == base.len(),
        0 <= i < base.len(),
    ensures
        picked(base, place, vals, k).len() == base.len(),
        picked(base, place, vals, k)[i] == (if i < k && place[i] is Some {
            vals[place[i]->0 as int]
        } else {
            base[i]
        }),
    decreases k,
{
    if k > 0 {
        lemma_picked(base, place, vals, (k - 1) as nat, i);
    }
}

/// A step holds each part of the solution in its place: that of a variable first, then the slacks of the inequalities, then
/// the multipliers of the equations, then those of the inequalities. An equation has no slack to move.
pub proof fn recovered_steps_stand_in_their_places<F: Fn(FloatOp, u64, u64) -> u64>(
    n: int,
    sol: Seq<u64>,
    it: Iterate,
    mu: u64,
    j: int,
    i: int,
    fpu: Fpu<F>,
)
    requires
        it.g_l.len() <= usize::MAX,
        0 <= j < n <= it.x.len(),
        0 <= i < it.g_l.len(),
        ({
            let p = partition_of(it.g_l, it.g_u, fpu);
            sol.len() == n + p.n_d + p.n_c + p.n_d
        }),
    ensures
        ({
            let p = partition_of(it.g_l, it.g_u, fpu);
            let step = recovered(n, p, sol, it, mu, fpu);
            &&& step.dx.len() == n && step.dx[j] == sol[j]
            &&& if is_equation(it.g_l[i], it.g_u[i], fpu) {
                &&& step.ds[i] == ZERO
                &&& step.dy_m[i] == sol[n + p.n_d + p.eq_pos[i]->0]
            } else {
                &&& step.ds[i] == sol[n + p.ineq_pos[i]->0]
                &&& step.dy_m[i] == sol[n + p.n_d + p.n_c + p.ineq_pos[i]->0]
            }
        }),
{
    let p = partition_of(it.g_l, it.g_u, fpu);
    let m = it.g_l.len();
    let map = p.ineq_to_constraint;
    let (yc, yd) = (n + p.n_d, n + p.n_d + p.n_c);
    let ds = sol.subrange(n, yc);
    let dy_c = sol.subrange(yc, yd);
    let dy_d = sol.subrange(yd, yd + p.n_d);
    lemma_scattered_constraints(it.g_l, it.g_u, ds, i, fpu);
    lemma_listed(it.g_l, it.g_u, m, fpu);
    let base = picked(zeros(m), p.eq_pos, dy_c, m);
    lemma_picked(zeros(m), p.eq_pos, dy_c, m, i);
    if is_equation(it.g_l[i], it.g_u[i], fpu) {
        lemma_places(it.g_l, it.g_u, i, fpu);
        lemma_unlisted(base, map, dy_d, map.len(), i);
    } else {
        partition_inverts(it.g_l, it.g_u, i, fpu);
        lemma_listed_entry(base, map, dy_d, map.len(), p.ineq_pos[i]->0 as int);
    }
}

} // verus!
