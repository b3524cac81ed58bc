//! The low-rank correction of a solution solves the corrected system.

use crate::float::{num_eq, FloatOp, Fpu, ZERO};
use crate::linear_solver::cholesky::{
    columns_of, exact_chol, exact_combined, exact_dot, exact_identity, exact_products,
    exact_solution, leading_columns, lemma_chol_solves, lemma_combined, lemma_dot, lemma_products,
    lemma_with_identity, rows_of, sign_of,
};
use crate::linear_solver::linear_algebra::{
    column_at, is_symmetric, lemma_products_symmetric, lemma_same, lemma_solves_same,
    lemma_stays_symmetric, lemma_update, projected, solves, times, transposed, unit, with_columns,
};
use crate::linear_solver::low_rank_kkt::{
    chol_factor, chol_solution, chol_solutions, combined, dot_from, low_rank_step, padded, products,
    table_column, with_identity, LowRankModel,
};
use crate::linear_solver::model::MatrixModel;
use crate::linear_solver::solver::{column, columns_solved, ErrorModel, SolverEvent};
use crate::linear_solver::real_matrix::{matrix_of, reads_numbers, vector_of};
use crate::linear_solver::table::lemma_cell;
use crate::linear_solver::Inertia;
use vstd::prelude::*;

verus! {

/// Every solution that the solver reported without an error solves exactly.
pub open spec fn solved_exactly(
    ev: Seq<SolverEvent>,
    a: spec_fn(int, int) -> real,
    n: int,
    value: spec_fn(u64) -> real,
) -> bool {
    forall|c: int|
        0 <= c < ev.len() ==> (#[trigger] ev[c] matches SolverEvent::Solve(b, _, x, Ok(_)) ==> solves(
            a,
            vector_of(x, value),
            vector_of(b, value),
            n as nat,
        ))
}

/// The small matrix of a correction is set up and factored without rounding.
pub open spec fn exact_small<F: Fn(FloatOp, u64, u64) -> u64>(
    m: LowRankModel,
    t: Seq<u64>,
    cols: Seq<u64>,
    minus: bool,
    fpu: Fpu<F>,
    value: spec_fn(u64) -> real,
) -> bool {
    let gram = products(t, m.n_aug, cols, m.n, m.n as nat, m.k, fpu);
    &&& exact_products(t, m.n_aug, cols, m.n, m.k, fpu, value)
    &&& exact_identity(gram, m.k, minus, fpu, value)
    &&& exact_chol(with_identity(gram, m.k, minus, fpu), m.k, fpu, value)
}

/// Column `q` of the solutions for `U` is corrected for `V` without rounding.
pub open spec fn exact_column<F: Fn(FloatOp, u64, u64) -> u64>(
    m: LowRankModel,
    ut: Seq<u64>,
    q: int,
    fpu: Fpu<F>,
    value: spec_fn(u64) -> real,
) -> bool {
    let l = chol_factor(m.m1(fpu), m.k, fpu);
    let b = products(m.vtilde, m.n_aug, m.u, m.n, m.n as nat, m.k, fpu);
    let c = chol_solutions(l, m.k, b, fpu);
    &&& exact_solution(l, m.k, table_column(b, m.k, m.k, q), fpu, value)
    &&& forall|i: int|
        0 <= i < m.n_aug ==> #[trigger] exact_combined(
            ut[q * m.n_aug + i],
            m.vtilde,
            m.n_aug,
            table_column(c, m.k, m.k, q),
            i,
            true,
            m.k,
            fpu,
            value,
        )
}

/// A correction is prepared without rounding from the solutions `ut` for `U`,
/// where those for `V` are there.
pub open spec fn exact_preparation<F: Fn(FloatOp, u64, u64) -> u64>(
    m: LowRankModel,
    ut: Seq<u64>,
    fpu: Fpu<F>,
    value: spec_fn(u64) -> real,
) -> bool {
    &&& exact_small(m, m.vtilde, m.v, false, fpu, value)
    &&& exact_products(m.vtilde, m.n_aug, m.u, m.n, m.k, fpu, value)
    &&& forall|q: int| 0 <= q < m.k ==> #[trigger] exact_column(m, ut, q, fpu, value)
    &&& exact_small(m, m.with_columns(ut, fpu).utilde2, m.u, true, fpu, value)
}

/// The weights of a correction are found without rounding.
pub open spec fn exact_weights<F: Fn(FloatOp, u64, u64) -> u64>(
    m: LowRankModel,
    cols: Seq<u64>,
    l: Seq<u64>,
    rhs: Seq<u64>,
    fpu: Fpu<F>,
    value: spec_fn(u64) -> real,
) -> bool {
    let b = Seq::new(
        m.k as nat,
        |j: int| dot_from(cols, j * m.n_aug, rhs, 0, m.n_aug as nat, fpu),
    );
    &&& forall|j: int|
        0 <= j < m.k ==> #[trigger] exact_dot(cols, j * m.n_aug, rhs, 0, m.n_aug, fpu, value)
    &&& exact_solution(l, m.k, b, fpu, value)
}

/// The inner solution `x` for `rhs` is corrected without rounding.
pub open spec fn exact_correction<F: Fn(FloatOp, u64, u64) -> u64>(
    m: LowRankModel,
    rhs: Seq<u64>,
    x: Seq<u64>,
    fpu: Fpu<F>,
    value: spec_fn(u64) -> real,
) -> bool {
    let wu = m.weights(m.utilde2, m.j2, rhs, fpu);
    let wv = m.weights(m.vtilde, m.j1, rhs, fpu);
    &&& exact_weights(m, m.utilde2, m.j2, rhs, fpu, value)
    &&& exact_weights(m, m.vtilde, m.j1, rhs, fpu, value)
    &&& forall|i: int|
        0 <= i < m.n_aug ==> #[trigger] exact_combined(
            x[i],
            m.utilde2,
            m.n_aug,
            wu,
            i,
            false,
            m.k,
            fpu,
            value,
        )
    &&& forall|i: int|
        0 <= i < m.n_aug ==> #[trigger] exact_combined(
            combined(x[i], m.utilde2, m.n_aug, wu, i, false, m.k as nat, fpu),
            m.vtilde,
            m.n_aug,
            wv,
            i,
            true,
            m.k,
            fpu,
            value,
        )
}

/// The matrix `A + V V^T - U U^T`.
pub open spec fn corrected_matrix(
    a: spec_fn(int, int) -> real,
    m: LowRankModel,
    value: spec_fn(u64) -> real,
) -> spec_fn(int, int) -> real {
    with_columns(
        with_columns(a, leading_columns(m.v, m.n, value), 1 as real, m.k as nat),
        leading_columns(m.u, m.n, value),
        -(1 as real),
        m.k as nat,
    )
}

/// The columns of the solutions solve for the padded columns.
proof fn lemma_columns(
    ev: Seq<SolverEvent>,
    all: Seq<SolverEvent>,
    from: int,
    a: spec_fn(int, int) -> real,
    cols: Seq<u64>,
    n: int,
    n_aug: int,
    k: int,
    before: Seq<u64>,
    t: Seq<u64>,
    p: int,
    value: spec_fn(u64) -> real,
)
    requires
        reads_numbers(value),
        0 <= n <= n_aug,
        0 <= p < k,
        before.len() == n_aug * k,
        columns_solved(
            ev,
            n_aug,
            k,
            padded(cols, n, n_aug, k),
            before,
            t,
            Ok::<(), ErrorModel>(()),
        ),
        solved_exactly(all, a, n_aug, value),
        0 <= from,
        from + ev.len() <= all.len(),
        forall|c: int| 0 <= c < ev.len() ==> #[trigger] ev[c] == all[from + c],
    ensures
        solves(
            a,
            column_at(columns_of(t, n_aug, value), p),
            column_at(leading_columns(cols, n, value), p),
            n_aug as nat,
        ),
{
    let whole = padded(cols, n, n_aug, k);
    let x = vector_of(column(t, n_aug, p), value);
    let b = vector_of(column(whole, n_aug, p), value);
    let y = column_at(columns_of(t, n_aug, value), p);
    let c = column_at(leading_columns(cols, n, value), p);
    assert(ev[p] == all[from + p]);
    assert(ev[p] matches SolverEvent::Solve(_, _, _, Ok(_)));
    assert(solves(a, x, b, n_aug as nat));
    assert(p * n_aug + n_aug <= n_aug * k && 0 <= p * n_aug) by (nonlinear_arith)
        requires
            0 <= p < k,
            0 <= n_aug,
    ;
    assert(num_eq(ZERO, ZERO));
    assert forall|i: int| 0 <= i < n_aug implies #[trigger] y(i) == x(i) by {
        assert(column(t, n_aug, p)[i] == t[p * n_aug + i]);
    }
    assert forall|i: int| 0 <= i < n_aug implies #[trigger] c(i) == b(i) by {
        lemma_cell(n_aug, p, i, k);
        assert(column(whole, n_aug, p)[i] == whole[p * n_aug + i]);
    }
    lemma_solves_same(a, x, b, y, c, n_aug as nat);
}

/// The entries of a small matrix, and that it is symmetric.
proof fn lemma_small<F: Fn(FloatOp, u64, u64) -> u64>(
    m: LowRankModel,
    g: spec_fn(int, int) -> real,
    t: Seq<u64>,
    cols: Seq<u64>,
    minus: bool,
    fpu: Fpu<F>,
    value: spec_fn(u64) -> real,
)
    requires
        reads_numbers(value),
        0 <= m.k,
        0 <= m.n <= m.n_aug,
        is_symmetric(g, m.n_aug as nat),
        forall|p: int|
            0 <= p < m.k ==> #[trigger] solves(
                g,
                column_at(columns_of(t, m.n_aug, value), p),
                column_at(leading_columns(cols, m.n, value), p),
                m.n_aug as nat,
            ),
        exact_small(m, t, cols, minus, fpu, value),
    ensures
        ({
            let gram = products(t, m.n_aug, cols, m.n, m.n as nat, m.k, fpu);
            let small = rows_of(with_identity(gram, m.k, minus, fpu), m.k, value);
            &&& is_symmetric(small, m.k as nat)
            &&& forall|p: int, q: int|
                0 <= p < m.k && 0 <= q < m.k ==> #[trigger] small(p, q) == unit(p, q) + sign_of(
                    minus,
                ) * times(
                    transposed(columns_of(t, m.n_aug, value)),
                    column_at(leading_columns(cols, m.n, value), q),
                    p,
                    m.n_aug as nat,
                )
        }),
{
    let k = m.k;
    let gram = products(t, m.n_aug, cols, m.n, m.n as nat, k, fpu);
    let small = rows_of(with_identity(gram, k, minus, fpu), k, value);
    let q_ = leading_columns(cols, m.n, value);
    let qt = columns_of(t, m.n_aug, value);
    let n = m.n_aug as nat;
    assert forall|p: int, q: int| 0 <= p < k && 0 <= q < k implies #[trigger] small(p, q) == unit(
        p,
        q,
    ) + sign_of(minus) * times(transposed(qt), column_at(q_, q), p, n) by {
        lemma_products(t, m.n_aug, cols, m.n, k, p, q, fpu, value);
        lemma_with_identity(gram, k, minus, p, q, fpu, value);
    }
    assert forall|p: int, q: int| 0 <= p < k && 0 <= q < k implies #[trigger] small(p, q) == small(
        q,
        p,
    ) by {
        assert(solves(g, column_at(qt, p), column_at(q_, p), n));
        assert(solves(g, column_at(qt, q), column_at(q_, q), n));
        lemma_products_symmetric(g, q_, qt, p, q, n);
    }
}

/// The weights solve with the small matrix.
proof fn lemma_weights<F: Fn(FloatOp, u64, u64) -> u64>(
    m: LowRankModel,
    cols: Seq<u64>,
    small: Seq<u64>,
    rhs: Seq<u64>,
    fpu: Fpu<F>,
    value: spec_fn(u64) -> real,
)
    requires
        reads_numbers(value),
        0 <= m.k,
        0 <= m.n_aug,
        is_symmetric(rows_of(small, m.k, value), m.k as nat),
        exact_chol(small, m.k, fpu, value),
        exact_weights(m, cols, chol_factor(small, m.k, fpu), rhs, fpu, value),
    ensures
        solves(
            rows_of(small, m.k, value),
            vector_of(m.weights(cols, chol_factor(small, m.k, fpu), rhs, fpu), value),
            projected(columns_of(cols, m.n_aug, value), vector_of(rhs, value), m.n_aug as nat),
            m.k as nat,
        ),
{
    let k = m.k;
    let l = chol_factor(small, k, fpu);
    let n = m.n_aug as nat;
    let b = Seq::new(k as nat, |j: int| dot_from(cols, j * m.n_aug, rhs, 0, n, fpu));
    let qt = columns_of(cols, m.n_aug, value);
    let c = projected(qt, vector_of(rhs, value), n);
    let w = vector_of(chol_solution(l, k, b, fpu), value);
    lemma_chol_solves(small, k, b, fpu, value);
    assert forall|j: int| 0 <= j < k implies #[trigger] c(j) == vector_of(b, value)(j) by {
        assert(exact_dot(cols, j * m.n_aug, rhs, 0, m.n_aug, fpu, value));
        lemma_dot(
            cols,
            j * m.n_aug,
            rhs,
            0,
            transposed(qt),
            vector_of(rhs, value),
            j,
            n,
            fpu,
            value,
        );
    }
    lemma_solves_same(rows_of(small, k, value), w, vector_of(b, value), w, c, k as nat);
}

/// A column of the solutions for `U`, corrected for `V`, solves with `V`.
proof fn lemma_column<F: Fn(FloatOp, u64, u64) -> u64>(
    m: LowRankModel,
    a: spec_fn(int, int) -> real,
    ut: Seq<u64>,
    q: int,
    fpu: Fpu<F>,
    value: spec_fn(u64) -> real,
)
    requires
        reads_numbers(value),
        0 <= m.n <= m.n_aug,
        0 <= q < m.k,
        is_symmetric(a, m.n_aug as nat),
        forall|p: int|
            0 <= p < m.k ==> #[trigger] solves(
                a,
                column_at(columns_of(m.vtilde, m.n_aug, value), p),
                column_at(leading_columns(m.v, m.n, value), p),
                m.n_aug as nat,
            ),
        solves(
            a,
            column_at(columns_of(ut, m.n_aug, value), q),
            column_at(leading_columns(m.u, m.n, value), q),
            m.n_aug as nat,
        ),
        exact_preparation(m, ut, fpu, value),
    ensures
        solves(
            with_columns(a, leading_columns(m.v, m.n, value), 1 as real, m.k as nat),
            column_at(columns_of(m.with_columns(ut, fpu).utilde2, m.n_aug, value), q),
            column_at(leading_columns(m.u, m.n, value), q),
            m.n_aug as nat,
        ),
{
    let k = m.k;
    let n = m.n_aug as nat;
    let l = chol_factor(m.m1(fpu), k, fpu);
    let b = products(m.vtilde, m.n_aug, m.u, m.n, m.n as nat, k, fpu);
    let c = chol_solutions(l, k, b, fpu);
    let part = table_column(b, k, k, q);
    let small = rows_of(m.m1(fpu), k, value);
    let v = leading_columns(m.v, m.n, value);
    let vt = columns_of(m.vtilde, m.n_aug, value);
    let target = column_at(leading_columns(m.u, m.n, value), q);
    let w = vector_of(chol_solution(l, k, part, fpu), value);
    let u2 = m.with_columns(ut, fpu).utilde2;
    let y = column_at(columns_of(u2, m.n_aug, value), q);
    let x = column_at(columns_of(ut, m.n_aug, value), q);
    let one = 1 as real;
    assert(exact_column(m, ut, q, fpu, value));
    lemma_small(m, a, m.vtilde, m.v, false, fpu, value);
    lemma_chol_solves(m.m1(fpu), k, part, fpu, value);
    let goal = projected(vt, target, n);
    assert forall|i: int| 0 <= i < k implies #[trigger] goal(i) == vector_of(part, value)(i) by {
        lemma_products(m.vtilde, m.n_aug, m.u, m.n, k, i, q, fpu, value);
    }
    lemma_solves_same(small, w, vector_of(part, value), w, goal, k as nat);
    let factors = table_column(c, k, k, q);
    assert forall|j: int| 0 <= j < n implies #[trigger] y(j) == x(j) - one * times(
        vt,
        w,
        j,
        k as nat,
    ) by {
        lemma_cell(m.n_aug, q, j, k);
        assert(q * m.n_aug + j < m.n_aug * k) by {
            vstd::arithmetic::mul::lemma_mul_is_commutative(m.n_aug, k);
        }
        assert(exact_combined(
            ut[q * m.n_aug + j],
            m.vtilde,
            m.n_aug,
            factors,
            j,
            true,
            k,
            fpu,
            value,
        ));
        assert(u2[q * m.n_aug + j] == combined(
            ut[q * m.n_aug + j],
            m.vtilde,
            m.n_aug,
            factors,
            j,
            true,
            k as nat,
            fpu,
        ));
        lemma_combined(
            ut[q * m.n_aug + j],
            m.vtilde,
            m.n_aug,
            factors,
            j,
            true,
            k as nat,
            fpu,
            value,
        );
        assert forall|p: int| 0 <= p < k implies #[trigger] vector_of(factors, value)(p) == w(
            p,
        ) by {
            lemma_cell(k, p, q, k);
        }
        lemma_same(vt, vector_of(factors, value), j, vt, w, j, k as nat);
        let r = times(vt, w, j, k as nat);
        assert((-(1 as real)) * r == -(one * r)) by (nonlinear_arith)
            requires
                one == (1 as real),
        ;
    }
    lemma_update(a, v, vt, one, small, x, target, w, y, n, k as nat);
}

/// Where neither the inner solver nor the correction rounds, a corrected
/// solution solves the corrected system: with the matrix `A + V V^T - U U^T` it
/// gives the right-hand side. `ev` are the calls of a factorization that
/// succeeded, and `x` is the inner solution for `rhs`.
#[verifier::rlimit(40)]
pub proof fn corrected_solutions_solve<F: Fn(FloatOp, u64, u64) -> u64>(
    begun: LowRankModel,
    matrix: MatrixModel,
    ev: Seq<SolverEvent>,
    j: int,
    vt: Seq<u64>,
    q1: Result<(), ErrorModel>,
    ut: Seq<u64>,
    q2: Result<(), ErrorModel>,
    now: LowRankModel,
    r: Result<Option<Inertia>, ErrorModel>,
    rhs: Seq<u64>,
    x: Seq<u64>,
    fpu: Fpu<F>,
    value: spec_fn(u64) -> real,
)
    requires
        reads_numbers(value),
        0 <= begun.k,
        0 <= begun.n <= begun.n_aug,
        is_symmetric(matrix_of(matrix, value), begun.n_aug as nat),
        low_rank_step(begun, matrix, ev, j, vt, q1, ut, q2, now, r, fpu),
        r is Ok,
        solved_exactly(ev, matrix_of(matrix, value), begun.n_aug, value),
        solves(
            matrix_of(matrix, value),
            vector_of(x, value),
            vector_of(rhs, value),
            begun.n_aug as nat,
        ),
        begun.k > 0 ==> exact_preparation(
            LowRankModel { vtilde: vt, ..begun },
            ut,
            fpu,
            value,
        ) && exact_correction(now, rhs, x, fpu, value),
    ensures
        solves(
            corrected_matrix(matrix_of(matrix, value), begun, value),
            vector_of(
                if begun.k > 0 {
                    now.corrected(rhs, x, fpu)
                } else {
                    x
                },
                value,
            ),
            vector_of(rhs, value),
            begun.n_aug as nat,
        ),
{
    let a = matrix_of(matrix, value);
    let k = begun.k;
    let n = begun.n_aug as nat;
    let v = leading_columns(begun.v, begun.n, value);
    let u = leading_columns(begun.u, begun.n, value);
    let b = vector_of(rhs, value);
    let x_ = vector_of(x, value);
    let one = 1 as real;
    let with_v = with_columns(a, v, one, k as nat);
    let with_both = corrected_matrix(a, begun, value);
    if k == 0 {
        assert forall|i: int| 0 <= i < n implies #[trigger] times(with_both, x_, i, n) == b(i) by {
            assert forall|t: int| 0 <= t < n implies #[trigger] with_both(i, t) == a(i, t) by {
                assert(one * (0 as real) == (0 as real)) by (nonlinear_arith);
                assert((-(1 as real)) * (0 as real) == (0 as real)) by (nonlinear_arith);
            }
            lemma_same(with_both, x_, i, a, x_, i, n);
            assert(times(a, x_, i, n) == b(i));
        }
    } else {
        assert(q1->Ok_0 == () && q2->Ok_0 == ());
        let m = LowRankModel { vtilde: vt, ..begun };
        let next = m.with_columns(ut, fpu);
        assert(0 <= begun.n_aug * k) by (nonlinear_arith)
            requires
                0 <= begun.n_aug,
                0 <= k,
        ;
        let before = crate::kkt::barrier::zeros((begun.n_aug * k) as nat);
        let vt_ = columns_of(vt, begun.n_aug, value);
        let u2 = columns_of(next.utilde2, begun.n_aug, value);
        assert forall|p: int| 0 <= p < k implies #[trigger] solves(
            a,
            column_at(vt_, p),
            column_at(v, p),
            n,
        ) by {
            lemma_columns(
                ev.subrange(1, j),
                ev,
                1,
                a,
                begun.v,
                begun.n,
                begun.n_aug,
                k,
                before,
                vt,
                p,
                value,
            );
        }
        assert forall|p: int| 0 <= p < k implies #[trigger] solves(
            with_v,
            column_at(u2, p),
            column_at(u, p),
            n,
        ) by {
            lemma_columns(
                ev.skip(j),
                ev,
                j,
                a,
                begun.u,
                begun.n,
                begun.n_aug,
                k,
                before,
                ut,
                p,
                value,
            );
            lemma_column(m, a, ut, p, fpu, value);
        }
        let wv = vector_of(now.weights(now.vtilde, now.j1, rhs, fpu), value);
        let wu = vector_of(now.weights(now.utilde2, now.j2, rhs, fpu), value);
        lemma_small(m, a, vt, begun.v, false, fpu, value);
        lemma_weights(now, vt, m.m1(fpu), rhs, fpu, value);
        let y0 = |i: int| x_(i) - one * times(vt_, wv, i, k as nat);
        lemma_update(
            a,
            v,
            vt_,
            one,
            rows_of(m.m1(fpu), k, value),
            x_,
            b,
            wv,
            y0,
            n,
            k as nat,
        );
        lemma_stays_symmetric(a, v, one, n, k as nat);
        lemma_small(m, with_v, next.utilde2, begun.u, true, fpu, value);
        lemma_weights(now, next.utilde2, next.m2(fpu), rhs, fpu, value);
        let s = -(1 as real);
        let y = vector_of(now.corrected(rhs, x, fpu), value);
        assert forall|i: int| 0 <= i < n implies #[trigger] y(i) == y0(i) - s * times(
            u2,
            wu,
            i,
            k as nat,
        ) by {
            let wu_ = now.weights(now.utilde2, now.j2, rhs, fpu);
            let wv_ = now.weights(now.vtilde, now.j1, rhs, fpu);
            let start = combined(x[i], now.utilde2, now.n_aug, wu_, i, false, k as nat, fpu);
            assert(exact_combined(
                x[i],
                now.utilde2,
                now.n_aug,
                wu_,
                i,
                false,
                k,
                fpu,
                value,
            ));
            assert(exact_combined(start, now.vtilde, now.n_aug, wv_, i, true, k, fpu, value));
            lemma_combined(
                x[i],
                now.utilde2,
                now.n_aug,
                wu_,
                i,
                false,
                k as nat,
                fpu,
                value,
            );
            lemma_combined(start, now.vtilde, now.n_aug, wv_, i, true, k as nat, fpu, value);
            let (p, q) = (times(u2, wu, i, k as nat), times(vt_, wv, i, k as nat));
            assert((1 as real) * p == -((-(1 as real)) * p)) by (nonlinear_arith);
            assert((-(1 as real)) * q == -((1 as real) * q)) by (nonlinear_arith);
        }
        lemma_update(
            with_v,
            u,
            u2,
            s,
            rows_of(next.m2(fpu), k, value),
            y0,
            b,
            wu,
            y,
            n,
            k as nat,
        );
    }
}

} // verus!
