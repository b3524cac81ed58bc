//! A solution of the equilibrated system, without the scaling, solves the
//! original one.

use crate::float::{num_lt, FloatOp, Fpu, ONE, TEN_M30, ZERO};
use crate::kkt::assemble::{equilibrated, equilibration_pass, rows_scaled, ScaledSystem};
use crate::kkt::direction::unscaled;
use crate::linear_solver::linear_algebra::{solves, times};
use crate::linear_solver::model::MatrixModel;
use crate::linear_solver::real_matrix::{
    entries_total, exact, matrix_of, reads_numbers, vector_of,
};
use crate::linear_solver::sparse_matrix::{scaled_entry, upper, Triplet};
use vstd::prelude::*;

verus! {

/// Scaling the entry `v` of row `p` and column `q` does not round, where row and
/// column `k` are scaled by `alpha`.
pub open spec fn exact_entry<F: Fn(FloatOp, u64, u64) -> u64>(
    v: u64,
    p: int,
    q: int,
    k: int,
    alpha: u64,
    fpu: Fpu<F>,
    value: spec_fn(u64) -> real,
) -> bool {
    if p == k && q == k {
        exact(FloatOp::Mul, v, fpu.product(alpha, alpha), fpu, value)
    } else {
        p == k || q == k ==> exact(FloatOp::Mul, v, alpha, fpu, value)
    }
}

/// Scaling row and column `k` by `alpha` does not round.
pub open spec fn exact_scaling<F: Fn(FloatOp, u64, u64) -> u64>(
    m: MatrixModel,
    k: int,
    alpha: u64,
    fpu: Fpu<F>,
    value: spec_fn(u64) -> real,
) -> bool {
    &&& exact(FloatOp::Mul, alpha, alpha, fpu, value)
    &&& match m {
        MatrixModel::Dense { n, rows } => forall|p: int, q: int|
            0 <= p < n && 0 <= q < n ==> exact_entry(
                #[trigger] rows[p][q],
                p,
                q,
                k,
                alpha,
                fpu,
                value,
            ),
        MatrixModel::Sparse { n, entries } => forall|t: int|
            0 <= t < entries.len() ==> exact_entry(
                (#[trigger] entries[t]).val,
                entries[t].row,
                entries[t].col,
                k,
                alpha,
                fpu,
                value,
            ),
    }
}

/// The factor by which row, or column, `i` is scaled.
pub open spec fn factor_at(
    i: int,
    k: int,
    alpha: u64,
    value: spec_fn(u64) -> real,
) -> real {
    if i == k {
        value(alpha)
    } else {
        1 as real
    }
}

proof fn lemma_entry(v: real, a: real)
    ensures
        v * (a * a) == a * v * a,
        v * a == a * v * (1 as real),
        v * a == (1 as real) * v * a,
        v == (1 as real) * v * (1 as real),
{
    assert(v * (a * a) == a * v * a) by (nonlinear_arith);
    assert(v * a == a * v * (1 as real)) by (nonlinear_arith);
    assert(v * a == (1 as real) * v * a) by (nonlinear_arith);
    assert(v == (1 as real) * v * (1 as real)) by (nonlinear_arith);
}

proof fn lemma_scaled_entries<F: Fn(FloatOp, u64, u64) -> u64>(
    t: Seq<Triplet>,
    s: Seq<Triplet>,
    i: int,
    j: int,
    k: int,
    alpha: u64,
    count: nat,
    fpu: Fpu<F>,
    value: spec_fn(u64) -> real,
)
    requires
        count <= t.len() == s.len(),
        forall|p: int| 0 <= p < t.len() ==> #[trigger] s[p] == scaled_entry(t[p], k, alpha, fpu),
        exact(FloatOp::Mul, alpha, alpha, fpu, value),
        forall|p: int|
            0 <= p < t.len() ==> exact_entry(
                (#[trigger] t[p]).val,
                t[p].row,
                t[p].col,
                k,
                alpha,
                fpu,
                value,
            ),
    ensures
        entries_total(s, i, j, count, value) == factor_at(i, k, alpha, value) * entries_total(
            t,
            i,
            j,
            count,
            value,
        ) * factor_at(j, k, alpha, value),
    decreases count,
{
    let (f, g) = (factor_at(i, k, alpha, value), factor_at(j, k, alpha, value));
    if count == 0 {
        assert(f * (0 as real) * g == (0 as real)) by (nonlinear_arith);
    } else {
        let c = (count - 1) as nat;
        lemma_scaled_entries(t, s, i, j, k, alpha, c, fpu, value);
        let e = t[count - 1];
        assert(s[count - 1] == scaled_entry(e, k, alpha, fpu));
        assert(exact_entry(e.val, e.row, e.col, k, alpha, fpu, value));
        if e.row == upper(i, j, 0).row && e.col == upper(i, j, 0).col {
            let (r, v, a) = (entries_total(t, i, j, c, value), value(e.val), value(alpha));
            assert(f * (r + v) * g == f * r * g + f * v * g) by (nonlinear_arith);
            lemma_entry(v, a);
        }
    }
}

proof fn lemma_scaled<F: Fn(FloatOp, u64, u64) -> u64>(
    m: MatrixModel,
    i: int,
    j: int,
    k: int,
    alpha: u64,
    fpu: Fpu<F>,
    value: spec_fn(u64) -> real,
)
    requires
        exact_scaling(m, k, alpha, fpu, value),
        0 <= i < m.dim(),
        0 <= j < m.dim(),
    ensures
        matrix_of(m.scaled(k, alpha, fpu), value)(i, j) == factor_at(i, k, alpha, value)
            * matrix_of(m, value)(i, j) * factor_at(j, k, alpha, value),
{
    match m {
        MatrixModel::Dense { n, rows } => {
            let v = rows[i][j];
            assert(exact_entry(v, i, j, k, alpha, fpu, value));
            lemma_entry(value(v), value(alpha));
        },
        MatrixModel::Sparse { n, entries } => {
            let s = entries.map_values(|e: Triplet| scaled_entry(e, k, alpha, fpu));
            lemma_scaled_entries(entries, s, i, j, k, alpha, entries.len(), fpu, value);
        },
    }
}

/// Scaling row `i` in a pass with the given norms does not round, and its factor
/// is not zero.
pub open spec fn exact_row<F: Fn(FloatOp, u64, u64) -> u64>(
    s: ScaledSystem,
    norms: Seq<u64>,
    i: int,
    fpu: Fpu<F>,
    value: spec_fn(u64) -> real,
) -> bool {
    let b = rows_scaled(s, norms, i as nat, fpu);
    let f = fpu.quotient(ONE, fpu.calc(FloatOp::Sqrt, norms[i], ZERO));
    num_lt(TEN_M30, norms[i]) ==> {
        &&& value(f) != (0 as real)
        &&& exact_scaling(b.matrix, i, f, fpu, value)
        &&& exact(FloatOp::Mul, b.rhs[i], f, fpu, value)
        &&& exact(FloatOp::Mul, b.scale[i], f, fpu, value)
    }
}

pub open spec fn exact_pass<F: Fn(FloatOp, u64, u64) -> u64>(
    s: ScaledSystem,
    op: FloatOp,
    fpu: Fpu<F>,
    value: spec_fn(u64) -> real,
) -> bool {
    forall|i: int|
        0 <= i < s.matrix.dim() ==> #[trigger] exact_row(
            s,
            s.matrix.norms(op, fpu),
            i,
            fpu,
            value,
        )
}

/// The equilibration does not round.
pub open spec fn exact_equilibration<F: Fn(FloatOp, u64, u64) -> u64>(
    matrix: MatrixModel,
    rhs: Seq<u64>,
    fpu: Fpu<F>,
    value: spec_fn(u64) -> real,
) -> bool {
    let ones = Seq::new(matrix.dim() as nat, |i: int| ONE);
    let start = ScaledSystem { matrix, rhs, scale: ones };
    let a = equilibration_pass(start, FloatOp::Max, fpu);
    let b = equilibration_pass(a, FloatOp::Add, fpu);
    let c = equilibration_pass(b, FloatOp::Add, fpu);
    &&& exact_pass(start, FloatOp::Max, fpu, value)
    &&& exact_pass(a, FloatOp::Add, fpu, value)
    &&& exact_pass(b, FloatOp::Add, fpu, value)
    &&& exact_pass(c, FloatOp::Add, fpu, value)
}

/// The system is `D a D` and `D b`, where `D` holds its factors.
pub open spec fn is_scaled(
    s: ScaledSystem,
    a: spec_fn(int, int) -> real,
    b: spec_fn(int) -> real,
    n: int,
    value: spec_fn(u64) -> real,
) -> bool {
    &&& s.matrix.dim() == n
    &&& s.rhs.len() >= n
    &&& s.scale.len() == n
    &&& forall|i: int| 0 <= i < n ==> value(#[trigger] s.scale[i]) != (0 as real)
    &&& forall|i: int| 0 <= i < n ==> value(#[trigger] s.rhs[i]) == value(s.scale[i]) * b(i)
    &&& forall|i: int, j: int|
        0 <= i < n && 0 <= j < n ==> #[trigger] matrix_of(s.matrix, value)(i, j) == value(
            s.scale[i],
        ) * a(i, j) * value(s.scale[j])
}

proof fn lemma_rows_scaled<F: Fn(FloatOp, u64, u64) -> u64>(
    s: ScaledSystem,
    norms: Seq<u64>,
    k: nat,
    a: spec_fn(int, int) -> real,
    b: spec_fn(int) -> real,
    n: int,
    fpu: Fpu<F>,
    value: spec_fn(u64) -> real,
)
    requires
        is_scaled(s, a, b, n, value),
        k <= n,
        forall|i: int| 0 <= i < k ==> #[trigger] exact_row(s, norms, i, fpu, value),
    ensures
        is_scaled(rows_scaled(s, norms, k, fpu), a, b, n, value),
    decreases k,
{
    if k > 0 {
        let p = k - 1;
        lemma_rows_scaled(s, norms, p as nat, a, b, n, fpu, value);
        let was = rows_scaled(s, norms, p as nat, fpu);
        let now = rows_scaled(s, norms, k, fpu);
        assert(exact_row(s, norms, p, fpu, value));
        if num_lt(TEN_M30, norms[p]) {
            let alpha = fpu.quotient(ONE, fpu.calc(FloatOp::Sqrt, norms[p], ZERO));
            let f = value(alpha);
            assert forall|i: int| 0 <= i < n implies value(#[trigger] now.scale[i]) == value(
                was.scale[i],
            ) * factor_at(i, p, alpha, value) by {
                let d = value(was.scale[i]);
                assert(d * (1 as real) == d) by (nonlinear_arith);
            }
            assert forall|i: int| 0 <= i < n implies value(#[trigger] now.scale[i]) != (
            0 as real) by {
                let d = value(was.scale[i]);
                let g = factor_at(i, p, alpha, value);
                assert(was.scale[i] == was.scale[i]);
                assert(d * g != (0 as real)) by (nonlinear_arith)
                    requires
                        d != (0 as real),
                        g != (0 as real),
                ;
            }
            assert forall|i: int| 0 <= i < n implies value(#[trigger] now.rhs[i]) == value(
                now.scale[i],
            ) * b(i) by {
                let (d, c) = (value(was.scale[i]), b(i));
                assert(value(was.rhs[i]) == d * c);
                assert((d * c) * f == (d * f) * c) by (nonlinear_arith);
                assert(now.scale[i] == now.scale[i]);
            }
            assert forall|i: int, j: int| 0 <= i < n && 0 <= j < n implies #[trigger] matrix_of(
                now.matrix,
                value,
            )(i, j) == value(now.scale[i]) * a(i, j) * value(now.scale[j]) by {
                lemma_scaled(was.matrix, i, j, p, alpha, fpu, value);
                let (d, e, v) = (value(was.scale[i]), value(was.scale[j]), a(i, j));
                let (g, h) = (
                    factor_at(i, p, alpha, value),
                    factor_at(j, p, alpha, value),
                );
                assert(matrix_of(was.matrix, value)(i, j) == d * v * e);
                assert(g * (d * v * e) * h == (d * g) * v * (e * h)) by (nonlinear_arith);
                assert(value(now.scale[i]) == d * g);
                assert(value(now.scale[j]) == e * h);
            }
        }
    }
}

proof fn lemma_pass<F: Fn(FloatOp, u64, u64) -> u64>(
    s: ScaledSystem,
    op: FloatOp,
    a: spec_fn(int, int) -> real,
    b: spec_fn(int) -> real,
    n: int,
    fpu: Fpu<F>,
    value: spec_fn(u64) -> real,
)
    requires
        0 <= n,
        is_scaled(s, a, b, n, value),
        exact_pass(s, op, fpu, value),
    ensures
        is_scaled(equilibration_pass(s, op, fpu), a, b, n, value),
{
    lemma_rows_scaled(s, s.matrix.norms(op, fpu), n as nat, a, b, n, fpu, value);
}

/// A row of the scaled matrix times `y` is the factor of the row times the
/// original row times the vector without the scaling.
proof fn lemma_row_times(
    g: spec_fn(int, int) -> real,
    a: spec_fn(int, int) -> real,
    d: spec_fn(int) -> real,
    y: spec_fn(int) -> real,
    x: spec_fn(int) -> real,
    i: int,
    n: nat,
)
    requires
        forall|j: int| 0 <= j < n ==> #[trigger] g(i, j) == d(i) * a(i, j) * d(j),
        forall|j: int| 0 <= j < n ==> #[trigger] x(j) == y(j) * d(j),
    ensures
        times(g, y, i, n) == d(i) * times(a, x, i, n),
    decreases n,
{
    if n == 0 {
        let c = d(i);
        assert(c * (0 as real) == (0 as real)) by (nonlinear_arith);
    } else {
        lemma_row_times(g, a, d, y, x, i, (n - 1) as nat);
        let (c, v, e, z, t) = (
            d(i),
            a(i, n - 1),
            d(n - 1),
            y(n - 1),
            times(a, x, i, (n - 1) as nat),
        );
        assert((c * v * e) * z == c * (v * (z * e))) by (nonlinear_arith);
        assert(c * (t + v * (z * e)) == c * t + c * (v * (z * e))) by (nonlinear_arith);
        assert(x(n - 1) == z * e);
    }
}

/// Where nothing rounds, a solution of the equilibrated system, multiplied by the
/// scaling factors, solves the original system.
pub proof fn unscaled_solutions_solve<F: Fn(FloatOp, u64, u64) -> u64>(
    matrix: MatrixModel,
    rhs: Seq<u64>,
    sol: Seq<u64>,
    fpu: Fpu<F>,
    value: spec_fn(u64) -> real,
)
    requires
        reads_numbers(value),
        0 <= matrix.dim() == sol.len() <= rhs.len(),
        exact_equilibration(matrix, rhs, fpu, value),
        ({
            let s = equilibrated(matrix, rhs, fpu);
            &&& solves(
                matrix_of(s.matrix, value),
                vector_of(sol, value),
                vector_of(s.rhs, value),
                sol.len(),
            )
            &&& forall|i: int|
                0 <= i < sol.len() ==> exact(
                    FloatOp::Mul,
                    #[trigger] sol[i],
                    s.scale[i],
                    fpu,
                    value,
                )
        }),
    ensures
        solves(
            matrix_of(matrix, value),
            vector_of(unscaled(Some(equilibrated(matrix, rhs, fpu).scale), sol, fpu), value),
            vector_of(rhs, value),
            sol.len(),
        ),
{
    reveal(equilibrated);
    let n = matrix.dim();
    let a = matrix_of(matrix, value);
    let b = vector_of(rhs, value);
    let ones = Seq::new(n as nat, |i: int| ONE);
    let start = ScaledSystem { matrix, rhs, scale: ones };
    assert forall|i: int| 0 <= i < n implies value(#[trigger] start.rhs[i]) == value(
        start.scale[i],
    ) * b(i) by {
        let v = b(i);
        assert((1 as real) * v == v) by (nonlinear_arith);
    }
    assert forall|i: int, j: int| 0 <= i < n && 0 <= j < n implies #[trigger] a(i, j) == value(
        start.scale[i],
    ) * a(i, j) * value(start.scale[j]) by {
        let v = a(i, j);
        assert((1 as real) * v * (1 as real) == v) by (nonlinear_arith);
    }
    assert(is_scaled(start, a, b, n, value));
    lemma_pass(start, FloatOp::Max, a, b, n, fpu, value);
    let s1 = equilibration_pass(start, FloatOp::Max, fpu);
    lemma_pass(s1, FloatOp::Add, a, b, n, fpu, value);
    let s2 = equilibration_pass(s1, FloatOp::Add, fpu);
    lemma_pass(s2, FloatOp::Add, a, b, n, fpu, value);
    let s3 = equilibration_pass(s2, FloatOp::Add, fpu);
    lemma_pass(s3, FloatOp::Add, a, b, n, fpu, value);
    let s = equilibrated(matrix, rhs, fpu);
    let g = matrix_of(s.matrix, value);
    let d = vector_of(s.scale, value);
    let y = vector_of(sol, value);
    let x = vector_of(unscaled(Some(s.scale), sol, fpu), value);
    assert forall|i: int| 0 <= i < n implies #[trigger] times(a, x, i, n as nat) == b(i) by {
        assert forall|j: int| 0 <= j < n implies #[trigger] x(j) == y(j) * d(j) by {
            assert(exact(FloatOp::Mul, sol[j], s.scale[j], fpu, value));
        }
        lemma_row_times(g, a, d, y, x, i, n as nat);
        assert(times(g, y, i, n as nat) == vector_of(s.rhs, value)(i));
        assert(value(s.rhs[i]) == value(s.scale[i]) * b(i));
        let (c, t, u) = (d(i), times(a, x, i, n as nat), b(i));
        assert(value(s.scale[i]) != (0 as real));
        assert(t == u) by (nonlinear_arith)
            requires
                c * t == c * u,
                c != (0 as real),
        ;
    }
}

} // verus!
