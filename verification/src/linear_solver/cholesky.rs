//! What the small dense operations of a low-rank correction compute where no
//! operation rounds.

use crate::float::{negated, num_eq, FloatOp, Fpu, ONE, ZERO};
use crate::linear_solver::linear_algebra::{
    column_at, is_symmetric, lemma_exchanged, lemma_same, lemma_with_columns, lemma_zero_tail,
    projected, row_at, solves, times, transposed, unit, with_columns,
};
use crate::linear_solver::low_rank_kkt::{
    backward, backward_rest, chol_entry, chol_factor, chol_rest, chol_solution, combined, dot_from,
    forward, forward_rest, forward_solution, products, with_identity,
};
use crate::linear_solver::real_matrix::{exact, exact_term, reads_numbers, vector_of};
use crate::linear_solver::table::lemma_cell;
use vstd::prelude::*;

verus! {

/// A list of rows of length `k`.
pub open spec fn rows_of(
    t: Seq<u64>,
    k: int,
    value: spec_fn(u64) -> real,
) -> spec_fn(int, int) -> real {
    |i: int, j: int| value(t[i * k + j])
}

/// A list of columns of length `rows`.
pub open spec fn columns_of(
    t: Seq<u64>,
    rows: int,
    value: spec_fn(u64) -> real,
) -> spec_fn(int, int) -> real {
    |i: int, p: int| value(t[i + p * rows])
}

/// A list of columns of length `n`, with zeros below.
pub open spec fn leading_columns(
    t: Seq<u64>,
    n: int,
    value: spec_fn(u64) -> real,
) -> spec_fn(int, int) -> real {
    |i: int, p: int|
        if i < n {
            value(t[i + p * n])
        } else {
            0 as real
        }
}

pub open spec fn sign_of(minus: bool) -> real {
    if minus {
        -(1 as real)
    } else {
        1 as real
    }
}

pub open spec fn exact_dot_step<F: Fn(FloatOp, u64, u64) -> u64>(
    a: Seq<u64>,
    sa: int,
    b: Seq<u64>,
    sb: int,
    p: int,
    fpu: Fpu<F>,
    value: spec_fn(u64) -> real,
) -> bool {
    exact_term(dot_from(a, sa, b, sb, p as nat, fpu), a[sa + p], b[sb + p], false, fpu, value)
}

pub open spec fn exact_dot<F: Fn(FloatOp, u64, u64) -> u64>(
    a: Seq<u64>,
    sa: int,
    b: Seq<u64>,
    sb: int,
    k: int,
    fpu: Fpu<F>,
    value: spec_fn(u64) -> real,
) -> bool {
    forall|p: int| 0 <= p < k ==> #[trigger] exact_dot_step(a, sa, b, sb, p, fpu, value)
}

pub proof fn lemma_dot<F: Fn(FloatOp, u64, u64) -> u64>(
    a: Seq<u64>,
    sa: int,
    b: Seq<u64>,
    sb: int,
    g: spec_fn(int, int) -> real,
    x: spec_fn(int) -> real,
    i: int,
    k: nat,
    fpu: Fpu<F>,
    value: spec_fn(u64) -> real,
)
    requires
        reads_numbers(value),
        exact_dot(a, sa, b, sb, k as int, fpu, value),
        forall|j: int| 0 <= j < k ==> #[trigger] g(i, j) == value(a[sa + j]),
        forall|j: int| 0 <= j < k ==> #[trigger] x(j) == value(b[sb + j]),
    ensures
        value(dot_from(a, sa, b, sb, k, fpu)) == times(g, x, i, k),
    decreases k,
{
    assert(num_eq(ZERO, ZERO));
    if k > 0 {
        lemma_dot(a, sa, b, sb, g, x, i, (k - 1) as nat, fpu, value);
        assert(exact_dot_step(a, sa, b, sb, k - 1, fpu, value));
        assert(g(i, k - 1) == value(a[sa + (k - 1)]));
        assert(x(k - 1) == value(b[sb + (k - 1)]));
    }
}

/// The products of columns do not round.
pub open spec fn exact_products<F: Fn(FloatOp, u64, u64) -> u64>(
    a: Seq<u64>,
    la: int,
    b: Seq<u64>,
    n: int,
    k: int,
    fpu: Fpu<F>,
    value: spec_fn(u64) -> real,
) -> bool {
    forall|i: int, j: int|
        0 <= i < k && 0 <= j < k ==> #[trigger] exact_dot(a, i * la, b, j * n, n, fpu, value)
}

/// The products of long columns with leading ones.
pub proof fn lemma_products<F: Fn(FloatOp, u64, u64) -> u64>(
    a: Seq<u64>,
    la: int,
    b: Seq<u64>,
    n: int,
    k: int,
    i: int,
    j: int,
    fpu: Fpu<F>,
    value: spec_fn(u64) -> real,
)
    requires
        reads_numbers(value),
        0 <= n <= la,
        0 <= i < k,
        0 <= j < k,
        exact_products(a, la, b, n, k, fpu, value),
    ensures
        value(products(a, la, b, n, n as nat, k, fpu)[i * k + j]) == times(
            transposed(columns_of(a, la, value)),
            column_at(leading_columns(b, n, value), j),
            i,
            la as nat,
        ),
{
    let g = transposed(columns_of(a, la, value));
    let x = column_at(leading_columns(b, n, value), j);
    lemma_cell(k, i, j, k);
    assert(exact_dot(a, i * la, b, j * n, n, fpu, value));
    lemma_dot(a, i * la, b, j * n, g, x, i, n as nat, fpu, value);
    assert forall|r: int| n <= r < la implies #[trigger] g(i, r) == (0 as real) || x(r) == (
    0 as real) by {}
    lemma_zero_tail(g, x, i, n as nat, la as nat);
}

pub open spec fn exact_diagonal<F: Fn(FloatOp, u64, u64) -> u64>(
    t: Seq<u64>,
    k: int,
    minus: bool,
    i: int,
    fpu: Fpu<F>,
    value: spec_fn(u64) -> real,
) -> bool {
    exact(
        FloatOp::Add,
        if minus {
            negated(t[i * k + i])
        } else {
            t[i * k + i]
        },
        ONE,
        fpu,
        value,
    )
}

/// The identity is added without rounding.
pub open spec fn exact_identity<F: Fn(FloatOp, u64, u64) -> u64>(
    t: Seq<u64>,
    k: int,
    minus: bool,
    fpu: Fpu<F>,
    value: spec_fn(u64) -> real,
) -> bool {
    forall|i: int| 0 <= i < k ==> #[trigger] exact_diagonal(t, k, minus, i, fpu, value)
}

pub proof fn lemma_with_identity<F: Fn(FloatOp, u64, u64) -> u64>(
    t: Seq<u64>,
    k: int,
    minus: bool,
    i: int,
    j: int,
    fpu: Fpu<F>,
    value: spec_fn(u64) -> real,
)
    requires
        reads_numbers(value),
        exact_identity(t, k, minus, fpu, value),
        0 <= i < k,
        0 <= j < k,
    ensures
        value(with_identity(t, k, minus, fpu)[i * k + j]) == unit(i, j) + sign_of(minus) * value(
            t[i * k + j],
        ),
{
    lemma_cell(k, i, j, k);
    let v = value(t[i * k + j]);
    assert((1 as real) * v == v && (-(1 as real)) * v == -v) by (nonlinear_arith);
    if i == j {
        assert(exact_diagonal(t, k, minus, i, fpu, value));
    }
}

pub open spec fn exact_chol_step<F: Fn(FloatOp, u64, u64) -> u64>(
    m: Seq<u64>,
    k: int,
    i: int,
    j: int,
    p: int,
    fpu: Fpu<F>,
    value: spec_fn(u64) -> real,
) -> bool {
    exact_term(
        chol_rest(m, k, i, j, p, fpu),
        chol_entry(m, k, i, p, fpu),
        chol_entry(m, k, j, p, fpu),
        true,
        fpu,
        value,
    )
}

pub open spec fn exact_chol_entry<F: Fn(FloatOp, u64, u64) -> u64>(
    m: Seq<u64>,
    k: int,
    i: int,
    j: int,
    fpu: Fpu<F>,
    value: spec_fn(u64) -> real,
) -> bool {
    if i == j {
        exact(FloatOp::Sqrt, chol_rest(m, k, i, j, j, fpu), ZERO, fpu, value)
    } else {
        exact(
            FloatOp::Div,
            chol_rest(m, k, i, j, j, fpu),
            chol_entry(m, k, j, j, fpu),
            fpu,
            value,
        )
    }
}

/// The Cholesky factor is found without rounding.
pub open spec fn exact_chol<F: Fn(FloatOp, u64, u64) -> u64>(
    m: Seq<u64>,
    k: int,
    fpu: Fpu<F>,
    value: spec_fn(u64) -> real,
) -> bool {
    &&& forall|i: int, j: int, p: int|
        0 <= p < j <= i < k ==> #[trigger] exact_chol_step(m, k, i, j, p, fpu, value)
    &&& forall|i: int, j: int|
        0 <= j <= i < k ==> #[trigger] exact_chol_entry(m, k, i, j, fpu, value)
}

proof fn lemma_factor_cell<F: Fn(FloatOp, u64, u64) -> u64>(
    m: Seq<u64>,
    k: int,
    i: int,
    j: int,
    fpu: Fpu<F>,
    value: spec_fn(u64) -> real,
)
    requires
        reads_numbers(value),
        0 <= i < k,
        0 <= j < k,
    ensures
        rows_of(chol_factor(m, k, fpu), k, value)(i, j) == if j <= i {
            value(chol_entry(m, k, i, j, fpu))
        } else {
            0 as real
        },
{
    lemma_cell(k, i, j, k);
    assert(num_eq(ZERO, ZERO));
}

proof fn lemma_chol_rest<F: Fn(FloatOp, u64, u64) -> u64>(
    m: Seq<u64>,
    k: int,
    i: int,
    j: int,
    p: nat,
    fpu: Fpu<F>,
    value: spec_fn(u64) -> real,
)
    requires
        reads_numbers(value),
        exact_chol(m, k, fpu, value),
        0 <= p <= j <= i < k,
    ensures
        value(chol_rest(m, k, i, j, p as int, fpu)) == rows_of(m, k, value)(i, j) - times(
            rows_of(chol_factor(m, k, fpu), k, value),
            row_at(rows_of(chol_factor(m, k, fpu), k, value), j),
            i,
            p,
        ),
    decreases p,
{
    if p > 0 {
        lemma_chol_rest(m, k, i, j, (p - 1) as nat, fpu, value);
        lemma_factor_cell(m, k, i, p - 1, fpu, value);
        lemma_factor_cell(m, k, j, p - 1, fpu, value);
        assert(exact_chol_step(m, k, i, j, p - 1, fpu, value));
    }
}

/// The factor times its transpose is the matrix.
proof fn lemma_chol_product<F: Fn(FloatOp, u64, u64) -> u64>(
    m: Seq<u64>,
    k: int,
    i: int,
    j: int,
    fpu: Fpu<F>,
    value: spec_fn(u64) -> real,
)
    requires
        reads_numbers(value),
        exact_chol(m, k, fpu, value),
        0 <= j <= i < k,
    ensures
        rows_of(m, k, value)(i, j) == times(
            rows_of(chol_factor(m, k, fpu), k, value),
            row_at(rows_of(chol_factor(m, k, fpu), k, value), j),
            i,
            k as nat,
        ),
{
    let l = rows_of(chol_factor(m, k, fpu), k, value);
    let row = row_at(l, j);
    lemma_chol_rest(m, k, i, j, j as nat, fpu, value);
    lemma_factor_cell(m, k, i, j, fpu, value);
    lemma_factor_cell(m, k, j, j, fpu, value);
    assert(exact_chol_entry(m, k, i, j, fpu, value));
    assert(times(l, row, i, (j + 1) as nat) == times(l, row, i, j as nat) + l(i, j) * row(j));
    assert forall|p: int| j + 1 <= p < k implies #[trigger] l(i, p) == (0 as real) || row(p) == (
    0 as real) by {
        lemma_factor_cell(m, k, j, p, fpu, value);
    }
    lemma_zero_tail(l, row, i, (j + 1) as nat, k as nat);
}

/// Row `i` of the triangle is solved for without rounding.
pub open spec fn exact_forward_step<F: Fn(FloatOp, u64, u64) -> u64>(
    l: Seq<u64>,
    k: int,
    b: Seq<u64>,
    i: int,
    p: int,
    fpu: Fpu<F>,
    value: spec_fn(u64) -> real,
) -> bool {
    exact_term(
        forward_rest(l, k, b, i, p, fpu),
        l[i * k + p],
        forward(l, k, b, p, fpu),
        true,
        fpu,
        value,
    )
}

pub open spec fn exact_forward<F: Fn(FloatOp, u64, u64) -> u64>(
    l: Seq<u64>,
    k: int,
    b: Seq<u64>,
    i: int,
    fpu: Fpu<F>,
    value: spec_fn(u64) -> real,
) -> bool {
    &&& forall|p: int| 0 <= p < i ==> #[trigger] exact_forward_step(l, k, b, i, p, fpu, value)
    &&& exact(FloatOp::Div, forward_rest(l, k, b, i, i, fpu), l[i * k + i], fpu, value)
}

pub open spec fn exact_backward_step<F: Fn(FloatOp, u64, u64) -> u64>(
    l: Seq<u64>,
    k: int,
    y: Seq<u64>,
    i: int,
    p: int,
    fpu: Fpu<F>,
    value: spec_fn(u64) -> real,
) -> bool {
    exact_term(
        backward_rest(l, k, y, i, p, fpu),
        l[p * k + i],
        backward(l, k, y, p, fpu),
        true,
        fpu,
        value,
    )
}

pub open spec fn exact_backward<F: Fn(FloatOp, u64, u64) -> u64>(
    l: Seq<u64>,
    k: int,
    y: Seq<u64>,
    i: int,
    fpu: Fpu<F>,
    value: spec_fn(u64) -> real,
) -> bool {
    &&& forall|p: int| i < p < k ==> #[trigger] exact_backward_step(l, k, y, i, p, fpu, value)
    &&& exact(FloatOp::Div, backward_rest(l, k, y, i, k, fpu), l[i * k + i], fpu, value)
}

/// The solution with a Cholesky factor is found without rounding.
pub open spec fn exact_solution<F: Fn(FloatOp, u64, u64) -> u64>(
    l: Seq<u64>,
    k: int,
    b: Seq<u64>,
    fpu: Fpu<F>,
    value: spec_fn(u64) -> real,
) -> bool {
    forall|i: int|
        0 <= i < k ==> #[trigger] exact_forward(l, k, b, i, fpu, value) && exact_backward(
            l,
            k,
            forward_solution(l, k, b, fpu),
            i,
            fpu,
            value,
        )
}

proof fn lemma_forward_rest<F: Fn(FloatOp, u64, u64) -> u64>(
    l: Seq<u64>,
    k: int,
    b: Seq<u64>,
    i: int,
    p: nat,
    fpu: Fpu<F>,
    value: spec_fn(u64) -> real,
)
    requires
        exact_forward(l, k, b, i, fpu, value),
        0 <= p <= i < k,
    ensures
        value(forward_rest(l, k, b, i, p as int, fpu)) == value(b[i]) - times(
            rows_of(l, k, value),
            vector_of(forward_solution(l, k, b, fpu), value),
            i,
            p,
        ),
    decreases p,
{
    if p > 0 {
        lemma_forward_rest(l, k, b, i, (p - 1) as nat, fpu, value);
        assert(exact_forward_step(l, k, b, i, p - 1, fpu, value));
        assert(l[i * k + (p - 1)] == l[i * k + p - 1]);
    }
}

/// What a zero upper triangle leaves of the product with the solution.
proof fn lemma_backward_rest<F: Fn(FloatOp, u64, u64) -> u64>(
    l: Seq<u64>,
    k: int,
    y: Seq<u64>,
    x: spec_fn(int) -> real,
    i: int,
    p: nat,
    fpu: Fpu<F>,
    value: spec_fn(u64) -> real,
)
    requires
        exact_backward(l, k, y, i, fpu, value),
        0 <= i < p <= k,
        forall|q: int| 0 <= q < k ==> #[trigger] x(q) == value(backward(l, k, y, q, fpu)),
        forall|q: int| 0 <= q < i ==> #[trigger] rows_of(l, k, value)(q, i) == (0 as real),
    ensures
        times(transposed(rows_of(l, k, value)), x, i, p) == rows_of(l, k, value)(i, i) * x(i)
            + value(y[i]) - value(backward_rest(l, k, y, i, p as int, fpu)),
    decreases p,
{
    let g = transposed(rows_of(l, k, value));
    if p == i + 1 {
        assert forall|q: int| 0 <= q < i implies #[trigger] g(i, q) == (0 as real) || x(q) == (
        0 as real) by {
            assert(rows_of(l, k, value)(q, i) == (0 as real));
        }
        lemma_zero_tail(g, x, i, 0, i as nat);
        assert(times(g, x, i, p) == times(g, x, i, i as nat) + g(i, i) * x(i));
    } else {
        lemma_backward_rest(l, k, y, x, i, (p - 1) as nat, fpu, value);
        assert(exact_backward_step(l, k, y, i, p - 1, fpu, value));
        assert(x(p - 1) == value(backward(l, k, y, p - 1, fpu)));
    }
}

/// The solution with the Cholesky factor of a symmetric matrix solves for the
/// right-hand side.
pub proof fn lemma_chol_solves<F: Fn(FloatOp, u64, u64) -> u64>(
    m: Seq<u64>,
    k: int,
    b: Seq<u64>,
    fpu: Fpu<F>,
    value: spec_fn(u64) -> real,
)
    requires
        reads_numbers(value),
        0 <= k,
        is_symmetric(rows_of(m, k, value), k as nat),
        exact_chol(m, k, fpu, value),
        exact_solution(chol_factor(m, k, fpu), k, b, fpu, value),
    ensures
        solves(
            rows_of(m, k, value),
            vector_of(chol_solution(chol_factor(m, k, fpu), k, b, fpu), value),
            vector_of(b, value),
            k as nat,
        ),
{
    let lower = chol_factor(m, k, fpu);
    let l = rows_of(lower, k, value);
    let a = rows_of(m, k, value);
    let done = forward_solution(lower, k, b, fpu);
    let y = vector_of(done, value);
    let x = vector_of(chol_solution(lower, k, b, fpu), value);
    let nothing = |i: int, j: int| 0 as real;
    let one = 1 as real;
    let whole = with_columns(nothing, l, one, k as nat);
    assert forall|p: int| 0 <= p < k implies #[trigger] projected(l, x, k as nat)(p) == y(p) by {
        assert(exact_forward(lower, k, b, p, fpu, value));
        assert forall|q: int| 0 <= q < k implies #[trigger] x(q) == value(
            backward(lower, k, done, q, fpu),
        ) by {}
        assert forall|q: int| 0 <= q < p implies #[trigger] l(q, p) == (0 as real) by {
            lemma_factor_cell(m, k, q, p, fpu, value);
        }
        lemma_backward_rest(lower, k, done, x, p, k as nat, fpu, value);
        let (c, d) = (l(p, p), x(p));
        assert(c * d == d * c) by (nonlinear_arith);
    }
    assert forall|i: int| 0 <= i < k implies #[trigger] times(a, x, i, k as nat) == vector_of(
        b,
        value,
    )(i) by {
        assert forall|j: int| 0 <= j < k implies #[trigger] a(i, j) == whole(i, j) by {
            let t = times(l, row_at(l, j), i, k as nat);
            assert(one * t == t) by (nonlinear_arith)
                requires
                    one == (1 as real),
            ;
            if j <= i {
                lemma_chol_product(m, k, i, j, fpu, value);
            } else {
                lemma_chol_product(m, k, j, i, fpu, value);
                lemma_exchanged(l, row_at(l, j), i, l, row_at(l, i), j, k as nat);
                assert(a(j, i) == a(i, j));
            }
        }
        lemma_same(a, x, i, whole, x, i, k as nat);
        lemma_with_columns(nothing, l, one, x, i, k as nat, k as nat);
        lemma_zero_tail(nothing, x, i, 0, k as nat);
        lemma_same(l, projected(l, x, k as nat), i, l, y, i, k as nat);
        let t = times(l, y, i, k as nat);
        assert(one * t == t) by (nonlinear_arith)
            requires
                one == (1 as real),
        ;
        assert(exact_forward(lower, k, b, i, fpu, value));
        lemma_forward_rest(lower, k, b, i, i as nat, fpu, value);
        assert(times(l, y, i, (i + 1) as nat) == times(l, y, i, i as nat) + l(i, i) * y(i));
        let (c, d) = (l(i, i), y(i));
        assert(c * d == d * c) by (nonlinear_arith);
        assert forall|p: int| i + 1 <= p < k implies #[trigger] l(i, p) == (0 as real) || y(p) == (
        0 as real) by {
            lemma_factor_cell(m, k, i, p, fpu, value);
        }
        lemma_zero_tail(l, y, i, (i + 1) as nat, k as nat);
    }
}

pub open spec fn exact_combined_step<F: Fn(FloatOp, u64, u64) -> u64>(
    start: u64,
    t: Seq<u64>,
    rows: int,
    factors: Seq<u64>,
    i: int,
    minus: bool,
    p: int,
    fpu: Fpu<F>,
    value: spec_fn(u64) -> real,
) -> bool {
    exact_term(
        combined(start, t, rows, factors, i, minus, p as nat, fpu),
        t[i + p * rows],
        factors[p],
        minus,
        fpu,
        value,
    )
}

/// The columns are combined without rounding at row `i`.
pub open spec fn exact_combined<F: Fn(FloatOp, u64, u64) -> u64>(
    start: u64,
    t: Seq<u64>,
    rows: int,
    factors: Seq<u64>,
    i: int,
    minus: bool,
    k: int,
    fpu: Fpu<F>,
    value: spec_fn(u64) -> real,
) -> bool {
    forall|p: int|
        0 <= p < k ==> #[trigger] exact_combined_step(
            start,
            t,
            rows,
            factors,
            i,
            minus,
            p,
            fpu,
            value,
        )
}

pub proof fn lemma_combined<F: Fn(FloatOp, u64, u64) -> u64>(
    start: u64,
    t: Seq<u64>,
    rows: int,
    factors: Seq<u64>,
    i: int,
    minus: bool,
    k: nat,
    fpu: Fpu<F>,
    value: spec_fn(u64) -> real,
)
    requires
        reads_numbers(value),
        exact_combined(start, t, rows, factors, i, minus, k as int, fpu, value),
    ensures
        value(combined(start, t, rows, factors, i, minus, k, fpu)) == value(start) + sign_of(minus)
            * times(columns_of(t, rows, value), vector_of(factors, value), i, k),
    decreases k,
{
    let g = columns_of(t, rows, value);
    let x = vector_of(factors, value);
    let s = sign_of(minus);
    if k == 0 {
        assert(s * (0 as real) == (0 as real)) by (nonlinear_arith);
    } else {
        lemma_combined(start, t, rows, factors, i, minus, (k - 1) as nat, fpu, value);
        assert(exact_combined_step(start, t, rows, factors, i, minus, k - 1, fpu, value));
        let (a, b, r) = (g(i, k - 1), x(k - 1), times(g, x, i, (k - 1) as nat));
        assert(s * (r + a * b) == s * r + s * (a * b)) by (nonlinear_arith);
        let ab = a * b;
        assert((1 as real) * ab == ab && (-(1 as real)) * ab == -ab) by (nonlinear_arith);
        if num_eq(factors[k - 1], ZERO) {
            assert(ab == (0 as real)) by (nonlinear_arith)
                requires
                    ab == a * b,
                    b == (0 as real),
            ;
        }
    }
}

} // verus!
