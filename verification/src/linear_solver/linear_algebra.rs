//! Real matrices and vectors, as functions of their places.

use vstd::prelude::*;

verus! {

/// Row `i` of the matrix times the vector, over the first `n` places.
pub open spec fn times(
    g: spec_fn(int, int) -> real,
    x: spec_fn(int) -> real,
    i: int,
    n: nat,
) -> real
    decreases n,
{
    if n == 0 {
        0 as real
    } else {
        times(g, x, i, (n - 1) as nat) + g(i, n - 1) * x(n - 1)
    }
}

pub open spec fn transposed(g: spec_fn(int, int) -> real) -> spec_fn(int, int) -> real {
    |i: int, j: int| g(j, i)
}

pub open spec fn column_at(g: spec_fn(int, int) -> real, t: int) -> spec_fn(int) -> real {
    |j: int| g(j, t)
}

pub open spec fn row_at(g: spec_fn(int, int) -> real, t: int) -> spec_fn(int) -> real {
    |j: int| g(t, j)
}

/// The product of two matrices, over the first `n` places.
pub open spec fn matrix_product(
    g: spec_fn(int, int) -> real,
    h: spec_fn(int, int) -> real,
    n: nat,
) -> spec_fn(int, int) -> real {
    |i: int, t: int| times(g, column_at(h, t), i, n)
}

/// `g + s Q Q^T`, where `Q` has `k` columns.
pub open spec fn with_columns(
    g: spec_fn(int, int) -> real,
    q: spec_fn(int, int) -> real,
    s: real,
    k: nat,
) -> spec_fn(int, int) -> real {
    |i: int, j: int| g(i, j) + s * times(q, row_at(q, j), i, k)
}

/// `Q^T x`, where `Q` has `n` rows.
pub open spec fn projected(
    q: spec_fn(int, int) -> real,
    x: spec_fn(int) -> real,
    n: nat,
) -> spec_fn(int) -> real {
    |p: int| times(transposed(q), x, p, n)
}

/// The first `n` rows and columns are symmetric.
pub open spec fn is_symmetric(g: spec_fn(int, int) -> real, n: nat) -> bool {
    forall|i: int, j: int| 0 <= i < n && 0 <= j < n ==> #[trigger] g(i, j) == g(j, i)
}

/// The matrix times `x` is `b`.
pub open spec fn solves(
    g: spec_fn(int, int) -> real,
    x: spec_fn(int) -> real,
    b: spec_fn(int) -> real,
    n: nat,
) -> bool {
    forall|i: int| 0 <= i < n ==> #[trigger] times(g, x, i, n) == b(i)
}

pub open spec fn unit(i: int, j: int) -> real {
    if i == j {
        1 as real
    } else {
        0 as real
    }
}

/// Equal rows times equal vectors.
pub proof fn lemma_same(
    g: spec_fn(int, int) -> real,
    x: spec_fn(int) -> real,
    i: int,
    h: spec_fn(int, int) -> real,
    y: spec_fn(int) -> real,
    t: int,
    n: nat,
)
    requires
        forall|j: int| 0 <= j < n ==> #[trigger] g(i, j) == h(t, j),
        forall|j: int| 0 <= j < n ==> #[trigger] x(j) == y(j),
    ensures
        times(g, x, i, n) == times(h, y, t, n),
    decreases n,
{
    if n > 0 {
        lemma_same(g, x, i, h, y, t, (n - 1) as nat);
    }
}

/// The order of two factors does not count.
pub proof fn lemma_exchanged(
    g: spec_fn(int, int) -> real,
    x: spec_fn(int) -> real,
    i: int,
    h: spec_fn(int, int) -> real,
    y: spec_fn(int) -> real,
    t: int,
    n: nat,
)
    requires
        forall|j: int| 0 <= j < n ==> #[trigger] g(i, j) == y(j),
        forall|j: int| 0 <= j < n ==> #[trigger] x(j) == h(t, j),
    ensures
        times(g, x, i, n) == times(h, y, t, n),
    decreases n,
{
    if n > 0 {
        lemma_exchanged(g, x, i, h, y, t, (n - 1) as nat);
        let a = g(i, n - 1);
        let b = x(n - 1);
        assert(a * b == b * a) by (nonlinear_arith);
    }
}

/// Places with a zero factor do not count.
pub proof fn lemma_zero_tail(
    g: spec_fn(int, int) -> real,
    x: spec_fn(int) -> real,
    i: int,
    n: nat,
    m: nat,
)
    requires
        n <= m,
        forall|j: int| n <= j < m ==> #[trigger] g(i, j) == (0 as real) || x(j) == (0 as real),
    ensures
        times(g, x, i, m) == times(g, x, i, n),
    decreases m,
{
    if n < m {
        lemma_zero_tail(g, x, i, n, (m - 1) as nat);
        let a = g(i, m - 1);
        let b = x(m - 1);
        assert(a * b == (0 as real)) by (nonlinear_arith)
            requires
                a == (0 as real) || b == (0 as real),
        ;
    }
}

proof fn lemma_axpy(
    g: spec_fn(int, int) -> real,
    x: spec_fn(int) -> real,
    z: spec_fn(int) -> real,
    y: spec_fn(int) -> real,
    c: real,
    i: int,
    n: nat,
)
    requires
        forall|j: int| 0 <= j < n ==> #[trigger] y(j) == x(j) + c * z(j),
    ensures
        times(g, y, i, n) == times(g, x, i, n) + c * times(g, z, i, n),
    decreases n,
{
    if n == 0 {
        assert(c * (0 as real) == (0 as real)) by (nonlinear_arith);
    } else {
        lemma_axpy(g, x, z, y, c, i, (n - 1) as nat);
        let (a, p, q, r) = (
            g(i, n - 1),
            x(n - 1),
            z(n - 1),
            times(g, z, i, (n - 1) as nat),
        );
        assert(a * (p + c * q) == a * p + c * (a * q)) by (nonlinear_arith);
        assert(c * (r + a * q) == c * r + c * (a * q)) by (nonlinear_arith);
    }
}

proof fn lemma_matrix_axpy(
    g: spec_fn(int, int) -> real,
    q: spec_fn(int, int) -> real,
    h: spec_fn(int, int) -> real,
    y: spec_fn(int) -> real,
    c: real,
    i: int,
    p: int,
    n: nat,
)
    requires
        forall|j: int| 0 <= j < n ==> #[trigger] h(i, j) == g(i, j) + c * q(j, p),
    ensures
        times(h, y, i, n) == times(g, y, i, n) + c * times(transposed(q), y, p, n),
    decreases n,
{
    if n == 0 {
        assert(c * (0 as real) == (0 as real)) by (nonlinear_arith);
    } else {
        lemma_matrix_axpy(g, q, h, y, c, i, p, (n - 1) as nat);
        let (a, b, z, r) = (
            g(i, n - 1),
            q(n - 1, p),
            y(n - 1),
            times(transposed(q), y, p, (n - 1) as nat),
        );
        assert((a + c * b) * z == a * z + c * (b * z)) by (nonlinear_arith);
        assert(c * (r + b * z) == c * r + c * (b * z)) by (nonlinear_arith);
    }
}

/// A matrix times a vector less the columns of `qt`.
proof fn lemma_combination(
    g: spec_fn(int, int) -> real,
    x: spec_fn(int) -> real,
    qt: spec_fn(int, int) -> real,
    w: spec_fn(int) -> real,
    s: real,
    y: spec_fn(int) -> real,
    i: int,
    n: nat,
    k: nat,
)
    requires
        forall|j: int| 0 <= j < n ==> #[trigger] y(j) == x(j) - s * times(qt, w, j, k),
    ensures
        times(g, y, i, n) == times(g, x, i, n) - s * times(matrix_product(g, qt, n), w, i, k),
    decreases k,
{
    assert(s * (0 as real) == (0 as real)) by (nonlinear_arith);
    if k == 0 {
        lemma_same(g, y, i, g, x, i, n);
    } else {
        let before = |j: int| x(j) - s * times(qt, w, j, (k - 1) as nat);
        let v = w(k - 1);
        let c = -(s * v);
        let z = column_at(qt, k - 1);
        lemma_combination(g, x, qt, w, s, before, i, n, (k - 1) as nat);
        assert forall|j: int| 0 <= j < n implies #[trigger] y(j) == before(j) + c * z(j) by {
            let (r, a) = (times(qt, w, j, (k - 1) as nat), qt(j, k - 1));
            assert(s * (r + a * v) == s * r + (s * v) * a) by (nonlinear_arith);
            assert((-(s * v)) * a == -((s * v) * a)) by (nonlinear_arith);
        }
        lemma_axpy(g, before, z, y, c, i, n);
        let (r, a) = (
            times(matrix_product(g, qt, n), w, i, (k - 1) as nat),
            times(g, z, i, n),
        );
        assert(s * (r + a * v) == s * r + (s * v) * a) by (nonlinear_arith);
        assert((-(s * v)) * a == -((s * v) * a)) by (nonlinear_arith);
    }
}

/// A matrix with columns times a vector.
pub proof fn lemma_with_columns(
    g: spec_fn(int, int) -> real,
    q: spec_fn(int, int) -> real,
    s: real,
    y: spec_fn(int) -> real,
    i: int,
    n: nat,
    k: nat,
)
    ensures
        times(with_columns(g, q, s, k), y, i, n) == times(g, y, i, n) + s * times(
            q,
            projected(q, y, n),
            i,
            k,
        ),
    decreases k,
{
    let h = with_columns(g, q, s, k);
    assert(s * (0 as real) == (0 as real)) by (nonlinear_arith);
    if k == 0 {
        assert forall|j: int| 0 <= j < n implies #[trigger] h(i, j) == g(i, j) by {}
        lemma_same(h, y, i, g, y, i, n);
    } else {
        let before = with_columns(g, q, s, (k - 1) as nat);
        let a = q(i, k - 1);
        lemma_with_columns(g, q, s, y, i, n, (k - 1) as nat);
        assert forall|j: int| 0 <= j < n implies #[trigger] h(i, j) == before(i, j) + (s * a) * q(
            j,
            k - 1,
        ) by {
            let (r, b) = (times(q, row_at(q, j), i, (k - 1) as nat), q(j, k - 1));
            assert(s * (r + a * b) == s * r + (s * a) * b) by (nonlinear_arith);
        }
        lemma_matrix_axpy(before, q, h, y, s * a, i, k - 1, n);
        let (r, b) = (
            times(q, projected(q, y, n), i, (k - 1) as nat),
            times(transposed(q), y, k - 1, n),
        );
        assert(s * (r + a * b) == s * r + (s * a) * b) by (nonlinear_arith);
    }
}

/// `y^T g x`, over the first `n` rows and `m` columns.
spec fn bilinear(
    g: spec_fn(int, int) -> real,
    x: spec_fn(int) -> real,
    y: spec_fn(int) -> real,
    n: nat,
    m: nat,
) -> real
    decreases n,
{
    if n == 0 {
        0 as real
    } else {
        bilinear(g, x, y, (n - 1) as nat, m) + y(n - 1) * times(g, x, n - 1, m)
    }
}

proof fn lemma_last_row(
    g: spec_fn(int, int) -> real,
    x: spec_fn(int) -> real,
    y: spec_fn(int) -> real,
    n: nat,
    m: nat,
)
    requires
        n > 0,
    ensures
        bilinear(transposed(g), y, x, m, n) == bilinear(transposed(g), y, x, m, (n - 1) as nat)
            + y(n - 1) * times(g, x, n - 1, m),
    decreases m,
{
    let c = y(n - 1);
    if m == 0 {
        assert(c * (0 as real) == (0 as real)) by (nonlinear_arith);
    } else {
        lemma_last_row(g, x, y, n, (m - 1) as nat);
        let (a, b, r, t) = (
            g(n - 1, m - 1),
            x(m - 1),
            times(transposed(g), y, m - 1, (n - 1) as nat),
            times(g, x, n - 1, (m - 1) as nat),
        );
        assert(b * (r + a * c) == b * r + c * (a * b)) by (nonlinear_arith);
        assert(c * (t + a * b) == c * t + c * (a * b)) by (nonlinear_arith);
    }
}

proof fn lemma_bilinear(
    g: spec_fn(int, int) -> real,
    x: spec_fn(int) -> real,
    y: spec_fn(int) -> real,
    n: nat,
    m: nat,
)
    ensures
        bilinear(g, x, y, n, m) == bilinear(transposed(g), y, x, m, n),
    decreases n,
{
    if n == 0 {
        lemma_no_rows(transposed(g), y, x, m);
    } else {
        lemma_bilinear(g, x, y, (n - 1) as nat, m);
        lemma_last_row(g, x, y, n, m);
    }
}

proof fn lemma_no_rows(
    g: spec_fn(int, int) -> real,
    x: spec_fn(int) -> real,
    y: spec_fn(int) -> real,
    n: nat,
)
    ensures
        bilinear(g, x, y, n, 0) == (0 as real),
    decreases n,
{
    if n > 0 {
        lemma_no_rows(g, x, y, (n - 1) as nat);
        let a = y(n - 1);
        assert(a * (0 as real) == (0 as real)) by (nonlinear_arith);
    }
}

/// The form is the product of `y` with what the matrix makes of `x`.
proof fn lemma_form(
    g: spec_fn(int, int) -> real,
    x: spec_fn(int) -> real,
    y: spec_fn(int) -> real,
    h: spec_fn(int, int) -> real,
    b: spec_fn(int) -> real,
    p: int,
    n: nat,
    m: nat,
)
    requires
        forall|i: int| 0 <= i < n ==> times(g, x, i, m) == #[trigger] b(i) && h(p, i) == y(i),
    ensures
        bilinear(g, x, y, n, m) == times(h, b, p, n),
    decreases n,
{
    if n > 0 {
        lemma_form(g, x, y, h, b, p, (n - 1) as nat, m);
        assert(times(g, x, n - 1, m) == b(n - 1));
    }
}

/// A symmetric matrix can be moved from one factor of a product to the other:
/// `(g x)^T y` is `x^T (g y)`.
proof fn lemma_symmetric(
    g: spec_fn(int, int) -> real,
    x: spec_fn(int) -> real,
    b: spec_fn(int) -> real,
    y: spec_fn(int) -> real,
    c: spec_fn(int) -> real,
    hx: spec_fn(int, int) -> real,
    hb: spec_fn(int, int) -> real,
    p: int,
    n: nat,
)
    requires
        is_symmetric(g, n),
        solves(g, x, b, n),
        solves(g, y, c, n),
        forall|i: int| 0 <= i < n ==> #[trigger] hx(p, i) == x(i),
        forall|i: int| 0 <= i < n ==> #[trigger] hb(p, i) == b(i),
    ensures
        times(hb, y, p, n) == times(hx, c, p, n),
{
    let hy = |i: int, j: int| y(j);
    lemma_form(g, x, y, hy, b, p, n, n);
    lemma_exchanged(hb, y, p, hy, b, p, n);
    lemma_bilinear(g, x, y, n, n);
    assert forall|i: int| 0 <= i < n implies times(transposed(g), y, i, n) == #[trigger] c(i) by {
        assert forall|j: int| 0 <= j < n implies #[trigger] transposed(g)(i, j) == g(i, j) by {
            assert(g(i, j) == g(j, i));
        }
        lemma_same(transposed(g), y, i, g, y, i, n);
        assert(times(g, y, i, n) == c(i));
    }
    lemma_form(transposed(g), y, x, hx, c, p, n, n);
}

/// The products of the columns of `q` with what solves for them are symmetric.
pub proof fn lemma_products_symmetric(
    g: spec_fn(int, int) -> real,
    q: spec_fn(int, int) -> real,
    qt: spec_fn(int, int) -> real,
    p: int,
    t: int,
    n: nat,
)
    requires
        is_symmetric(g, n),
        solves(g, column_at(qt, p), column_at(q, p), n),
        solves(g, column_at(qt, t), column_at(q, t), n),
    ensures
        times(transposed(qt), column_at(q, t), p, n) == times(
            transposed(qt),
            column_at(q, p),
            t,
            n,
        ),
{
    lemma_symmetric(
        g,
        column_at(qt, p),
        column_at(q, p),
        column_at(qt, t),
        column_at(q, t),
        transposed(qt),
        transposed(q),
        p,
        n,
    );
    lemma_exchanged(
        transposed(q),
        column_at(qt, t),
        p,
        transposed(qt),
        column_at(q, p),
        t,
        n,
    );
}

/// Equal vectors solve equally.
pub proof fn lemma_solves_same(
    g: spec_fn(int, int) -> real,
    x: spec_fn(int) -> real,
    b: spec_fn(int) -> real,
    y: spec_fn(int) -> real,
    c: spec_fn(int) -> real,
    n: nat,
)
    requires
        solves(g, x, b, n),
        forall|i: int| 0 <= i < n ==> #[trigger] y(i) == x(i),
        forall|i: int| 0 <= i < n ==> #[trigger] c(i) == b(i),
    ensures
        solves(g, y, c, n),
{
    assert forall|i: int| 0 <= i < n implies #[trigger] times(g, y, i, n) == c(i) by {
        lemma_same(g, y, i, g, x, i, n);
        assert(times(g, x, i, n) == b(i));
    }
}

/// The identity plus `s` times a matrix, times a vector.
proof fn lemma_identity(
    m: spec_fn(int, int) -> real,
    h: spec_fn(int, int) -> real,
    s: real,
    w: spec_fn(int) -> real,
    p: int,
    k: nat,
)
    requires
        0 <= p,
        forall|t: int| 0 <= t < k ==> #[trigger] m(p, t) == unit(p, t) + s * h(p, t),
    ensures
        times(m, w, p, k) == (if p < k {
            w(p)
        } else {
            0 as real
        }) + s * times(h, w, p, k),
    decreases k,
{
    if k == 0 {
        assert(s * (0 as real) == (0 as real)) by (nonlinear_arith);
    } else {
        lemma_identity(m, h, s, w, p, (k - 1) as nat);
        let (e, a, b, r) = (
            unit(p, k - 1),
            h(p, k - 1),
            w(k - 1),
            times(h, w, p, (k - 1) as nat),
        );
        assert((e + s * a) * b == e * b + s * (a * b)) by (nonlinear_arith);
        assert(s * (r + a * b) == s * r + s * (a * b)) by (nonlinear_arith);
        assert((1 as real) * b == b && (0 as real) * b == (0 as real)) by (nonlinear_arith);
    }
}

/// The formula of Sherman, Morrison and Woodbury. `x` solves for `b` with the
/// symmetric matrix `g`, the columns of `qt` for those of `q`, and `w` solves
/// for `qt^T b` with the small matrix `I + s qt^T q`. Then `x - s qt w` solves
/// for `b` with `g + s q q^T`.
pub proof fn lemma_update(
    g: spec_fn(int, int) -> real,
    q: spec_fn(int, int) -> real,
    qt: spec_fn(int, int) -> real,
    s: real,
    m: spec_fn(int, int) -> real,
    x: spec_fn(int) -> real,
    b: spec_fn(int) -> real,
    w: spec_fn(int) -> real,
    y: spec_fn(int) -> real,
    n: nat,
    k: nat,
)
    requires
        is_symmetric(g, n),
        forall|p: int| 0 <= p < k ==> #[trigger] solves(g, column_at(qt, p), column_at(q, p), n),
        forall|p: int, t: int|
            0 <= p < k && 0 <= t < k ==> #[trigger] m(p, t) == unit(p, t) + s * times(
                transposed(qt),
                column_at(q, t),
                p,
                n,
            ),
        solves(g, x, b, n),
        solves(m, w, projected(qt, b, n), k),
        forall|j: int| 0 <= j < n ==> #[trigger] y(j) == x(j) - s * times(qt, w, j, k),
    ensures
        solves(with_columns(g, q, s, k), y, b, n),
{
    let gq = transposed(q);
    let gram = matrix_product(transposed(qt), q, n);
    assert forall|p: int| 0 <= p < k implies #[trigger] projected(q, y, n)(p) == w(p) by {
        let z = column_at(qt, p);
        assert(solves(g, z, column_at(q, p), n));
        lemma_symmetric(g, z, column_at(q, p), x, b, transposed(qt), gq, p, n);
        lemma_combination(gq, x, qt, w, s, y, p, n, k);
        let mixed = matrix_product(gq, qt, n);
        assert forall|t: int| 0 <= t < k implies #[trigger] mixed(p, t) == gram(p, t) by {
            assert(solves(g, column_at(qt, t), column_at(q, t), n));
            lemma_symmetric(
                g,
                z,
                column_at(q, p),
                column_at(qt, t),
                column_at(q, t),
                transposed(qt),
                gq,
                p,
                n,
            );
        }
        lemma_same(mixed, w, p, gram, w, p, k);
        lemma_identity(m, gram, s, w, p, k);
        assert(times(m, w, p, k) == projected(qt, b, n)(p));
    }
    assert forall|i: int| 0 <= i < n implies #[trigger] times(with_columns(g, q, s, k), y, i, n)
        == b(i) by {
        lemma_with_columns(g, q, s, y, i, n, k);
        lemma_same(q, projected(q, y, n), i, q, w, i, k);
        lemma_combination(g, x, qt, w, s, y, i, n, k);
        let solved = matrix_product(g, qt, n);
        assert forall|p: int| 0 <= p < k implies #[trigger] solved(i, p) == q(i, p) by {
            assert(solves(g, column_at(qt, p), column_at(q, p), n));
            assert(times(g, column_at(qt, p), i, n) == column_at(q, p)(i));
        }
        lemma_same(solved, w, i, q, w, i, k);
        assert(times(g, x, i, n) == b(i));
    }
}

/// A matrix stays symmetric with columns.
pub proof fn lemma_stays_symmetric(
    g: spec_fn(int, int) -> real,
    q: spec_fn(int, int) -> real,
    s: real,
    n: nat,
    k: nat,
)
    requires
        is_symmetric(g, n),
    ensures
        is_symmetric(with_columns(g, q, s, k), n),
{
    let h = with_columns(g, q, s, k);
    assert forall|i: int, j: int| 0 <= i < n && 0 <= j < n implies #[trigger] h(i, j) == h(
        j,
        i,
    ) by {
        assert(g(i, j) == g(j, i));
        lemma_exchanged(q, row_at(q, j), i, q, row_at(q, i), j, k);
    }
}

} // verus!
