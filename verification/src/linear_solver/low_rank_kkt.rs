//! Systems whose matrix is that of another solver plus a correction of low rank.
//!
//! The matrix is `A + V V^T - U U^T`, where `V` and `U` have few columns and are
//! zero outside their leading rows. `A` is factored by an inner solver, and the
//! correction is applied to its solutions by the Sherman-Morrison-Woodbury
//! formula, first for `V` and then for `U`.

use crate::float::{eq, lt, neg, negated, num_eq, num_lt, FloatOp, Fpu, ONE, ZERO};
use crate::kkt::barrier::zeros;
use crate::linear_solver::model::MatrixModel;
use crate::linear_solver::table::{
    cell, flat, get_cell, lemma_cell, lemma_cells_are_flat, lemma_is_flat, set_cell,
};
use crate::linear_solver::solver::{
    columns_solved, error_model, failure, reply, ErrorModel, LinearSolver, SolverEvent,
};
use crate::linear_solver::{copy_numbers, Inertia, KktMatrix, SolverError};
use vstd::prelude::*;

verus! {

/// The compact form `sigma I + V V^T - U U^T` of a quasi-Newton Hessian.
#[derive(Debug)]
pub struct LbfgsCompact {
    /// Number of variables.
    pub n: usize,
    /// Number of columns of `V` and of `U`.
    pub k: usize,
    pub sigma: u64,
    /// The columns of `V`, one after the other.
    pub v: Vec<u64>,
    /// The columns of `U`, one after the other.
    pub u: Vec<u64>,
}

impl LbfgsCompact {
    pub open spec fn well_formed(&self) -> bool {
        self.v@.len() >= self.n * self.k && self.u@.len() >= self.n * self.k
    }
}

/// A solver for the corrected matrix.
#[derive(Debug)]
pub struct LowRankKktSolver<S> {
    pub inner: S,
    pub n: usize,
    pub n_aug: usize,
    pub k: usize,
    pub v: Vec<u64>,
    pub u: Vec<u64>,
    /// Columns of the inner solutions for `V`.
    pub vtilde: Vec<u64>,
    /// Columns of the solutions for `U` with the correction for `V`.
    pub utilde2: Vec<u64>,
    /// Cholesky factors of the two small matrices, row by row.
    pub j1_chol: Vec<u64>,
    pub j2_chol: Vec<u64>,
    pub factored: bool,
}

/// What the solver holds besides the inner one.
#[verifier::ext_equal]
pub struct LowRankModel {
    pub n: int,
    pub n_aug: int,
    pub k: int,
    pub v: Seq<u64>,
    pub u: Seq<u64>,
    pub vtilde: Seq<u64>,
    pub utilde2: Seq<u64>,
    pub j1: Seq<u64>,
    pub j2: Seq<u64>,
    pub factored: bool,
}

/// Sum of the products of the first `k` numbers from `sa` on and from `sb` on.
pub open spec fn dot_from<F: Fn(FloatOp, u64, u64) -> u64>(
    a: Seq<u64>,
    sa: int,
    b: Seq<u64>,
    sb: int,
    k: nat,
    fpu: Fpu<F>,
) -> u64
    decreases k,
{
    if k == 0 {
        ZERO
    } else {
        fpu.sum(
            dot_from(a, sa, b, sb, (k - 1) as nat, fpu),
            fpu.product(a[sa + k - 1], b[sb + k - 1]),
        )
    }
}

/// Products of the columns of `a`, which have length `la`, with those of `b`,
/// which have length `lb`, over their first `n` rows.
pub open spec fn products<F: Fn(FloatOp, u64, u64) -> u64>(
    a: Seq<u64>,
    la: int,
    b: Seq<u64>,
    lb: int,
    n: nat,
    k: int,
    fpu: Fpu<F>,
) -> Seq<u64> {
    flat(k, |i: int, j: int| dot_from(a, i * la, b, j * lb, n, fpu))
}

/// The identity plus the table, or minus it.
pub open spec fn with_identity<F: Fn(FloatOp, u64, u64) -> u64>(
    t: Seq<u64>,
    k: int,
    minus: bool,
    fpu: Fpu<F>,
) -> Seq<u64> {
    flat(
        k,
        |i: int, j: int|
            {
                let v = if minus {
                    negated(t[i * k + j])
                } else {
                    t[i * k + j]
                };
                if i == j {
                    fpu.sum(v, ONE)
                } else {
                    v
                }
            },
    )
}

/// Entry `(i, j)` of the Cholesky factor, `j <= i`.
pub open spec fn chol_entry<F: Fn(FloatOp, u64, u64) -> u64>(
    m: Seq<u64>,
    k: int,
    i: int,
    j: int,
    fpu: Fpu<F>,
) -> u64
    decreases
            j,
            (if i == j {
                2int
            } else {
                3int
            }),
            0int,
{
    if i == j {
        fpu.calc(FloatOp::Sqrt, chol_rest(m, k, i, j, j, fpu), ZERO)
    } else {
        fpu.quotient(chol_rest(m, k, i, j, j, fpu), chol_entry(m, k, j, j, fpu))
    }
}

/// Entry `(i, j)` of the matrix without the products of the first `p` columns
/// of the factor.
pub open spec fn chol_rest<F: Fn(FloatOp, u64, u64) -> u64>(
    m: Seq<u64>,
    k: int,
    i: int,
    j: int,
    p: int,
    fpu: Fpu<F>,
) -> u64
    decreases j, 1int, p,
{
    if p <= 0 || p > j {
        m[i * k + j]
    } else {
        fpu.difference(
            chol_rest(m, k, i, j, p - 1, fpu),
            fpu.product(chol_entry(m, k, i, p - 1, fpu), chol_entry(m, k, j, p - 1, fpu)),
        )
    }
}

/// All pivots are positive.
pub open spec fn is_definite<F: Fn(FloatOp, u64, u64) -> u64>(
    m: Seq<u64>,
    k: int,
    fpu: Fpu<F>,
) -> bool {
    forall|j: int| 0 <= j < k ==> num_lt(ZERO, #[trigger] chol_rest(m, k, j, j, j, fpu))
}

/// The Cholesky factor, with zeros above the diagonal.
pub open spec fn chol_factor<F: Fn(FloatOp, u64, u64) -> u64>(
    m: Seq<u64>,
    k: int,
    fpu: Fpu<F>,
) -> Seq<u64> {
    flat(
        k,
        |i: int, j: int|
            if j <= i {
                chol_entry(m, k, i, j, fpu)
            } else {
                ZERO
            },
    )
}

/// Element `i` of the solution with the lower triangle.
pub open spec fn forward<F: Fn(FloatOp, u64, u64) -> u64>(
    l: Seq<u64>,
    k: int,
    b: Seq<u64>,
    i: int,
    fpu: Fpu<F>,
) -> u64
    decreases i, 1int, 0int,
{
    fpu.quotient(forward_rest(l, k, b, i, i, fpu), l[i * k + i])
}

pub open spec fn forward_rest<F: Fn(FloatOp, u64, u64) -> u64>(
    l: Seq<u64>,
    k: int,
    b: Seq<u64>,
    i: int,
    p: int,
    fpu: Fpu<F>,
) -> u64
    decreases i, 0int, p,
{
    if p <= 0 || p > i {
        b[i]
    } else {
        fpu.difference(
            forward_rest(l, k, b, i, p - 1, fpu),
            fpu.product(l[i * k + p - 1], forward(l, k, b, p - 1, fpu)),
        )
    }
}

/// Element `i` of the solution with the transposed lower triangle.
pub open spec fn backward<F: Fn(FloatOp, u64, u64) -> u64>(
    l: Seq<u64>,
    k: int,
    y: Seq<u64>,
    i: int,
    fpu: Fpu<F>,
) -> u64
    decreases k - i, 1int, 0int,
{
    fpu.quotient(backward_rest(l, k, y, i, k, fpu), l[i * k + i])
}

pub open spec fn backward_rest<F: Fn(FloatOp, u64, u64) -> u64>(
    l: Seq<u64>,
    k: int,
    y: Seq<u64>,
    i: int,
    p: int,
    fpu: Fpu<F>,
) -> u64
    decreases k - i, 0int, p,
{
    if p <= i + 1 || p > k || i < 0 {
        y[i]
    } else {
        fpu.difference(
            backward_rest(l, k, y, i, p - 1, fpu),
            fpu.product(l[(p - 1) * k + i], backward(l, k, y, p - 1, fpu)),
        )
    }
}

pub open spec fn forward_solution<F: Fn(FloatOp, u64, u64) -> u64>(
    l: Seq<u64>,
    k: int,
    b: Seq<u64>,
    fpu: Fpu<F>,
) -> Seq<u64> {
    Seq::new(k as nat, |i: int| forward(l, k, b, i, fpu))
}

/// The solution with a Cholesky factor.
pub open spec fn chol_solution<F: Fn(FloatOp, u64, u64) -> u64>(
    l: Seq<u64>,
    k: int,
    b: Seq<u64>,
    fpu: Fpu<F>,
) -> Seq<u64> {
    Seq::new(k as nat, |i: int| backward(l, k, forward_solution(l, k, b, fpu), i, fpu))
}

/// Column `j` of a table with rows of length `ncol`.
pub open spec fn table_column(b: Seq<u64>, k: int, ncol: int, j: int) -> Seq<u64> {
    Seq::new(k as nat, |i: int| b[i * ncol + j])
}

/// The square table of solutions for the columns of `b`.
pub open spec fn chol_solutions<F: Fn(FloatOp, u64, u64) -> u64>(
    l: Seq<u64>,
    k: int,
    b: Seq<u64>,
    fpu: Fpu<F>,
) -> Seq<u64> {
    flat(k, |i: int, j: int| chol_solution(l, k, table_column(b, k, k, j), fpu)[i])
}

/// `start` plus the columns of `t` times the first `p` factors, or minus them,
/// at row `i`. A factor of zero is left out.
pub open spec fn combined<F: Fn(FloatOp, u64, u64) -> u64>(
    start: u64,
    t: Seq<u64>,
    rows: int,
    factors: Seq<u64>,
    i: int,
    minus: bool,
    p: nat,
    fpu: Fpu<F>,
) -> u64
    decreases p,
{
    if p == 0 {
        start
    } else {
        let before = combined(start, t, rows, factors, i, minus, (p - 1) as nat, fpu);
        let term = fpu.product(t[i + (p - 1) * rows], factors[p - 1]);
        if num_eq(factors[p - 1], ZERO) {
            before
        } else if minus {
            fpu.difference(before, term)
        } else {
            fpu.sum(before, term)
        }
    }
}

/// The columns of `cols`, each of length `n`, padded with zeros to length
/// `n_aug`.
pub open spec fn padded(cols: Seq<u64>, n: int, n_aug: int, k: int) -> Seq<u64> {
    Seq::new(
        (n_aug * k) as nat,
        |t: int|
            if t % n_aug < n {
                cols[t % n_aug + (t / n_aug) * n]
            } else {
                ZERO
            },
    )
}

/// The solutions for `U` with the correction for `V`.
pub open spec fn corrected_columns<F: Fn(FloatOp, u64, u64) -> u64>(
    ut: Seq<u64>,
    vt: Seq<u64>,
    c: Seq<u64>,
    n_aug: int,
    k: int,
    fpu: Fpu<F>,
) -> Seq<u64> {
    Seq::new(
        (n_aug * k) as nat,
        |t: int|
            combined(
                ut[t],
                vt,
                n_aug,
                table_column(c, k, k, t / n_aug),
                t % n_aug,
                true,
                k as nat,
                fpu,
            ),
    )
}

/// What the inertia test of the small matrices reports.
pub open spec fn refused() -> ErrorModel {
    ErrorModel::WrongInertia(Inertia { positive: 0, negative: 0, zero: 0 })
}

impl LowRankModel {
    /// The small matrix of the `V` correction.
    pub open spec fn m1<F: Fn(FloatOp, u64, u64) -> u64>(self, fpu: Fpu<F>) -> Seq<u64> {
        with_identity(
            products(self.vtilde, self.n_aug, self.v, self.n, self.n as nat, self.k, fpu),
            self.k,
            false,
            fpu,
        )
    }

    /// The small matrix of the `U` correction.
    pub open spec fn m2<F: Fn(FloatOp, u64, u64) -> u64>(self, fpu: Fpu<F>) -> Seq<u64> {
        with_identity(
            products(self.utilde2, self.n_aug, self.u, self.n, self.n as nat, self.k, fpu),
            self.k,
            true,
            fpu,
        )
    }

    /// The state with the `U` correction, from the inner solutions for `U`.
    pub open spec fn with_columns<F: Fn(FloatOp, u64, u64) -> u64>(
        self,
        ut: Seq<u64>,
        fpu: Fpu<F>,
    ) -> LowRankModel {
        let c = chol_solutions(
            chol_factor(self.m1(fpu), self.k, fpu),
            self.k,
            products(self.vtilde, self.n_aug, self.u, self.n, self.n as nat, self.k, fpu),
            fpu,
        );
        LowRankModel {
            utilde2: corrected_columns(ut, self.vtilde, c, self.n_aug, self.k, fpu),
            ..self
        }
    }

    /// State and result once the inner solutions are there.
    pub open spec fn completed<F: Fn(FloatOp, u64, u64) -> u64>(
        self,
        ut: Seq<u64>,
        inertia: Option<Inertia>,
        fpu: Fpu<F>,
    ) -> (LowRankModel, Result<Option<Inertia>, ErrorModel>) {
        let next = self.with_columns(ut, fpu);
        if !is_definite(self.m1(fpu), self.k, fpu) {
            (self, Err(refused()))
        } else if !is_definite(next.m2(fpu), self.k, fpu) {
            (next, Err(refused()))
        } else {
            (
                LowRankModel {
                    j1: chol_factor(self.m1(fpu), self.k, fpu),
                    j2: chol_factor(next.m2(fpu), self.k, fpu),
                    factored: true,
                    ..next
                },
                Ok(inertia),
            )
        }
    }

    /// The buffers are as long as a solve needs.
    pub open spec fn is_usable(self) -> bool {
        self.factored && self.k > 0 ==> {
            &&& self.vtilde.len() >= self.n_aug * self.k
            &&& self.utilde2.len() >= self.n_aug * self.k
            &&& self.j1.len() >= self.k * self.k
            &&& self.j2.len() >= self.k * self.k
        }
    }

    /// The factors of the columns of a correction for the right-hand side.
    pub open spec fn weights<F: Fn(FloatOp, u64, u64) -> u64>(
        self,
        cols: Seq<u64>,
        l: Seq<u64>,
        rhs: Seq<u64>,
        fpu: Fpu<F>,
    ) -> Seq<u64> {
        chol_solution(
            l,
            self.k,
            Seq::new(
                self.k as nat,
                |j: int| dot_from(cols, j * self.n_aug, rhs, 0, self.n_aug as nat, fpu),
            ),
            fpu,
        )
    }

    /// The solution, from that of the inner solver.
    pub open spec fn corrected<F: Fn(FloatOp, u64, u64) -> u64>(
        self,
        rhs: Seq<u64>,
        x: Seq<u64>,
        fpu: Fpu<F>,
    ) -> Seq<u64> {
        let wu = self.weights(self.utilde2, self.j2, rhs, fpu);
        let wv = self.weights(self.vtilde, self.j1, rhs, fpu);
        Seq::new(
            self.n_aug as nat,
            |i: int|
                combined(
                    combined(x[i], self.utilde2, self.n_aug, wu, i, false, self.k as nat, fpu),
                    self.vtilde,
                    self.n_aug,
                    wv,
                    i,
                    true,
                    self.k as nat,
                    fpu,
                ),
        )
    }
}

/// State and result of a factorization whose calls of the inner solver are
/// `ev`: one factors, the next up to `j` solve for `V` with the outcome `vt`,
/// and the others solve for `U` with the outcome `ut`.
pub open spec fn low_rank_step<F: Fn(FloatOp, u64, u64) -> u64>(
    begun: LowRankModel,
    matrix: MatrixModel,
    ev: Seq<SolverEvent>,
    j: int,
    vt: Seq<u64>,
    q1: Result<(), ErrorModel>,
    ut: Seq<u64>,
    q2: Result<(), ErrorModel>,
    now: LowRankModel,
    r: Result<Option<Inertia>, ErrorModel>,
    fpu: Fpu<F>,
) -> bool {
    let start = zeros((begun.n_aug * begun.k) as nat);
    let with_v = LowRankModel { vtilde: vt, ..begun };
    &&& 1 <= j <= ev.len()
    &&& ev[0] matches SolverEvent::Factor(m, f) && m == matrix && match f {
        Err(e) => j == ev.len() == 1 && now == begun && r == Err::<Option<Inertia>, ErrorModel>(e),
        Ok(inertia) => if begun.k == 0 {
            &&& j == ev.len() == 1
            &&& now == (LowRankModel {
                vtilde: Seq::empty(),
                utilde2: Seq::empty(),
                j1: Seq::empty(),
                j2: Seq::empty(),
                factored: true,
                ..begun
            })
            &&& r == Ok::<Option<Inertia>, ErrorModel>(inertia)
        } else {
            &&& columns_solved(
                ev.subrange(1, j),
                begun.n_aug,
                begun.k,
                padded(begun.v, begun.n, begun.n_aug, begun.k),
                start,
                vt,
                q1,
            )
            &&& match q1 {
                Err(e) => j == ev.len() && now == with_v && r == Err::<
                    Option<Inertia>,
                    ErrorModel,
                >(e),
                Ok(_) => {
                    &&& columns_solved(
                        ev.skip(j),
                        begun.n_aug,
                        begun.k,
                        padded(begun.u, begun.n, begun.n_aug, begun.k),
                        start,
                        ut,
                        q2,
                    )
                    &&& match q2 {
                        Err(e) => now == with_v && r == Err::<Option<Inertia>, ErrorModel>(e),
                        Ok(_) => (now, r) == with_v.completed(ut, inertia, fpu),
                    }
                },
            }
        },
    }
}

fn dot<F: Fn(FloatOp, u64, u64) -> u64>(
    a: &Vec<u64>,
    sa: usize,
    b: &Vec<u64>,
    sb: usize,
    n: usize,
    fpu: &Fpu<F>,
) -> (r: u64)
    requires
        fpu.sound(),
        sa + n <= a@.len(),
        sb + n <= b@.len(),
    ensures
        r == dot_from(a@, sa as int, b@, sb as int, n as nat, *fpu),
{
    let la: usize = a.len();
    let lb: usize = b.len();
    let mut acc: u64 = ZERO;
    for p in 0..n
        invariant
            fpu.sound(),
            la == a@.len(),
            lb == b@.len(),
            sa + n <= la,
            sb + n <= lb,
            acc == dot_from(a@, sa as int, b@, sb as int, p as nat, *fpu),
    {
        acc = fpu.add(acc, fpu.mul(a[sa + p], b[sb + p]));
    }
    acc
}

/// The square table of products of columns.
fn column_products<F: Fn(FloatOp, u64, u64) -> u64>(
    a: &Vec<u64>,
    la: usize,
    b: &Vec<u64>,
    lb: usize,
    n: usize,
    k: usize,
    fpu: &Fpu<F>,
) -> (t: Vec<u64>)
    requires
        fpu.sound(),
        n <= la,
        n <= lb,
        a@.len() >= la * k,
        b@.len() >= lb * k,
        k * k <= usize::MAX,
    ensures
        t@ == products(a@, la as int, b@, lb as int, n as nat, k as int, *fpu),
{
    let ghost f = |i: int, j: int| dot_from(a@, i * la, b@, j * lb, n as nat, *fpu);
    let size_a: usize = a.len();
    let size_b: usize = b.len();
    let mut t: Vec<u64> = Vec::new();
    assert(0 * k == 0) by (nonlinear_arith);
    for i in 0..k
        invariant
            fpu.sound(),
            n <= la,
            n <= lb,
            size_a == a@.len(),
            size_b == b@.len(),
            a@.len() >= la * k,
            b@.len() >= lb * k,
            f == (|i: int, j: int| dot_from(a@, i * la, b@, j * lb, n as nat, *fpu)),
            t@.len() == i * k,
            forall|r: int, c: int|
                0 <= r < i && 0 <= c < k ==> #[trigger] t@[r * k + c] == f(r, c),
    {
        for j in 0..k
            invariant
                fpu.sound(),
                n <= la,
                n <= lb,
                i < k,
                size_a == a@.len(),
                size_b == b@.len(),
                a@.len() >= la * k,
                b@.len() >= lb * k,
                f == (|i: int, j: int| dot_from(a@, i * la, b@, j * lb, n as nat, *fpu)),
                t@.len() == i * k + j,
                forall|r: int, c: int|
                    0 <= r < i && 0 <= c < k ==> #[trigger] t@[r * k + c] == f(r, c),
                forall|c: int| 0 <= c < j ==> #[trigger] t@[i * k + c] == f(i as int, c),
        {
            proof {
                lemma_rows(la as int, i as int, k as int);
                lemma_rows(lb as int, j as int, k as int);
            }
            let ghost was = t@;
            t.push(dot(a, i * la, b, j * lb, n, fpu));
            proof {
                assert forall|r: int, c: int| 0 <= r < i && 0 <= c < k implies #[trigger] t@[r * k
                    + c] == f(r, c) by {
                    lemma_cell(k as int, r, c, i as int);
                    assert(was[r * k + c] == f(r, c));
                }
            }
        }
        proof {
            assert((i + 1) * k == i * k + k) by (nonlinear_arith);
            assert forall|r: int, c: int| 0 <= r < i + 1 && 0 <= c < k implies #[trigger] t@[r * k
                + c] == f(r, c) by {
                if r == i {
                    assert(t@[i * k + c] == f(i as int, c));
                }
            }
        }
    }
    proof {
        lemma_is_flat(t@, k as int, f);
    }
    t
}

/// `i * len` does not overflow, and column `i` ends within the table.
proof fn lemma_rows(len: int, i: int, k: int)
    requires
        0 <= len,
        0 <= i < k,
    ensures
        0 <= i * len,
        i * len + len <= len * k,
{
    assert(0 <= i * len && i * len + len <= len * k) by (nonlinear_arith)
        requires
            0 <= len,
            0 <= i < k,
    ;
}

/// The identity plus the square table, or minus it.
fn add_identity<F: Fn(FloatOp, u64, u64) -> u64>(
    t: &Vec<u64>,
    k: usize,
    minus: bool,
    fpu: &Fpu<F>,
) -> (m: Vec<u64>)
    requires
        fpu.sound(),
        t@.len() == k * k,
    ensures
        m@ == with_identity(t@, k as int, minus, *fpu),
{
    let size: usize = t.len();
    let ghost f = |i: int, j: int|
        {
            let v = if minus {
                negated(t@[i * k + j])
            } else {
                t@[i * k + j]
            };
            if i == j {
                fpu.sum(v, ONE)
            } else {
                v
            }
        };
    let mut m: Vec<u64> = Vec::with_capacity(size);
    assert(0 * k == 0) by (nonlinear_arith);
    for i in 0..k
        invariant
            fpu.sound(),
            t@.len() == k * k,
            size == k * k,
            f == (|i: int, j: int|
                {
                    let v = if minus {
                        negated(t@[i * k + j])
                    } else {
                        t@[i * k + j]
                    };
                    if i == j {
                        fpu.sum(v, ONE)
                    } else {
                        v
                    }
                }),
            m@.len() == i * k,
            forall|r: int, c: int|
                0 <= r < i && 0 <= c < k ==> #[trigger] m@[r * k + c] == f(r, c),
    {
        for j in 0..k
            invariant
                fpu.sound(),
                i < k,
                t@.len() == k * k,
                size == k * k,
                f == (|i: int, j: int|
                    {
                        let v = if minus {
                            negated(t@[i * k + j])
                        } else {
                            t@[i * k + j]
                        };
                        if i == j {
                            fpu.sum(v, ONE)
                        } else {
                            v
                        }
                    }),
                m@.len() == i * k + j,
                forall|r: int, c: int|
                    0 <= r < i && 0 <= c < k ==> #[trigger] m@[r * k + c] == f(r, c),
                forall|c: int| 0 <= c < j ==> #[trigger] m@[i * k + c] == f(i as int, c),
        {
            proof {
                lemma_cell(k as int, i as int, j as int, k as int);
            }
            let ghost was = m@;
            let mut v: u64 = if minus {
                neg(t[i * k + j])
            } else {
                t[i * k + j]
            };
            if i == j {
                v = fpu.add(v, ONE);
            }
            m.push(v);
            proof {
                assert forall|r: int, c: int| 0 <= r < i && 0 <= c < k implies #[trigger] m@[r * k
                    + c] == f(r, c) by {
                    lemma_cell(k as int, r, c, i as int);
                    assert(was[r * k + c] == f(r, c));
                }
            }
        }
        proof {
            assert((i + 1) * k == i * k + k) by (nonlinear_arith);
            assert forall|r: int, c: int| 0 <= r < i + 1 && 0 <= c < k implies #[trigger] m@[r * k
                + c] == f(r, c) by {
                if r == i {
                    assert(m@[i * k + c] == f(i as int, c));
                }
            }
        }
    }
    proof {
        lemma_is_flat(m@, k as int, f);
    }
    m
}

/// A cell of the factor once the columns before `j`, and the rows before `i` of
/// column `j`, are done.
spec fn chol_partial<F: Fn(FloatOp, u64, u64) -> u64>(
    m: Seq<u64>,
    k: int,
    r: int,
    c: int,
    i: int,
    j: int,
    fpu: Fpu<F>,
) -> u64 {
    if c <= r && (c < j || (c == j && r < i)) {
        chol_entry(m, k, r, c, fpu)
    } else {
        ZERO
    }
}

/// The entry of the matrix without the products of the columns before `j`.
fn chol_remainder<F: Fn(FloatOp, u64, u64) -> u64>(
    m: &Vec<u64>,
    k: usize,
    out: &Vec<u64>,
    i: usize,
    j: usize,
    fpu: &Fpu<F>,
) -> (rest: u64)
    requires
        fpu.sound(),
        m@.len() == k * k,
        out@.len() == k * k,
        j <= i < k,
        forall|c: int|
            0 <= c < j ==> #[trigger] cell(out@, k as int, i as int, c) == chol_entry(
                m@,
                k as int,
                i as int,
                c,
                *fpu,
            ),
        forall|c: int|
            0 <= c < j ==> #[trigger] cell(out@, k as int, j as int, c) == chol_entry(
                m@,
                k as int,
                j as int,
                c,
                *fpu,
            ),
    ensures
        rest == chol_rest(m@, k as int, i as int, j as int, j as int, *fpu),
{
    let mut rest: u64 = get_cell(m, k, i, j);
    for p in 0..j
        invariant
            fpu.sound(),
            m@.len() == k * k,
            out@.len() == k * k,
            j <= i < k,
            forall|c: int|
                0 <= c < j ==> #[trigger] cell(out@, k as int, i as int, c) == chol_entry(
                    m@,
                    k as int,
                    i as int,
                    c,
                    *fpu,
                ),
            forall|c: int|
                0 <= c < j ==> #[trigger] cell(out@, k as int, j as int, c) == chol_entry(
                    m@,
                    k as int,
                    j as int,
                    c,
                    *fpu,
                ),
            rest == chol_rest(m@, k as int, i as int, j as int, p as int, *fpu),
    {
        let a: u64 = get_cell(out, k, i, p);
        let b: u64 = get_cell(out, k, j, p);
        rest = fpu.sub(rest, fpu.mul(a, b));
    }
    rest
}

/// The Cholesky factor of a square matrix, of which the lower triangle is read.
/// False where a pivot is not positive.
fn chol_lower_inplace<F: Fn(FloatOp, u64, u64) -> u64>(
    m: &Vec<u64>,
    k: usize,
    out: &mut Vec<u64>,
    fpu: &Fpu<F>,
) -> (ok: bool)
    requires
        fpu.sound(),
        m@.len() == k * k,
        old(out)@.len() == k * k,
    ensures
        ok == is_definite(m@, k as int, *fpu),
        final(out)@.len() == k * k,
        ok ==> final(out)@ == chol_factor(m@, k as int, *fpu),
{
    let size: usize = out.len();
    for t in 0..size
        invariant
            out@.len() == size,
            forall|q: int| 0 <= q < t ==> #[trigger] out@[q] == ZERO,
    {
        out.set(t, ZERO);
    }
    proof {
        assert forall|r: int, c: int| 0 <= r < k && 0 <= c < k implies #[trigger] cell(
            out@,
            k as int,
            r,
            c,
        ) == ZERO by {
            lemma_cell(k as int, r, c, k as int);
        }
    }
    for j in 0..k
        invariant
            fpu.sound(),
            m@.len() == k * k,
            out@.len() == k * k,
            forall|q: int|
                0 <= q < j ==> num_lt(
                    ZERO,
                    #[trigger] chol_rest(m@, k as int, q, q, q, *fpu),
                ),
            forall|r: int, c: int|
                0 <= r < k && 0 <= c < k ==> #[trigger] cell(out@, k as int, r, c) == chol_partial(
                    m@,
                    k as int,
                    r,
                    c,
                    j as int,
                    j as int,
                    *fpu,
                ),
    {
        let diag: u64 = chol_remainder(m, k, out, j, j, fpu);
        if !lt(ZERO, diag) {
            return false;
        }
        let ljj: u64 = fpu.run(FloatOp::Sqrt, diag, ZERO);
        set_cell(out, k, j, j, ljj);
        for i in (j + 1)..k
            invariant
                fpu.sound(),
                j < k,
                m@.len() == k * k,
                out@.len() == k * k,
                ljj == chol_entry(m@, k as int, j as int, j as int, *fpu),
                forall|r: int, c: int|
                    0 <= r < k && 0 <= c < k ==> #[trigger] cell(out@, k as int, r, c)
                        == chol_partial(m@, k as int, r, c, i as int, j as int, *fpu),
        {
            let acc: u64 = chol_remainder(m, k, out, i, j, fpu);
            set_cell(out, k, i, j, fpu.div(acc, ljj));
        }
    }
    proof {
        let f = |i: int, j: int|
            if j <= i {
                chol_entry(m@, k as int, i, j, *fpu)
            } else {
                ZERO
            };
        lemma_cells_are_flat(out@, k as int, f);
    }
    true
}

/// Solves with a Cholesky factor; `b` holds the right-hand side before and the
/// solution after.
fn chol_solve_vec_inplace<F: Fn(FloatOp, u64, u64) -> u64>(
    j_chol: &Vec<u64>,
    k: usize,
    b: &mut Vec<u64>,
    fpu: &Fpu<F>,
)
    requires
        fpu.sound(),
        j_chol@.len() >= k * k,
        old(b)@.len() == k,
    ensures
        final(b)@ == chol_solution(j_chol@, k as int, old(b)@, *fpu),
{
    let ghost l = j_chol@;
    let ghost b0 = b@;
    for i in 0..k
        invariant
            fpu.sound(),
            l == j_chol@,
            l.len() >= k * k,
            b@.len() == k,
            b0.len() == k,
            forall|q: int| 0 <= q < i ==> #[trigger] b@[q] == forward(l, k as int, b0, q, *fpu),
            forall|q: int| i <= q < k ==> #[trigger] b@[q] == b0[q],
    {
        let mut s: u64 = b[i];
        for p in 0..i
            invariant
                fpu.sound(),
                i < k,
                l == j_chol@,
                l.len() >= k * k,
                b@.len() == k,
                forall|q: int| 0 <= q < i ==> #[trigger] b@[q] == forward(l, k as int, b0, q, *fpu),
                s == forward_rest(l, k as int, b0, i as int, p as int, *fpu),
        {
            s = fpu.sub(s, fpu.mul(get_cell(j_chol, k, i, p), b[p]));
        }
        let pivot: u64 = get_cell(j_chol, k, i, i);
        b.set(i, fpu.div(s, pivot));
    }
    let ghost y = forward_solution(l, k as int, b0, *fpu);
    assert(b@ =~= y);
    let mut done: usize = k;
    while done > 0
        invariant
            fpu.sound(),
            l == j_chol@,
            l.len() >= k * k,
            b@.len() == k,
            y.len() == k,
            done <= k,
            forall|q: int| done <= q < k ==> #[trigger] b@[q] == backward(l, k as int, y, q, *fpu),
            forall|q: int| 0 <= q < done ==> #[trigger] b@[q] == y[q],
        decreases done,
    {
        let i: usize = done - 1;
        let mut s: u64 = b[i];
        for p in (i + 1)..k
            invariant
                fpu.sound(),
                i < k,
                l == j_chol@,
                l.len() >= k * k,
                b@.len() == k,
                forall|q: int| i < q < k ==> #[trigger] b@[q] == backward(l, k as int, y, q, *fpu),
                s == backward_rest(l, k as int, y, i as int, p as int, *fpu),
        {
            s = fpu.sub(s, fpu.mul(get_cell(j_chol, k, p, i), b[p]));
        }
        let pivot: u64 = get_cell(j_chol, k, i, i);
        b.set(i, fpu.div(s, pivot));
        done = i;
    }
    assert(b@ =~= chol_solution(l, k as int, b0, *fpu));
}

/// Solves with a Cholesky factor for each column of a square table, in place.
fn chol_solve_matrix_inplace<F: Fn(FloatOp, u64, u64) -> u64>(
    j_chol: &Vec<u64>,
    k: usize,
    b: &mut Vec<u64>,
    fpu: &Fpu<F>,
)
    requires
        fpu.sound(),
        j_chol@.len() >= k * k,
        old(b)@.len() == k * k,
    ensures
        final(b)@ == chol_solutions(j_chol@, k as int, old(b)@, *fpu),
{
    let ghost l = j_chol@;
    let ghost b0 = b@;
    for j in 0..k
        invariant
            fpu.sound(),
            l == j_chol@,
            l.len() >= k * k,
            b@.len() == k * k,
            forall|r: int, c: int|
                0 <= r < k && 0 <= c < k ==> #[trigger] cell(b@, k as int, r, c) == if c < j {
                    chol_solution(l, k as int, table_column(b0, k as int, k as int, c), *fpu)[r]
                } else {
                    cell(b0, k as int, r, c)
                },
    {
        let ghost want = table_column(b0, k as int, k as int, j as int);
        let mut col: Vec<u64> = Vec::with_capacity(k);
        for i in 0..k
            invariant
                j < k,
                b@.len() == k * k,
                want == table_column(b0, k as int, k as int, j as int),
                forall|r: int|
                    0 <= r < k ==> #[trigger] cell(b@, k as int, r, j as int) == cell(
                        b0,
                        k as int,
                        r,
                        j as int,
                    ),
                col@ == want.take(i as int),
        {
            col.push(get_cell(b, k, i, j));
            assert(col@ =~= want.take(i + 1));
        }
        assert(col@ =~= want);
        chol_solve_vec_inplace(j_chol, k, &mut col, fpu);
        for i in 0..k
            invariant
                j < k,
                b@.len() == k * k,
                col@ == chol_solution(l, k as int, want, *fpu),
                want == table_column(b0, k as int, k as int, j as int),
                forall|r: int, c: int|
                    0 <= r < k && 0 <= c < k ==> #[trigger] cell(b@, k as int, r, c) == if c < j
                        || (c == j && r < i) {
                        chol_solution(l, k as int, table_column(b0, k as int, k as int, c), *fpu)[r]
                    } else {
                        cell(b0, k as int, r, c)
                    },
        {
            set_cell(b, k, i, j, col[i]);
        }
    }
    proof {
        let f = |i: int, j: int|
            chol_solution(l, k as int, table_column(b0, k as int, k as int, j), *fpu)[i];
        lemma_cells_are_flat(b@, k as int, f);
    }
}

/// The columns, padded with zeros.
fn pad(cols: &Vec<u64>, n: usize, n_aug: usize, k: usize) -> (out: Vec<u64>)
    requires
        n <= n_aug,
        cols@.len() >= n * k,
        n_aug * k <= usize::MAX,
    ensures
        out@ == padded(cols@, n as int, n_aug as int, k as int),
        out@.len() == n_aug * k,
{
    let ghost want = padded(cols@, n as int, n_aug as int, k as int);
    let size: usize = cols.len();
    let mut out: Vec<u64> = Vec::new();
    proof {
        assert(0 * n_aug == 0 && 0 <= n_aug * k) by (nonlinear_arith);
        assert(out@ =~= want.take(0));
    }
    for j in 0..k
        invariant
            n <= n_aug,
            size == cols@.len(),
            size >= n * k,
            want == padded(cols@, n as int, n_aug as int, k as int),
            out@ == want.take(j * n_aug),
    {
        for i in 0..n_aug
            invariant
                j < k,
                n <= n_aug,
                size == cols@.len(),
                size >= n * k,
                want == padded(cols@, n as int, n_aug as int, k as int),
                out@ == want.take(j * n_aug + i),
        {
            proof {
                lemma_cell(n_aug as int, j as int, i as int, k as int);
                vstd::arithmetic::mul::lemma_mul_is_commutative(n_aug as int, k as int);
                lemma_rows(n as int, j as int, k as int);
            }
            let v: u64 = if i < n {
                cols[i + j * n]
            } else {
                ZERO
            };
            out.push(v);
            assert(out@ =~= want.take(j * n_aug + i + 1));
        }
        assert((j + 1) * n_aug == j * n_aug + n_aug) by (nonlinear_arith);
    }
    proof {
        vstd::arithmetic::mul::lemma_mul_is_commutative(n_aug as int, k as int);
        assert(0 <= n_aug * k) by (nonlinear_arith);
        assert(want.len() == n_aug * k);
        assert(out@ =~= want);
    }
    out
}

fn combine<F: Fn(FloatOp, u64, u64) -> u64>(
    start: u64,
    t: &Vec<u64>,
    rows: usize,
    factors: &Vec<u64>,
    i: usize,
    minus: bool,
    k: usize,
    fpu: &Fpu<F>,
) -> (r: u64)
    requires
        fpu.sound(),
        i < rows,
        t@.len() >= rows * k,
        factors@.len() == k,
    ensures
        r == combined(start, t@, rows as int, factors@, i as int, minus, k as nat, *fpu),
{
    let size: usize = t.len();
    let mut acc: u64 = start;
    for p in 0..k
        invariant
            fpu.sound(),
            i < rows,
            size == t@.len(),
            size >= rows * k,
            factors@.len() == k,
            acc == combined(start, t@, rows as int, factors@, i as int, minus, p as nat, *fpu),
    {
        let w: u64 = factors[p];
        proof {
            lemma_rows(rows as int, p as int, k as int);
        }
        if !eq(w, ZERO) {
            let term: u64 = fpu.mul(t[i + p * rows], w);
            acc = if minus {
                fpu.sub(acc, term)
            } else {
                fpu.add(acc, term)
            };
        }
    }
    acc
}

/// The solutions for `U` with the correction for `V`.
fn correct_columns<F: Fn(FloatOp, u64, u64) -> u64>(
    ut: &Vec<u64>,
    vt: &Vec<u64>,
    c: &Vec<u64>,
    n_aug: usize,
    k: usize,
    fpu: &Fpu<F>,
) -> (out: Vec<u64>)
    requires
        fpu.sound(),
        ut@.len() == n_aug * k,
        vt@.len() == n_aug * k,
        c@.len() == k * k,
    ensures
        out@ == corrected_columns(ut@, vt@, c@, n_aug as int, k as int, *fpu),
        out@.len() == n_aug * k,
{
    let ghost want = corrected_columns(ut@, vt@, c@, n_aug as int, k as int, *fpu);
    let size: usize = ut.len();
    let mut out: Vec<u64> = Vec::new();
    proof {
        assert(0 * n_aug == 0) by (nonlinear_arith);
        assert(out@ =~= want.take(0));
    }
    for j in 0..k
        invariant
            fpu.sound(),
            size == ut@.len(),
            size == n_aug * k,
            vt@.len() == n_aug * k,
            c@.len() == k * k,
            want == corrected_columns(ut@, vt@, c@, n_aug as int, k as int, *fpu),
            out@ == want.take(j * n_aug),
    {
        let ghost column = table_column(c@, k as int, k as int, j as int);
        let mut factors: Vec<u64> = Vec::with_capacity(k);
        for p in 0..k
            invariant
                j < k,
                c@.len() == k * k,
                column == table_column(c@, k as int, k as int, j as int),
                factors@ == column.take(p as int),
        {
            factors.push(get_cell(c, k, p, j));
            assert(factors@ =~= column.take(p + 1));
        }
        assert(factors@ =~= column);
        for i in 0..n_aug
            invariant
                fpu.sound(),
                j < k,
                size == ut@.len(),
                size == n_aug * k,
                vt@.len() == n_aug * k,
                factors@ == table_column(c@, k as int, k as int, j as int),
                want == corrected_columns(ut@, vt@, c@, n_aug as int, k as int, *fpu),
                out@ == want.take(j * n_aug + i),
        {
            proof {
                lemma_cell(n_aug as int, j as int, i as int, k as int);
                vstd::arithmetic::mul::lemma_mul_is_commutative(n_aug as int, k as int);
            }
            out.push(combine(ut[i + j * n_aug], vt, n_aug, &factors, i, true, k, fpu));
            assert(out@ =~= want.take(j * n_aug + i + 1));
        }
        assert((j + 1) * n_aug == j * n_aug + n_aug) by (nonlinear_arith);
    }
    proof {
        vstd::arithmetic::mul::lemma_mul_is_commutative(n_aug as int, k as int);
        assert(out@ =~= want);
    }
    out
}

fn wrong_inertia() -> (e: SolverError)
    ensures
        error_model(e) == refused(),
{
    SolverError::WrongInertia { actual: Inertia { positive: 0, negative: 0, zero: 0 } }
}

impl<S: LinearSolver> LowRankKktSolver<S> {
    pub open spec fn model(&self) -> LowRankModel {
        LowRankModel {
            n: self.n as int,
            n_aug: self.n_aug as int,
            k: self.k as int,
            v: self.v@,
            u: self.u@,
            vtilde: self.vtilde@,
            utilde2: self.utilde2@,
            j1: self.j1_chol@,
            j2: self.j2_chol@,
            factored: self.factored,
        }
    }

    /// A solver around `inner` with nothing factored.
    pub fn new(inner: S) -> (r: Self)
        ensures
            r.inner == inner,
            r.model() == (LowRankModel {
                n: 0,
                n_aug: 0,
                k: 0,
                v: Seq::empty(),
                u: Seq::empty(),
                vtilde: Seq::empty(),
                utilde2: Seq::empty(),
                j1: Seq::empty(),
                j2: Seq::empty(),
                factored: false,
            }),
    {
        LowRankKktSolver {
            inner,
            n: 0,
            n_aug: 0,
            k: 0,
            v: Vec::new(),
            u: Vec::new(),
            vtilde: Vec::new(),
            utilde2: Vec::new(),
            j1_chol: Vec::new(),
            j2_chol: Vec::new(),
            factored: false,
        }
    }

    /// The state at the start of a factorization.
    pub open spec fn begun(&self, compact: LbfgsCompact, n_aug: int) -> LowRankModel {
        LowRankModel {
            n: compact.n as int,
            n_aug,
            k: compact.k as int,
            v: compact.v@,
            u: compact.u@,
            ..self.model()
        }
    }

    /// Factors the inner matrix and prepares the correction. The reply is the
    /// inertia that the inner solver tells; where a small matrix is not positive
    /// definite it is a wrong inertia of zeros.
    #[verifier::rlimit(60)]
    pub fn factor<F: Fn(FloatOp, u64, u64) -> u64>(
        &mut self,
        base_kkt: &KktMatrix,
        compact: &LbfgsCompact,
        n_aug: usize,
        fpu: &Fpu<F>,
    ) -> (r: Result<Option<Inertia>, SolverError>)
        requires
            fpu.sound(),
            base_kkt.well_formed(),
            compact.well_formed(),
            n_aug * compact.k <= usize::MAX,
            compact.k * compact.k <= usize::MAX,
        ensures
            base_kkt.dim() != n_aug ==> *final(self) == *old(self) && reply(r) == Err::<
                Option<Inertia>,
                ErrorModel,
            >(ErrorModel::Mismatch(n_aug, base_kkt.dim() as usize)),
            base_kkt.dim() == n_aug && n_aug < compact.n ==> *final(self) == *old(self) && reply(r)
                == Err::<Option<Inertia>, ErrorModel>(ErrorModel::Mismatch(compact.n, n_aug)),
            base_kkt.dim() == n_aug >= compact.n ==> {
                &&& old(self).inner.log().is_prefix_of(final(self).inner.log())
                &&& exists|
                    j: int,
                    vt: Seq<u64>,
                    q1: Result<(), ErrorModel>,
                    ut: Seq<u64>,
                    q2: Result<(), ErrorModel>,
                | #[trigger]
                    low_rank_step(
                        old(self).begun(*compact, n_aug as int),
                        base_kkt.model(),
                        final(self).inner.log().skip(old(self).inner.log().len() as int),
                        j,
                        vt,
                        q1,
                        ut,
                        q2,
                        final(self).model(),
                        reply(r),
                        *fpu,
                    )
            },
            r is Ok ==> final(self).model().is_usable(),
    {
        let n: usize = compact.n;
        let k: usize = compact.k;
        let dim: usize = base_kkt.n();
        if dim != n_aug {
            return Err(SolverError::DimensionMismatch { expected: n_aug, got: dim });
        }
        if n_aug < n {
            return Err(SolverError::DimensionMismatch { expected: n, got: n_aug });
        }
        let ghost begun = self.begun(*compact, n_aug as int);
        let ghost was = self.inner.log();
        let ghost none: Result<(), ErrorModel> = Ok(());
        self.n = n;
        self.n_aug = n_aug;
        self.k = k;
        self.v = copy_numbers(&compact.v);
        self.u = copy_numbers(&compact.u);
        let reply_: Result<Option<Inertia>, SolverError> = self.inner.factor(base_kkt);
        let ghost log1 = self.inner.log();
        let ghost first = SolverEvent::Factor(base_kkt.model(), reply(reply_));
        assert(log1.skip(was.len() as int) =~= seq![first]);
        let inertia: Option<Inertia> = match reply_ {
            Err(e) => {
                assert(low_rank_step(
                    begun,
                    base_kkt.model(),
                    self.inner.log().skip(was.len() as int),
                    1,
                    Seq::empty(),
                    none,
                    Seq::empty(),
                    none,
                    self.model(),
                    Err::<Option<Inertia>, ErrorModel>(error_model(e)),
                    *fpu,
                ));
                return Err(e);
            },
            Ok(i) => i,
        };
        if k == 0 {
            self.vtilde = Vec::new();
            self.utilde2 = Vec::new();
            self.j1_chol = Vec::new();
            self.j2_chol = Vec::new();
            self.factored = true;
            assert(low_rank_step(
                begun,
                base_kkt.model(),
                self.inner.log().skip(was.len() as int),
                1,
                Seq::empty(),
                none,
                Seq::empty(),
                none,
                self.model(),
                Ok::<Option<Inertia>, ErrorModel>(inertia),
                *fpu,
            ));
            return Ok(inertia);
        }
        let size: usize = n_aug * k;
        proof {
            vstd::arithmetic::div_mod::lemma_div_multiples_vanish(n_aug as int, k as int);
            vstd::arithmetic::div_mod::lemma_mod_multiples_basic(n_aug as int, k as int);
            vstd::arithmetic::mul::lemma_mul_is_commutative(n_aug as int, k as int);
        }
        let v_aug: Vec<u64> = pad(&compact.v, n, n_aug, k);
        let u_aug: Vec<u64> = pad(&compact.u, n, n_aug, k);
        let mut vtilde: Vec<u64> = vec![ZERO; size];
        assert(vtilde@ =~= zeros(size as nat));
        let solved_v: Result<(), SolverError> = self.inner.solve_many(&v_aug, k, &mut vtilde);
        let ghost q1 = reply(solved_v);
        let ghost log2 = self.inner.log();
        let ghost j = (log2.len() - was.len()) as int;
        let ghost vt = vtilde@;
        self.vtilde = vtilde;
        proof {
            assert(log2.skip(was.len() as int).subrange(1, j) =~= log2.skip(log1.len() as int));
            assert(log2.skip(was.len() as int)[0] == log1[was.len() as int]);
            assert(log1.skip(was.len() as int)[0] == first);
        }
        match solved_v {
            Err(e) => {
                assert(low_rank_step(
                    begun,
                    base_kkt.model(),
                    self.inner.log().skip(was.len() as int),
                    j,
                    vt,
                    q1,
                    Seq::empty(),
                    none,
                    self.model(),
                    Err::<Option<Inertia>, ErrorModel>(error_model(e)),
                    *fpu,
                ));
                return Err(e);
            },
            Ok(_) => {},
        }
        let mut utilde1: Vec<u64> = vec![ZERO; size];
        assert(utilde1@ =~= zeros(size as nat));
        let solved_u: Result<(), SolverError> = self.inner.solve_many(&u_aug, k, &mut utilde1);
        let ghost q2 = reply(solved_u);
        let ghost ut = utilde1@;
        let ghost log3 = self.inner.log();
        let ghost ev = log3.skip(was.len() as int);
        proof {
            assert(ev.subrange(1, j) =~= log2.skip(log1.len() as int));
            assert(ev.skip(j) =~= log3.skip(log2.len() as int));
            assert(ev[0] == first);
            assert(log1 == log2.subrange(0, log1.len() as int));
            assert(log2 == log3.subrange(0, log2.len() as int));
            assert forall|i: int| 0 <= i < was.len() implies was[i] == #[trigger] log3[i] by {
                assert(log2[i] == log3[i]);
                assert(log1[i] == log2[i]);
            }
            assert(was =~= log3.subrange(0, was.len() as int));
        }
        match solved_u {
            Err(e) => {
                assert(low_rank_step(
                    begun,
                    base_kkt.model(),
                    ev,
                    j,
                    vt,
                    q1,
                    ut,
                    q2,
                    self.model(),
                    Err::<Option<Inertia>, ErrorModel>(error_model(e)),
                    *fpu,
                ));
                return Err(e);
            },
            Ok(_) => {},
        }
        let ghost with_v = self.model();
        let done: Result<(), SolverError> = self.prepare(&utilde1, fpu);
        proof {
            assert(with_v == (LowRankModel { vtilde: vt, ..begun }));
        }
        match done {
            Err(e) => {
                assert(low_rank_step(
                    begun,
                    base_kkt.model(),
                    ev,
                    j,
                    vt,
                    q1,
                    ut,
                    q2,
                    self.model(),
                    Err::<Option<Inertia>, ErrorModel>(error_model(e)),
                    *fpu,
                ));
                Err(e)
            },
            Ok(_) => {
                assert(low_rank_step(
                    begun,
                    base_kkt.model(),
                    ev,
                    j,
                    vt,
                    q1,
                    ut,
                    q2,
                    self.model(),
                    Ok::<Option<Inertia>, ErrorModel>(inertia),
                    *fpu,
                ));
                Ok(inertia)
            },
        }
    }

    /// Prepares the correction from the inner solutions for `V` and `U`.
    fn prepare<F: Fn(FloatOp, u64, u64) -> u64>(
        &mut self,
        utilde1: &Vec<u64>,
        fpu: &Fpu<F>,
    ) -> (r: Result<(), SolverError>)
        requires
            fpu.sound(),
            old(self).k > 0,
            old(self).n <= old(self).n_aug,
            old(self).k * old(self).k <= usize::MAX,
            old(self).v@.len() >= old(self).n * old(self).k,
            old(self).u@.len() >= old(self).n * old(self).k,
            old(self).vtilde@.len() == old(self).n_aug * old(self).k,
            utilde1@.len() == old(self).n_aug * old(self).k,
        ensures
            final(self).inner == old(self).inner,
            r is Ok ==> final(self).model().is_usable(),
            forall|inertia: Option<Inertia>| #[trigger]
                old(self).model().completed(utilde1@, inertia, *fpu) == (
                    final(self).model(),
                    match r {
                        Ok(_) => Ok::<Option<Inertia>, ErrorModel>(inertia),
                        Err(e) => Err(error_model(e)),
                    },
                ),
    {
        let n: usize = self.n;
        let n_aug: usize = self.n_aug;
        let k: usize = self.k;
        let ghost start = self.model();
        let gram: Vec<u64> = column_products(&self.vtilde, n_aug, &self.v, n, n, k, fpu);
        let m1: Vec<u64> = add_identity(&gram, k, false, fpu);
        let mut j1: Vec<u64> = vec![ZERO; k * k];
        if !chol_lower_inplace(&m1, k, &mut j1, fpu) {
            return Err(wrong_inertia());
        }
        let mut c: Vec<u64> = column_products(&self.vtilde, n_aug, &self.u, n, n, k, fpu);
        chol_solve_matrix_inplace(&j1, k, &mut c, fpu);
        self.utilde2 = correct_columns(utilde1, &self.vtilde, &c, n_aug, k, fpu);
        assert(self.model() == start.with_columns(utilde1@, *fpu));
        let gram2: Vec<u64> = column_products(&self.utilde2, n_aug, &self.u, n, n, k, fpu);
        let m2: Vec<u64> = add_identity(&gram2, k, true, fpu);
        let mut j2: Vec<u64> = vec![ZERO; k * k];
        if !chol_lower_inplace(&m2, k, &mut j2, fpu) {
            return Err(wrong_inertia());
        }
        self.j1_chol = j1;
        self.j2_chol = j2;
        self.factored = true;
        Ok(())
    }

    /// The weights of the columns of a correction.
    fn weigh<F: Fn(FloatOp, u64, u64) -> u64>(
        cols: &Vec<u64>,
        l: &Vec<u64>,
        rhs: &Vec<u64>,
        n_aug: usize,
        k: usize,
        fpu: &Fpu<F>,
        Ghost(m): Ghost<LowRankModel>,
    ) -> (w: Vec<u64>)
        requires
            fpu.sound(),
            m.n_aug == n_aug,
            m.k == k,
            rhs@.len() == n_aug,
            cols@.len() >= n_aug * k,
            l@.len() >= k * k,
        ensures
            w@ == m.weights(cols@, l@, rhs@, *fpu),
            w@.len() == k,
    {
        let ghost want = Seq::new(
            k as nat,
            |j: int| dot_from(cols@, j * m.n_aug, rhs@, 0, m.n_aug as nat, *fpu),
        );
        let size: usize = cols.len();
        let mut w: Vec<u64> = Vec::with_capacity(k);
        for j in 0..k
            invariant
                fpu.sound(),
                m.n_aug == n_aug,
                rhs@.len() == n_aug,
                size == cols@.len(),
                size >= n_aug * k,
                want == Seq::new(
                    k as nat,
                    |j: int| dot_from(cols@, j * m.n_aug, rhs@, 0, m.n_aug as nat, *fpu),
                ),
                w@ == want.take(j as int),
        {
            proof {
                lemma_rows(n_aug as int, j as int, k as int);
            }
            w.push(dot(cols, j * n_aug, rhs, 0, n_aug, fpu));
            assert(w@ =~= want.take(j + 1));
        }
        assert(w@ =~= want);
        chol_solve_vec_inplace(l, k, &mut w, fpu);
        w
    }

    /// Solves with the corrected matrix.
    pub fn solve<F: Fn(FloatOp, u64, u64) -> u64>(
        &mut self,
        rhs: &Vec<u64>,
        solution: &mut Vec<u64>,
        fpu: &Fpu<F>,
    ) -> (r: Result<(), SolverError>)
        requires
            fpu.sound(),
            old(self).model().is_usable(),
        ensures
            final(self).model() == old(self).model(),
            !old(self).factored ==> reply(r) == Err::<(), ErrorModel>(
                ErrorModel::Failure("LowRankKktSolver: solve called before factor"@),
            ) && final(self).inner == old(self).inner && final(solution)@ == old(solution)@,
            old(self).factored && (rhs@.len() != old(self).n_aug || old(solution)@.len() != old(
                self,
            ).n_aug) ==> reply(r) == Err::<(), ErrorModel>(
                ErrorModel::Mismatch(
                    old(self).n_aug,
                    if rhs@.len() <= old(solution)@.len() {
                        rhs@.len() as usize
                    } else {
                        old(solution)@.len() as usize
                    },
                ),
            ) && final(self).inner == old(self).inner && final(solution)@ == old(solution)@,
            old(self).factored && rhs@.len() == old(self).n_aug && old(solution)@.len() == old(
                self,
            ).n_aug ==> {
                &&& final(self).inner.log().len() == old(self).inner.log().len() + 1
                &&& final(self).inner.log().drop_last() == old(self).inner.log()
                &&& final(self).inner.log().last() matches SolverEvent::Solve(b, z, x, q) && b == rhs@
                    && z == old(solution)@ && q == reply(r) && final(solution)@ == if r is Ok && old(self).k > 0 {
                    old(self).model().corrected(rhs@, x, *fpu)
                } else {
                    x
                }
            },
    {
        if !self.factored {
            return Err(failure("LowRankKktSolver: solve called before factor"));
        }
        let n_aug: usize = self.n_aug;
        let k: usize = self.k;
        if rhs.len() != n_aug || solution.len() != n_aug {
            let got: usize = if rhs.len() <= solution.len() {
                rhs.len()
            } else {
                solution.len()
            };
            return Err(SolverError::DimensionMismatch { expected: n_aug, got });
        }
        let reply_: Result<(), SolverError> = self.inner.solve(rhs, solution);
        let ghost x = solution@;
        assert(self.inner.log().drop_last() =~= old(self).inner.log());
        match reply_ {
            Err(e) => {
                return Err(e);
            },
            Ok(_) => {},
        }
        if k == 0 {
            return Ok(());
        }
        let ghost m = self.model();
        let wu: Vec<u64> = Self::weigh(
            &self.utilde2,
            &self.j2_chol,
            rhs,
            n_aug,
            k,
            fpu,
            Ghost(m),
        );
        let wv: Vec<u64> = Self::weigh(
            &self.vtilde,
            &self.j1_chol,
            rhs,
            n_aug,
            k,
            fpu,
            Ghost(m),
        );
        let ghost want = m.corrected(rhs@, x, *fpu);
        for i in 0..n_aug
            invariant
                fpu.sound(),
                m == self.model(),
                n_aug == self.n_aug,
                k == self.k,
                k > 0,
                self.factored,
                m.is_usable(),
                solution@.len() == n_aug,
                x.len() == n_aug,
                want == m.corrected(rhs@, x, *fpu),
                wu@ == m.weights(m.utilde2, m.j2, rhs@, *fpu),
                wv@ == m.weights(m.vtilde, m.j1, rhs@, *fpu),
                wu@.len() == k,
                wv@.len() == k,
                forall|q: int| 0 <= q < i ==> #[trigger] solution@[q] == want[q],
                forall|q: int| i <= q < n_aug ==> #[trigger] solution@[q] == x[q],
        {
            let a: u64 = combine(solution[i], &self.utilde2, n_aug, &wu, i, false, k, fpu);
            let b: u64 = combine(a, &self.vtilde, n_aug, &wv, i, true, k, fpu);
            solution.set(i, b);
        }
        assert(solution@ =~= want);
        Ok(())
    }
}

/// Without columns the inner solver is asked once, and its reply is the answer.
pub proof fn no_columns_change_nothing<F: Fn(FloatOp, u64, u64) -> u64>(
    begun: LowRankModel,
    matrix: MatrixModel,
    ev: Seq<SolverEvent>,
    j: int,
    vt: Seq<u64>,
    q1: Result<(), ErrorModel>,
    ut: Seq<u64>,
    q2: Result<(), ErrorModel>,
    now: LowRankModel,
    r: Result<Option<Inertia>, ErrorModel>,
    fpu: Fpu<F>,
)
    requires
        begun.k == 0,
        low_rank_step(begun, matrix, ev, j, vt, q1, ut, q2, now, r, fpu),
    ensures
        ev =~= seq![SolverEvent::Factor(matrix, r)],
        r is Ok ==> now.factored,
{
}

} // verus!
