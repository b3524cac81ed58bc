//! Matrices and linear solvers.

pub mod cholesky;
pub mod dense_matrix;
pub mod feral_direct;
pub mod feral_hybrid;
pub mod feral_iterative;
pub mod jacobi;
pub mod linear_algebra;
pub mod low_rank_kkt;
pub mod model;
pub mod real_matrix;
pub mod real_product;
pub mod solver;
pub mod sparse_matrix;
pub mod table;
pub mod woodbury;

use crate::float::{Fpu, FloatOp};
use crate::linear_solver::dense_matrix::SymmetricMatrix;
use crate::linear_solver::model::{dense_model, lemma_dense_dot, lemma_dense_norm, MatrixModel};
use crate::linear_solver::sparse_matrix::SparseSymmetricMatrix;
use crate::text::push_decimal;
use vstd::prelude::*;

verus! {

/// Signs of the eigenvalues of a symmetric matrix.
#[derive(Debug, Clone, Copy, PartialEq, Eq, Structural)]
pub struct Inertia {
    pub positive: usize,
    pub negative: usize,
    pub zero: usize,
}

pub open spec fn inertia_text(i: Inertia) -> Seq<char> {
    "(+"@ + crate::text::decimal(i.positive as nat) + ", -"@ + crate::text::decimal(
        i.negative as nat,
    ) + ", 0:"@ + crate::text::decimal(i.zero as nat) + ")"@
}

impl Inertia {
    /// The counts as text.
    pub fn to_text(&self) -> (s: String)
        ensures
            s@ == inertia_text(*self),
    {
        let mut s: String = String::from_str("(+");
        push_decimal(&mut s, self.positive);
        s.append(", -");
        push_decimal(&mut s, self.negative);
        s.append(", 0:");
        push_decimal(&mut s, self.zero);
        s.append(")");
        s
    }
}

/// Error of a linear solver.
#[derive(Debug, Clone)]
pub enum SolverError {
    SingularMatrix,
    /// The factorization succeeded with the wrong inertia.
    WrongInertia { actual: Inertia },
    NumericalFailure(String),
    DimensionMismatch { expected: usize, got: usize },
    /// The residual of a solve is too large, as if the matrix were singular.
    PretendSingular,
}

pub open spec fn error_text(e: SolverError) -> Seq<char> {
    match e {
        SolverError::SingularMatrix => "singular matrix"@,
        SolverError::WrongInertia { actual } => "wrong inertia: "@ + inertia_text(actual),
        SolverError::NumericalFailure(msg) => "numerical failure: "@ + msg@,
        SolverError::DimensionMismatch { expected, got } => "dimension mismatch: expected "@
            + crate::text::decimal(expected as nat) + ", got "@ + crate::text::decimal(got as nat),
        SolverError::PretendSingular => "pretend singular (residual ratio too large)"@,
    }
}

impl SolverError {
    /// The error as text.
    pub fn to_text(&self) -> (s: String)
        ensures
            s@ == error_text(*self),
    {
        match self {
            SolverError::SingularMatrix => String::from_str("singular matrix"),
            SolverError::WrongInertia { actual } => {
                let mut s: String = String::from_str("wrong inertia: ");
                let t: String = actual.to_text();
                s.append(t.as_str());
                s
            },
            SolverError::NumericalFailure(msg) => {
                let mut s: String = String::from_str("numerical failure: ");
                s.append(msg.as_str());
                s
            },
            SolverError::DimensionMismatch { expected, got } => {
                let mut s: String = String::from_str("dimension mismatch: expected ");
                push_decimal(&mut s, *expected);
                s.append(", got ");
                push_decimal(&mut s, *got);
                s
            },
            SolverError::PretendSingular => String::from_str(
                "pretend singular (residual ratio too large)",
            ),
        }
    }
}

/// A KKT matrix, dense or sparse.
#[derive(Debug, Clone)]
pub enum KktMatrix {
    Dense(SymmetricMatrix),
    Sparse(SparseSymmetricMatrix),
}

/// `b` is `a` with `val` added at row `i` and column `j`.
pub open spec fn entry_added<F: Fn(FloatOp, u64, u64) -> u64>(
    a: KktMatrix,
    b: KktMatrix,
    i: int,
    j: int,
    val: u64,
    fpu: Fpu<F>,
) -> bool {
    match (a, b) {
        (KktMatrix::Dense(d), KktMatrix::Dense(e)) => {
            &&& e.n == d.n
            &&& forall|p: int, q: int|
                0 <= p < d.n && 0 <= q < d.n ==> #[trigger] e.at(p, q) == if (p == i && q == j) || (
                p == j && q == i) {
                    fpu.sum(d.at(p, q), val)
                } else {
                    d.at(p, q)
                }
        },
        (KktMatrix::Sparse(s), KktMatrix::Sparse(t)) => {
            &&& t.n == s.n
            &&& t.triplets() == s.triplets().push(
                crate::linear_solver::sparse_matrix::upper(i, j, val),
            )
        },
        _ => false,
    }
}

/// `b` is `a` with `delta` added to the diagonal from `start` up to `end`.
pub open spec fn diagonal_added<F: Fn(FloatOp, u64, u64) -> u64>(
    a: KktMatrix,
    b: KktMatrix,
    start: int,
    end: int,
    delta: u64,
    fpu: Fpu<F>,
) -> bool {
    match (a, b) {
        (KktMatrix::Dense(d), KktMatrix::Dense(e)) => {
            &&& e.n == d.n
            &&& forall|p: int, q: int|
                0 <= p < d.n && 0 <= q < d.n ==> #[trigger] e.at(p, q) == if p == q && start <= p
                    < end {
                    fpu.sum(d.at(p, q), delta)
                } else {
                    d.at(p, q)
                }
        },
        (KktMatrix::Sparse(s), KktMatrix::Sparse(t)) => {
            &&& t.n == s.n
            &&& t.triplets() == s.triplets() + crate::linear_solver::sparse_matrix::diagonal(
                start,
                end,
                delta,
            )
        },
        _ => false,
    }
}

/// A copy of a list of numbers.
pub fn copy_numbers(v: &Vec<u64>) -> (r: Vec<u64>)
    ensures
        r@ == v@,
{
    let mut r: Vec<u64> = Vec::with_capacity(v.len());
    for i in 0..v.len()
        invariant
            r@ == v@.take(i as int),
    {
        r.push(v[i]);
        assert(r@ =~= v@.take(i + 1));
    }
    assert(r@ =~= v@);
    r
}

/// A copy of a list of indices.
pub fn copy_indices(v: &Vec<usize>) -> (r: Vec<usize>)
    ensures
        r@ == v@,
{
    let mut r: Vec<usize> = Vec::with_capacity(v.len());
    for i in 0..v.len()
        invariant
            r@ == v@.take(i as int),
    {
        r.push(v[i]);
        assert(r@ =~= v@.take(i + 1));
    }
    assert(r@ =~= v@);
    r
}

impl KktMatrix {
    /// The matrix as a mathematical value.
    pub open spec fn model(&self) -> MatrixModel {
        match self {
            KktMatrix::Dense(d) => dense_model(*d),
            KktMatrix::Sparse(s) => MatrixModel::Sparse { n: s.n as int, entries: s.triplets() },
        }
    }

    /// A copy of the matrix.
    pub fn copy(&self) -> (m: Self)
        requires
            self.well_formed(),
        ensures
            m.well_formed(),
            m.dim() == self.dim(),
            m.model() == self.model(),
    {
        match self {
            KktMatrix::Dense(d) => {
                let m: KktMatrix = KktMatrix::Dense(
                    SymmetricMatrix { n: d.n, data: copy_numbers(&d.data) },
                );
                assert(m.model() =~~= self.model());
                m
            },
            KktMatrix::Sparse(s) => {
                let t: SparseSymmetricMatrix = SparseSymmetricMatrix {
                    n: s.n,
                    triplet_rows: copy_indices(&s.triplet_rows),
                    triplet_cols: copy_indices(&s.triplet_cols),
                    triplet_vals: copy_numbers(&s.triplet_vals),
                };
                assert(t.triplets() =~= s.triplets());
                KktMatrix::Sparse(t)
            },
        }
    }

    pub open spec fn well_formed(&self) -> bool {
        match self {
            KktMatrix::Dense(d) => d.well_formed(),
            KktMatrix::Sparse(s) => s.well_formed(),
        }
    }

    pub open spec fn dim(&self) -> int {
        match self {
            KktMatrix::Dense(d) => d.n as int,
            KktMatrix::Sparse(s) => s.n as int,
        }
    }

    /// Row `r` of the product with `x`.
    pub open spec fn dot<F: Fn(FloatOp, u64, u64) -> u64>(
        &self,
        x: Seq<u64>,
        r: int,
        fpu: Fpu<F>,
    ) -> u64 {
        match self {
            KktMatrix::Dense(d) => crate::linear_solver::dense_matrix::row_dot(
                *d,
                x,
                r,
                d.n as nat,
                fpu,
            ),
            KktMatrix::Sparse(s) => crate::linear_solver::sparse_matrix::entries_dot(
                s.triplets(),
                x,
                r,
                s.triplets().len(),
                fpu,
            ),
        }
    }

    /// The magnitudes of row `r`, combined by `op`.
    pub open spec fn norm<F: Fn(FloatOp, u64, u64) -> u64>(
        &self,
        r: int,
        op: FloatOp,
        fpu: Fpu<F>,
    ) -> u64 {
        match self {
            KktMatrix::Dense(d) => crate::linear_solver::dense_matrix::row_norm(
                *d,
                r,
                d.n as nat,
                op,
                fpu,
            ),
            KktMatrix::Sparse(s) => crate::linear_solver::sparse_matrix::entries_norm(
                s.triplets(),
                r,
                s.n as nat,
                op,
                fpu,
            ),
        }
    }

    /// The value at row `i` and column `j`.
    pub open spec fn value<F: Fn(FloatOp, u64, u64) -> u64>(
        &self,
        i: int,
        j: int,
        fpu: Fpu<F>,
    ) -> u64 {
        match self {
            KktMatrix::Dense(d) => d.at(i, j),
            KktMatrix::Sparse(s) => crate::linear_solver::sparse_matrix::entries_at(
                s.triplets(),
                crate::linear_solver::sparse_matrix::upper(i, j, 0).row,
                crate::linear_solver::sparse_matrix::upper(i, j, 0).col,
                s.triplets().len(),
                fpu,
            ),
        }
    }

    /// The dense zero matrix of dimension `n`.
    pub fn zeros_dense(n: usize) -> (m: Self)
        requires
            n * (n + 1) <= usize::MAX,
        ensures
            m matches KktMatrix::Dense(d) && d.n == n && forall|i: int, j: int|
                0 <= i < n && 0 <= j < n ==> #[trigger] d.at(i, j) == 0,
            m.well_formed(),
            m.dim() == n,
            m.model() == (MatrixModel::Dense {
                n: n as int,
                rows: crate::linear_solver::model::table(n as int, |p: int, q: int| 0),
            }),
    {
        let m: KktMatrix = KktMatrix::Dense(SymmetricMatrix::zeros(n));
        assert(m.model() =~~= (MatrixModel::Dense {
            n: n as int,
            rows: crate::linear_solver::model::table(n as int, |p: int, q: int| 0),
        }));
        m
    }

    /// The sparse matrix of dimension `n` with a zero diagonal.
    pub fn zeros_sparse(n: usize, capacity: usize) -> (m: Self)
        ensures
            m matches KktMatrix::Sparse(s) && s.n == n && s.triplets()
                == crate::linear_solver::sparse_matrix::diagonal(0, n as int, 0),
            m.well_formed(),
            m.dim() == n,
    {
        KktMatrix::Sparse(SparseSymmetricMatrix::with_capacity(n, capacity))
    }

    /// Dimension of the matrix.
    pub fn n(&self) -> (n: usize)
        ensures
            n == self.dim(),
    {
        match self {
            KktMatrix::Dense(d) => d.n,
            KktMatrix::Sparse(s) => s.n,
        }
    }

    /// Adds `val` at row `i` and column `j`.
    pub fn add<F: Fn(FloatOp, u64, u64) -> u64>(
        &mut self,
        i: usize,
        j: usize,
        val: u64,
        fpu: &Fpu<F>,
    )
        requires
            old(self).well_formed(),
            i < old(self).dim(),
            j < old(self).dim(),
            fpu.sound(),
        ensures
            final(self).well_formed(),
            final(self).dim() == old(self).dim(),
            entry_added(*old(self), *final(self), i as int, j as int, val, *fpu),
            final(self).model() == old(self).model().added(i as int, j as int, val, *fpu),
    {
        let ghost start = *self;
        match self {
            KktMatrix::Dense(d) => d.add(i, j, val, fpu),
            KktMatrix::Sparse(s) => {
                let ghost before = *s;
                s.add(i, j, val);
                proof {
                    lemma_push_well_formed(before, *s, i as int, j as int, val);
                }
            },
        }
        assert(self.model() =~~= start.model().added(i as int, j as int, val, *fpu));
    }

    /// The value at row `i` and column `j`.
    pub fn get<F: Fn(FloatOp, u64, u64) -> u64>(&self, i: usize, j: usize, fpu: &Fpu<F>) -> (v: u64)
        requires
            self.well_formed(),
            i < self.dim(),
            j < self.dim(),
            fpu.sound(),
        ensures
            v == self.value(i as int, j as int, *fpu),
    {
        match self {
            KktMatrix::Dense(d) => d.get(i, j),
            KktMatrix::Sparse(s) => s.get(i, j, fpu),
        }
    }

    /// Adds `delta` to every diagonal entry.
    pub fn add_diagonal<F: Fn(FloatOp, u64, u64) -> u64>(&mut self, delta: u64, fpu: &Fpu<F>)
        requires
            old(self).well_formed(),
            fpu.sound(),
        ensures
            final(self).well_formed(),
            final(self).dim() == old(self).dim(),
            diagonal_added(*old(self), *final(self), 0, old(self).dim(), delta, *fpu),
            final(self).model() == old(self).model().diagonal_added(
                0,
                old(self).dim(),
                delta,
                *fpu,
            ),
    {
        let n: usize = self.n();
        self.add_diagonal_range(0, n, delta, fpu);
    }

    /// Adds `delta` to the diagonal entries from `start` up to `end`.
    pub fn add_diagonal_range<F: Fn(FloatOp, u64, u64) -> u64>(
        &mut self,
        start: usize,
        end: usize,
        delta: u64,
        fpu: &Fpu<F>,
    )
        requires
            old(self).well_formed(),
            start < end ==> end <= old(self).dim(),
            fpu.sound(),
        ensures
            final(self).well_formed(),
            final(self).dim() == old(self).dim(),
            diagonal_added(*old(self), *final(self), start as int, end as int, delta, *fpu),
            final(self).model() == old(self).model().diagonal_added(
                start as int,
                end as int,
                delta,
                *fpu,
            ),
    {
        let ghost first = *self;
        match self {
            KktMatrix::Dense(d) => d.add_diagonal_range(start, end, delta, fpu),
            KktMatrix::Sparse(s) => {
                let ghost before = s.triplets();
                s.add_diagonal_range(start, end, delta);
                proof {
                    assert forall|k: int| 0 <= k < s.triplets().len() implies 0 <= (
                    #[trigger] s.triplets()[k]).row <= s.triplets()[k].col < s.n by {
                        if k < before.len() {
                            assert(s.triplets()[k] == before[k]);
                        }
                    }
                }
            },
        }
        assert(self.model() =~~= first.model().diagonal_added(
            start as int,
            end as int,
            delta,
            *fpu,
        ));
    }

    /// Product of the matrix and `x`.
    pub fn matvec<F: Fn(FloatOp, u64, u64) -> u64>(&self, x: &[u64], y: &mut Vec<u64>, fpu: &Fpu<F>)
        requires
            self.well_formed(),
            x@.len() >= self.dim(),
            old(y)@.len() >= self.dim(),
            fpu.sound(),
        ensures
            final(y)@.len() == old(y)@.len(),
            forall|r: int|
                0 <= r < self.dim() ==> #[trigger] final(y)@[r] == self.dot(x@, r, *fpu),
            forall|r: int|
                self.dim() <= r < old(y)@.len() ==> #[trigger] final(y)@[r] == old(y)@[r],
            old(y)@.len() == self.dim() ==> final(y)@ == self.model().times(x@, *fpu),
    {
        match self {
            KktMatrix::Dense(d) => d.matvec(x, y, fpu),
            KktMatrix::Sparse(s) => s.matvec(x, y, fpu),
        }
        proof {
            assert forall|r: int| 0 <= r < self.dim() implies self.dot(x@, r, *fpu)
                == #[trigger] self.model().dot(x@, r, *fpu) by {
                match self {
                    KktMatrix::Dense(d) => {
                        lemma_dense_dot(*d, x@, r, d.n as nat, *fpu);
                    },
                    KktMatrix::Sparse(s) => {},
                }
            }
            if y@.len() == self.dim() {
                assert(y@ =~= self.model().times(x@, *fpu));
            }
        }
    }

    /// Largest magnitude of each row.
    pub fn row_abs_max<F: Fn(FloatOp, u64, u64) -> u64>(&self, fpu: &Fpu<F>) -> (norms: Vec<u64>)
        requires
            self.well_formed(),
            fpu.sound(),
        ensures
            norms@.len() == self.dim(),
            forall|r: int|
                0 <= r < self.dim() ==> #[trigger] norms@[r] == self.norm(r, FloatOp::Max, *fpu),
            norms@ == self.model().norms(FloatOp::Max, *fpu),
    {
        let norms: Vec<u64> = match self {
            KktMatrix::Dense(d) => d.row_abs_max(fpu),
            KktMatrix::Sparse(s) => s.row_abs_max(fpu),
        };
        proof {
            assert forall|r: int| 0 <= r < self.dim() implies self.norm(r, FloatOp::Max, *fpu)
                == #[trigger] self.model().norm(r, FloatOp::Max, *fpu) by {
                match self {
                    KktMatrix::Dense(d) => {
                        lemma_dense_norm(*d, r, d.n as nat, FloatOp::Max, *fpu);
                    },
                    KktMatrix::Sparse(s) => {},
                }
            }
            assert(norms@ =~= self.model().norms(FloatOp::Max, *fpu));
        }
        norms
    }

    /// Sum of the magnitudes of each row.
    pub fn row_abs_sum<F: Fn(FloatOp, u64, u64) -> u64>(&self, fpu: &Fpu<F>) -> (norms: Vec<u64>)
        requires
            self.well_formed(),
            fpu.sound(),
        ensures
            norms@.len() == self.dim(),
            forall|r: int|
                0 <= r < self.dim() ==> #[trigger] norms@[r] == self.norm(r, FloatOp::Add, *fpu),
            norms@ == self.model().norms(FloatOp::Add, *fpu),
    {
        let norms: Vec<u64> = match self {
            KktMatrix::Dense(d) => d.row_abs_sum(fpu),
            KktMatrix::Sparse(s) => s.row_abs_sum(fpu),
        };
        proof {
            assert forall|r: int| 0 <= r < self.dim() implies self.norm(r, FloatOp::Add, *fpu)
                == #[trigger] self.model().norm(r, FloatOp::Add, *fpu) by {
                match self {
                    KktMatrix::Dense(d) => {
                        lemma_dense_norm(*d, r, d.n as nat, FloatOp::Add, *fpu);
                    },
                    KktMatrix::Sparse(s) => {},
                }
            }
            assert(norms@ =~= self.model().norms(FloatOp::Add, *fpu));
        }
        norms
    }

    /// Scales row `k` and column `k` by `alpha`.
    pub fn scale_row_col<F: Fn(FloatOp, u64, u64) -> u64>(
        &mut self,
        k: usize,
        alpha: u64,
        fpu: &Fpu<F>,
    )
        requires
            old(self).well_formed(),
            k < old(self).dim(),
            fpu.sound(),
        ensures
            final(self).well_formed(),
            final(self).dim() == old(self).dim(),
            row_col_scaled(*old(self), *final(self), k as int, alpha, *fpu),
            final(self).model() == old(self).model().scaled(k as int, alpha, *fpu),
    {
        let ghost start = *self;
        match self {
            KktMatrix::Dense(d) => d.scale_row_col(k, alpha, fpu),
            KktMatrix::Sparse(s) => {
                let ghost before = s.triplets();
                s.scale_row_col(k, alpha, fpu);
                proof {
                    assert forall|p: int| 0 <= p < s.triplets().len() implies 0 <= (
                    #[trigger] s.triplets()[p]).row <= s.triplets()[p].col < s.n by {
                        assert(0 <= before[p].row <= before[p].col < s.n);
                    }
                }
            },
        }
        assert(self.model() =~~= start.model().scaled(k as int, alpha, *fpu));
    }
}

/// `b` is `a` with row and column `k` scaled by `alpha`.
pub open spec fn row_col_scaled<F: Fn(FloatOp, u64, u64) -> u64>(
    a: KktMatrix,
    b: KktMatrix,
    k: int,
    alpha: u64,
    fpu: Fpu<F>,
) -> bool {
    match (a, b) {
        (KktMatrix::Dense(d), KktMatrix::Dense(e)) => {
            &&& e.n == d.n
            &&& forall|p: int, q: int|
                0 <= p < d.n && 0 <= q < d.n ==> #[trigger] e.at(p, q) == if p == k && q == k {
                    fpu.product(d.at(p, q), fpu.product(alpha, alpha))
                } else if p == k || q == k {
                    fpu.product(d.at(p, q), alpha)
                } else {
                    d.at(p, q)
                }
        },
        (KktMatrix::Sparse(s), KktMatrix::Sparse(t)) => {
            &&& t.n == s.n
            &&& t.triplets() == s.triplets().map_values(
                |e: crate::linear_solver::sparse_matrix::Triplet|
                    crate::linear_solver::sparse_matrix::scaled_entry(e, k, alpha, fpu),
            )
        },
        _ => false,
    }
}

proof fn lemma_push_well_formed(
    a: SparseSymmetricMatrix,
    b: SparseSymmetricMatrix,
    i: int,
    j: int,
    val: u64,
)
    requires
        a.well_formed(),
        b.aligned(),
        b.n == a.n,
        0 <= i < a.n,
        0 <= j < a.n,
        b.triplets() == a.triplets().push(
            crate::linear_solver::sparse_matrix::upper(i, j, val),
        ),
    ensures
        b.well_formed(),
{
    assert forall|k: int| 0 <= k < b.triplets().len() implies 0 <= (
    #[trigger] b.triplets()[k]).row <= b.triplets()[k].col < b.n by {
        if k < a.triplets().len() {
            assert(b.triplets()[k] == a.triplets()[k]);
        }
    }
}

} // verus!
