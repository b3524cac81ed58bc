//! Matrices as mathematical values.

use crate::float::{absolute, FloatOp, Fpu, ZERO};
use crate::linear_solver::dense_matrix::{row_dot, row_norm, SymmetricMatrix};
use crate::linear_solver::sparse_matrix::{
    diagonal, entries_at, entries_dot, entries_norm, lemma_unoccupied, mirrored_at, occupied,
    scaled_entry, upper, Triplet,
};
use vstd::prelude::*;

verus! {

/// A symmetric matrix: all entries row by row, or a list of entries of the
/// upper triangle whose sums are the matrix.
#[verifier::ext_equal]
pub enum MatrixModel {
    Dense { n: int, rows: Seq<Seq<u64>> },
    Sparse { n: int, entries: Seq<Triplet> },
}

/// The `n` by `n` table of a function.
pub open spec fn table(n: int, f: spec_fn(int, int) -> u64) -> Seq<Seq<u64>> {
    Seq::new(n as nat, |p: int| Seq::new(n as nat, |q: int| f(p, q)))
}

/// The products of the first `k` elements, added up from the left.
pub open spec fn dense_dot<F: Fn(FloatOp, u64, u64) -> u64>(
    row: Seq<u64>,
    x: Seq<u64>,
    k: nat,
    fpu: Fpu<F>,
) -> u64
    decreases k,
{
    if k == 0 {
        ZERO
    } else {
        fpu.sum(dense_dot(row, x, (k - 1) as nat, fpu), fpu.product(row[k - 1], x[k - 1]))
    }
}

/// The magnitudes of the first `k` elements, combined by `op`.
pub open spec fn dense_norm<F: Fn(FloatOp, u64, u64) -> u64>(
    row: Seq<u64>,
    k: nat,
    op: FloatOp,
    fpu: Fpu<F>,
) -> u64
    decreases k,
{
    if k == 0 {
        ZERO
    } else {
        fpu.calc(op, dense_norm(row, (k - 1) as nat, op, fpu), absolute(row[k - 1]))
    }
}

pub open spec fn dense_model(d: SymmetricMatrix) -> MatrixModel {
    MatrixModel::Dense { n: d.n as int, rows: table(d.n as int, |p: int, q: int| d.at(p, q)) }
}

impl MatrixModel {
    pub open spec fn dim(&self) -> int {
        match self {
            MatrixModel::Dense { n, rows } => *n,
            MatrixModel::Sparse { n, entries } => *n,
        }
    }

    /// The matrix with `val` added at row `i` and column `j`, and its mirror
    /// place.
    pub open spec fn added<F: Fn(FloatOp, u64, u64) -> u64>(
        self,
        i: int,
        j: int,
        val: u64,
        fpu: Fpu<F>,
    ) -> MatrixModel {
        match self {
            MatrixModel::Dense { n, rows } => MatrixModel::Dense {
                n,
                rows: table(
                    n,
                    |p: int, q: int|
                        if (p == i && q == j) || (p == j && q == i) {
                            fpu.sum(rows[p][q], val)
                        } else {
                            rows[p][q]
                        },
                ),
            },
            MatrixModel::Sparse { n, entries } => MatrixModel::Sparse {
                n,
                entries: entries.push(upper(i, j, val)),
            },
        }
    }

    /// The matrix with `delta` added to the diagonal from `start` up to `end`.
    pub open spec fn diagonal_added<F: Fn(FloatOp, u64, u64) -> u64>(
        self,
        start: int,
        end: int,
        delta: u64,
        fpu: Fpu<F>,
    ) -> MatrixModel {
        match self {
            MatrixModel::Dense { n, rows } => MatrixModel::Dense {
                n,
                rows: table(
                    n,
                    |p: int, q: int|
                        if p == q && start <= p < end {
                            fpu.sum(rows[p][q], delta)
                        } else {
                            rows[p][q]
                        },
                ),
            },
            MatrixModel::Sparse { n, entries } => MatrixModel::Sparse {
                n,
                entries: entries + diagonal(start, end, delta),
            },
        }
    }

    /// The matrix with row and column `k` scaled by `alpha`.
    pub open spec fn scaled<F: Fn(FloatOp, u64, u64) -> u64>(
        self,
        k: int,
        alpha: u64,
        fpu: Fpu<F>,
    ) -> MatrixModel {
        match self {
            MatrixModel::Dense { n, rows } => MatrixModel::Dense {
                n,
                rows: table(
                    n,
                    |p: int, q: int|
                        if p == k && q == k {
                            fpu.product(rows[p][q], fpu.product(alpha, alpha))
                        } else if p == k || q == k {
                            fpu.product(rows[p][q], alpha)
                        } else {
                            rows[p][q]
                        },
                ),
            },
            MatrixModel::Sparse { n, entries } => MatrixModel::Sparse {
                n,
                entries: entries.map_values(|e: Triplet| scaled_entry(e, k, alpha, fpu)),
            },
        }
    }

    /// Row `r` of the product with `x`.
    pub open spec fn dot<F: Fn(FloatOp, u64, u64) -> u64>(
        self,
        x: Seq<u64>,
        r: int,
        fpu: Fpu<F>,
    ) -> u64 {
        match self {
            MatrixModel::Dense { n, rows } => dense_dot(rows[r], x, n as nat, fpu),
            MatrixModel::Sparse { n, entries } => entries_dot(entries, x, r, entries.len(), fpu),
        }
    }

    /// The product with `x`.
    pub open spec fn times<F: Fn(FloatOp, u64, u64) -> u64>(
        self,
        x: Seq<u64>,
        fpu: Fpu<F>,
    ) -> Seq<u64> {
        Seq::new(self.dim() as nat, |r: int| self.dot(x, r, fpu))
    }

    /// The magnitudes of row `r`, combined by `op`.
    pub open spec fn norm<F: Fn(FloatOp, u64, u64) -> u64>(
        self,
        r: int,
        op: FloatOp,
        fpu: Fpu<F>,
    ) -> u64 {
        match self {
            MatrixModel::Dense { n, rows } => dense_norm(rows[r], n as nat, op, fpu),
            MatrixModel::Sparse { n, entries } => entries_norm(entries, r, n as nat, op, fpu),
        }
    }

    /// The combined magnitudes of each row.
    pub open spec fn norms<F: Fn(FloatOp, u64, u64) -> u64>(
        self,
        op: FloatOp,
        fpu: Fpu<F>,
    ) -> Seq<u64> {
        Seq::new(self.dim() as nat, |r: int| self.norm(r, op, fpu))
    }
}

pub proof fn lemma_dense_dot<F: Fn(FloatOp, u64, u64) -> u64>(
    d: SymmetricMatrix,
    x: Seq<u64>,
    r: int,
    k: nat,
    fpu: Fpu<F>,
)
    requires
        0 <= r < d.n,
        k <= d.n,
    ensures
        row_dot(d, x, r, k, fpu) == dense_dot(
            table(d.n as int, |p: int, q: int| d.at(p, q))[r],
            x,
            k,
            fpu,
        ),
    decreases k,
{
    if k > 0 {
        lemma_dense_dot(d, x, r, (k - 1) as nat, fpu);
    }
}

pub proof fn lemma_dense_norm<F: Fn(FloatOp, u64, u64) -> u64>(
    d: SymmetricMatrix,
    r: int,
    k: nat,
    op: FloatOp,
    fpu: Fpu<F>,
)
    requires
        0 <= r < d.n,
        k <= d.n,
    ensures
        row_norm(d, r, k, op, fpu) == dense_norm(
            table(d.n as int, |p: int, q: int| d.at(p, q))[r],
            k,
            op,
            fpu,
        ),
    decreases k,
{
    if k > 0 {
        lemma_dense_norm(d, r, (k - 1) as nat, op, fpu);
    }
}

/// A dense and a sparse matrix have the same value at every place.
pub open spec fn same_matrix<F: Fn(FloatOp, u64, u64) -> u64>(
    dense: MatrixModel,
    sparse: MatrixModel,
    fpu: Fpu<F>,
) -> bool {
    match (dense, sparse) {
        (MatrixModel::Dense { n, rows }, MatrixModel::Sparse { n: n2, entries }) => n == n2
            && forall|p: int, q: int|
            0 <= p < n && 0 <= q < n ==> #[trigger] rows[p][q] == mirrored_at(
                entries,
                p,
                q,
                entries.len(),
                fpu,
            ),
        _ => false,
    }
}

proof fn lemma_entries_before<F: Fn(FloatOp, u64, u64) -> u64>(
    a: Seq<Triplet>,
    b: Seq<Triplet>,
    i: int,
    j: int,
    k: nat,
    fpu: Fpu<F>,
)
    requires
        k <= a.len(),
        a.len() <= b.len(),
        forall|p: int| 0 <= p < k ==> #[trigger] a[p] == b[p],
    ensures
        entries_at(a, i, j, k, fpu) == entries_at(b, i, j, k, fpu),
    decreases k,
{
    if k > 0 {
        lemma_entries_before(a, b, i, j, (k - 1) as nat, fpu);
    }
}

/// A dense and a sparse matrix of the same values stay so when the same value
/// is added at the same place.
pub proof fn adding_keeps_matrices_same<F: Fn(FloatOp, u64, u64) -> u64>(
    dense: MatrixModel,
    sparse: MatrixModel,
    i: int,
    j: int,
    val: u64,
    fpu: Fpu<F>,
)
    requires
        same_matrix(dense, sparse, fpu),
        0 <= i < dense.dim(),
        0 <= j < dense.dim(),
    ensures
        same_matrix(dense.added(i, j, val, fpu), sparse.added(i, j, val, fpu), fpu),
{
    let n = dense.dim();
    let entries = sparse->entries;
    let after = entries.push(upper(i, j, val));
    let rows = dense->rows;
    let now = dense.added(i, j, val, fpu)->rows;
    assert forall|p: int, q: int| 0 <= p < n && 0 <= q < n implies #[trigger] now[p][q]
        == mirrored_at(after, p, q, after.len(), fpu) by {
        let u = upper(p, q, 0);
        lemma_entries_before(entries, after, u.row, u.col, entries.len(), fpu);
        assert(rows[p][q] == mirrored_at(entries, p, q, entries.len(), fpu));
    }
}

/// A dense and a sparse matrix of the same values have the same norms of rows,
/// if a further zero does not change a norm.
pub proof fn same_matrices_have_same_norms<F: Fn(FloatOp, u64, u64) -> u64>(
    dense: MatrixModel,
    sparse: MatrixModel,
    r: int,
    op: FloatOp,
    fpu: Fpu<F>,
)
    requires
        same_matrix(dense, sparse, fpu),
        0 <= r < dense.dim(),
        forall|j: nat|
            j < dense.dim() ==> fpu.calc(op, #[trigger] dense_norm(dense->rows[r], j, op, fpu), ZERO)
                == dense_norm(dense->rows[r], j, op, fpu),
    ensures
        sparse.norm(r, op, fpu) == dense.norm(r, op, fpu),
{
    lemma_same_norms(dense, sparse, r, dense.dim() as nat, op, fpu);
}

proof fn lemma_same_norms<F: Fn(FloatOp, u64, u64) -> u64>(
    dense: MatrixModel,
    sparse: MatrixModel,
    r: int,
    k: nat,
    op: FloatOp,
    fpu: Fpu<F>,
)
    requires
        same_matrix(dense, sparse, fpu),
        0 <= r < dense.dim(),
        k <= dense.dim(),
        forall|j: nat|
            j < dense.dim() ==> fpu.calc(op, #[trigger] dense_norm(dense->rows[r], j, op, fpu), ZERO)
                == dense_norm(dense->rows[r], j, op, fpu),
    ensures
        entries_norm(sparse->entries, r, k, op, fpu) == dense_norm(dense->rows[r], k, op, fpu),
    decreases k,
{
    if k > 0 {
        lemma_same_norms(dense, sparse, r, (k - 1) as nat, op, fpu);
        let entries = sparse->entries;
        assert(dense->rows[r][k - 1] == mirrored_at(entries, r, k - 1, entries.len(), fpu));
        if !occupied(entries, r, k - 1, entries.len() as int) {
            lemma_unoccupied(entries, r, k - 1, entries.len(), fpu);
        }
    }
}

} // verus!
