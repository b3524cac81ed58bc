//! Symmetric matrices in packed storage.

use crate::float::{abs, Fpu, FloatOp, ZERO};
use vstd::prelude::*;

verus! {

/// Symmetric matrix stored as its lower triangle, column by column. Entries
/// are binary64 bit patterns.
#[derive(Debug, Clone)]
pub struct SymmetricMatrix {
    pub n: usize,
    pub data: Vec<u64>,
}

/// `0 + 1 + ... + k`.
pub open spec fn triangle(k: nat) -> nat
    decreases k,
{
    if k == 0 {
        0
    } else {
        triangle((k - 1) as nat) + k
    }
}

/// Place of the entry in row `i` and column `j` of the lower triangle.
pub open spec fn packed(n: int, i: int, j: int) -> int {
    j * n - triangle(j as nat) + i
}

pub proof fn lemma_triangle(k: nat)
    ensures
        2 * triangle(k) == k * (k + 1),
        (k * (k + 1)) / 2 == triangle(k),
    decreases k,
{
    if k > 0 {
        lemma_triangle((k - 1) as nat);
        assert((k - 1) * k + 2 * k == k * (k + 1)) by (nonlinear_arith);
    }
}

/// A column starts where the one before it ends.
proof fn lemma_column_start(n: int, j: nat)
    ensures
        packed(n, (j + 1) as int, (j + 1) as int) == packed(n, j as int, j as int) + n - j,
{
    assert((j + 1) * n == j * n + n) by (nonlinear_arith);
}

proof fn lemma_columns_ascend(n: int, a: nat, b: nat)
    requires
        a <= b <= n,
    ensures
        packed(n, a as int, a as int) <= packed(n, b as int, b as int),
        a < b ==> packed(n, a as int, a as int) + n - a <= packed(n, b as int, b as int),
    decreases b - a,
{
    if a < b {
        lemma_column_start(n, a);
        lemma_columns_ascend(n, a + 1, b);
    }
}

/// Every entry of the lower triangle has a place of its own among
/// `triangle(n)` places.
pub proof fn lemma_packed(n: nat, i: int, j: int)
    requires
        0 <= j <= i < n,
    ensures
        0 <= packed(n as int, i, j) < triangle(n),
        forall|a: int, b: int|
            0 <= b <= a < n && #[trigger] packed(n as int, a, b) == packed(n as int, i, j) ==> a == i
                && b == j,
{
    lemma_columns_ascend(n as int, 0, j as nat);
    lemma_columns_ascend(n as int, j as nat, n);
    lemma_triangle(n);
    assert(n * n - triangle(n) + n == triangle(n)) by {
        assert(n * (n + 1) == n * n + n) by (nonlinear_arith);
    }
    assert(packed(n as int, n as int, n as int) == triangle(n));
    assert(packed(n as int, 0, 0) == 0) by {
        assert(0 * n == 0) by (nonlinear_arith);
    }
    assert forall|a: int, b: int|
        0 <= b <= a < n && #[trigger] packed(n as int, a, b) == packed(n as int, i, j) implies a == i
        && b == j by {
        if b < j {
            lemma_columns_ascend(n as int, b as nat, j as nat);
        } else if j < b {
            lemma_columns_ascend(n as int, j as nat, b as nat);
        }
    }
}

/// Entry of the first `k` products of a row of the matrix with `x`, added up
/// from the left.
pub open spec fn row_dot<F: Fn(FloatOp, u64, u64) -> u64>(
    m: SymmetricMatrix,
    x: Seq<u64>,
    r: int,
    k: nat,
    fpu: Fpu<F>,
) -> u64
    decreases k,
{
    if k == 0 {
        ZERO
    } else {
        fpu.sum(row_dot(m, x, r, (k - 1) as nat, fpu), fpu.product(m.at(r, k - 1), x[k - 1]))
    }
}

/// The first `k` magnitudes of a row, combined from the left by `op`.
pub open spec fn row_norm<F: Fn(FloatOp, u64, u64) -> u64>(
    m: SymmetricMatrix,
    r: int,
    k: nat,
    op: FloatOp,
    fpu: Fpu<F>,
) -> u64
    decreases k,
{
    if k == 0 {
        ZERO
    } else {
        fpu.calc(
            op,
            row_norm(m, r, (k - 1) as nat, op, fpu),
            crate::float::absolute(m.at(r, k - 1)),
        )
    }
}

impl SymmetricMatrix {
    /// The storage has one place for each entry of the lower triangle.
    pub open spec fn well_formed(&self) -> bool {
        &&& self.n * (self.n + 1) <= usize::MAX
        &&& self.data@.len() == triangle(self.n as nat)
    }

    /// The entry in row `i` and column `j`.
    pub open spec fn at(&self, i: int, j: int) -> u64 {
        if i >= j {
            self.data@[packed(self.n as int, i, j)]
        } else {
            self.data@[packed(self.n as int, j, i)]
        }
    }

    /// The zero matrix of dimension `n`.
    pub fn zeros(n: usize) -> (m: Self)
        requires
            n * (n + 1) <= usize::MAX,
        ensures
            m.well_formed(),
            m.n == n,
            forall|i: int, j: int| 0 <= i < n && 0 <= j < n ==> #[trigger] m.at(i, j) == ZERO,
    {
        proof {
            lemma_triangle(n as nat);
            assert(n + 1 <= usize::MAX) by {
                if n > 0 {
                    assert(n + 1 <= n * (n + 1)) by (nonlinear_arith)
                        requires
                            n > 0,
                    ;
                }
            }
        }
        let nnz: usize = n * (n + 1) / 2;
        let m: SymmetricMatrix = SymmetricMatrix { n, data: vec![ZERO; nnz] };
        proof {
            assert forall|i: int, j: int| 0 <= i < n && 0 <= j < n implies #[trigger] m.at(i, j)
                == ZERO by {
                if i >= j {
                    lemma_packed(n as nat, i, j);
                } else {
                    lemma_packed(n as nat, j, i);
                }
            }
        }
        m
    }

    /// Place of the entry in row `i` and column `j`, where `i >= j`.
    pub fn packed_index(n: usize, i: usize, j: usize) -> (k: usize)
        requires
            j <= i < n,
            n * (n + 1) <= usize::MAX,
        ensures
            k == packed(n as int, i as int, j as int),
            k < triangle(n as nat),
    {
        proof {
            lemma_packed(n as nat, i as int, j as int);
            lemma_triangle(n as nat);
            lemma_triangle(j as nat);
            assert(j * n <= n * (n + 1)) by (nonlinear_arith)
                requires
                    j < n,
            ;
            assert(j * (j + 1) <= n * (n + 1)) by (nonlinear_arith)
                requires
                    j < n,
            ;
            assert(triangle(j as nat) <= j * n) by (nonlinear_arith)
                requires
                    2 * triangle(j as nat) == j * (j + 1),
                    j < n,
            ;
        }
        j * n - j * (j + 1) / 2 + i
    }

    /// The entry in row `i` and column `j`.
    pub fn get(&self, i: usize, j: usize) -> (v: u64)
        requires
            self.well_formed(),
            i < self.n,
            j < self.n,
        ensures
            v == self.at(i as int, j as int),
    {
        if i >= j {
            self.data[Self::packed_index(self.n, i, j)]
        } else {
            self.data[Self::packed_index(self.n, j, i)]
        }
    }

    /// Sets the entry in row `i` and column `j`, and its mirror image.
    pub fn set(&mut self, i: usize, j: usize, val: u64)
        requires
            old(self).well_formed(),
            i < old(self).n,
            j < old(self).n,
        ensures
            final(self).well_formed(),
            final(self).n == old(self).n,
            forall|a: int, b: int|
                0 <= a < old(self).n && 0 <= b < old(self).n ==> #[trigger] final(self).at(a, b)
                    == if (a == i && b == j) || (a == j && b == i) {
                    val
                } else {
                    old(self).at(a, b)
                },
    {
        let ghost before = *self;
        let (hi, lo): (usize, usize) = if i >= j {
            (i, j)
        } else {
            (j, i)
        };
        let k: usize = Self::packed_index(self.n, hi, lo);
        self.data.set(k, val);
        proof {
            lemma_packed(self.n as nat, hi as int, lo as int);
            assert forall|a: int, b: int|
                0 <= a < self.n && 0 <= b < self.n implies #[trigger] self.at(a, b) == if (a == i
                && b == j) || (a == j && b == i) {
                val
            } else {
                before.at(a, b)
            } by {
                let (x, y) = if a >= b {
                    (a, b)
                } else {
                    (b, a)
                };
                lemma_packed(self.n as nat, x, y);
                if packed(self.n as int, x, y) == k {
                    assert(x == hi && y == lo);
                }
            }
        }
    }

    /// Adds `val` to the entry in row `i` and column `j`, and to its mirror
    /// image.
    pub fn add<F: Fn(FloatOp, u64, u64) -> u64>(
        &mut self,
        i: usize,
        j: usize,
        val: u64,
        fpu: &Fpu<F>,
    )
        requires
            old(self).well_formed(),
            i < old(self).n,
            j < old(self).n,
            fpu.sound(),
        ensures
            final(self).well_formed(),
            final(self).n == old(self).n,
            forall|a: int, b: int|
                0 <= a < old(self).n && 0 <= b < old(self).n ==> #[trigger] final(self).at(a, b)
                    == if (a == i && b == j) || (a == j && b == i) {
                    fpu.sum(old(self).at(a, b), val)
                } else {
                    old(self).at(a, b)
                },
    {
        let v: u64 = self.get(i, j);
        self.set(i, j, fpu.add(v, val));
    }

    /// Adds `delta` to every diagonal entry.
    pub fn add_diagonal<F: Fn(FloatOp, u64, u64) -> u64>(&mut self, delta: u64, fpu: &Fpu<F>)
        requires
            old(self).well_formed(),
            fpu.sound(),
        ensures
            final(self).well_formed(),
            final(self).n == old(self).n,
            forall|a: int, b: int|
                0 <= a < old(self).n && 0 <= b < old(self).n ==> #[trigger] final(self).at(a, b)
                    == if a == b {
                    fpu.sum(old(self).at(a, b), delta)
                } else {
                    old(self).at(a, b)
                },
    {
        let n: usize = self.n;
        self.add_diagonal_range(0, n, delta, fpu);
    }

    /// Adds `delta` to the diagonal entries from `start` up to `end`.
    pub fn add_diagonal_range<F: Fn(FloatOp, u64, u64) -> u64>(
        &mut self,
        start: usize,
        end: usize,
        delta: u64,
        fpu: &Fpu<F>,
    )
        requires
            old(self).well_formed(),
            start < end ==> end <= old(self).n,
            fpu.sound(),
        ensures
            final(self).well_formed(),
            final(self).n == old(self).n,
            forall|a: int, b: int|
                0 <= a < old(self).n && 0 <= b < old(self).n ==> #[trigger] final(self).at(a, b)
                    == if a == b && start <= a < end {
                    fpu.sum(old(self).at(a, b), delta)
                } else {
                    old(self).at(a, b)
                },
    {
        let ghost before = *self;
        let mut i: usize = start;
        while i < end
            invariant
                start <= i,
                start < end ==> i <= end <= self.n,
                start >= end ==> i == start,
                fpu.sound(),
                self.well_formed(),
                self.n == before.n,
                forall|a: int, b: int|
                    0 <= a < before.n && 0 <= b < before.n ==> #[trigger] self.at(a, b) == if a == b
                        && start <= a < i {
                        fpu.sum(before.at(a, b), delta)
                    } else {
                        before.at(a, b)
                    },
            decreases end - i,
        {
            self.add(i, i, delta, fpu);
            i = i + 1;
        }
    }

    /// Product of the matrix and `x`: entry `r` is the sum, from the left, of
    /// the products of row `r` with `x`.
    pub fn matvec<F: Fn(FloatOp, u64, u64) -> u64>(&self, x: &[u64], y: &mut Vec<u64>, fpu: &Fpu<F>)
        requires
            self.well_formed(),
            x@.len() >= self.n,
            old(y)@.len() >= self.n,
            fpu.sound(),
        ensures
            final(y)@.len() == old(y)@.len(),
            forall|r: int|
                0 <= r < self.n ==> #[trigger] final(y)@[r] == row_dot(
                    *self,
                    x@,
                    r,
                    self.n as nat,
                    *fpu,
                ),
            forall|r: int| self.n <= r < old(y)@.len() ==> #[trigger] final(y)@[r] == old(y)@[r],
    {
        let n: usize = self.n;
        let ghost before = y@;
        for i in 0..n
            invariant
                y@.len() == before.len() >= n,
                forall|r: int| 0 <= r < i ==> #[trigger] y@[r] == ZERO,
                forall|r: int| n <= r < before.len() ==> #[trigger] y@[r] == before[r],
        {
            y.set(i, ZERO);
        }
        for j in 0..n
            invariant
                self.well_formed(),
                n == self.n,
                x@.len() >= n,
                y@.len() == before.len() >= n,
                fpu.sound(),
                forall|r: int|
                    0 <= r < n ==> #[trigger] y@[r] == row_dot(
                        *self,
                        x@,
                        r,
                        if r < j {
                            n as nat
                        } else {
                            j as nat
                        },
                        *fpu,
                    ),
                forall|r: int| n <= r < before.len() ==> #[trigger] y@[r] == before[r],
        {
            let ajj: u64 = self.data[Self::packed_index(n, j, j)];
            assert(y@[j as int] == row_dot(*self, x@, j as int, j as nat, *fpu));
            y.set(j, fpu.add(y[j], fpu.mul(ajj, x[j])));
            let mut i: usize = j + 1;
            while i < n
                invariant
                    self.well_formed(),
                    n == self.n,
                    j < i <= n,
                    x@.len() >= n,
                    y@.len() == before.len() >= n,
                    fpu.sound(),
                    forall|r: int|
                        0 <= r < n ==> #[trigger] y@[r] == row_dot(
                            *self,
                            x@,
                            r,
                            if r < j {
                                n as nat
                            } else if r == j {
                                i as nat
                            } else if r < i {
                                (j + 1) as nat
                            } else {
                                j as nat
                            },
                            *fpu,
                        ),
                    forall|r: int| n <= r < before.len() ==> #[trigger] y@[r] == before[r],
                decreases n - i,
            {
                let aij: u64 = self.data[Self::packed_index(n, i, j)];
                assert(aij == self.at(i as int, j as int));
                assert(aij == self.at(j as int, i as int));
                assert(y@[i as int] == row_dot(*self, x@, i as int, j as nat, *fpu));
                assert(y@[j as int] == row_dot(*self, x@, j as int, i as nat, *fpu));
                y.set(i, fpu.add(y[i], fpu.mul(aij, x[j])));
                y.set(j, fpu.add(y[j], fpu.mul(aij, x[i])));
                i = i + 1;
            }
        }
    }

    fn row_norms<F: Fn(FloatOp, u64, u64) -> u64>(&self, op: FloatOp, fpu: &Fpu<F>) -> (norms: Vec<
        u64,
    >)
        requires
            self.well_formed(),
            fpu.sound(),
        ensures
            norms@.len() == self.n,
            forall|r: int|
                0 <= r < self.n ==> #[trigger] norms@[r] == row_norm(
                    *self,
                    r,
                    self.n as nat,
                    op,
                    *fpu,
                ),
    {
        let n: usize = self.n;
        let mut norms: Vec<u64> = vec![ZERO; n];
        for j in 0..n
            invariant
                self.well_formed(),
                n == self.n,
                norms@.len() == n,
                fpu.sound(),
                forall|r: int|
                    0 <= r < n ==> #[trigger] norms@[r] == row_norm(
                        *self,
                        r,
                        if r < j {
                            n as nat
                        } else {
                            j as nat
                        },
                        op,
                        *fpu,
                    ),
        {
            let ajj: u64 = abs(self.data[Self::packed_index(n, j, j)]);
            assert(norms@[j as int] == row_norm(*self, j as int, j as nat, op, *fpu));
            norms.set(j, fpu.run(op, norms[j], ajj));
            let mut i: usize = j + 1;
            while i < n
                invariant
                    self.well_formed(),
                    n == self.n,
                    j < i <= n,
                    norms@.len() == n,
                    fpu.sound(),
                    forall|r: int|
                        0 <= r < n ==> #[trigger] norms@[r] == row_norm(
                            *self,
                            r,
                            if r < j {
                                n as nat
                            } else if r == j {
                                i as nat
                            } else if r < i {
                                (j + 1) as nat
                            } else {
                                j as nat
                            },
                            op,
                            *fpu,
                        ),
                decreases n - i,
            {
                let entry: u64 = self.data[Self::packed_index(n, i, j)];
                assert(entry == self.at(i as int, j as int));
                assert(entry == self.at(j as int, i as int));
                assert(norms@[i as int] == row_norm(*self, i as int, j as nat, op, *fpu));
                assert(norms@[j as int] == row_norm(*self, j as int, i as nat, op, *fpu));
                let aij: u64 = abs(entry);
                norms.set(i, fpu.run(op, norms[i], aij));
                norms.set(j, fpu.run(op, norms[j], aij));
                i = i + 1;
            }
        }
        norms
    }

    /// Largest magnitude of each row.
    pub fn row_abs_max<F: Fn(FloatOp, u64, u64) -> u64>(&self, fpu: &Fpu<F>) -> (norms: Vec<u64>)
        requires
            self.well_formed(),
            fpu.sound(),
        ensures
            norms@.len() == self.n,
            forall|r: int|
                0 <= r < self.n ==> #[trigger] norms@[r] == row_norm(
                    *self,
                    r,
                    self.n as nat,
                    FloatOp::Max,
                    *fpu,
                ),
    {
        self.row_norms(FloatOp::Max, fpu)
    }

    /// Sum of the magnitudes of each row.
    pub fn row_abs_sum<F: Fn(FloatOp, u64, u64) -> u64>(&self, fpu: &Fpu<F>) -> (norms: Vec<u64>)
        requires
            self.well_formed(),
            fpu.sound(),
        ensures
            norms@.len() == self.n,
            forall|r: int|
                0 <= r < self.n ==> #[trigger] norms@[r] == row_norm(
                    *self,
                    r,
                    self.n as nat,
                    FloatOp::Add,
                    *fpu,
                ),
    {
        self.row_norms(FloatOp::Add, fpu)
    }

    /// Scales row `k` and column `k` by `alpha`, the diagonal entry by its
    /// square.
    pub fn scale_row_col<F: Fn(FloatOp, u64, u64) -> u64>(
        &mut self,
        k: usize,
        alpha: u64,
        fpu: &Fpu<F>,
    )
        requires
            old(self).well_formed(),
            k < old(self).n,
            fpu.sound(),
        ensures
            final(self).well_formed(),
            final(self).n == old(self).n,
            forall|a: int, b: int|
                0 <= a < old(self).n && 0 <= b < old(self).n ==> #[trigger] final(self).at(a, b)
                    == if a == k && b == k {
                    fpu.product(old(self).at(a, b), fpu.product(alpha, alpha))
                } else if a == k || b == k {
                    fpu.product(old(self).at(a, b), alpha)
                } else {
                    old(self).at(a, b)
                },
    {
        let ghost before = *self;
        let n: usize = self.n;
        let alpha2: u64 = fpu.mul(alpha, alpha);
        let d: u64 = self.get(k, k);
        self.set(k, k, fpu.mul(d, alpha2));
        for i in 0..n
            invariant
                self.well_formed(),
                n == self.n == before.n,
                k < n,
                fpu.sound(),
                alpha2 == fpu.product(alpha, alpha),
                forall|a: int, b: int|
                    0 <= a < n && 0 <= b < n ==> #[trigger] self.at(a, b) == if a == k && b == k {
                        fpu.product(before.at(a, b), alpha2)
                    } else if (a == k && b < i) || (b == k && a < i) {
                        fpu.product(before.at(a, b), alpha)
                    } else {
                        before.at(a, b)
                    },
        {
            if i != k {
                let v: u64 = self.get(i, k);
                self.set(i, k, fpu.mul(v, alpha));
            }
        }
    }

    /// All entries, row by row.
    pub fn to_full(&self) -> (rows: Vec<Vec<u64>>)
        requires
            self.well_formed(),
        ensures
            rows@.len() == self.n,
            forall|i: int| 0 <= i < self.n ==> (#[trigger] rows@[i])@.len() == self.n,
            forall|i: int, j: int|
                0 <= i < self.n && 0 <= j < self.n ==> #[trigger] rows@[i]@[j] == self.at(i, j),
    {
        let mut rows: Vec<Vec<u64>> = Vec::new();
        for i in 0..self.n
            invariant
                self.well_formed(),
                rows@.len() == i,
                forall|a: int| 0 <= a < i ==> (#[trigger] rows@[a])@.len() == self.n,
                forall|a: int, b: int|
                    0 <= a < i && 0 <= b < self.n ==> #[trigger] rows@[a]@[b] == self.at(a, b),
        {
            let mut row: Vec<u64> = Vec::new();
            for j in 0..self.n
                invariant
                    self.well_formed(),
                    i < self.n,
                    row@.len() == j,
                    forall|b: int| 0 <= b < j ==> #[trigger] row@[b] == self.at(i as int, b),
            {
                row.push(self.get(i, j));
            }
            rows.push(row);
        }
        rows
    }
}

/// The matrix is symmetric.
pub proof fn lemma_symmetric(m: SymmetricMatrix, i: int, j: int)
    ensures
        m.at(i, j) == m.at(j, i),
{
}

} // verus!
