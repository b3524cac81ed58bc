//! Symmetric matrices as lists of entries.

use crate::float::{abs, absolute, FloatOp, Fpu, ZERO};
use vstd::prelude::*;

verus! {

/// Symmetric matrix as a list of entries of its upper triangle. Entries at
/// the same place add up. Values are binary64 bit patterns.
#[derive(Debug, Clone)]
pub struct SparseSymmetricMatrix {
    pub n: usize,
    pub triplet_rows: Vec<usize>,
    pub triplet_cols: Vec<usize>,
    pub triplet_vals: Vec<u64>,
}

/// One entry: row, column, value.
pub struct Triplet {
    pub row: int,
    pub col: int,
    pub val: u64,
}

/// The entry of value `val` at row `i` and column `j`, moved to the upper
/// triangle.
pub open spec fn upper(i: int, j: int, val: u64) -> Triplet {
    if i <= j {
        Triplet { row: i, col: j, val }
    } else {
        Triplet { row: j, col: i, val }
    }
}

/// `value` on the diagonal from `start` up to `end`.
pub open spec fn diagonal(start: int, end: int, value: u64) -> Seq<Triplet> {
    Seq::new(
        if start <= end {
            (end - start) as nat
        } else {
            0
        },
        |k: int| Triplet { row: start + k, col: start + k, val: value },
    )
}

/// The products of the first `k` entries that concern row `r` with `x`, added
/// up from the left.
pub open spec fn entries_dot<F: Fn(FloatOp, u64, u64) -> u64>(
    t: Seq<Triplet>,
    x: Seq<u64>,
    r: int,
    k: nat,
    fpu: Fpu<F>,
) -> u64
    decreases k,
{
    if k == 0 {
        ZERO
    } else {
        let acc = entries_dot(t, x, r, (k - 1) as nat, fpu);
        let e = t[k - 1];
        if e.row == r {
            fpu.sum(acc, fpu.product(e.val, x[e.col]))
        } else if e.col == r {
            fpu.sum(acc, fpu.product(e.val, x[e.row]))
        } else {
            acc
        }
    }
}

/// The values of the first `k` entries at row `i` and column `j`, added up
/// from the left.
pub open spec fn entries_at<F: Fn(FloatOp, u64, u64) -> u64>(
    t: Seq<Triplet>,
    i: int,
    j: int,
    k: nat,
    fpu: Fpu<F>,
) -> u64
    decreases k,
{
    if k == 0 {
        ZERO
    } else {
        let acc = entries_at(t, i, j, (k - 1) as nat, fpu);
        let e = t[k - 1];
        if e.row == i && e.col == j {
            fpu.sum(acc, e.val)
        } else {
            acc
        }
    }
}

/// Some of the first `k` entries lies at row `i` and column `j`, or at its
/// mirror place.
pub open spec fn occupied(t: Seq<Triplet>, i: int, j: int, k: int) -> bool {
    exists|p: int|
        0 <= p < k && (#[trigger] t[p]).row == upper(i, j, 0).row && t[p].col == upper(i, j, 0).col
}

/// The sum of the first `k` entries at row `i` and column `j`, or at its mirror
/// place.
pub open spec fn mirrored_at<F: Fn(FloatOp, u64, u64) -> u64>(
    t: Seq<Triplet>,
    i: int,
    j: int,
    k: nat,
    fpu: Fpu<F>,
) -> u64 {
    entries_at(t, upper(i, j, 0).row, upper(i, j, 0).col, k, fpu)
}

/// The magnitudes in the first `j` columns of row `r`, combined from the left
/// by `op`. What lies at one place is added up first; a place without an entry
/// is passed over.
pub open spec fn entries_norm<F: Fn(FloatOp, u64, u64) -> u64>(
    t: Seq<Triplet>,
    r: int,
    j: nat,
    op: FloatOp,
    fpu: Fpu<F>,
) -> u64
    decreases j,
{
    if j == 0 {
        ZERO
    } else {
        let acc = entries_norm(t, r, (j - 1) as nat, op, fpu);
        if occupied(t, r, j - 1, t.len() as int) {
            fpu.calc(op, acc, absolute(mirrored_at(t, r, j - 1, t.len(), fpu)))
        } else {
            acc
        }
    }
}

/// The list holds the occupied columns of row `r` in order, each with the sum of
/// the first `k` entries there.
spec fn merged_row<F: Fn(FloatOp, u64, u64) -> u64>(
    list: Seq<(usize, u64)>,
    t: Seq<Triplet>,
    r: int,
    k: nat,
    fpu: Fpu<F>,
) -> bool {
    &&& forall|a: int, b: int| 0 <= a < b < list.len() ==> (#[trigger] list[a]).0 < (#[trigger]
        list[b]).0
    &&& forall|a: int|
        0 <= a < list.len() ==> (#[trigger] list[a]).1 == mirrored_at(
            t,
            r,
            list[a].0 as int,
            k,
            fpu,
        )
    &&& forall|a: int|
        0 <= a < list.len() ==> occupied(t, r, (#[trigger] list[a]).0 as int, k as int)
    &&& forall|c: usize| #[trigger]
        occupied(t, r, c as int, k as int) ==> exists|a: int|
            0 <= a < list.len() && (#[trigger] list[a]).0 == c
}

/// Nothing adds up to zero.
pub(crate) proof fn lemma_unoccupied<F: Fn(FloatOp, u64, u64) -> u64>(
    t: Seq<Triplet>,
    i: int,
    j: int,
    k: nat,
    fpu: Fpu<F>,
)
    requires
        k <= t.len(),
        !occupied(t, i, j, k as int),
    ensures
        mirrored_at(t, i, j, k, fpu) == ZERO,
    decreases k,
{
    if k > 0 {
        assert(!occupied(t, i, j, k - 1)) by {
            if occupied(t, i, j, k - 1) {
                let p = choose|p: int|
                    0 <= p < k - 1 && (#[trigger] t[p]).row == upper(i, j, 0).row && t[p].col
                        == upper(i, j, 0).col;
                assert(0 <= p < k && t[p].row == upper(i, j, 0).row);
            }
        }
        lemma_unoccupied(t, i, j, (k - 1) as nat, fpu);
        assert(t[k - 1].row != upper(i, j, 0).row || t[k - 1].col != upper(i, j, 0).col);
    }
}

/// The next entry concerns column `c` of row `r`, or no other than that.
proof fn lemma_occupied_next(t: Seq<Triplet>, i: int, j: int, k: int)
    requires
        0 <= k < t.len(),
    ensures
        occupied(t, i, j, k + 1) <==> occupied(t, i, j, k) || (t[k].row == upper(i, j, 0).row
            && t[k].col == upper(i, j, 0).col),
{
    if occupied(t, i, j, k) {
        let p = choose|p: int|
            0 <= p < k && (#[trigger] t[p]).row == upper(i, j, 0).row && t[p].col == upper(
                i,
                j,
                0,
            ).col;
        assert(0 <= p < k + 1 && t[p].row == upper(i, j, 0).row);
    }
}

/// A row stays merged over an entry that does not concern it.
proof fn lemma_merged_skip<F: Fn(FloatOp, u64, u64) -> u64>(
    list: Seq<(usize, u64)>,
    t: Seq<Triplet>,
    r: int,
    k: nat,
    fpu: Fpu<F>,
)
    requires
        k < t.len(),
        merged_row(list, t, r, k, fpu),
        t[k as int].row != r,
        t[k as int].col != r,
    ensures
        merged_row(list, t, r, k + 1, fpu),
{
    assert forall|c: usize| #[trigger] occupied(t, r, c as int, (k + 1) as int) implies exists|
        a: int,
    |
        0 <= a < list.len() && (#[trigger] list[a]).0 == c by {
        lemma_occupied_next(t, r, c as int, k as int);
    }
    assert forall|a: int| 0 <= a < list.len() implies occupied(
        t,
        r,
        (#[trigger] list[a]).0 as int,
        (k + 1) as int,
    ) by {
        lemma_occupied_next(t, r, list[a].0 as int, k as int);
    }
}

/// Adds the next entry, which is at column `c` of row `r`, to the row.
fn merge_entry<F: Fn(FloatOp, u64, u64) -> u64>(
    list: &mut Vec<(usize, u64)>,
    c: usize,
    v: u64,
    fpu: &Fpu<F>,
    Ghost(t): Ghost<Seq<Triplet>>,
    Ghost(r): Ghost<int>,
    Ghost(k): Ghost<nat>,
)
    requires
        fpu.sound(),
        k < t.len(),
        merged_row(old(list)@, t, r, k, *fpu),
        t[k as int] == upper(r, c as int, v),
    ensures
        merged_row(final(list)@, t, r, k + 1, *fpu),
{
    let ghost before = list@;
    let mut p: usize = 0;
    while p < list.len() && list[p].0 < c
        invariant
            p <= list@.len(),
            list@ == before,
            forall|a: int| 0 <= a < p ==> (#[trigger] list@[a]).0 < c,
        decreases list@.len() - p,
    {
        p = p + 1;
    }
    let found: bool = p < list.len() && list[p].0 == c;
    if found {
        let sum: u64 = fpu.add(list[p].1, v);
        list.set(p, (c, sum));
    } else {
        list.insert(p, (c, fpu.add(ZERO, v)));
    }
    proof {
        let now = list@;
        lemma_occupied_next(t, r, c as int, k as int);
        if !found {
            assert(!occupied(t, r, c as int, k as int)) by {
                if occupied(t, r, c as int, k as int) {
                    let a = choose|a: int| 0 <= a < before.len() && (#[trigger] before[a]).0 == c;
                    assert(a >= p);
                    assert(before[p as int].0 > c);
                }
            }
            lemma_unoccupied(t, r, c as int, k, *fpu);
            assert(now == before.insert(p as int, (c, now[p as int].1)));
        }
        assert(now[p as int].0 == c);
        assert(now[p as int].1 == mirrored_at(t, r, c as int, k + 1, *fpu));
        // An item of the new list is the entry's own, or one of the old list.
        assert forall|a: int| 0 <= a < now.len() && a != p implies (#[trigger] now[a]).0 != c
            && now[a].1 == mirrored_at(t, r, now[a].0 as int, k + 1, *fpu) && occupied(
            t,
            r,
            now[a].0 as int,
            (k + 1) as int,
        ) by {
            let b = if found || a < p {
                a
            } else {
                a - 1
            };
            assert(now[a] == before[b]);
            assert(before[b].0 != c);
            lemma_occupied_next(t, r, before[b].0 as int, k as int);
        }
        assert forall|a: int, b: int| 0 <= a < b < now.len() implies (#[trigger] now[a]).0 < (
        #[trigger] now[b]).0 by {
            if !found {
                let a0 = if a < p {
                    a
                } else {
                    a - 1
                };
                let b0 = if b < p {
                    b
                } else {
                    b - 1
                };
                if a != p {
                    assert(now[a] == before[a0]);
                }
                if b != p {
                    assert(now[b] == before[b0]);
                }
                if a == p {
                    assert(before[p as int].0 > c);
                    if p < b0 {
                        assert(before[p as int].0 < before[b0].0);
                    }
                } else if b != p {
                    assert(before[a0].0 < before[b0].0);
                }
            } else {
                assert(now[a].0 == before[a].0 && now[b].0 == before[b].0);
            }
        }
        assert forall|d: usize| #[trigger] occupied(t, r, d as int, (k + 1) as int) implies exists|
            a: int,
        |
            0 <= a < now.len() && (#[trigger] now[a]).0 == d by {
            lemma_occupied_next(t, r, d as int, k as int);
            if d == c {
                assert(now[p as int].0 == d);
            } else {
                assert(occupied(t, r, d as int, k as int));
                let a = choose|a: int| 0 <= a < before.len() && (#[trigger] before[a]).0 == d;
                let b = if found || a < p {
                    a
                } else {
                    a + 1
                };
                assert(now[b] == before[a]);
            }
        }
    }
}

/// Columns without an entry do not change a norm.
proof fn lemma_norm_gap<F: Fn(FloatOp, u64, u64) -> u64>(
    t: Seq<Triplet>,
    r: int,
    a: nat,
    b: nat,
    op: FloatOp,
    fpu: Fpu<F>,
)
    requires
        a <= b,
        forall|c: int| a <= c < b ==> !#[trigger] occupied(t, r, c, t.len() as int),
    ensures
        entries_norm(t, r, b, op, fpu) == entries_norm(t, r, a, op, fpu),
    decreases b,
{
    if a < b {
        lemma_norm_gap(t, r, a, (b - 1) as nat, op, fpu);
        assert(!occupied(t, r, b - 1, t.len() as int));
    }
}

/// The norm of a merged row.
fn merged_norm<F: Fn(FloatOp, u64, u64) -> u64>(
    list: &Vec<(usize, u64)>,
    n: usize,
    op: FloatOp,
    fpu: &Fpu<F>,
    Ghost(t): Ghost<Seq<Triplet>>,
    Ghost(r): Ghost<int>,
) -> (norm: u64)
    requires
        fpu.sound(),
        merged_row(list@, t, r, t.len(), *fpu),
        forall|a: int| 0 <= a < list@.len() ==> (#[trigger] list@[a]).0 < n,
    ensures
        norm == entries_norm(t, r, n as nat, op, *fpu),
{
    let mut norm: u64 = ZERO;
    let mut done: usize = 0;
    for p in 0..list.len()
        invariant
            fpu.sound(),
            merged_row(list@, t, r, t.len(), *fpu),
            forall|a: int| 0 <= a < list@.len() ==> (#[trigger] list@[a]).0 < n,
            done == if p == 0 {
                0
            } else {
                list@[p - 1].0 + 1
            },
            done <= n,
            norm == entries_norm(t, r, done as nat, op, *fpu),
    {
        let c: usize = list[p].0;
        proof {
            if p > 0 {
                assert(list@[p - 1].0 < list@[p as int].0);
            }
            lemma_gap_in(list@, t, r, done as int, c as int, p as int, *fpu);
            lemma_norm_gap(t, r, done as nat, c as nat, op, *fpu);
        }
        norm = fpu.run(op, norm, abs(list[p].1));
        done = c + 1;
    }
    proof {
        lemma_gap_in(list@, t, r, done as int, n as int, list@.len() as int, *fpu);
        lemma_norm_gap(t, r, done as nat, n as nat, op, *fpu);
    }
    norm
}

/// Between the items `p - 1` and `p` of a merged row no column is occupied.
proof fn lemma_gap_in<F: Fn(FloatOp, u64, u64) -> u64>(
    list: Seq<(usize, u64)>,
    t: Seq<Triplet>,
    r: int,
    from: int,
    to: int,
    p: int,
    fpu: Fpu<F>,
)
    requires
        merged_row(list, t, r, t.len(), fpu),
        0 <= p <= list.len(),
        from == if p == 0 {
            0
        } else {
            list[p - 1].0 + 1
        },
        p < list.len() ==> to == list[p].0,
        to <= usize::MAX,
    ensures
        forall|c: int| from <= c < to ==> !#[trigger] occupied(t, r, c, t.len() as int),
{
    assert forall|c: int| from <= c < to implies !#[trigger] occupied(t, r, c, t.len() as int) by {
        if occupied(t, r, c, t.len() as int) {
            let d = c as usize;
            assert(occupied(t, r, d as int, t.len() as int));
            let a = choose|a: int| 0 <= a < list.len() && (#[trigger] list[a]).0 == d;
            if a < p {
                if a < p - 1 {
                    assert(list[a].0 < list[p - 1].0);
                }
            } else if p < a {
                assert(list[p].0 < list[a].0);
            }
        }
    }
}

/// An entry with row and column `k` scaled by `alpha`.
pub open spec fn scaled_entry<F: Fn(FloatOp, u64, u64) -> u64>(
    e: Triplet,
    k: int,
    alpha: u64,
    fpu: Fpu<F>,
) -> Triplet {
    let val = if e.row == k && e.col == k {
        fpu.product(e.val, fpu.product(alpha, alpha))
    } else if e.row == k || e.col == k {
        fpu.product(e.val, alpha)
    } else {
        e.val
    };
    Triplet { row: e.row, col: e.col, val }
}

impl SparseSymmetricMatrix {
    /// The three lists have one length.
    pub open spec fn aligned(&self) -> bool {
        &&& self.triplet_rows@.len() == self.triplet_vals@.len()
        &&& self.triplet_cols@.len() == self.triplet_vals@.len()
    }

    /// The entries.
    pub open spec fn triplets(&self) -> Seq<Triplet> {
        Seq::new(
            self.triplet_vals@.len(),
            |k: int|
                Triplet {
                    row: self.triplet_rows@[k] as int,
                    col: self.triplet_cols@[k] as int,
                    val: self.triplet_vals@[k],
                },
        )
    }

    /// Every entry lies in the upper triangle of an `n` by `n` matrix.
    pub open spec fn well_formed(&self) -> bool {
        &&& self.aligned()
        &&& forall|k: int|
            0 <= k < self.triplets().len() ==> 0 <= (#[trigger] self.triplets()[k]).row
                <= self.triplets()[k].col < self.n
    }

    /// A matrix with a zero entry for every place of the diagonal.
    pub fn zeros(n: usize) -> (m: Self)
        ensures
            m.n == n,
            m.well_formed(),
            m.triplets() == diagonal(0, n as int, ZERO),
    {
        Self::with_capacity(n, n)
    }

    /// The same as [`Self::zeros`]; `capacity` is the number of entries that
    /// are expected.
    pub fn with_capacity(n: usize, capacity: usize) -> (m: Self)
        ensures
            m.n == n,
            m.well_formed(),
            m.triplets() == diagonal(0, n as int, ZERO),
    {
        let cap: usize = if capacity >= n {
            capacity
        } else {
            n
        };
        let mut m: SparseSymmetricMatrix = SparseSymmetricMatrix {
            n,
            triplet_rows: Vec::with_capacity(cap),
            triplet_cols: Vec::with_capacity(cap),
            triplet_vals: Vec::with_capacity(cap),
        };
        m.add_diagonal_range(0, n, ZERO);
        assert(m.triplets() =~= diagonal(0, n as int, ZERO));
        m
    }

    fn push(&mut self, i: usize, j: usize, val: u64)
        requires
            old(self).aligned(),
            i <= j,
        ensures
            final(self).aligned(),
            final(self).n == old(self).n,
            final(self).triplets() == old(self).triplets().push(
                Triplet { row: i as int, col: j as int, val },
            ),
    {
        self.triplet_rows.push(i);
        self.triplet_cols.push(j);
        self.triplet_vals.push(val);
        assert(self.triplets() =~= old(self).triplets().push(
            Triplet { row: i as int, col: j as int, val },
        ));
    }

    /// Appends an entry, moved to the upper triangle. A zero is kept, so that
    /// the pattern does not depend on the values.
    pub fn add(&mut self, i: usize, j: usize, val: u64)
        requires
            old(self).aligned(),
        ensures
            final(self).aligned(),
            final(self).n == old(self).n,
            final(self).triplets() == old(self).triplets().push(upper(i as int, j as int, val)),
    {
        if i <= j {
            self.push(i, j, val);
        } else {
            self.push(j, i, val);
        }
    }

    /// Appends `delta` for every place of the diagonal.
    pub fn add_diagonal(&mut self, delta: u64)
        requires
            old(self).aligned(),
        ensures
            final(self).aligned(),
            final(self).n == old(self).n,
            final(self).triplets() == old(self).triplets() + diagonal(
                0,
                old(self).n as int,
                delta,
            ),
    {
        let n: usize = self.n;
        self.add_diagonal_range(0, n, delta);
    }

    /// Appends `delta` for the places of the diagonal from `start` up to `end`.
    pub fn add_diagonal_range(&mut self, start: usize, end: usize, delta: u64)
        requires
            old(self).aligned(),
        ensures
            final(self).aligned(),
            final(self).n == old(self).n,
            final(self).triplets() == old(self).triplets() + diagonal(
                start as int,
                end as int,
                delta,
            ),
    {
        let ghost before = *self;
        let mut i: usize = start;
        while i < end
            invariant
                start <= i,
                start < end ==> i <= end,
                start >= end ==> i == start,
                self.aligned(),
                self.n == before.n,
                self.triplets() =~= before.triplets() + diagonal(start as int, i as int, delta),
            decreases end - i,
        {
            self.push(i, i, delta);
            assert(diagonal(start as int, i + 1, delta) =~= diagonal(
                start as int,
                i as int,
                delta,
            ).push(Triplet { row: i as int, col: i as int, val: delta }));
            i = i + 1;
        }
        assert(self.triplets() =~= before.triplets() + diagonal(start as int, end as int, delta));
    }

    /// Product of the matrix and `x`.
    pub fn matvec<F: Fn(FloatOp, u64, u64) -> u64>(&self, x: &[u64], y: &mut Vec<u64>, fpu: &Fpu<F>)
        requires
            self.well_formed(),
            x@.len() >= self.n,
            old(y)@.len() >= self.n,
            fpu.sound(),
        ensures
            final(y)@.len() == old(y)@.len(),
            forall|r: int|
                0 <= r < self.n ==> #[trigger] final(y)@[r] == entries_dot(
                    self.triplets(),
                    x@,
                    r,
                    self.triplets().len(),
                    *fpu,
                ),
            forall|r: int| self.n <= r < old(y)@.len() ==> #[trigger] final(y)@[r] == old(y)@[r],
    {
        let n: usize = self.n;
        let ghost before = y@;
        let ghost t = self.triplets();
        for i in 0..n
            invariant
                y@.len() == before.len() >= n,
                forall|r: int| 0 <= r < i ==> #[trigger] y@[r] == ZERO,
                forall|r: int| n <= r < before.len() ==> #[trigger] y@[r] == before[r],
        {
            y.set(i, ZERO);
        }
        for k in 0..self.triplet_rows.len()
            invariant
                self.well_formed(),
                t == self.triplets(),
                n == self.n,
                x@.len() >= n,
                y@.len() == before.len() >= n,
                fpu.sound(),
                forall|r: int|
                    0 <= r < n ==> #[trigger] y@[r] == entries_dot(t, x@, r, k as nat, *fpu),
                forall|r: int| n <= r < before.len() ==> #[trigger] y@[r] == before[r],
        {
            let i: usize = self.triplet_rows[k];
            let j: usize = self.triplet_cols[k];
            let v: u64 = self.triplet_vals[k];
            assert(t[k as int] == Triplet { row: i as int, col: j as int, val: v });
            y.set(i, fpu.add(y[i], fpu.mul(v, x[j])));
            if i != j {
                y.set(j, fpu.add(y[j], fpu.mul(v, x[i])));
            }
        }
    }

    fn row_norms<F: Fn(FloatOp, u64, u64) -> u64>(&self, op: FloatOp, fpu: &Fpu<F>) -> (norms: Vec<
        u64,
    >)
        requires
            self.well_formed(),
            fpu.sound(),
        ensures
            norms@.len() == self.n,
            forall|r: int|
                0 <= r < self.n ==> #[trigger] norms@[r] == entries_norm(
                    self.triplets(),
                    r,
                    self.n as nat,
                    op,
                    *fpu,
                ),
    {
        let n: usize = self.n;
        let ghost t = self.triplets();
        let mut rows: Vec<Vec<(usize, u64)>> = Vec::with_capacity(n);
        for i in 0..n
            invariant
                rows@.len() == i,
                forall|r: int| 0 <= r < i ==> (#[trigger] rows@[r])@.len() == 0,
        {
            rows.push(Vec::new());
        }
        assert forall|r: int| 0 <= r < n implies merged_row((#[trigger] rows@[r])@, t, r, 0, *fpu) by {
        }
        for k in 0..self.triplet_rows.len()
            invariant
                self.well_formed(),
                t == self.triplets(),
                n == self.n,
                rows@.len() == n,
                fpu.sound(),
                forall|r: int|
                    0 <= r < n ==> merged_row((#[trigger] rows@[r])@, t, r, k as nat, *fpu),
        {
            let i: usize = self.triplet_rows[k];
            let j: usize = self.triplet_cols[k];
            let v: u64 = self.triplet_vals[k];
            let ghost before = rows@;
            assert(t[k as int] == Triplet { row: i as int, col: j as int, val: v });
            merge_entry(&mut rows[i], j, v, fpu, Ghost(t), Ghost(i as int), Ghost(k as nat));
            if i != j {
                merge_entry(&mut rows[j], i, v, fpu, Ghost(t), Ghost(j as int), Ghost(k as nat));
            }
            assert forall|r: int| 0 <= r < n implies merged_row(
                (#[trigger] rows@[r])@,
                t,
                r,
                (k + 1) as nat,
                *fpu,
            ) by {
                if r != i && r != j {
                    lemma_merged_skip(before[r]@, t, r, k as nat, *fpu);
                }
            }
        }
        let mut norms: Vec<u64> = Vec::with_capacity(n);
        for i in 0..n
            invariant
                self.well_formed(),
                t == self.triplets(),
                n == self.n,
                rows@.len() == n,
                fpu.sound(),
                forall|r: int|
                    0 <= r < n ==> merged_row((#[trigger] rows@[r])@, t, r, t.len(), *fpu),
                norms@.len() == i,
                forall|r: int|
                    0 <= r < i ==> #[trigger] norms@[r] == entries_norm(t, r, n as nat, op, *fpu),
        {
            let ghost list = rows@[i as int]@;
            assert forall|a: int| 0 <= a < list.len() implies (#[trigger] list[a]).0 < n by {
                let c = list[a].0 as int;
                assert(occupied(t, i as int, c, t.len() as int));
                let p = choose|p: int|
                    0 <= p < t.len() && (#[trigger] t[p]).row == upper(i as int, c, 0).row
                        && t[p].col == upper(i as int, c, 0).col;
                assert(self.triplets()[p].col < n);
            }
            let norm: u64 = merged_norm(&rows[i], n, op, fpu, Ghost(t), Ghost(i as int));
            norms.push(norm);
        }
        norms
    }

    /// Largest magnitude of each row of the matrix.
    pub fn row_abs_max<F: Fn(FloatOp, u64, u64) -> u64>(&self, fpu: &Fpu<F>) -> (norms: Vec<u64>)
        requires
            self.well_formed(),
            fpu.sound(),
        ensures
            norms@.len() == self.n,
            forall|r: int|
                0 <= r < self.n ==> #[trigger] norms@[r] == entries_norm(
                    self.triplets(),
                    r,
                    self.n as nat,
                    FloatOp::Max,
                    *fpu,
                ),
    {
        self.row_norms(FloatOp::Max, fpu)
    }

    /// Sum of the magnitudes of each row of the matrix.
    pub fn row_abs_sum<F: Fn(FloatOp, u64, u64) -> u64>(&self, fpu: &Fpu<F>) -> (norms: Vec<u64>)
        requires
            self.well_formed(),
            fpu.sound(),
        ensures
            norms@.len() == self.n,
            forall|r: int|
                0 <= r < self.n ==> #[trigger] norms@[r] == entries_norm(
                    self.triplets(),
                    r,
                    self.n as nat,
                    FloatOp::Add,
                    *fpu,
                ),
    {
        self.row_norms(FloatOp::Add, fpu)
    }

    /// Scales row `k` and column `k` by `alpha`, diagonal entries by its
    /// square.
    pub fn scale_row_col<F: Fn(FloatOp, u64, u64) -> u64>(
        &mut self,
        k: usize,
        alpha: u64,
        fpu: &Fpu<F>,
    )
        requires
            old(self).aligned(),
            fpu.sound(),
        ensures
            final(self).aligned(),
            final(self).n == old(self).n,
            final(self).triplets() == old(self).triplets().map_values(
                |e: Triplet| scaled_entry(e, k as int, alpha, *fpu),
            ),
    {
        let ghost before = self.triplets();
        let count: usize = self.triplet_rows.len();
        for idx in 0..count
            invariant
                count == before.len(),
                self.aligned(),
                self.n == old(self).n,
                fpu.sound(),
                self.triplet_rows@ == old(self).triplet_rows@,
                self.triplet_cols@ == old(self).triplet_cols@,
                before == old(self).triplets(),
                self.triplets().len() == before.len(),
                forall|p: int|
                    0 <= p < before.len() ==> #[trigger] self.triplets()[p] == if p < idx {
                        scaled_entry(before[p], k as int, alpha, *fpu)
                    } else {
                        before[p]
                    },
        {
            let i: usize = self.triplet_rows[idx];
            let j: usize = self.triplet_cols[idx];
            let v: u64 = self.triplet_vals[idx];
            let ghost now = self.triplets();
            assert(now[idx as int] == before[idx as int]);
            if i == k && j == k {
                self.triplet_vals.set(idx, fpu.mul(v, fpu.mul(alpha, alpha)));
            } else if i == k || j == k {
                self.triplet_vals.set(idx, fpu.mul(v, alpha));
            }
            assert forall|p: int| 0 <= p < before.len() implies #[trigger] self.triplets()[p]
                == if p < idx + 1 {
                scaled_entry(before[p], k as int, alpha, *fpu)
            } else {
                before[p]
            } by {
                if p != idx {
                    assert(self.triplets()[p] == now[p]);
                }
            }
        }
        assert(self.triplets() =~= before.map_values(
            |e: Triplet| scaled_entry(e, k as int, alpha, *fpu),
        ));
    }

    /// Sum of the entries at row `i` and column `j`.
    pub fn get<F: Fn(FloatOp, u64, u64) -> u64>(&self, i: usize, j: usize, fpu: &Fpu<F>) -> (v: u64)
        requires
            self.aligned(),
            fpu.sound(),
        ensures
            v == entries_at(
                self.triplets(),
                upper(i as int, j as int, 0).row,
                upper(i as int, j as int, 0).col,
                self.triplets().len(),
                *fpu,
            ),
    {
        let (ri, ci): (usize, usize) = if i <= j {
            (i, j)
        } else {
            (j, i)
        };
        let ghost t = self.triplets();
        let mut val: u64 = ZERO;
        for k in 0..self.triplet_rows.len()
            invariant
                self.aligned(),
                t == self.triplets(),
                fpu.sound(),
                val == entries_at(t, ri as int, ci as int, k as nat, *fpu),
        {
            assert(t[k as int].row == self.triplet_rows@[k as int]);
            if self.triplet_rows[k] == ri && self.triplet_cols[k] == ci {
                val = fpu.add(val, self.triplet_vals[k]);
            }
        }
        val
    }
}

} // verus!
