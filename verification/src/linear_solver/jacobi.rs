//! Eigenvalues of small symmetric matrices by Jacobi rotations.

use crate::float::{
    abs, absolute, is_nan, lt, nan, num_lt, position, FloatOp, Fpu, MINUS_ONE, NAN, ONE, SIGN,
    TEN_M12, TEN_M20, TWO, ZERO,
};
use crate::linear_solver::dense_matrix::SymmetricMatrix;
use vstd::prelude::*;

verus! {

/// Largest number of rotations.
pub const MAX_ROTATIONS: usize = 100;

/// 1e-300.
pub const TEN_M300: u64 = 0x01a5_6e1f_c2f8_f359;

/// The rows of a matrix.
pub open spec fn row_views(rows: Seq<Vec<u64>>) -> Seq<Seq<u64>> {
    Seq::new(rows.len(), |i: int| rows[i]@)
}

/// An entry above the diagonal: its magnitude, row and column.
pub struct Peak {
    pub size: u64,
    pub row: usize,
    pub col: usize,
}

/// The largest of `best` and the entries of row `i` in the columns after `i` and
/// before `j`; the first of them where several are largest.
pub open spec fn row_peak(m: Seq<Seq<u64>>, i: int, j: int, best: Peak) -> Peak
    decreases j - i,
{
    if j <= i + 1 {
        best
    } else {
        let before = row_peak(m, i, j - 1, best);
        let size = absolute(m[i][j - 1]);
        if num_lt(before.size, size) {
            Peak { size, row: i as usize, col: (j - 1) as usize }
        } else {
            before
        }
    }
}

/// The largest entry above the diagonal in the first `i` rows.
pub open spec fn peak(m: Seq<Seq<u64>>, n: int, i: nat) -> Peak
    decreases i,
{
    if i == 0 {
        Peak { size: ZERO, row: 0, col: 1 }
    } else {
        row_peak(m, i - 1, n, peak(m, n, (i - 1) as nat))
    }
}

/// The largest magnitude among the first `i` entries of the diagonal.
pub open spec fn diagonal_size<F: Fn(FloatOp, u64, u64) -> u64>(
    m: Seq<Seq<u64>>,
    i: nat,
    fpu: Fpu<F>,
) -> u64
    decreases i,
{
    if i == 0 {
        TEN_M300
    } else {
        fpu.calc(FloatOp::Max, diagonal_size(m, (i - 1) as nat, fpu), absolute(m[i - 1][i - 1]))
    }
}

/// The entries off the diagonal are small beside those on it.
pub open spec fn settled<F: Fn(FloatOp, u64, u64) -> u64>(
    m: Seq<Seq<u64>>,
    n: int,
    fpu: Fpu<F>,
) -> bool {
    n < 2 || num_lt(
        peak(m, n, n as nat).size,
        fpu.product(TEN_M12, diagonal_size(m, n as nat, fpu)),
    )
}

/// One with the sign of the number.
pub open spec fn unit_of(b: u64) -> u64 {
    if nan(b) {
        NAN
    } else if b >= SIGN {
        MINUS_ONE
    } else {
        ONE
    }
}

/// A rotation in the plane of `p` and `q`.
pub struct Rotation {
    pub p: usize,
    pub q: usize,
    /// Tangent and sine of the angle, and tangent of its half.
    pub t: u64,
    pub s: u64,
    pub tau: u64,
}

/// The tangent of the angle that makes the entry `apq` vanish.
pub open spec fn tangent<F: Fn(FloatOp, u64, u64) -> u64>(
    app: u64,
    aqq: u64,
    apq: u64,
    size: u64,
    fpu: Fpu<F>,
) -> u64 {
    let diff = fpu.difference(aqq, app);
    if num_lt(absolute(diff), fpu.product(TEN_M20, size)) {
        ONE
    } else {
        let phi = fpu.quotient(diff, fpu.product(TWO, apq));
        fpu.quotient(
            unit_of(phi),
            fpu.sum(
                absolute(phi),
                fpu.calc(FloatOp::Sqrt, fpu.sum(ONE, fpu.product(phi, phi)), ZERO),
            ),
        )
    }
}

/// The rotation that makes the largest entry off the diagonal vanish.
pub open spec fn rotation<F: Fn(FloatOp, u64, u64) -> u64>(
    m: Seq<Seq<u64>>,
    n: int,
    fpu: Fpu<F>,
) -> Rotation {
    let top = peak(m, n, n as nat);
    let p = top.row as int;
    let q = top.col as int;
    let t = tangent(m[p][p], m[q][q], m[p][q], top.size, fpu);
    let c = fpu.quotient(
        ONE,
        fpu.calc(FloatOp::Sqrt, fpu.sum(ONE, fpu.product(t, t)), ZERO),
    );
    let s = fpu.product(t, c);
    Rotation { p: top.row, q: top.col, t, s, tau: fpu.quotient(s, fpu.sum(ONE, c)) }
}

/// The entry in the row or column `p` of a rotated matrix.
pub open spec fn turned_p<F: Fn(FloatOp, u64, u64) -> u64>(
    rp: u64,
    rq: u64,
    rot: Rotation,
    fpu: Fpu<F>,
) -> u64 {
    fpu.difference(rp, fpu.product(rot.s, fpu.sum(rq, fpu.product(rot.tau, rp))))
}

/// The entry in the row or column `q` of a rotated matrix.
pub open spec fn turned_q<F: Fn(FloatOp, u64, u64) -> u64>(
    rp: u64,
    rq: u64,
    rot: Rotation,
    fpu: Fpu<F>,
) -> u64 {
    fpu.sum(rq, fpu.product(rot.s, fpu.difference(rp, fpu.product(rot.tau, rq))))
}

/// Entry `(i, j)` of the rotated matrix.
pub open spec fn turned<F: Fn(FloatOp, u64, u64) -> u64>(
    m: Seq<Seq<u64>>,
    rot: Rotation,
    i: int,
    j: int,
    fpu: Fpu<F>,
) -> u64 {
    let p = rot.p as int;
    let q = rot.q as int;
    let step = fpu.product(rot.t, m[p][q]);
    if i == p && j == p {
        fpu.difference(m[p][p], step)
    } else if i == q && j == q {
        fpu.sum(m[q][q], step)
    } else if (i == p && j == q) || (i == q && j == p) {
        ZERO
    } else if j == p {
        turned_p(m[i][p], m[i][q], rot, fpu)
    } else if i == p {
        turned_p(m[j][p], m[j][q], rot, fpu)
    } else if j == q {
        turned_q(m[i][p], m[i][q], rot, fpu)
    } else if i == q {
        turned_q(m[j][p], m[j][q], rot, fpu)
    } else {
        m[i][j]
    }
}

pub open spec fn rotated<F: Fn(FloatOp, u64, u64) -> u64>(
    m: Seq<Seq<u64>>,
    n: int,
    fpu: Fpu<F>,
) -> Seq<Seq<u64>> {
    Seq::new(
        n as nat,
        |i: int| Seq::new(n as nat, |j: int| turned(m, rotation(m, n, fpu), i, j, fpu)),
    )
}

/// The matrix after `k` rotations, or fewer where it is settled before.
pub open spec fn rotations<F: Fn(FloatOp, u64, u64) -> u64>(
    m: Seq<Seq<u64>>,
    n: int,
    k: nat,
    fpu: Fpu<F>,
) -> Seq<Seq<u64>>
    decreases k,
{
    if k == 0 {
        m
    } else {
        let before = rotations(m, n, (k - 1) as nat, fpu);
        if settled(before, n, fpu) {
            before
        } else {
            rotated(before, n, fpu)
        }
    }
}

/// The list with `x` behind the numbers that are not greater.
pub open spec fn put_in(list: Seq<u64>, x: u64) -> Seq<u64>
    decreases list.len(),
{
    if list.len() > 0 && num_lt(x, list.last()) {
        put_in(list.drop_last(), x).push(list.last())
    } else {
        list.push(x)
    }
}

/// The numbers in ascending order; equal ones keep their order.
pub open spec fn ascending(list: Seq<u64>) -> Seq<u64>
    decreases list.len(),
{
    if list.len() == 0 {
        list
    } else {
        put_in(ascending(list.drop_last()), list.last())
    }
}

/// The diagonal.
pub open spec fn diagonal_of(m: Seq<Seq<u64>>, n: int) -> Seq<u64> {
    Seq::new(n as nat, |i: int| m[i][i])
}

/// All rows have the length `n`.
pub open spec fn square(m: Seq<Seq<u64>>, n: int) -> bool {
    &&& m.len() == n
    &&& forall|i: int| 0 <= i < n ==> (#[trigger] m[i]).len() == n
}

proof fn lemma_row_peak(m: Seq<Seq<u64>>, i: int, j: int, n: int, best: Peak)
    requires
        0 <= i < n <= usize::MAX,
        j <= n,
        best.row < best.col < n,
    ensures
        row_peak(m, i, j, best).row < row_peak(m, i, j, best).col < n,
    decreases j - i,
{
    if j > i + 1 {
        lemma_row_peak(m, i, j - 1, n, best);
    }
}

proof fn lemma_peak(m: Seq<Seq<u64>>, n: int, i: nat)
    requires
        2 <= n <= usize::MAX,
        i <= n,
    ensures
        peak(m, n, i).row < peak(m, n, i).col < n,
    decreases i,
{
    if i > 0 {
        lemma_peak(m, n, (i - 1) as nat);
        lemma_row_peak(m, i - 1, n, n, peak(m, n, (i - 1) as nat));
    }
}

fn find_peak(m: &Vec<Vec<u64>>, n: usize) -> (top: Peak)
    requires
        square(row_views(m@), n as int),
    ensures
        top == peak(row_views(m@), n as int, n as nat),
{
    let ghost v = row_views(m@);
    let mut top = Peak { size: ZERO, row: 0, col: 1 };
    for i in 0..n
        invariant
            square(v, n as int),
            v == row_views(m@),
            top == peak(v, n as int, i as nat),
    {
        let ghost best = top;
        assert(v[i as int] == m@[i as int]@);
        for j in i + 1..n
            invariant
                square(v, n as int),
                v == row_views(m@),
                i < n,
                v[i as int] == m@[i as int]@,
                i + 1 <= j,
                top == row_peak(v, i as int, j as int, best),
        {
            assert(v[i as int].len() == n);
            let size: u64 = abs(m[i][j]);
            if lt(top.size, size) {
                top = Peak { size, row: i, col: j };
            }
        }
        proof {
            if i + 1 == n {
                assert(row_peak(v, i as int, n as int, best) == best);
            }
        }
    }
    top
}

fn find_diagonal_size<F: Fn(FloatOp, u64, u64) -> u64>(
    m: &Vec<Vec<u64>>,
    n: usize,
    fpu: &Fpu<F>,
) -> (size: u64)
    requires
        square(row_views(m@), n as int),
        fpu.sound(),
    ensures
        size == diagonal_size(row_views(m@), n as nat, *fpu),
{
    let ghost v = row_views(m@);
    let mut size: u64 = TEN_M300;
    for i in 0..n
        invariant
            square(v, n as int),
            v == row_views(m@),
            fpu.sound(),
            size == diagonal_size(v, i as nat, *fpu),
    {
        assert(v[i as int] == m@[i as int]@);
        size = fpu.max(size, abs(m[i][i]));
    }
    size
}

fn unit(b: u64) -> (r: u64)
    ensures
        r == unit_of(b),
{
    if is_nan(b) {
        NAN
    } else if b >= SIGN {
        MINUS_ONE
    } else {
        ONE
    }
}

/// The rotation about the peak.
fn find_rotation<F: Fn(FloatOp, u64, u64) -> u64>(
    m: &Vec<Vec<u64>>,
    n: usize,
    top: &Peak,
    fpu: &Fpu<F>,
) -> (rot: Rotation)
    requires
        square(row_views(m@), n as int),
        n >= 2,
        *top == peak(row_views(m@), n as int, n as nat),
        fpu.sound(),
    ensures
        rot == rotation(row_views(m@), n as int, *fpu),
        rot.p < rot.q < n,
{
    let ghost v = row_views(m@);
    proof {
        lemma_peak(v, n as int, n as nat);
    }
    let (p, q): (usize, usize) = (top.row, top.col);
    assert(v[p as int] == m@[p as int]@ && v[q as int] == m@[q as int]@);
    let diff: u64 = fpu.sub(m[q][q], m[p][p]);
    let t: u64 = if lt(abs(diff), fpu.mul(TEN_M20, top.size)) {
        ONE
    } else {
        let phi: u64 = fpu.div(diff, fpu.mul(TWO, m[p][q]));
        fpu.div(
            unit(phi),
            fpu.add(abs(phi), fpu.run(FloatOp::Sqrt, fpu.add(ONE, fpu.mul(phi, phi)), ZERO)),
        )
    };
    let c: u64 = fpu.div(ONE, fpu.run(FloatOp::Sqrt, fpu.add(ONE, fpu.mul(t, t)), ZERO));
    let s: u64 = fpu.mul(t, c);
    Rotation { p, q, t, s, tau: fpu.div(s, fpu.add(ONE, c)) }
}

fn turned_entry<F: Fn(FloatOp, u64, u64) -> u64>(
    m: &Vec<Vec<u64>>,
    n: usize,
    rot: &Rotation,
    i: usize,
    j: usize,
    fpu: &Fpu<F>,
) -> (v: u64)
    requires
        square(row_views(m@), n as int),
        rot.p < n,
        rot.q < n,
        i < n,
        j < n,
        fpu.sound(),
    ensures
        v == turned(row_views(m@), *rot, i as int, j as int, *fpu),
{
    let ghost rows = row_views(m@);
    let (p, q): (usize, usize) = (rot.p, rot.q);
    assert(rows[p as int] == m@[p as int]@ && rows[q as int] == m@[q as int]@);
    assert(rows[i as int] == m@[i as int]@ && rows[j as int] == m@[j as int]@);
    if i == p && j == p {
        fpu.sub(m[p][p], fpu.mul(rot.t, m[p][q]))
    } else if i == q && j == q {
        fpu.add(m[q][q], fpu.mul(rot.t, m[p][q]))
    } else if (i == p && j == q) || (i == q && j == p) {
        ZERO
    } else if j == p || i == p {
        let r: usize = if j == p {
            i
        } else {
            j
        };
        let (rp, rq): (u64, u64) = (m[r][p], m[r][q]);
        fpu.sub(rp, fpu.mul(rot.s, fpu.add(rq, fpu.mul(rot.tau, rp))))
    } else if j == q || i == q {
        let r: usize = if j == q {
            i
        } else {
            j
        };
        let (rp, rq): (u64, u64) = (m[r][p], m[r][q]);
        fpu.add(rq, fpu.mul(rot.s, fpu.sub(rp, fpu.mul(rot.tau, rq))))
    } else {
        m[i][j]
    }
}

fn rotate<F: Fn(FloatOp, u64, u64) -> u64>(
    m: &Vec<Vec<u64>>,
    n: usize,
    rot: &Rotation,
    fpu: &Fpu<F>,
) -> (out: Vec<Vec<u64>>)
    requires
        square(row_views(m@), n as int),
        rot.p < n,
        rot.q < n,
        fpu.sound(),
    ensures
        row_views(out@) == Seq::new(
            n as nat,
            |i: int| Seq::new(n as nat, |j: int| turned(row_views(m@), *rot, i, j, *fpu)),
        ),
{
    let ghost v = row_views(m@);
    let mut out: Vec<Vec<u64>> = Vec::with_capacity(n);
    for i in 0..n
        invariant
            square(v, n as int),
            v == row_views(m@),
            rot.p < n,
            rot.q < n,
            fpu.sound(),
            out@.len() == i,
            forall|a: int|
                0 <= a < i ==> (#[trigger] out@[a])@ == Seq::new(
                    n as nat,
                    |j: int| turned(v, *rot, a, j, *fpu),
                ),
    {
        let mut row: Vec<u64> = Vec::with_capacity(n);
        for j in 0..n
            invariant
                square(v, n as int),
                v == row_views(m@),
                rot.p < n,
                rot.q < n,
                i < n,
                fpu.sound(),
                row@.len() == j,
                forall|b: int| 0 <= b < j ==> #[trigger] row@[b] == turned(v, *rot, i as int, b, *fpu),
        {
            row.push(turned_entry(m, n, rot, i, j, fpu));
        }
        assert(row@ =~= Seq::new(n as nat, |j: int| turned(v, *rot, i as int, j, *fpu)));
        out.push(row);
    }
    assert(row_views(out@) =~= Seq::new(
        n as nat,
        |i: int| Seq::new(n as nat, |j: int| turned(v, *rot, i, j, *fpu)),
    ));
    out
}

proof fn lemma_settled_stays<F: Fn(FloatOp, u64, u64) -> u64>(
    m: Seq<Seq<u64>>,
    n: int,
    j: nat,
    k: nat,
    fpu: Fpu<F>,
)
    requires
        j <= k,
        settled(rotations(m, n, j, fpu), n, fpu),
    ensures
        rotations(m, n, k, fpu) == rotations(m, n, j, fpu),
    decreases k,
{
    if j < k {
        lemma_settled_stays(m, n, j, (k - 1) as nat, fpu);
    }
}

/// Puts a number into an ascending list.
fn put(list: &mut Vec<u64>, x: u64)
    ensures
        final(list)@ == put_in(old(list)@, x),
{
    let ghost was = list@;
    let len: usize = list.len();
    list.push(x);
    let mut k: usize = len;
    assert(list@ =~= was.take(k as int).push(x) + was.skip(k as int));
    assert(was.take(k as int) =~= was);
    assert(put_in(was, x) =~= put_in(was, x) + was.skip(k as int));
    while k > 0 && lt(x, list[k - 1])
        invariant
            k <= len,
            was.len() == len,
            list@ == was.take(k as int).push(x) + was.skip(k as int),
            put_in(was, x) == put_in(was.take(k as int), x) + was.skip(k as int),
        decreases k,
    {
        let y: u64 = list[k - 1];
        assert(y == was[k - 1]);
        list.set(k - 1, x);
        list.set(k, y);
        proof {
            let a = was.take(k as int);
            assert(a.last() == y);
            assert(a.drop_last() =~= was.take(k - 1));
            assert(put_in(a, x) == put_in(was.take(k - 1), x).push(y));
            assert(put_in(a, x) + was.skip(k as int) =~= put_in(was.take(k - 1), x) + was.skip(
                k - 1,
            ));
            assert(list@ =~= was.take(k - 1).push(x) + was.skip(k - 1));
        }
        k = k - 1;
    }
    proof {
        let a = was.take(k as int);
        if k > 0 {
            assert(a.last() == was[k - 1]);
            assert(list@[k - 1] == was[k - 1]);
        }
        assert(put_in(a, x) == a.push(x));
    }
}

impl SymmetricMatrix {
    /// The eigenvalues in ascending order, for matrices of few rows.
    pub fn eigenvalues<F: Fn(FloatOp, u64, u64) -> u64>(&self, fpu: &Fpu<F>) -> (eigs: Vec<u64>)
        requires
            self.well_formed(),
            fpu.sound(),
        ensures
            eigs@ == ascending(
                diagonal_of(
                    rotations(
                        Seq::new(
                            self.n as nat,
                            |i: int| Seq::new(self.n as nat, |j: int| self.at(i, j)),
                        ),
                        self.n as int,
                        MAX_ROTATIONS as nat,
                        *fpu,
                    ),
                    self.n as int,
                ),
            ),
    {
        let n: usize = self.n;
        let ghost start = Seq::new(
            n as nat,
            |i: int| Seq::new(n as nat, |j: int| self.at(i, j)),
        );
        let mut m: Vec<Vec<u64>> = self.to_full();
        proof {
            assert forall|i: int| 0 <= i < n implies #[trigger] row_views(m@)[i] == start[i] by {
                assert(m@[i]@ =~= start[i]);
            }
            assert(row_views(m@) =~= start);
        }
        let mut k: usize = 0;
        let mut done: bool = false;
        while k < MAX_ROTATIONS && !done
            invariant
                n == self.n,
                fpu.sound(),
                k <= MAX_ROTATIONS,
                square(row_views(m@), n as int),
                row_views(m@) == rotations(start, n as int, k as nat, *fpu),
                done ==> settled(row_views(m@), n as int, *fpu),
            decreases
                MAX_ROTATIONS - k,
                if done {
                    0int
                } else {
                    1int
                },
        {
            let top: Peak = find_peak(&m, n);
            let size: u64 = find_diagonal_size(&m, n, fpu);
            if n < 2 || lt(top.size, fpu.mul(TEN_M12, size)) {
                done = true;
            } else {
                let rot: Rotation = find_rotation(&m, n, &top, fpu);
                m = rotate(&m, n, &rot, fpu);
                k = k + 1;
            }
        }
        proof {
            if done {
                lemma_settled_stays(start, n as int, k as nat, MAX_ROTATIONS as nat, *fpu);
            }
        }
        let ghost d = diagonal_of(row_views(m@), n as int);
        let mut eigs: Vec<u64> = Vec::with_capacity(n);
        assert(eigs@ =~= ascending(d.take(0)));
        for i in 0..n
            invariant
                square(row_views(m@), n as int),
                d == diagonal_of(row_views(m@), n as int),
                eigs@ == ascending(d.take(i as int)),
        {
            assert(row_views(m@)[i as int] == m@[i as int]@);
            let x: u64 = m[i][i];
            put(&mut eigs, x);
            assert(d.take(i + 1).drop_last() =~= d.take(i as int));
        }
        assert(d.take(n as int) =~= d);
        eigs
    }
}

proof fn lemma_put_in(list: Seq<u64>, x: u64)
    requires
        !nan(x),
        forall|i: int| 0 <= i < list.len() ==> !nan(#[trigger] list[i]),
        forall|i: int, j: int|
            0 <= i <= j < list.len() ==> position(#[trigger] list[i]) <= position(
                #[trigger] list[j],
            ),
    ensures
        put_in(list, x).len() == list.len() + 1,
        forall|i: int| 0 <= i < put_in(list, x).len() ==> !nan(#[trigger] put_in(list, x)[i]),
        forall|i: int, j: int|
            0 <= i <= j < put_in(list, x).len() ==> position(#[trigger] put_in(list, x)[i])
                <= position(#[trigger] put_in(list, x)[j]),
        forall|i: int|
            0 <= i < put_in(list, x).len() ==> position(#[trigger] put_in(list, x)[i]) <= if (
            list.len() > 0 && num_lt(x, list.last())) {
                position(list.last())
            } else {
                position(x)
            },
        put_in(list, x).to_multiset() =~= list.to_multiset().insert(x),
    decreases list.len(),
{
    broadcast use vstd::seq_lib::group_to_multiset_ensures;

    if list.len() > 0 && num_lt(x, list.last()) {
        let rest = list.drop_last();
        lemma_put_in(rest, x);
        assert(list =~= rest.push(list.last()));
        assert(list.to_multiset() =~= rest.to_multiset().insert(list.last()));
        if rest.len() > 0 {
            assert(position(list[list.len() - 2]) <= position(list[list.len() - 1]));
        }
    }
}

/// Ascending order: the same numbers, none before a smaller one, as long as all of
/// them are numbers.
pub proof fn ascending_sorts(list: Seq<u64>)
    requires
        forall|i: int| 0 <= i < list.len() ==> !nan(#[trigger] list[i]),
    ensures
        ascending(list).len() == list.len(),
        forall|i: int| 0 <= i < list.len() ==> !nan(#[trigger] ascending(list)[i]),
        forall|i: int, j: int|
            0 <= i <= j < list.len() ==> position(#[trigger] ascending(list)[i]) <= position(
                #[trigger] ascending(list)[j],
            ),
        ascending(list).to_multiset() =~= list.to_multiset(),
    decreases list.len(),
{
    broadcast use vstd::seq_lib::group_to_multiset_ensures;

    if list.len() > 0 {
        let rest = list.drop_last();
        assert forall|i: int| 0 <= i < rest.len() implies !nan(#[trigger] rest[i]) by {
            assert(rest[i] == list[i]);
        }
        ascending_sorts(rest);
        assert(list.last() == list[list.len() - 1]);
        lemma_put_in(ascending(rest), list.last());
        assert(list =~= rest.push(list.last()));
    }
}

} // verus!
