//! Fixed variables, kept indices and trial points.

use crate::float::{
    abs, absolute, finite, is_finite, lt, num_lt, FloatOp, Fpu, NAN, ONE, TENTH, TEN_M10, TEN_M4,
    TWO,
};
use vstd::prelude::*;

verus! {

/// The bounds of a variable coincide.
pub open spec fn is_fixed<F: Fn(FloatOp, u64, u64) -> u64>(l: u64, u: u64, fpu: Fpu<F>) -> bool {
    finite(l) && finite(u) && num_lt(absolute(fpu.difference(u, l)), TEN_M10)
}

/// Which variables are free.
pub open spec fn free_variables<F: Fn(FloatOp, u64, u64) -> u64>(
    x_l: Seq<u64>,
    x_u: Seq<u64>,
    fpu: Fpu<F>,
) -> Seq<bool> {
    Seq::new(x_l.len(), |i: int| !is_fixed(x_l[i], x_u[i], fpu))
}

/// The values of the fixed variables, and a NaN for the others.
pub open spec fn fixed_values<F: Fn(FloatOp, u64, u64) -> u64>(
    x_l: Seq<u64>,
    x_u: Seq<u64>,
    fpu: Fpu<F>,
) -> Seq<u64> {
    Seq::new(
        x_l.len(),
        |i: int|
            if is_fixed(x_l[i], x_u[i], fpu) {
                fpu.quotient(fpu.sum(x_l[i], x_u[i]), TWO)
            } else {
                NAN
            },
    )
}

/// The indices below `k` that are kept, in order.
pub open spec fn kept(keep: Seq<bool>, k: nat) -> Seq<usize>
    decreases k,
{
    if k == 0 {
        Seq::empty()
    } else if keep[k - 1] {
        kept(keep, (k - 1) as nat).push((k - 1) as usize)
    } else {
        kept(keep, (k - 1) as nat)
    }
}

/// The place of each index among those that are kept.
pub open spec fn places(keep: Seq<bool>) -> Seq<Option<usize>> {
    Seq::new(
        keep.len(),
        |i: int|
            if keep[i] {
                Some(kept(keep, i as nat).len() as usize)
            } else {
                None
            },
    )
}

/// The kept indices are strictly increasing and lie below `k`; there are at most
/// `k` of them.
pub proof fn lemma_kept(keep: Seq<bool>, k: nat)
    requires
        k <= keep.len() <= usize::MAX,
    ensures
        kept(keep, k).len() <= k,
        forall|i: int| 0 <= i < kept(keep, k).len() ==> (#[trigger] kept(keep, k)[i]) < k,
        forall|i: int| 0 <= i < kept(keep, k).len() ==> keep[#[trigger] kept(keep, k)[i] as int],
        forall|i: int, j: int|
            0 <= i < j < kept(keep, k).len() ==> kept(keep, k)[i] < kept(keep, k)[j],
    decreases k,
{
    if k > 0 {
        lemma_kept(keep, (k - 1) as nat);
    }
}

proof fn lemma_kept_grows(keep: Seq<bool>, i: nat, k: nat)
    requires
        i <= k <= keep.len() <= usize::MAX,
    ensures
        kept(keep, i).len() <= kept(keep, k).len(),
        forall|q: int|
            0 <= q < kept(keep, i).len() ==> kept(keep, k)[q] == #[trigger] kept(keep, i)[q],
    decreases k,
{
    if i < k {
        lemma_kept_grows(keep, i, (k - 1) as nat);
    }
}

/// The place of a kept index points back at it.
pub proof fn places_invert(keep: Seq<bool>, i: int)
    requires
        keep.len() <= usize::MAX,
        0 <= i < keep.len(),
        keep[i],
    ensures
        places(keep)[i] is Some,
        places(keep)[i]->Some_0 < kept(keep, keep.len()).len(),
        kept(keep, keep.len())[places(keep)[i]->Some_0 as int] == i,
{
    lemma_kept(keep, i as nat);
    lemma_kept_grows(keep, (i + 1) as nat, keep.len());
    let before = kept(keep, i as nat);
    let now = kept(keep, (i + 1) as nat);
    assert(now == before.push(i as usize));
    assert(now[before.len() as int] == i);
}

/// The point with the fixed variables at their values.
pub open spec fn settled(x0: Seq<u64>, free: Seq<bool>, values: Seq<u64>) -> Seq<u64> {
    Seq::new(
        x0.len(),
        |i: int|
            if free[i] {
                x0[i]
            } else {
                values[i]
            },
    )
}

/// A value away from `x` and within its bounds, up where there is room, else
/// down.
pub open spec fn moved<F: Fn(FloatOp, u64, u64) -> u64>(
    x: u64,
    l: u64,
    u: u64,
    fpu: Fpu<F>,
) -> u64 {
    let step = fpu.sum(ONE, fpu.product(TENTH, absolute(x)));
    let up = fpu.sum(x, step);
    let up = if finite(u) {
        fpu.calc(FloatOp::Min, up, u)
    } else {
        up
    };
    let down = fpu.difference(x, step);
    if num_lt(absolute(fpu.difference(up, x)), TEN_M4) {
        if finite(l) {
            fpu.calc(FloatOp::Max, down, l)
        } else {
            down
        }
    } else {
        up
    }
}

/// The point with its free variables moved.
pub open spec fn perturbed<F: Fn(FloatOp, u64, u64) -> u64>(
    x: Seq<u64>,
    free: Seq<bool>,
    x_l: Seq<u64>,
    x_u: Seq<u64>,
    fpu: Fpu<F>,
) -> Seq<u64> {
    Seq::new(
        x.len(),
        |i: int|
            if free[i] {
                moved(x[i], x_l[i], x_u[i], fpu)
            } else {
                x[i]
            },
    )
}

/// The values differ by more than `tol`, relative to their size.
pub open spec fn differs<F: Fn(FloatOp, u64, u64) -> u64>(
    a: u64,
    b: u64,
    tol: u64,
    fpu: Fpu<F>,
) -> bool {
    let scale = fpu.calc(
        FloatOp::Max,
        fpu.calc(FloatOp::Max, absolute(a), absolute(b)),
        ONE,
    );
    num_lt(fpu.product(tol, scale), absolute(fpu.difference(a, b)))
}

/// No entry of row `r` differs at the two points.
pub open spec fn row_is_constant<F: Fn(FloatOp, u64, u64) -> u64>(
    rows: Seq<usize>,
    v0: Seq<u64>,
    v1: Seq<u64>,
    tol: u64,
    r: int,
    fpu: Fpu<F>,
) -> bool {
    forall|k: int|
        0 <= k < rows.len() && #[trigger] rows[k] == r ==> !differs(v0[k], v1[k], tol, fpu)
}

pub(crate) fn fixed_at<F: Fn(FloatOp, u64, u64) -> u64>(l: u64, u: u64, fpu: &Fpu<F>) -> (b: bool)
    requires
        fpu.sound(),
    ensures
        b == is_fixed(l, u, *fpu),
{
    is_finite(l) && is_finite(u) && lt(abs(fpu.sub(u, l)), TEN_M10)
}

/// Which variables are free, and the values of the others.
pub(crate) fn find_fixed<F: Fn(FloatOp, u64, u64) -> u64>(
    x_l: &Vec<u64>,
    x_u: &Vec<u64>,
    fpu: &Fpu<F>,
) -> (r: (Vec<bool>, Vec<u64>))
    requires
        fpu.sound(),
        x_u@.len() == x_l@.len(),
    ensures
        r.0@ == free_variables(x_l@, x_u@, *fpu),
        r.1@ == fixed_values(x_l@, x_u@, *fpu),
{
    let ghost free_want = free_variables(x_l@, x_u@, *fpu);
    let ghost values_want = fixed_values(x_l@, x_u@, *fpu);
    let mut free: Vec<bool> = Vec::with_capacity(x_l.len());
    let mut values: Vec<u64> = Vec::with_capacity(x_l.len());
    for i in 0..x_l.len()
        invariant
            fpu.sound(),
            x_u@.len() == x_l@.len(),
            free_want == free_variables(x_l@, x_u@, *fpu),
            values_want == fixed_values(x_l@, x_u@, *fpu),
            free@ == free_want.take(i as int),
            values@ == values_want.take(i as int),
    {
        if fixed_at(x_l[i], x_u[i], fpu) {
            free.push(false);
            values.push(fpu.div(fpu.add(x_l[i], x_u[i]), TWO));
        } else {
            free.push(true);
            values.push(NAN);
        }
        assert(free@ =~= free_want.take(i + 1));
        assert(values@ =~= values_want.take(i + 1));
    }
    assert(free@ =~= free_want);
    assert(values@ =~= values_want);
    (free, values)
}

/// The kept indices, and the place of each index among them.
pub(crate) fn keep_indices(keep: &Vec<bool>) -> (r: (Vec<usize>, Vec<Option<usize>>))
    ensures
        r.0@ == kept(keep@, keep@.len()),
        r.1@ == places(keep@),
{
    let n: usize = keep.len();
    let mut map: Vec<usize> = Vec::new();
    let mut place: Vec<Option<usize>> = Vec::with_capacity(n);
    for i in 0..n
        invariant
            n == keep@.len(),
            map@ == kept(keep@, i as nat),
            place@ == places(keep@).take(i as int),
    {
        if keep[i] {
            place.push(Some(map.len()));
            map.push(i);
        } else {
            place.push(None);
        }
        assert(place@ =~= places(keep@).take(i + 1));
    }
    assert(place@ =~= places(keep@));
    (map, place)
}

pub(crate) fn settle(x0: &Vec<u64>, free: &Vec<bool>, values: &Vec<u64>) -> (x: Vec<u64>)
    requires
        free@.len() == x0@.len(),
        values@.len() == x0@.len(),
    ensures
        x@ == settled(x0@, free@, values@),
{
    let mut x: Vec<u64> = Vec::with_capacity(x0.len());
    for i in 0..x0.len()
        invariant
            free@.len() == x0@.len(),
            values@.len() == x0@.len(),
            x@ == settled(x0@, free@, values@).take(i as int),
    {
        if free[i] {
            x.push(x0[i]);
        } else {
            x.push(values[i]);
        }
        assert(x@ =~= settled(x0@, free@, values@).take(i + 1));
    }
    assert(x@ =~= settled(x0@, free@, values@));
    x
}

fn move_away<F: Fn(FloatOp, u64, u64) -> u64>(x: u64, l: u64, u: u64, fpu: &Fpu<F>) -> (r: u64)
    requires
        fpu.sound(),
    ensures
        r == moved(x, l, u, *fpu),
{
    let step: u64 = fpu.add(ONE, fpu.mul(TENTH, abs(x)));
    let mut r: u64 = fpu.add(x, step);
    if is_finite(u) {
        r = fpu.min(r, u);
    }
    if lt(abs(fpu.sub(r, x)), TEN_M4) {
        r = fpu.sub(x, step);
        if is_finite(l) {
            r = fpu.max(r, l);
        }
    }
    r
}

pub(crate) fn perturb<F: Fn(FloatOp, u64, u64) -> u64>(
    x: &Vec<u64>,
    free: &Vec<bool>,
    x_l: &Vec<u64>,
    x_u: &Vec<u64>,
    fpu: &Fpu<F>,
) -> (r: Vec<u64>)
    requires
        fpu.sound(),
        free@.len() == x@.len(),
        x_l@.len() == x@.len(),
        x_u@.len() == x@.len(),
    ensures
        r@ == perturbed(x@, free@, x_l@, x_u@, *fpu),
{
    let ghost want = perturbed(x@, free@, x_l@, x_u@, *fpu);
    let mut r: Vec<u64> = Vec::with_capacity(x.len());
    for i in 0..x.len()
        invariant
            fpu.sound(),
            free@.len() == x@.len(),
            x_l@.len() == x@.len(),
            x_u@.len() == x@.len(),
            want == perturbed(x@, free@, x_l@, x_u@, *fpu),
            r@ == want.take(i as int),
    {
        if free[i] {
            r.push(move_away(x[i], x_l[i], x_u[i], fpu));
        } else {
            r.push(x[i]);
        }
        assert(r@ =~= want.take(i + 1));
    }
    assert(r@ =~= want);
    r
}

/// Which rows are the same at the two points.
pub(crate) fn constant_rows<F: Fn(FloatOp, u64, u64) -> u64>(
    m: usize,
    rows: &Vec<usize>,
    v0: &Vec<u64>,
    v1: &Vec<u64>,
    tol: u64,
    fpu: &Fpu<F>,
) -> (r: Vec<bool>)
    requires
        fpu.sound(),
        v0@.len() == rows@.len(),
        v1@.len() == rows@.len(),
        forall|k: int| 0 <= k < rows@.len() ==> (#[trigger] rows@[k]) < m,
    ensures
        r@.len() == m,
        forall|i: int|
            0 <= i < m ==> #[trigger] r@[i] == row_is_constant(rows@, v0@, v1@, tol, i, *fpu),
{
    let mut r: Vec<bool> = vec![true; m];
    for k in 0..rows.len()
        invariant
            fpu.sound(),
            v0@.len() == rows@.len(),
            v1@.len() == rows@.len(),
            forall|k: int| 0 <= k < rows@.len() ==> (#[trigger] rows@[k]) < m,
            r@.len() == m,
            forall|i: int|
                0 <= i < m ==> #[trigger] r@[i] == (forall|q: int|
                    0 <= q < k && #[trigger] rows@[q] == i ==> !differs(
                        v0@[q],
                        v1@[q],
                        tol,
                        *fpu,
                    )),
    {
        let row: usize = rows[k];
        let a: u64 = v0[k];
        let b: u64 = v1[k];
        let ghost was = r@;
        if r[row] {
            let diff: u64 = abs(fpu.sub(a, b));
            let scale: u64 = fpu.max(fpu.max(abs(a), abs(b)), ONE);
            if lt(fpu.mul(tol, scale), diff) {
                r.set(row, false);
            }
        }
        proof {
            assert forall|i: int| 0 <= i < m implies #[trigger] r@[i] == (forall|q: int|
                0 <= q < k + 1 && #[trigger] rows@[q] == i ==> !differs(
                    v0@[q],
                    v1@[q],
                    tol,
                    *fpu,
                )) by {
                assert(was[i] == (forall|q: int|
                    0 <= q < k && #[trigger] rows@[q] == i ==> !differs(
                        v0@[q],
                        v1@[q],
                        tol,
                        *fpu,
                    )));
                if i == row && differs(a, b, tol, *fpu) {
                    assert(rows@[k as int] == i && differs(v0@[k as int], v1@[k as int], tol, *fpu));
                }
            }
        }
    }
    r
}

} // verus!
