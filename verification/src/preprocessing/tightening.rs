//! Bounds of variables from linear constraints in one variable.

use crate::float::{
    abs, absolute, finite, is_finite, lt, num_lt, FloatOp, Fpu, INFINITY, NEG_INFINITY, TEN_M20,
    TWO, ZERO,
};
use crate::preprocessing::points::{kept, places, places_invert};
use crate::problem::pattern_within;
use vstd::prelude::*;

verus! {

/// The entries of row `r` at free variables among the first `k` of the
/// Jacobian, with their columns. Entries of at most `1e-20` are left out.
pub open spec fn row_terms(
    rows: Seq<usize>,
    cols: Seq<usize>,
    vals: Seq<u64>,
    free: Seq<bool>,
    r: int,
    k: nat,
) -> Seq<(usize, u64)>
    decreases k,
{
    if k == 0 {
        Seq::empty()
    } else {
        let before = row_terms(rows, cols, vals, free, r, (k - 1) as nat);
        let c = cols[k - 1];
        let v = vals[k - 1];
        if rows[k - 1] == r && num_lt(TEN_M20, absolute(v)) && free[c as int] {
            before.push((c, v))
        } else {
            before
        }
    }
}

/// What the fixed variables contribute to row `r` by the first `k` entries of the
/// Jacobian, added up from the left. Entries of at most `1e-20` are left out.
pub open spec fn fixed_part<F: Fn(FloatOp, u64, u64) -> u64>(
    rows: Seq<usize>,
    cols: Seq<usize>,
    vals: Seq<u64>,
    free: Seq<bool>,
    x0: Seq<u64>,
    r: int,
    k: nat,
    fpu: Fpu<F>,
) -> u64
    decreases k,
{
    if k == 0 {
        ZERO
    } else {
        let before = fixed_part(rows, cols, vals, free, x0, r, (k - 1) as nat, fpu);
        let c = cols[k - 1] as int;
        let v = vals[k - 1];
        if rows[k - 1] == r && num_lt(TEN_M20, absolute(v)) && !free[c] {
            fpu.sum(before, fpu.product(v, x0[c]))
        } else {
            before
        }
    }
}

/// The constant of a row that is `a x` plus a constant, from its value `g` at
/// `x`.
pub open spec fn row_constant<F: Fn(FloatOp, u64, u64) -> u64>(
    g: u64,
    a: u64,
    x: u64,
    fpu: Fpu<F>,
) -> u64 {
    fpu.difference(g, fpu.product(a, x))
}

/// The range of `x` in which `l <= a x + constant <= u`.
pub open spec fn implied_range<F: Fn(FloatOp, u64, u64) -> u64>(
    l: u64,
    u: u64,
    constant: u64,
    a: u64,
    fpu: Fpu<F>,
) -> (u64, u64) {
    let positive = num_lt(ZERO, a);
    let at_l = if finite(l) {
        fpu.quotient(fpu.difference(l, constant), a)
    } else if positive {
        NEG_INFINITY
    } else {
        INFINITY
    };
    let at_u = if finite(u) {
        fpu.quotient(fpu.difference(u, constant), a)
    } else if positive {
        INFINITY
    } else {
        NEG_INFINITY
    };
    if positive {
        (at_l, at_u)
    } else {
        (at_u, at_l)
    }
}

/// The range narrowed to another one, unless less than twice `bound_push` would
/// be left.
pub open spec fn narrowed<F: Fn(FloatOp, u64, u64) -> u64>(
    range: (u64, u64),
    other: (u64, u64),
    bound_push: u64,
    fpu: Fpu<F>,
) -> (u64, u64) {
    let l = if finite(other.0) && num_lt(range.0, other.0) {
        other.0
    } else {
        range.0
    };
    let u = if finite(other.1) && num_lt(other.1, range.1) {
        other.1
    } else {
        range.1
    };
    if finite(l) && finite(u) && num_lt(fpu.difference(u, l), fpu.product(TWO, bound_push)) {
        range
    } else {
        (l, u)
    }
}

/// What tightening reads.
pub struct TightenData {
    pub rows: Seq<usize>,
    pub cols: Seq<usize>,
    pub vals: Seq<u64>,
    pub free: Seq<bool>,
    /// The point at which the constraints have the values `g0`, where they could
    /// be evaluated. The fixed variables have their values there.
    pub x0: Seq<u64>,
    pub g0: Option<Seq<u64>>,
    /// Which constraints are linear.
    pub linear: Seq<bool>,
    pub g_l: Seq<u64>,
    pub g_u: Seq<u64>,
    pub bound_push: u64,
}

/// The part of row `r` that does not change, where `a x` is the rest of it and
/// variable `c` is `x`. Without the values of the constraints it is what the fixed
/// variables contribute.
pub open spec fn constant_part<F: Fn(FloatOp, u64, u64) -> u64>(
    d: TightenData,
    r: int,
    c: int,
    a: u64,
    fpu: Fpu<F>,
) -> u64 {
    match d.g0 {
        Some(g) => row_constant(g[r], a, d.x0[c], fpu),
        None => fixed_part(d.rows, d.cols, d.vals, d.free, d.x0, r, d.rows.len(), fpu),
    }
}

/// The bounds of the free variables after the first `k` constraints.
pub open spec fn tightened<F: Fn(FloatOp, u64, u64) -> u64>(
    d: TightenData,
    l: Seq<u64>,
    u: Seq<u64>,
    k: nat,
    fpu: Fpu<F>,
) -> (Seq<u64>, Seq<u64>)
    decreases k,
{
    if k == 0 {
        (l, u)
    } else {
        let (bl, bu) = tightened(d, l, u, (k - 1) as nat, fpu);
        let t = row_terms(d.rows, d.cols, d.vals, d.free, k - 1, d.rows.len());
        if d.linear[k - 1] && t.len() == 1 {
            let (c, a) = t[0];
            match places(d.free)[c as int] {
                Some(p) => {
                    let j = p as int;
                    let constant = constant_part(d, k - 1, c as int, a, fpu);
                    let range = narrowed(
                        (bl[j], bu[j]),
                        implied_range(d.g_l[k - 1], d.g_u[k - 1], constant, a, fpu),
                        d.bound_push,
                        fpu,
                    );
                    (bl.update(j, range.0), bu.update(j, range.1))
                },
                None => (bl, bu),
            }
        } else {
            (bl, bu)
        }
    }
}

/// Narrowing never widens: the new bounds are the old ones or lie within them.
pub proof fn narrowing_keeps_bounds<F: Fn(FloatOp, u64, u64) -> u64>(
    range: (u64, u64),
    other: (u64, u64),
    bound_push: u64,
    fpu: Fpu<F>,
)
    ensures
        ({
            let r = narrowed(range, other, bound_push, fpu);
            &&& r.0 == range.0 || num_lt(range.0, r.0)
            &&& r.1 == range.1 || num_lt(r.1, range.1)
        }),
{
}

/// The terms of a row.
fn terms_of(
    rows: &Vec<usize>,
    cols: &Vec<usize>,
    vals: &Vec<u64>,
    free: &Vec<bool>,
    r: usize,
) -> (entries: Vec<(usize, u64)>)
    requires
        pattern_within(rows@, cols@, usize::MAX as nat + 1, free@.len()),
        vals@.len() == rows@.len(),
    ensures
        entries@ == row_terms(rows@, cols@, vals@, free@, r as int, rows@.len()),
        forall|i: int| 0 <= i < entries@.len() ==> (#[trigger] entries@[i]).0 < free@.len(),
        forall|i: int| 0 <= i < entries@.len() ==> free@[(#[trigger] entries@[i]).0 as int],
{
    let mut entries: Vec<(usize, u64)> = Vec::new();
    for k in 0..rows.len()
        invariant
            pattern_within(rows@, cols@, usize::MAX as nat + 1, free@.len()),
            vals@.len() == rows@.len(),
            entries@ == row_terms(rows@, cols@, vals@, free@, r as int, k as nat),
            forall|i: int| 0 <= i < entries@.len() ==> (#[trigger] entries@[i]).0 < free@.len(),
            forall|i: int| 0 <= i < entries@.len() ==> free@[(#[trigger] entries@[i]).0 as int],
    {
        let c: usize = cols[k];
        let v: u64 = vals[k];
        if rows[k] == r && lt(TEN_M20, abs(v)) && free[c] {
            entries.push((c, v));
        }
    }
    entries
}

/// What the fixed variables contribute to a row.
fn fixed_part_of<F: Fn(FloatOp, u64, u64) -> u64>(
    rows: &Vec<usize>,
    cols: &Vec<usize>,
    vals: &Vec<u64>,
    free: &Vec<bool>,
    x0: &Vec<u64>,
    r: usize,
    fpu: &Fpu<F>,
) -> (sum: u64)
    requires
        fpu.sound(),
        pattern_within(rows@, cols@, usize::MAX as nat + 1, free@.len()),
        vals@.len() == rows@.len(),
        x0@.len() == free@.len(),
    ensures
        sum == fixed_part(rows@, cols@, vals@, free@, x0@, r as int, rows@.len(), *fpu),
{
    let mut sum: u64 = ZERO;
    for k in 0..rows.len()
        invariant
            fpu.sound(),
            pattern_within(rows@, cols@, usize::MAX as nat + 1, free@.len()),
            vals@.len() == rows@.len(),
            x0@.len() == free@.len(),
            sum == fixed_part(rows@, cols@, vals@, free@, x0@, r as int, k as nat, *fpu),
    {
        let c: usize = cols[k];
        let v: u64 = vals[k];
        if rows[k] == r && lt(TEN_M20, abs(v)) && !free[c] {
            sum = fpu.add(sum, fpu.mul(v, x0[c]));
        }
    }
    sum
}

/// The numbers in a list, where there is one.
pub(crate) open spec fn list_view(v: Option<&Vec<u64>>) -> Option<Seq<u64>> {
    match v {
        Some(w) => Some(w@),
        None => None,
    }
}

fn range_of<F: Fn(FloatOp, u64, u64) -> u64>(
    l: u64,
    u: u64,
    constant: u64,
    a: u64,
    fpu: &Fpu<F>,
) -> (r: (u64, u64))
    requires
        fpu.sound(),
    ensures
        r == implied_range(l, u, constant, a, *fpu),
{
    let positive: bool = lt(ZERO, a);
    let at_l: u64 = if is_finite(l) {
        fpu.div(fpu.sub(l, constant), a)
    } else if positive {
        NEG_INFINITY
    } else {
        INFINITY
    };
    let at_u: u64 = if is_finite(u) {
        fpu.div(fpu.sub(u, constant), a)
    } else if positive {
        INFINITY
    } else {
        NEG_INFINITY
    };
    if positive {
        (at_l, at_u)
    } else {
        (at_u, at_l)
    }
}

fn narrow<F: Fn(FloatOp, u64, u64) -> u64>(
    range: (u64, u64),
    other: (u64, u64),
    bound_push: u64,
    fpu: &Fpu<F>,
) -> (r: (u64, u64))
    requires
        fpu.sound(),
    ensures
        r == narrowed(range, other, bound_push, *fpu),
{
    let l: u64 = if is_finite(other.0) && lt(range.0, other.0) {
        other.0
    } else {
        range.0
    };
    let u: u64 = if is_finite(other.1) && lt(other.1, range.1) {
        other.1
    } else {
        range.1
    };
    if is_finite(l) && is_finite(u) && lt(fpu.sub(u, l), fpu.mul(TWO, bound_push)) {
        range
    } else {
        (l, u)
    }
}

/// Tightens the bounds of the free variables.
pub(crate) fn tighten<F: Fn(FloatOp, u64, u64) -> u64>(
    rows: &Vec<usize>,
    cols: &Vec<usize>,
    vals: &Vec<u64>,
    free: &Vec<bool>,
    x0: &Vec<u64>,
    g0: Option<&Vec<u64>>,
    place: &Vec<Option<usize>>,
    linear: &Vec<bool>,
    g_l: &Vec<u64>,
    g_u: &Vec<u64>,
    bound_push: u64,
    x_l: &mut Vec<u64>,
    x_u: &mut Vec<u64>,
    fpu: &Fpu<F>,
)
    requires
        fpu.sound(),
        pattern_within(rows@, cols@, linear@.len(), free@.len()),
        vals@.len() == rows@.len(),
        x0@.len() == free@.len(),
        g0 matches Some(g) ==> g@.len() == linear@.len(),
        place@ == places(free@),
        g_l@.len() == linear@.len(),
        g_u@.len() == linear@.len(),
        old(x_l)@.len() == kept(free@, free@.len()).len(),
        old(x_u)@.len() == old(x_l)@.len(),
    ensures
        final(x_l)@.len() == old(x_l)@.len(),
        final(x_u)@.len() == old(x_u)@.len(),
        (final(x_l)@, final(x_u)@) == tightened(
            TightenData {
                rows: rows@,
                cols: cols@,
                vals: vals@,
                free: free@,
                x0: x0@,
                g0: list_view(g0),
                linear: linear@,
                g_l: g_l@,
                g_u: g_u@,
                bound_push,
            },
            old(x_l)@,
            old(x_u)@,
            linear@.len(),
            *fpu,
        ),
{
    let ghost d = TightenData {
        rows: rows@,
        cols: cols@,
        vals: vals@,
        free: free@,
        x0: x0@,
        g0: list_view(g0),
        linear: linear@,
        g_l: g_l@,
        g_u: g_u@,
        bound_push,
    };
    let ghost l0 = x_l@;
    let ghost u0 = x_u@;
    let m: usize = linear.len();
    let n: usize = free.len();
    for ci in 0..m
        invariant
            fpu.sound(),
            m == linear@.len(),
            n == free@.len(),
            pattern_within(rows@, cols@, linear@.len(), free@.len()),
            vals@.len() == rows@.len(),
            x0@.len() == free@.len(),
            g0 matches Some(g) ==> g@.len() == linear@.len(),
            place@ == places(free@),
            g_l@.len() == linear@.len(),
            g_u@.len() == linear@.len(),
            x_l@.len() == l0.len(),
            x_u@.len() == l0.len(),
            l0.len() == kept(free@, free@.len()).len(),
            d == (TightenData {
                rows: rows@,
                cols: cols@,
                vals: vals@,
                free: free@,
                x0: x0@,
                g0: list_view(g0),
                linear: linear@,
                g_l: g_l@,
                g_u: g_u@,
                bound_push,
            }),
            (x_l@, x_u@) == tightened(d, l0, u0, ci as nat, *fpu),
    {
        if linear[ci] {
            let entries: Vec<(usize, u64)> = terms_of(rows, cols, vals, free, ci);
            if entries.len() == 1 {
                let (c, a): (usize, u64) = entries[0];
                assert(entries@[0].0 < free@.len());
                proof {
                    places_invert(free@, c as int);
                }
                match place[c] {
                    Some(j) => {
                        let constant: u64 = match g0 {
                            Some(g) => fpu.sub(g[ci], fpu.mul(a, x0[c])),
                            None => fixed_part_of(rows, cols, vals, free, x0, ci, fpu),
                        };
                        let range: (u64, u64) = narrow(
                            (x_l[j], x_u[j]),
                            range_of(g_l[ci], g_u[ci], constant, a, fpu),
                            bound_push,
                            fpu,
                        );
                        x_l.set(j, range.0);
                        x_u.set(j, range.1);
                    },
                    None => {},
                }
            }
        }
    }
}

} // verus!
