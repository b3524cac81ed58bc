//! Which constraints are equations, and which variables have bounds.

use crate::float::{abs, absolute, finite, is_finite, lt, num_lt, FloatOp, Fpu, TEN_M14};
use vstd::prelude::*;

verus! {

/// A constraint whose bounds are finite and agree.
pub open spec fn is_equation<F: Fn(FloatOp, u64, u64) -> u64>(
    lower: u64,
    upper: u64,
    fpu: Fpu<F>,
) -> bool {
    finite(lower) && finite(upper) && num_lt(absolute(fpu.difference(lower, upper)), TEN_M14)
}

/// Tells whether a constraint's bounds are finite and agree.
pub fn is_equality_constraint<F: Fn(FloatOp, u64, u64) -> u64>(
    lower: u64,
    upper: u64,
    fpu: &Fpu<F>,
) -> (equation: bool)
    requires
        fpu.sound(),
    ensures
        equation == is_equation(lower, upper, *fpu),
{
    is_finite(lower) && is_finite(upper) && lt(abs(fpu.sub(lower, upper)), TEN_M14)
}

/// The indices below `i` of constraints that are equations, or that are not.
pub open spec fn constraints_of<F: Fn(FloatOp, u64, u64) -> u64>(
    lower: Seq<u64>,
    upper: Seq<u64>,
    i: nat,
    equation: bool,
    fpu: Fpu<F>,
) -> Seq<usize>
    decreases i,
{
    if i == 0 {
        Seq::empty()
    } else {
        let before = constraints_of(lower, upper, (i - 1) as nat, equation, fpu);
        if is_equation(lower[i - 1], upper[i - 1], fpu) == equation {
            before.push((i - 1) as usize)
        } else {
            before
        }
    }
}

/// The equations and the inequalities among the constraints, each in order.
#[derive(Debug)]
pub struct ConstraintLayout {
    /// Constraint of each equation.
    pub c_to_combined: Vec<usize>,
    /// Constraint of each inequality.
    pub d_to_combined: Vec<usize>,
}

impl ConstraintLayout {
    pub fn new<F: Fn(FloatOp, u64, u64) -> u64>(g_l: &[u64], g_u: &[u64], fpu: &Fpu<F>) -> (l: Self)
        requires
            g_u@.len() >= g_l@.len(),
            fpu.sound(),
        ensures
            l.c_to_combined@ == constraints_of(g_l@, g_u@, g_l@.len(), true, *fpu),
            l.d_to_combined@ == constraints_of(g_l@, g_u@, g_l@.len(), false, *fpu),
    {
        let mut c: Vec<usize> = Vec::new();
        let mut d: Vec<usize> = Vec::new();
        for i in 0..g_l.len()
            invariant
                g_u@.len() >= g_l@.len(),
                fpu.sound(),
                c@ == constraints_of(g_l@, g_u@, i as nat, true, *fpu),
                d@ == constraints_of(g_l@, g_u@, i as nat, false, *fpu),
        {
            if is_equality_constraint(g_l[i], g_u[i], fpu) {
                c.push(i);
            } else {
                d.push(i);
            }
        }
        ConstraintLayout { c_to_combined: c, d_to_combined: d }
    }
}

/// The indices below `i` with a finite bound.
pub open spec fn bounded_below(bounds: Seq<u64>, i: nat) -> Seq<usize>
    decreases i,
{
    if i == 0 {
        Seq::empty()
    } else if finite(bounds[i - 1]) {
        bounded_below(bounds, (i - 1) as nat).push((i - 1) as usize)
    } else {
        bounded_below(bounds, (i - 1) as nat)
    }
}

/// The variables with a lower and those with an upper bound, each in order.
#[derive(Debug)]
pub struct BoundLayout {
    pub n_x_l: usize,
    pub n_x_u: usize,
    /// Variable of each lower bound.
    pub x_l_to_full: Vec<usize>,
    /// Variable of each upper bound.
    pub x_u_to_full: Vec<usize>,
}

fn bounded(bounds: &[u64]) -> (list: Vec<usize>)
    ensures
        list@ == bounded_below(bounds@, bounds@.len()),
{
    let mut list: Vec<usize> = Vec::new();
    for i in 0..bounds.len()
        invariant
            list@ == bounded_below(bounds@, i as nat),
    {
        if is_finite(bounds[i]) {
            list.push(i);
        }
    }
    list
}

impl BoundLayout {
    pub open spec fn well_formed(&self) -> bool {
        self.n_x_l == self.x_l_to_full@.len() && self.n_x_u == self.x_u_to_full@.len()
    }

    pub fn new(x_l: &[u64], x_u: &[u64]) -> (l: Self)
        ensures
            l.well_formed(),
            l.x_l_to_full@ == bounded_below(x_l@, x_l@.len()),
            l.x_u_to_full@ == bounded_below(x_u@, x_u@.len()),
    {
        let lower: Vec<usize> = bounded(x_l);
        let upper: Vec<usize> = bounded(x_u);
        BoundLayout {
            n_x_l: lower.len(),
            n_x_u: upper.len(),
            x_l_to_full: lower,
            x_u_to_full: upper,
        }
    }
}

/// The equations and the inequalities are the constraints, each once and in order:
/// a constraint is listed among the equations if its bounds are finite and agree,
/// and else among the inequalities.
pub proof fn layouts_partition<F: Fn(FloatOp, u64, u64) -> u64>(
    lower: Seq<u64>,
    upper: Seq<u64>,
    m: nat,
    equation: bool,
    fpu: Fpu<F>,
)
    requires
        m <= usize::MAX,
    ensures
        ({
            let list = constraints_of(lower, upper, m, equation, fpu);
            &&& forall|a: int, b: int|
                0 <= a < b < list.len() ==> (#[trigger] list[a]) < (#[trigger] list[b])
            &&& forall|i: usize| #[trigger]
                list.contains(i) <==> i < m && equation == (finite(lower[i as int]) && finite(
                    upper[i as int],
                ) && num_lt(
                    absolute(fpu.difference(lower[i as int], upper[i as int])),
                    TEN_M14,
                ))
        }),
    decreases m,
{
    if m > 0 {
        layouts_partition(lower, upper, (m - 1) as nat, equation, fpu);
        let before = constraints_of(lower, upper, (m - 1) as nat, equation, fpu);
        let list = constraints_of(lower, upper, m, equation, fpu);
        let last = (m - 1) as usize;
        assert forall|a: int, b: int| 0 <= a < b < list.len() implies (#[trigger] list[a]) < (
        #[trigger] list[b]) by {
            assert(list[a] == before[a]);
            assert(before.contains(before[a]));
        }
        assert forall|i: usize| #[trigger]
            list.contains(i) <==> i < m && equation == is_equation(
                lower[i as int],
                upper[i as int],
                fpu,
            ) by {
            if before.contains(i) {
                let a = choose|a: int| 0 <= a < before.len() && before[a] == i;
                assert(list[a] == i);
            }
            if is_equation(lower[m - 1], upper[m - 1], fpu) == equation {
                assert(list[before.len() as int] == last);
            }
            if list.contains(i) {
                let a = choose|a: int| 0 <= a < list.len() && list[a] == i;
                if a < before.len() {
                    assert(before[a] == i);
                    assert(before.contains(i));
                }
            }
        }
    }
}

/// The variables with a bound are listed, each once and in order.
pub proof fn bounds_are_listed(bounds: Seq<u64>, n: nat)
    requires
        n <= usize::MAX,
    ensures
        ({
            let list = bounded_below(bounds, n);
            &&& forall|a: int, b: int|
                0 <= a < b < list.len() ==> (#[trigger] list[a]) < (#[trigger] list[b])
            &&& forall|i: usize| #[trigger]
                list.contains(i) <==> i < n && finite(bounds[i as int])
        }),
    decreases n,
{
    if n > 0 {
        bounds_are_listed(bounds, (n - 1) as nat);
        let before = bounded_below(bounds, (n - 1) as nat);
        let list = bounded_below(bounds, n);
        let last = (n - 1) as usize;
        assert forall|a: int, b: int| 0 <= a < b < list.len() implies (#[trigger] list[a]) < (
        #[trigger] list[b]) by {
            assert(list[a] == before[a]);
            assert(before.contains(before[a]));
        }
        assert forall|i: usize| #[trigger]
            list.contains(i) <==> i < n && finite(bounds[i as int]) by {
            if before.contains(i) {
                let a = choose|a: int| 0 <= a < before.len() && before[a] == i;
                assert(list[a] == i);
            }
            if finite(bounds[n - 1]) {
                assert(list[before.len() as int] == last);
            }
            if list.contains(i) {
                let a = choose|a: int| 0 <= a < list.len() && list[a] == i;
                if a < before.len() {
                    assert(before[a] == i);
                    assert(before.contains(i));
                }
            }
        }
    }
}

} // verus!
