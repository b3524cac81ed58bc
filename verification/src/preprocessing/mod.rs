//! Elimination of fixed variables and redundant constraints.
//!
//! A problem is presented with fewer variables and constraints: a variable whose
//! bounds coincide is set to its value, a constraint that repeats another is
//! left out, and the bounds of variables are tightened by linear constraints in
//! one variable.

pub mod feasibility;
pub mod points;
pub mod redundancy;
pub mod repetition;
pub mod restoring;
pub mod tightening;

use crate::float::{FloatOp, Fpu, TEN_M10, ZERO};
use crate::kkt::barrier::zeros;
use crate::kkt_aug::system::scattered;
use crate::linear_solver::copy_indices;
use crate::preprocessing::points::{
    constant_rows, find_fixed, fixed_values, free_variables, keep_indices, kept, lemma_kept,
    perturb, perturbed, places, places_invert, row_is_constant, settle, settled,
};
use crate::preprocessing::redundancy::{find_kept, kept_constraints, RedundancyData};
use crate::preprocessing::tightening::{tighten, tightened, TightenData};
use crate::problem::{outcome, pattern_within, NlpProblem, ProblemShape};
use crate::result::SolveResult;
use vstd::prelude::*;

verus! {

/// The evaluations that the analysis of a problem makes.
pub struct Evaluations {
    /// The Jacobian at both points and the constraints at the first, for the
    /// bounds.
    pub t0: Option<Seq<u64>>,
    pub t1: Option<Seq<u64>>,
    pub tg: Option<Seq<u64>>,
    /// Jacobian and constraints at both points, for the redundancy.
    pub j0: Option<Seq<u64>>,
    pub j1: Option<Seq<u64>>,
    pub g0: Option<Seq<u64>>,
    pub g1: Option<Seq<u64>>,
}

/// The starting point with the fixed variables at their values.
pub open spec fn base_point<F: Fn(FloatOp, u64, u64) -> u64>(
    s: ProblemShape,
    fpu: Fpu<F>,
) -> Seq<u64> {
    settled(s.x0, free_variables(s.x_l, s.x_u, fpu), fixed_values(s.x_l, s.x_u, fpu))
}

/// The second point of the analysis.
pub open spec fn trial_point<F: Fn(FloatOp, u64, u64) -> u64>(
    s: ProblemShape,
    fpu: Fpu<F>,
) -> Seq<u64> {
    perturbed(
        base_point(s, fpu),
        free_variables(s.x_l, s.x_u, fpu),
        s.x_l,
        s.x_u,
        fpu,
    )
}

/// The bounds are looked at where there are constraints with entries.
pub open spec fn looks_at_bounds(s: ProblemShape) -> bool {
    s.m > 0 && s.jac_rows.len() > 0
}

pub open spec fn looks_at_pairs(s: ProblemShape) -> bool {
    s.m > 1 && s.jac_rows.len() > 0
}

/// The evaluations are those of the problem.
pub open spec fn evaluated<P: NlpProblem + ?Sized, F: Fn(FloatOp, u64, u64) -> u64>(
    p: &P,
    e: Evaluations,
    fpu: Fpu<F>,
) -> bool {
    let s = p.shape();
    let nnz = s.jac_rows.len();
    let a = base_point(s, fpu);
    let b = trial_point(s, fpu);
    &&& looks_at_bounds(s) ==> {
        &&& p.jacobian_gives(a, e.t0)
        &&& e.t0 matches Some(v) ==> v.len() == nnz && p.jacobian_gives(b, e.t1) && (
        e.t1 matches Some(w) ==> w.len() == nnz && p.constraints_give(a, e.tg) && (
        e.tg matches Some(g) ==> g.len() == s.m))
    }
    &&& looks_at_pairs(s) ==> {
        &&& p.jacobian_gives(a, e.j0) && (e.j0 matches Some(v) ==> v.len() == nnz)
        &&& p.jacobian_gives(b, e.j1) && (e.j1 matches Some(v) ==> v.len() == nnz)
        &&& p.constraints_give(a, e.g0) && (e.g0 matches Some(g) ==> g.len() == s.m)
        &&& p.constraints_give(b, e.g1) && (e.g1 matches Some(g) ==> g.len() == s.m)
    }
}

/// The numbers at the places of `map`.
pub open spec fn selected(v: Seq<u64>, map: Seq<usize>) -> Seq<u64> {
    Seq::new(map.len(), |i: int| v[map[i] as int])
}

pub open spec fn selected_outcome(v: Option<Seq<u64>>, map: Seq<usize>) -> Option<Seq<u64>> {
    match v {
        Some(v) => Some(selected(v, map)),
        None => None,
    }
}

/// What tightening reads, if the Jacobian has the entries `v0` and `v1` at the
/// two points, and the constraints have the values `g0` at the first, where they
/// can be evaluated.
pub open spec fn tighten_data<F: Fn(FloatOp, u64, u64) -> u64>(
    s: ProblemShape,
    v0: Seq<u64>,
    v1: Seq<u64>,
    g0: Option<Seq<u64>>,
    bound_push: u64,
    fpu: Fpu<F>,
) -> TightenData {
    TightenData {
        rows: s.jac_rows,
        cols: s.jac_cols,
        vals: v0,
        free: free_variables(s.x_l, s.x_u, fpu),
        x0: base_point(s, fpu),
        g0,
        linear: Seq::new(s.m, |r: int| row_is_constant(s.jac_rows, v0, v1, TEN_M10, r, fpu)),
        g_l: s.g_l,
        g_u: s.g_u,
        bound_push,
    }
}

/// The bounds of the free variables after tightening. They stay as they are
/// where an evaluation of the Jacobian fails.
pub open spec fn reduced_bounds<F: Fn(FloatOp, u64, u64) -> u64>(
    s: ProblemShape,
    e: Evaluations,
    bound_push: u64,
    fpu: Fpu<F>,
) -> (Seq<u64>, Seq<u64>) {
    let free = free_variables(s.x_l, s.x_u, fpu);
    let map = kept(free, s.n);
    let l = selected(s.x_l, map);
    let u = selected(s.x_u, map);
    match (e.t0, e.t1) {
        (Some(v0), Some(v1)) => if looks_at_bounds(s) {
            tightened(
                tighten_data(s, v0, v1, e.tg, bound_push, fpu),
                l,
                u,
                s.m,
                fpu,
            )
        } else {
            (l, u)
        },
        _ => (l, u),
    }
}

/// Which constraints are kept: all of them, unless every evaluation succeeds.
pub open spec fn constraints_kept<F: Fn(FloatOp, u64, u64) -> u64>(
    s: ProblemShape,
    e: Evaluations,
    fpu: Fpu<F>,
) -> Seq<bool> {
    match (e.j0, e.j1, e.g0, e.g1) {
        (Some(v0), Some(v1), Some(g0), Some(g1)) if looks_at_pairs(s) => kept_constraints(
            RedundancyData {
                rows: s.jac_rows,
                cols: s.jac_cols,
                free: free_variables(s.x_l, s.x_u, fpu),
                v0,
                v1,
                g0,
                g1,
                g_l: s.g_l,
                g_u: s.g_u,
            },
            fpu,
        ),
        _ => Seq::new(s.m, |i: int| true),
    }
}

/// A reduced pattern, and for each of its entries the one it stems from.
#[verifier::ext_equal]
pub struct PatternModel {
    pub rows: Seq<usize>,
    pub cols: Seq<usize>,
    pub from: Seq<usize>,
}

/// The first `k` entries whose row and column are kept, at their new places.
/// With `lower`, an entry above the diagonal is reflected.
pub open spec fn remapped(
    rows: Seq<usize>,
    cols: Seq<usize>,
    row_place: Seq<Option<usize>>,
    col_place: Seq<Option<usize>>,
    lower: bool,
    k: nat,
) -> PatternModel
    decreases k,
{
    if k == 0 {
        PatternModel { rows: Seq::empty(), cols: Seq::empty(), from: Seq::empty() }
    } else {
        let before = remapped(rows, cols, row_place, col_place, lower, (k - 1) as nat);
        match (row_place[rows[k - 1] as int], col_place[cols[k - 1] as int]) {
            (Some(r), Some(c)) => if lower && r < c {
                PatternModel {
                    rows: before.rows.push(c),
                    cols: before.cols.push(r),
                    from: before.from.push((k - 1) as usize),
                }
            } else {
                PatternModel {
                    rows: before.rows.push(r),
                    cols: before.cols.push(c),
                    from: before.from.push((k - 1) as usize),
                }
            },
            _ => before,
        }
    }
}

#[derive(Debug)]
struct Pattern {
    rows: Vec<usize>,
    cols: Vec<usize>,
    from: Vec<usize>,
}

/// All places are below `n`.
spec fn places_below(place: Seq<Option<usize>>, n: nat) -> bool {
    forall|i: int| 0 <= i < place.len() ==> ((#[trigger] place[i]) matches Some(p) ==> p < n)
}

fn remap(
    rows: &Vec<usize>,
    cols: &Vec<usize>,
    row_place: &Vec<Option<usize>>,
    col_place: &Vec<Option<usize>>,
    lower: bool,
    Ghost(n_rows): Ghost<nat>,
    Ghost(n_cols): Ghost<nat>,
) -> (p: Pattern)
    requires
        pattern_within(rows@, cols@, row_place@.len(), col_place@.len()),
        places_below(row_place@, n_rows),
        places_below(col_place@, n_cols),
        lower ==> n_rows == n_cols,
    ensures
        (PatternModel { rows: p.rows@, cols: p.cols@, from: p.from@ }) == remapped(
            rows@,
            cols@,
            row_place@,
            col_place@,
            lower,
            rows@.len(),
        ),
        pattern_within(p.rows@, p.cols@, n_rows, n_cols),
        p.from@.len() == p.rows@.len(),
        forall|i: int| 0 <= i < p.from@.len() ==> (#[trigger] p.from@[i]) < rows@.len(),
{
    let mut new_rows: Vec<usize> = Vec::new();
    let mut new_cols: Vec<usize> = Vec::new();
    let mut from: Vec<usize> = Vec::new();
    for k in 0..rows.len()
        invariant
            pattern_within(rows@, cols@, row_place@.len(), col_place@.len()),
            places_below(row_place@, n_rows),
            places_below(col_place@, n_cols),
            lower ==> n_rows == n_cols,
            (PatternModel { rows: new_rows@, cols: new_cols@, from: from@ }) == remapped(
                rows@,
                cols@,
                row_place@,
                col_place@,
                lower,
                k as nat,
            ),
            new_rows@.len() == new_cols@.len(),
            new_rows@.len() <= k,
            forall|i: int| 0 <= i < new_rows@.len() ==> (#[trigger] new_rows@[i]) < n_rows,
            forall|i: int| 0 <= i < new_cols@.len() ==> (#[trigger] new_cols@[i]) < n_cols,
            from@.len() == new_rows@.len(),
            forall|i: int| 0 <= i < from@.len() ==> (#[trigger] from@[i]) < k,
    {
        let r0: usize = rows[k];
        let c0: usize = cols[k];
        assert(row_place@[r0 as int] matches Some(p) ==> p < n_rows);
        assert(col_place@[c0 as int] matches Some(p) ==> p < n_cols);
        match (row_place[r0], col_place[c0]) {
            (Some(r), Some(c)) => {
                if lower && r < c {
                    new_rows.push(c);
                    new_cols.push(r);
                } else {
                    new_rows.push(r);
                    new_cols.push(c);
                }
                from.push(k);
            },
            _ => {},
        }
    }
    Pattern { rows: new_rows, cols: new_cols, from }
}

/// A problem with its fixed variables and redundant constraints left out.
pub struct PreprocessedProblem<'a, P: ?Sized> {
    pub inner: &'a P,
    pub n_orig: usize,
    pub m_orig: usize,
    /// The variable of each reduced one.
    pub var_map: Vec<usize>,
    /// The constraint of each reduced one.
    pub constr_map: Vec<usize>,
    /// The values of the fixed variables, a NaN for the others.
    pub fixed_values: Vec<u64>,
    /// The reduced variable of each one that is free.
    pub orig_to_reduced_var: Vec<Option<usize>>,
    pub jac_rows: Vec<usize>,
    pub jac_cols: Vec<usize>,
    /// The inner entry of each entry of the Jacobian.
    pub jac_entry_map: Vec<usize>,
    pub hess_rows: Vec<usize>,
    pub hess_cols: Vec<usize>,
    /// The inner entry of each entry of the Hessian.
    pub hess_entry_map: Vec<usize>,
    pub tightened_x_l: Vec<u64>,
    pub tightened_x_u: Vec<u64>,
}

/// The reduction of a problem as a mathematical value.
#[verifier::ext_equal]
pub struct ReductionModel {
    pub n_orig: nat,
    pub m_orig: nat,
    pub var_map: Seq<usize>,
    pub constr_map: Seq<usize>,
    pub fixed_values: Seq<u64>,
    pub place: Seq<Option<usize>>,
    pub jac: PatternModel,
    pub hess: PatternModel,
    pub x_l: Seq<u64>,
    pub x_u: Seq<u64>,
}

/// The reduction that the evaluations show.
pub open spec fn reduction_of<F: Fn(FloatOp, u64, u64) -> u64>(
    s: ProblemShape,
    e: Evaluations,
    bound_push: u64,
    fpu: Fpu<F>,
) -> ReductionModel {
    let free = free_variables(s.x_l, s.x_u, fpu);
    let keep = constraints_kept(s, e, fpu);
    ReductionModel {
        n_orig: s.n,
        m_orig: s.m,
        var_map: kept(free, s.n),
        constr_map: kept(keep, s.m),
        fixed_values: fixed_values(s.x_l, s.x_u, fpu),
        place: places(free),
        jac: remapped(
            s.jac_rows,
            s.jac_cols,
            places(keep),
            places(free),
            false,
            s.jac_rows.len(),
        ),
        hess: remapped(
            s.hess_rows,
            s.hess_cols,
            places(free),
            places(free),
            true,
            s.hess_rows.len(),
        ),
        x_l: reduced_bounds(s, e, bound_push, fpu).0,
        x_u: reduced_bounds(s, e, bound_push, fpu).1,
    }
}

proof fn lemma_places_below(keep: Seq<bool>)
    requires
        keep.len() <= usize::MAX,
    ensures
        places_below(places(keep), kept(keep, keep.len()).len()),
{
    assert forall|i: int| 0 <= i < places(keep).len() implies ((#[trigger] places(
        keep,
    )[i]) matches Some(p) ==> p < kept(keep, keep.len()).len()) by {
        if keep[i] {
            places_invert(keep, i);
        }
    }
}

pub(crate) fn select(v: &Vec<u64>, map: &Vec<usize>) -> (r: Vec<u64>)
    requires
        forall|i: int| 0 <= i < map@.len() ==> (#[trigger] map@[i]) < v@.len(),
    ensures
        r@ == selected(v@, map@),
{
    let mut r: Vec<u64> = Vec::with_capacity(map.len());
    for i in 0..map.len()
        invariant
            forall|i: int| 0 <= i < map@.len() ==> (#[trigger] map@[i]) < v@.len(),
            r@ == selected(v@, map@).take(i as int),
    {
        r.push(v[map[i]]);
        assert(r@ =~= selected(v@, map@).take(i + 1));
    }
    assert(r@ =~= selected(v@, map@));
    r
}

/// The two points of the analysis.
fn points_of<P: NlpProblem + ?Sized, F: Fn(FloatOp, u64, u64) -> u64>(
    inner: &P,
    n: usize,
    x_l: &Vec<u64>,
    x_u: &Vec<u64>,
    free: &Vec<bool>,
    values: &Vec<u64>,
    fpu: &Fpu<F>,
) -> (r: (Vec<u64>, Vec<u64>))
    requires
        fpu.sound(),
        inner.posed(),
        inner.shape().well_formed(),
        n == inner.shape().n,
        x_l@ == inner.shape().x_l,
        x_u@ == inner.shape().x_u,
        free@ == free_variables(x_l@, x_u@, *fpu),
        values@ == fixed_values(x_l@, x_u@, *fpu),
    ensures
        r.0@ == base_point(inner.shape(), *fpu),
        r.1@ == trial_point(inner.shape(), *fpu),
{
    let mut x0: Vec<u64> = vec![ZERO; n];
    inner.initial_point(&mut x0);
    let a: Vec<u64> = settle(&x0, free, values);
    let b: Vec<u64> = perturb(&a, free, x_l, x_u, fpu);
    (a, b)
}

/// The bounds of the free variables, tightened where the Jacobian could be
/// evaluated at both points.
fn tighten_bounds<P: NlpProblem + ?Sized, F: Fn(FloatOp, u64, u64) -> u64>(
    inner: &P,
    n: usize,
    m: usize,
    x_l: &Vec<u64>,
    x_u: &Vec<u64>,
    free: &Vec<bool>,
    values: &Vec<u64>,
    var_map: &Vec<usize>,
    place: &Vec<Option<usize>>,
    rows: &Vec<usize>,
    cols: &Vec<usize>,
    bound_push: u64,
    fpu: &Fpu<F>,
) -> (r: (Vec<u64>, Vec<u64>, Ghost<(Option<Seq<u64>>, Option<Seq<u64>>, Option<Seq<u64>>)>))
    requires
        fpu.sound(),
        inner.posed(),
        inner.shape().well_formed(),
        n == inner.shape().n,
        m == inner.shape().m,
        x_l@ == inner.shape().x_l,
        x_u@ == inner.shape().x_u,
        free@ == free_variables(x_l@, x_u@, *fpu),
        values@ == fixed_values(x_l@, x_u@, *fpu),
        var_map@ == kept(free@, free@.len()),
        place@ == places(free@),
        rows@ == inner.shape().jac_rows,
        cols@ == inner.shape().jac_cols,
    ensures
        r.0@.len() == var_map@.len(),
        r.1@.len() == var_map@.len(),
        forall|e: Evaluations|
            e.t0 == r.2@.0 && e.t1 == r.2@.1 && e.tg == r.2@.2 ==> (r.0@, r.1@) == #[trigger] reduced_bounds(
                inner.shape(),
                e,
                bound_push,
                *fpu,
            ),
        looks_at_bounds(inner.shape()) ==> {
            &&& inner.jacobian_gives(base_point(inner.shape(), *fpu), r.2@.0)
            &&& r.2@.0 matches Some(v) ==> v.len() == rows@.len() && inner.jacobian_gives(
                trial_point(inner.shape(), *fpu),
                r.2@.1,
            ) && (r.2@.1 matches Some(w) ==> w.len() == rows@.len() && inner.constraints_give(
                base_point(inner.shape(), *fpu),
                r.2@.2,
            ) && (r.2@.2 matches Some(g) ==> g.len() == m))
        },
{
    proof {
        lemma_kept(free@, free@.len());
    }
    let mut l: Vec<u64> = select(x_l, var_map);
    let mut u: Vec<u64> = select(x_u, var_map);
    let nnz: usize = rows.len();
    if m == 0 || nnz == 0 {
        return (l, u, Ghost((None, None, None)));
    }
    let (a, b): (Vec<u64>, Vec<u64>) = points_of(inner, n, x_l, x_u, free, values, fpu);
    let mut v0: Vec<u64> = vec![ZERO; nnz];
    if !inner.jacobian_values(&a, true, &mut v0) {
        return (l, u, Ghost((None, None, None)));
    }
    let mut v1: Vec<u64> = vec![ZERO; nnz];
    if !inner.jacobian_values(&b, true, &mut v1) {
        return (l, u, Ghost((Some(v0@), None, None)));
    }
    let mut g0: Vec<u64> = vec![ZERO; m];
    let known: bool = inner.constraints(&a, true, &mut g0);
    let values_at: Option<&Vec<u64>> = if known {
        Some(&g0)
    } else {
        None
    };
    let linear: Vec<bool> = constant_rows(m, rows, &v0, &v1, TEN_M10, fpu);
    assert(linear@ =~= Seq::new(
        m as nat,
        |r: int| row_is_constant(rows@, v0@, v1@, TEN_M10, r, *fpu),
    ));
    let mut g_l: Vec<u64> = vec![ZERO; m];
    let mut g_u: Vec<u64> = vec![ZERO; m];
    inner.constraint_bounds(&mut g_l, &mut g_u);
    tighten(
        rows,
        cols,
        &v0,
        free,
        &a,
        values_at,
        place,
        &linear,
        &g_l,
        &g_u,
        bound_push,
        &mut l,
        &mut u,
        fpu,
    );
    (l, u, Ghost((Some(v0@), Some(v1@), outcome(known, g0@))))
}

/// Which constraints are kept. Where an evaluation fails all of them are.
fn keep_constraints<P: NlpProblem + ?Sized, F: Fn(FloatOp, u64, u64) -> u64>(
    inner: &P,
    n: usize,
    m: usize,
    x_l: &Vec<u64>,
    x_u: &Vec<u64>,
    free: &Vec<bool>,
    values: &Vec<u64>,
    rows: &Vec<usize>,
    cols: &Vec<usize>,
    fpu: &Fpu<F>,
) -> (r: (
    Vec<bool>,
    Ghost<(Option<Seq<u64>>, Option<Seq<u64>>, Option<Seq<u64>>, Option<Seq<u64>>)>,
))
    requires
        fpu.sound(),
        inner.posed(),
        inner.shape().well_formed(),
        n == inner.shape().n,
        m == inner.shape().m,
        x_l@ == inner.shape().x_l,
        x_u@ == inner.shape().x_u,
        free@ == free_variables(x_l@, x_u@, *fpu),
        values@ == fixed_values(x_l@, x_u@, *fpu),
        rows@ == inner.shape().jac_rows,
        cols@ == inner.shape().jac_cols,
    ensures
        r.0@.len() == m,
        forall|e: Evaluations|
            e.j0 == r.1@.0 && e.j1 == r.1@.1 && e.g0 == r.1@.2 && e.g1 == r.1@.3 ==> r.0@
                == #[trigger] constraints_kept(inner.shape(), e, *fpu),
        looks_at_pairs(inner.shape()) ==> {
            let s = inner.shape();
            let a = base_point(s, *fpu);
            let b = trial_point(s, *fpu);
            &&& inner.jacobian_gives(a, r.1@.0) && (r.1@.0 matches Some(v) ==> v.len()
                == rows@.len())
            &&& inner.jacobian_gives(b, r.1@.1) && (r.1@.1 matches Some(v) ==> v.len()
                == rows@.len())
            &&& inner.constraints_give(a, r.1@.2) && (r.1@.2 matches Some(g) ==> g.len() == s.m)
            &&& inner.constraints_give(b, r.1@.3) && (r.1@.3 matches Some(g) ==> g.len() == s.m)
        },
{
    let nnz: usize = rows.len();
    if m <= 1 || nnz == 0 {
        let keep: Vec<bool> = vec![true; m];
        assert(keep@ =~= Seq::new(m as nat, |i: int| true));
        return (keep, Ghost((None, None, None, None)));
    }
    let (a, b): (Vec<u64>, Vec<u64>) = points_of(inner, n, x_l, x_u, free, values, fpu);
    let mut v0: Vec<u64> = vec![ZERO; nnz];
    let j0: bool = inner.jacobian_values(&a, true, &mut v0);
    let mut v1: Vec<u64> = vec![ZERO; nnz];
    let j1: bool = inner.jacobian_values(&b, true, &mut v1);
    let mut c0: Vec<u64> = vec![ZERO; m];
    let g0: bool = inner.constraints(&a, true, &mut c0);
    let mut c1: Vec<u64> = vec![ZERO; m];
    let g1: bool = inner.constraints(&b, true, &mut c1);
    let ghost given = (outcome(j0, v0@), outcome(j1, v1@), outcome(g0, c0@), outcome(g1, c1@));
    if !(j0 && j1 && g0 && g1) {
        let keep: Vec<bool> = vec![true; m];
        assert(keep@ =~= Seq::new(m as nat, |i: int| true));
        return (keep, Ghost(given));
    }
    let mut g_l: Vec<u64> = vec![ZERO; m];
    let mut g_u: Vec<u64> = vec![ZERO; m];
    inner.constraint_bounds(&mut g_l, &mut g_u);
    let keep: Vec<bool> = find_kept(rows, cols, free, &v0, &v1, &c0, &c1, &g_l, &g_u, fpu);
    (keep, Ghost(given))
}

impl<'a, P: NlpProblem + ?Sized> PreprocessedProblem<'a, P> {
    pub open spec fn model(&self) -> ReductionModel {
        ReductionModel {
            n_orig: self.n_orig as nat,
            m_orig: self.m_orig as nat,
            var_map: self.var_map@,
            constr_map: self.constr_map@,
            fixed_values: self.fixed_values@,
            place: self.orig_to_reduced_var@,
            jac: PatternModel {
                rows: self.jac_rows@,
                cols: self.jac_cols@,
                from: self.jac_entry_map@,
            },
            hess: PatternModel {
                rows: self.hess_rows@,
                cols: self.hess_cols@,
                from: self.hess_entry_map@,
            },
            x_l: self.tightened_x_l@,
            x_u: self.tightened_x_u@,
        }
    }

    /// The parts fit together and the inner problem is ready.
    pub open spec fn well_formed(&self) -> bool {
        let s = self.inner.shape();
        &&& self.inner.posed()
        &&& s.well_formed()
        &&& self.n_orig == s.n
        &&& self.m_orig == s.m
        &&& self.var_map@.len() <= self.n_orig
        &&& self.constr_map@.len() <= self.m_orig
        &&& forall|i: int| 0 <= i < self.var_map@.len() ==> (#[trigger] self.var_map@[i]) < s.n
        &&& forall|i: int|
            0 <= i < self.constr_map@.len() ==> (#[trigger] self.constr_map@[i]) < s.m
        &&& self.fixed_values@.len() == s.n
        &&& self.orig_to_reduced_var@.len() == s.n
        &&& forall|i: int|
            0 <= i < s.n ==> ((#[trigger] self.orig_to_reduced_var@[i]) matches Some(p) ==> p
                < self.var_map@.len())
        &&& self.tightened_x_l@.len() == self.var_map@.len()
        &&& self.tightened_x_u@.len() == self.var_map@.len()
        &&& pattern_within(
            self.jac_rows@,
            self.jac_cols@,
            self.constr_map@.len(),
            self.var_map@.len(),
        )
        &&& self.jac_entry_map@.len() == self.jac_rows@.len()
        &&& forall|i: int|
            0 <= i < self.jac_entry_map@.len() ==> (#[trigger] self.jac_entry_map@[i])
                < s.jac_rows.len()
        &&& pattern_within(
            self.hess_rows@,
            self.hess_cols@,
            self.var_map@.len(),
            self.var_map@.len(),
        )
        &&& self.hess_entry_map@.len() == self.hess_rows@.len()
        &&& forall|i: int|
            0 <= i < self.hess_entry_map@.len() ==> (#[trigger] self.hess_entry_map@[i])
                < s.hess_rows.len()
    }

    /// Analyses the problem. Bounds are not tightened to less than twice
    /// `bound_push`.
    pub fn new<F: Fn(FloatOp, u64, u64) -> u64>(
        inner: &'a P,
        bound_push: u64,
        fpu: &Fpu<F>,
    ) -> (p: Self)
        requires
            fpu.sound(),
            inner.posed(),
            inner.shape().well_formed(),
        ensures
            p.inner == inner,
            p.well_formed(),
            exists|e: Evaluations| #[trigger]
                evaluated(inner, e, *fpu) && p.model() == reduction_of(
                    inner.shape(),
                    e,
                    bound_push,
                    *fpu,
                ),
    {
        let n: usize = inner.num_variables();
        let m: usize = inner.num_constraints();
        let mut x_l: Vec<u64> = vec![ZERO; n];
        let mut x_u: Vec<u64> = vec![ZERO; n];
        inner.bounds(&mut x_l, &mut x_u);
        let (free, values): (Vec<bool>, Vec<u64>) = find_fixed(&x_l, &x_u, fpu);
        let (var_map, place): (Vec<usize>, Vec<Option<usize>>) = keep_indices(&free);
        let (rows, cols): (Vec<usize>, Vec<usize>) = inner.jacobian_structure();
        let (tightened_x_l, tightened_x_u, Ghost(t)): (
            Vec<u64>,
            Vec<u64>,
            Ghost<(Option<Seq<u64>>, Option<Seq<u64>>, Option<Seq<u64>>)>,
        ) = tighten_bounds(
            inner,
            n,
            m,
            &x_l,
            &x_u,
            &free,
            &values,
            &var_map,
            &place,
            &rows,
            &cols,
            bound_push,
            fpu,
        );
        let (keep, Ghost(f)): (
            Vec<bool>,
            Ghost<(Option<Seq<u64>>, Option<Seq<u64>>, Option<Seq<u64>>, Option<Seq<u64>>)>,
        ) = keep_constraints(inner, n, m, &x_l, &x_u, &free, &values, &rows, &cols, fpu);
        let (constr_map, constr_place): (Vec<usize>, Vec<Option<usize>>) = keep_indices(&keep);
        let ghost e = Evaluations {
            t0: t.0,
            t1: t.1,
            tg: t.2,
            j0: f.0,
            j1: f.1,
            g0: f.2,
            g1: f.3,
        };
        proof {
            lemma_kept(free@, free@.len());
            lemma_kept(keep@, keep@.len());
            lemma_places_below(free@);
            lemma_places_below(keep@);
            assert(evaluated(inner, e, *fpu));
        }
        let jac: Pattern = remap(
            &rows,
            &cols,
            &constr_place,
            &place,
            false,
            Ghost(constr_map@.len()),
            Ghost(var_map@.len()),
        );
        let (h_rows, h_cols): (Vec<usize>, Vec<usize>) = inner.hessian_structure();
        let hess: Pattern = remap(
            &h_rows,
            &h_cols,
            &place,
            &place,
            true,
            Ghost(var_map@.len()),
            Ghost(var_map@.len()),
        );
        let p = PreprocessedProblem {
            inner,
            n_orig: n,
            m_orig: m,
            var_map,
            constr_map,
            fixed_values: values,
            orig_to_reduced_var: place,
            jac_rows: jac.rows,
            jac_cols: jac.cols,
            jac_entry_map: jac.from,
            hess_rows: hess.rows,
            hess_cols: hess.cols,
            hess_entry_map: hess.from,
            tightened_x_l,
            tightened_x_u,
        };
        proof {
            let want = reduction_of(inner.shape(), e, bound_push, *fpu);
            assert(constraints_kept(inner.shape(), e, *fpu) == keep@);
            assert((p.tightened_x_l@, p.tightened_x_u@) == reduced_bounds(
                inner.shape(),
                e,
                bound_push,
                *fpu,
            ));
            assert(p.model() =~= want);
        }
        p
    }

    /// Whether a variable or a constraint was left out.
    pub fn did_reduce(&self) -> (r: bool)
        ensures
            r == (self.var_map@.len() < self.n_orig || self.constr_map@.len() < self.m_orig),
    {
        self.var_map.len() < self.n_orig || self.constr_map.len() < self.m_orig
    }

    /// Number of variables left out.
    pub fn num_fixed(&self) -> (r: usize)
        requires
            self.well_formed(),
        ensures
            r == self.n_orig - self.var_map@.len(),
    {
        self.n_orig - self.var_map.len()
    }

    /// Number of constraints left out.
    pub fn num_redundant(&self) -> (r: usize)
        requires
            self.well_formed(),
        ensures
            r == self.m_orig - self.constr_map@.len(),
    {
        self.m_orig - self.constr_map.len()
    }

    /// The point of all variables at a reduced point.
    pub open spec fn expanded(&self, x: Seq<u64>) -> Seq<u64> {
        Seq::new(
            self.fixed_values@.len(),
            |i: int|
                match self.orig_to_reduced_var@[i] {
                    Some(p) => x[p as int],
                    None => self.fixed_values@[i],
                },
        )
    }

    /// The point of all variables at a reduced point.
    fn expand_x(&self, x_reduced: &[u64]) -> (x: Vec<u64>)
        requires
            self.well_formed(),
            x_reduced@.len() >= self.var_map@.len(),
        ensures
            x@ == self.expanded(x_reduced@),
    {
        let mut x: Vec<u64> = Vec::with_capacity(self.n_orig);
        for i in 0..self.n_orig
            invariant
                self.well_formed(),
                x_reduced@.len() >= self.var_map@.len(),
                x@ == self.expanded(x_reduced@).take(i as int),
        {
            assert(self.orig_to_reduced_var@[i as int] matches Some(p) ==> p
                < self.var_map@.len());
            match self.orig_to_reduced_var[i] {
                Some(p) => {
                    x.push(x_reduced[p]);
                },
                None => {
                    x.push(self.fixed_values[i]);
                },
            }
            assert(x@ =~= self.expanded(x_reduced@).take(i + 1));
        }
        assert(x@ =~= self.expanded(x_reduced@));
        x
    }
}

/// Zeros with the first `count` values at the places of `map`.
pub(crate) fn scatter(len: usize, map: &Vec<usize>, vals: &[u64], count: usize) -> (r: Vec<u64>)
    requires
        count <= map@.len(),
        count <= vals@.len(),
        forall|i: int| 0 <= i < map@.len() ==> (#[trigger] map@[i]) < len,
    ensures
        r@ == scattered(zeros(len as nat), map@, vals@, count as nat),
        r@.len() == len,
{
    let mut r: Vec<u64> = vec![ZERO; len];
    assert(r@ =~= zeros(len as nat));
    for i in 0..count
        invariant
            count <= map@.len(),
            count <= vals@.len(),
            forall|i: int| 0 <= i < map@.len() ==> (#[trigger] map@[i]) < len,
            r@.len() == len,
            r@ == scattered(zeros(len as nat), map@, vals@, i as nat),
    {
        r.set(map[i], vals[i]);
    }
    r
}

/// The selected numbers, written to the front of `out`.
fn fill_selected(v: &Vec<u64>, map: &Vec<usize>, out: &mut Vec<u64>)
    requires
        old(out)@.len() == map@.len(),
        forall|i: int| 0 <= i < map@.len() ==> (#[trigger] map@[i]) < v@.len(),
    ensures
        final(out)@ == selected(v@, map@),
{
    for i in 0..map.len()
        invariant
            out@.len() == map@.len(),
            forall|i: int| 0 <= i < map@.len() ==> (#[trigger] map@[i]) < v@.len(),
            forall|k: int| 0 <= k < i ==> #[trigger] out@[k] == selected(v@, map@)[k],
    {
        out.set(i, v[map[i]]);
    }
    assert(out@ =~= selected(v@, map@));
}

/// The smaller of two lengths.
pub open spec fn shorter(a: nat, b: nat) -> nat {
    if a <= b {
        a
    } else {
        b
    }
}

/// The value after an evaluation: what was given, or anything where it failed.
pub open spec fn is_left<T>(given: Option<T>, v: T) -> bool {
    given matches Some(w) ==> v == w
}

impl<'a, P: NlpProblem + ?Sized> PreprocessedProblem<'a, P> {
    /// The solution of the inner problem for one of the reduced problem. The
    /// multipliers of what was left out are zero; objective and constraints are
    /// evaluated again.
    pub fn unmap_solution<D: Clone>(&self, reduced: &SolveResult<D>) -> (full: SolveResult<D>)
        requires
            self.well_formed(),
            reduced.x@.len() >= self.var_map@.len(),
            reduced.bound_multipliers_lower@.len() >= self.var_map@.len(),
            reduced.bound_multipliers_upper@.len() >= self.var_map@.len(),
        ensures
            full.x@ == self.expanded(reduced.x@),
            full.bound_multipliers_lower@ == scattered(
                zeros(self.n_orig as nat),
                self.var_map@,
                reduced.bound_multipliers_lower@,
                self.var_map@.len(),
            ),
            full.bound_multipliers_upper@ == scattered(
                zeros(self.n_orig as nat),
                self.var_map@,
                reduced.bound_multipliers_upper@,
                self.var_map@.len(),
            ),
            full.constraint_multipliers@ == scattered(
                zeros(self.m_orig as nat),
                self.constr_map@,
                reduced.constraint_multipliers@,
                shorter(self.constr_map@.len(), reduced.constraint_multipliers@.len()),
            ),
            full.constraint_values@.len() == self.m_orig,
            self.m_orig > 0 ==> exists|v: Option<Seq<u64>>| #[trigger]
                self.inner.constraints_give(full.x@, v) && is_left(v, full.constraint_values@),
            exists|v: Option<u64>| #[trigger]
                self.inner.objective_gives(full.x@, v) && is_left(v, full.objective),
            full.status == reduced.status,
            full.iterations == reduced.iterations,
            cloned(reduced.diagnostics, full.diagnostics),
    {
        let n: usize = self.n_orig;
        let m: usize = self.m_orig;
        let x: Vec<u64> = self.expand_x(&reduced.x);
        let z_l: Vec<u64> = scatter(
            n,
            &self.var_map,
            &reduced.bound_multipliers_lower,
            self.var_map.len(),
        );
        let z_u: Vec<u64> = scatter(
            n,
            &self.var_map,
            &reduced.bound_multipliers_upper,
            self.var_map.len(),
        );
        let mut g: Vec<u64> = vec![ZERO; m];
        let ghost mut gv: Option<Seq<u64>> = None;
        if m > 0 {
            let ok: bool = self.inner.constraints(&x, true, &mut g);
            proof {
                gv = outcome(ok, g@);
            }
        }
        let count: usize = if self.constr_map.len() <= reduced.constraint_multipliers.len() {
            self.constr_map.len()
        } else {
            reduced.constraint_multipliers.len()
        };
        let y: Vec<u64> = scatter(m, &self.constr_map, &reduced.constraint_multipliers, count);
        let mut obj: u64 = ZERO;
        let ok: bool = self.inner.objective(&x, true, &mut obj);
        let ghost v = outcome(ok, obj);
        let full = SolveResult {
            x,
            objective: obj,
            constraint_multipliers: y,
            bound_multipliers_lower: z_l,
            bound_multipliers_upper: z_u,
            constraint_values: g,
            status: reduced.status,
            iterations: reduced.iterations,
            diagnostics: reduced.diagnostics.clone(),
        };
        assert(self.inner.objective_gives(full.x@, v) && is_left(v, full.objective));
        assert(m > 0 ==> self.inner.constraints_give(full.x@, gv) && is_left(
            gv,
            full.constraint_values@,
        ));
        full
    }

    /// The multipliers of all constraints for reduced ones.
    pub open spec fn expanded_multipliers(&self, lambda: Seq<u64>) -> Seq<u64> {
        scattered(zeros(self.m_orig as nat), self.constr_map@, lambda, self.constr_map@.len())
    }
}

/// A reduced point is what its expansion holds at the free variables, and the
/// other variables have their fixed values there.
pub proof fn expansion_restricts<P: NlpProblem + ?Sized, F: Fn(FloatOp, u64, u64) -> u64>(
    p: PreprocessedProblem<'_, P>,
    e: Evaluations,
    bound_push: u64,
    x: Seq<u64>,
    fpu: Fpu<F>,
)
    requires
        p.well_formed(),
        p.model() == reduction_of(p.inner.shape(), e, bound_push, fpu),
        x.len() == p.var_map@.len(),
    ensures
        selected(p.expanded(x), p.var_map@) == x,
        forall|i: int|
            0 <= i < p.n_orig && !free_variables(
                p.inner.shape().x_l,
                p.inner.shape().x_u,
                fpu,
            )[i] ==> #[trigger] p.expanded(x)[i] == p.fixed_values@[i],
{
    let s = p.inner.shape();
    let free = free_variables(s.x_l, s.x_u, fpu);
    let map = p.var_map@;
    lemma_kept(free, s.n);
    assert forall|j: int| 0 <= j < map.len() implies selected(p.expanded(x), map)[j] == x[j] by {
        let i = map[j] as int;
        assert(free[i]);
        places_invert(free, i);
        let q = places(free)[i]->Some_0 as int;
        assert(map[q] == map[j]);
        if q < j {
            assert(map[q] < map[j]);
        } else if j < q {
            assert(map[j] < map[q]);
        }
    }
    assert(selected(p.expanded(x), map) =~= x);
}

impl<'a, P: NlpProblem + ?Sized> NlpProblem for PreprocessedProblem<'a, P> {
    open spec fn posed(&self) -> bool {
        self.well_formed()
    }

    open spec fn shape(&self) -> ProblemShape {
        ProblemShape {
            n: self.var_map@.len(),
            m: self.constr_map@.len(),
            x_l: self.tightened_x_l@,
            x_u: self.tightened_x_u@,
            g_l: selected(self.inner.shape().g_l, self.constr_map@),
            g_u: selected(self.inner.shape().g_u, self.constr_map@),
            x0: selected(self.inner.shape().x0, self.var_map@),
            jac_rows: self.jac_rows@,
            jac_cols: self.jac_cols@,
            hess_rows: self.hess_rows@,
            hess_cols: self.hess_cols@,
        }
    }

    open spec fn objective_gives(&self, x: Seq<u64>, v: Option<u64>) -> bool {
        self.inner.objective_gives(self.expanded(x), v)
    }

    open spec fn gradient_gives(&self, x: Seq<u64>, v: Option<Seq<u64>>) -> bool {
        exists|w: Option<Seq<u64>>| #[trigger]
            self.inner.gradient_gives(self.expanded(x), w) && v == selected_outcome(
                w,
                self.var_map@,
            )
    }

    open spec fn constraints_give(&self, x: Seq<u64>, v: Option<Seq<u64>>) -> bool {
        exists|w: Option<Seq<u64>>| #[trigger]
            self.inner.constraints_give(self.expanded(x), w) && v == selected_outcome(
                w,
                self.constr_map@,
            )
    }

    /// With no entries nothing is evaluated.
    open spec fn jacobian_gives(&self, x: Seq<u64>, v: Option<Seq<u64>>) -> bool {
        if self.jac_entry_map@.len() == 0 {
            v == Some(Seq::<u64>::empty())
        } else {
            exists|w: Option<Seq<u64>>| #[trigger]
                self.inner.jacobian_gives(self.expanded(x), w) && v == selected_outcome(
                    w,
                    self.jac_entry_map@,
                )
        }
    }

    open spec fn hessian_gives(
        &self,
        x: Seq<u64>,
        obj_factor: u64,
        lambda: Seq<u64>,
        v: Option<Seq<u64>>,
    ) -> bool {
        exists|w: Option<Seq<u64>>| #[trigger]
            self.inner.hessian_gives(
                self.expanded(x),
                obj_factor,
                self.expanded_multipliers(lambda),
                w,
            ) && v == selected_outcome(w, self.hess_entry_map@)
    }

    fn num_variables(&self) -> (n: usize) {
        self.var_map.len()
    }

    fn num_constraints(&self) -> (m: usize) {
        self.constr_map.len()
    }

    fn bounds(&self, x_l: &mut Vec<u64>, x_u: &mut Vec<u64>) {
        for i in 0..self.var_map.len()
            invariant
                self.well_formed(),
                x_l@.len() == self.var_map@.len(),
                x_u@.len() == self.var_map@.len(),
                forall|k: int| 0 <= k < i ==> #[trigger] x_l@[k] == self.tightened_x_l@[k],
                forall|k: int| 0 <= k < i ==> #[trigger] x_u@[k] == self.tightened_x_u@[k],
        {
            x_l.set(i, self.tightened_x_l[i]);
            x_u.set(i, self.tightened_x_u[i]);
        }
        assert(x_l@ =~= self.tightened_x_l@);
        assert(x_u@ =~= self.tightened_x_u@);
    }

    fn constraint_bounds(&self, g_l: &mut Vec<u64>, g_u: &mut Vec<u64>) {
        let mut l: Vec<u64> = vec![ZERO; self.m_orig];
        let mut u: Vec<u64> = vec![ZERO; self.m_orig];
        self.inner.constraint_bounds(&mut l, &mut u);
        fill_selected(&l, &self.constr_map, g_l);
        fill_selected(&u, &self.constr_map, g_u);
    }

    fn initial_point(&self, x0: &mut Vec<u64>) {
        let mut full: Vec<u64> = vec![ZERO; self.n_orig];
        self.inner.initial_point(&mut full);
        fill_selected(&full, &self.var_map, x0);
    }

    fn objective(&self, x: &[u64], new_x: bool, obj: &mut u64) -> (ok: bool) {
        let full: Vec<u64> = self.expand_x(x);
        self.inner.objective(&full, new_x, obj)
    }

    fn gradient(&self, x: &[u64], new_x: bool, grad: &mut Vec<u64>) -> (ok: bool) {
        let full: Vec<u64> = self.expand_x(x);
        let mut inner_grad: Vec<u64> = vec![ZERO; self.n_orig];
        if !self.inner.gradient(&full, new_x, &mut inner_grad) {
            return false;
        }
        fill_selected(&inner_grad, &self.var_map, grad);
        true
    }

    fn constraints(&self, x: &[u64], new_x: bool, g: &mut Vec<u64>) -> (ok: bool) {
        let full: Vec<u64> = self.expand_x(x);
        let mut inner_g: Vec<u64> = vec![ZERO; self.m_orig];
        if !self.inner.constraints(&full, new_x, &mut inner_g) {
            return false;
        }
        fill_selected(&inner_g, &self.constr_map, g);
        true
    }

    fn jacobian_structure(&self) -> (pattern: (Vec<usize>, Vec<usize>)) {
        (copy_indices(&self.jac_rows), copy_indices(&self.jac_cols))
    }

    fn jacobian_values(&self, x: &[u64], new_x: bool, vals: &mut Vec<u64>) -> (ok: bool) {
        let full: Vec<u64> = self.expand_x(x);
        if self.jac_entry_map.len() == 0 {
            assert(vals@ =~= Seq::<u64>::empty());
            return true;
        }
        let (rows, _): (Vec<usize>, Vec<usize>) = self.inner.jacobian_structure();
        let mut inner_vals: Vec<u64> = vec![ZERO; rows.len()];
        if !self.inner.jacobian_values(&full, new_x, &mut inner_vals) {
            return false;
        }
        fill_selected(&inner_vals, &self.jac_entry_map, vals);
        true
    }

    fn hessian_structure(&self) -> (pattern: (Vec<usize>, Vec<usize>)) {
        (copy_indices(&self.hess_rows), copy_indices(&self.hess_cols))
    }

    fn hessian_values(
        &self,
        x: &[u64],
        new_x: bool,
        obj_factor: u64,
        lambda: &[u64],
        vals: &mut Vec<u64>,
    ) -> (ok: bool) {
        let full: Vec<u64> = self.expand_x(x);
        let lambda_full: Vec<u64> = scatter(
            self.m_orig,
            &self.constr_map,
            lambda,
            self.constr_map.len(),
        );
        let (rows, _): (Vec<usize>, Vec<usize>) = self.inner.hessian_structure();
        let mut inner_vals: Vec<u64> = vec![ZERO; rows.len()];
        let ok: bool = self.inner.hessian_values(
            &full,
            new_x,
            obj_factor,
            &lambda_full,
            &mut inner_vals,
        );
        assert(self.inner.hessian_gives(
            self.expanded(x@),
            obj_factor,
            self.expanded_multipliers(lambda@),
            outcome(ok, inner_vals@),
        ));
        if !ok {
            return false;
        }
        fill_selected(&inner_vals, &self.hess_entry_map, vals);
        true
    }
}

/// The reduced problem is one that can be reduced again: its lists fit together.
pub proof fn reduced_shape_fits<P: NlpProblem + ?Sized>(p: PreprocessedProblem<'_, P>)
    requires
        p.well_formed(),
    ensures
        p.shape().well_formed(),
{
}

} // verus!
