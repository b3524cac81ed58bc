//! Reductions of a problem, and the way back from a reduced solution.

pub mod dense;
pub mod residuals;

use crate::float::{
    abs, absolute, finite, is_finite, le, neg, negated, num_le, FloatOp, Fpu, ONE, TEN_M8, ZERO,
};
use crate::kkt::barrier::{paired, zeros};
use crate::kkt_aug::system::scattered;
use crate::linear_solver::table::lemma_cell;
use crate::linear_solver::copy_numbers;
use crate::preprocessing::points::{keep_indices, kept, lemma_kept};
use crate::preprocessing::{is_left, scatter, select, selected, shorter};
use crate::problem::{outcome, NlpProblem, ProblemShape};
use crate::reduction_frame::dense::{dense_solution, solve_dense_square_system};
use crate::result::{cloned_result, ResultModel, SolveResult};
use vstd::prelude::*;

verus! {

/// What becomes of the multipliers of removed constraints.
#[derive(Debug, Clone, Copy, PartialEq, Eq, Structural)]
pub enum RemovedMultiplierRecovery {
    /// They are zero.
    NoRecovery,
    /// They make the Lagrangian stationary in the removed variables.
    AuxiliaryStationarity,
}

/// A reduction: which variables and constraints stay, and the values of the
/// other variables.
#[derive(Debug)]
pub struct ReductionFrame {
    pub n_orig: usize,
    pub m_orig: usize,
    /// The variable of each reduced one.
    pub var_map: Vec<usize>,
    /// The constraint of each reduced one.
    pub row_map: Vec<usize>,
    pub fixed_values: Vec<u64>,
    pub multiplier_recovery: RemovedMultiplierRecovery,
}

/// Whether an index below `total` is not in the list.
pub open spec fn outside(total: nat, list: Seq<usize>) -> Seq<bool> {
    Seq::new(total, |i: int| !list.contains(i as usize))
}

/// The indices below `total` that are not in the list, in order.
pub open spec fn removed(total: nat, list: Seq<usize>) -> Seq<usize> {
    kept(outside(total, list), total)
}

/// The place of each index below `total` among the first `k` of the list; the
/// last one where it occurs twice.
pub open spec fn positioned(total: nat, list: Seq<usize>, k: nat) -> Seq<Option<usize>>
    decreases k,
{
    if k == 0 {
        Seq::new(total, |i: int| None)
    } else {
        let before = positioned(total, list, (k - 1) as nat);
        if list[k - 1] < total {
            before.update(list[k - 1] as int, Some((k - 1) as usize))
        } else {
            before
        }
    }
}

/// `x` is at one of its finite bounds, or beyond.
pub open spec fn at_bound<F: Fn(FloatOp, u64, u64) -> u64>(
    x: u64,
    l: u64,
    u: u64,
    fpu: Fpu<F>,
) -> bool {
    let scale_l = fpu.calc(
        FloatOp::Max,
        fpu.calc(FloatOp::Max, absolute(x), absolute(l)),
        ONE,
    );
    let scale_u = fpu.calc(
        FloatOp::Max,
        fpu.calc(FloatOp::Max, absolute(x), absolute(u)),
        ONE,
    );
    ||| finite(l) && num_le(x, fpu.sum(l, fpu.product(TEN_M8, scale_l)))
    ||| finite(u) && num_le(fpu.difference(u, fpu.product(TEN_M8, scale_u)), x)
}

/// One of the variables is at a bound.
pub open spec fn some_at_bound<F: Fn(FloatOp, u64, u64) -> u64>(
    vars: Seq<usize>,
    x: Seq<u64>,
    s: ProblemShape,
    fpu: Fpu<F>,
) -> bool {
    exists|k: int|
        0 <= k < vars.len() && at_bound(
            x[#[trigger] vars[k] as int],
            s.x_l[vars[k] as int],
            s.x_u[vars[k] as int],
            fpu,
        )
}

/// The system for the multipliers of removed constraints: one row per removed
/// variable, one column per removed constraint.
pub struct AuxData {
    pub n: nat,
    pub m: nat,
    pub rows: Seq<usize>,
    pub cols: Seq<usize>,
    pub vals: Seq<u64>,
    pub row_pos: Seq<Option<usize>>,
    pub var_pos: Seq<Option<usize>>,
    /// The multipliers of the constraints that stay.
    pub y: Seq<u64>,
    pub dim: int,
}

impl AuxData {
    pub open spec fn in_range(self, k: int) -> bool {
        self.rows[k] < self.m && self.cols[k] < self.n
    }

    /// An entry within the problem is not finite.
    pub open spec fn has_bad_entry(self) -> bool {
        exists|k: int|
            0 <= k < paired(self.rows, self.cols) && #[trigger] self.in_range(k) && !finite(
                self.vals[k],
            )
    }

    /// Matrix and right-hand side with the first `k` Jacobian entries.
    pub open spec fn system<F: Fn(FloatOp, u64, u64) -> u64>(
        self,
        start: Seq<u64>,
        k: nat,
        fpu: Fpu<F>,
    ) -> (Seq<u64>, Seq<u64>)
        decreases k,
    {
        if k == 0 {
            (zeros((self.dim * self.dim) as nat), start)
        } else {
            let (a, b) = self.system(start, (k - 1) as nat, fpu);
            let row = self.rows[k - 1] as int;
            let v = self.vals[k - 1];
            if !self.in_range(k - 1) {
                (a, b)
            } else {
                match (self.var_pos[self.cols[k - 1] as int], self.row_pos[row]) {
                    (None, _) => (a, b),
                    (Some(i), Some(j)) => {
                        let t = i * self.dim + j;
                        (a.update(t, fpu.sum(a[t], v)), b)
                    },
                    (Some(i), None) => (
                        a,
                        b.update(
                            i as int,
                            fpu.difference(b[i as int], fpu.product(v, self.y[row])),
                        ),
                    ),
                }
            }
        }
    }
}

/// Minus the part of the gradient of the Lagrangian in the variables `vars` that
/// the objective and the bounds make up.
pub open spec fn stationarity_rhs<F: Fn(FloatOp, u64, u64) -> u64>(
    vars: Seq<usize>,
    grad: Seq<u64>,
    z_l: Seq<u64>,
    z_u: Seq<u64>,
    fpu: Fpu<F>,
) -> Seq<u64> {
    Seq::new(
        vars.len(),
        |k: int|
            {
                let v = vars[k] as int;
                negated(fpu.sum(fpu.difference(grad[v], z_l[v]), z_u[v]))
            },
    )
}

/// What the recovery of multipliers evaluates.
pub struct RecoveryData {
    pub grad: Option<Seq<u64>>,
    pub jac: Option<Seq<u64>>,
}

/// The primal point and the multipliers that a reduced result gives.
pub struct UnmappedModel {
    pub x: Seq<u64>,
    pub y: Seq<u64>,
    pub z_l: Seq<u64>,
    pub z_u: Seq<u64>,
}

impl ReductionFrame {
    pub open spec fn well_formed(&self) -> bool {
        &&& self.fixed_values@.len() == self.n_orig
        &&& self.var_map@.len() <= self.n_orig
        &&& self.row_map@.len() <= self.m_orig
        &&& forall|i: int|
            0 <= i < self.var_map@.len() ==> (#[trigger] self.var_map@[i]) < self.n_orig
        &&& forall|i: int|
            0 <= i < self.row_map@.len() ==> (#[trigger] self.row_map@[i]) < self.m_orig
    }

    pub open spec fn gone_vars(&self) -> Seq<usize> {
        removed(self.n_orig as nat, self.var_map@)
    }

    pub open spec fn gone_rows(&self) -> Seq<usize> {
        removed(self.m_orig as nat, self.row_map@)
    }

    /// The point and the multipliers before recovery.
    pub open spec fn spread<D>(&self, r: ResultModel<D>) -> UnmappedModel {
        let n = zeros(self.n_orig as nat);
        UnmappedModel {
            x: scattered(self.fixed_values@, self.var_map@, r.x, self.var_map@.len()),
            y: scattered(
                zeros(self.m_orig as nat),
                self.row_map@,
                r.constraint_multipliers,
                shorter(self.row_map@.len(), r.constraint_multipliers.len()),
            ),
            z_l: scattered(
                n,
                self.var_map@,
                r.bound_multipliers_lower,
                shorter(self.var_map@.len(), r.bound_multipliers_lower.len()),
            ),
            z_u: scattered(
                n,
                self.var_map@,
                r.bound_multipliers_upper,
                shorter(self.var_map@.len(), r.bound_multipliers_upper.len()),
            ),
        }
    }

    /// The recovery comes as far as the gradient.
    pub open spec fn asks_gradient<F: Fn(FloatOp, u64, u64) -> u64>(
        &self,
        s: ProblemShape,
        x: Seq<u64>,
        fpu: Fpu<F>,
    ) -> bool {
        &&& self.gone_rows().len() > 0
        &&& self.gone_rows().len() == self.gone_vars().len()
        &&& !some_at_bound(self.gone_vars(), x, s, fpu)
    }

    /// The recovery comes as far as the Jacobian.
    pub open spec fn asks_jacobian<F: Fn(FloatOp, u64, u64) -> u64>(
        &self,
        s: ProblemShape,
        x: Seq<u64>,
        e: RecoveryData,
        fpu: Fpu<F>,
    ) -> bool {
        self.asks_gradient(s, x, fpu) && e.grad is Some && s.jac_rows.len() == s.jac_cols.len()
    }

    pub open spec fn aux_data(&self, s: ProblemShape, y: Seq<u64>, vals: Seq<u64>) -> AuxData {
        AuxData {
            n: self.n_orig as nat,
            m: self.m_orig as nat,
            rows: s.jac_rows,
            cols: s.jac_cols,
            vals,
            row_pos: positioned(self.m_orig as nat, self.gone_rows(), self.gone_rows().len()),
            var_pos: positioned(self.n_orig as nat, self.gone_vars(), self.gone_vars().len()),
            y,
            dim: self.gone_rows().len() as int,
        }
    }

    /// The constraint multipliers after recovery, or why they stay.
    pub open spec fn recovered<F: Fn(FloatOp, u64, u64) -> u64>(
        &self,
        s: ProblemShape,
        u: UnmappedModel,
        e: RecoveryData,
        fpu: Fpu<F>,
    ) -> Result<Seq<u64>, Seq<char>> {
        let rows = self.gone_rows();
        let vars = self.gone_vars();
        if rows.len() == 0 && vars.len() == 0 {
            Ok(u.y)
        } else if rows.len() != vars.len() {
            Err("removed auxiliary row/variable counts are not square"@)
        } else if some_at_bound(vars, u.x, s, fpu) {
            Err("removed auxiliary variable is active at a finite bound"@)
        } else {
            match e.grad {
                None => Err("full gradient evaluation failed"@),
                Some(grad) => if s.jac_rows.len() != s.jac_cols.len() {
                    Err("Jacobian structure has mismatched row/column lengths"@)
                } else {
                    match e.jac {
                        None => Err("full Jacobian evaluation failed"@),
                        Some(vals) => {
                            let d = self.aux_data(s, u.y, vals);
                            let (a, b) = d.system(
                                stationarity_rhs(vars, grad, u.z_l, u.z_u, fpu),
                                s.jac_rows.len(),
                                fpu,
                            );
                            if d.has_bad_entry() {
                                Err("Jacobian contains a non-finite value"@)
                            } else {
                                match dense_solution(a, b, d.dim, fpu) {
                                    Err(e) => Err(e),
                                    Ok(lambda) => Ok(scattered(u.y, rows, lambda, rows.len())),
                                }
                            }
                        },
                    }
                },
            }
        }
    }

    /// The problem has the size of the frame.
    pub open spec fn suits<P: NlpProblem + ?Sized>(&self, p: &P) -> bool {
        &&& p.posed()
        &&& p.shape().n == self.n_orig
        &&& p.shape().m == self.m_orig
        &&& p.shape().x_l.len() == self.n_orig
        &&& p.shape().x_u.len() == self.n_orig
        &&& self.multiplier_recovery is AuxiliaryStationarity ==> self.gone_rows().len()
            * self.gone_rows().len() <= usize::MAX
    }

    /// The evaluations are those of the problem, as far as they were made.
    pub open spec fn asked<P: NlpProblem + ?Sized, F: Fn(FloatOp, u64, u64) -> u64>(
        &self,
        p: &P,
        x: Seq<u64>,
        e: RecoveryData,
        fpu: Fpu<F>,
    ) -> bool {
        &&& self.asks_gradient(p.shape(), x, fpu) ==> p.gradient_gives(x, e.grad)
        &&& self.asks_jacobian(p.shape(), x, e, fpu) ==> p.jacobian_gives(x, e.jac)
    }

    /// `r` is the result of the problem for a reduced one. Where the recovery of
    /// multipliers fails, those of removed constraints are zero.
    #[verifier::opaque]
    pub open spec fn unmaps<P: NlpProblem + ?Sized, D: Clone, F: Fn(FloatOp, u64, u64) -> u64>(
        &self,
        p: &P,
        reduced: ResultModel<D>,
        r: ResultModel<D>,
        fpu: Fpu<F>,
    ) -> bool {
        let u = self.spread(reduced);
        &&& r.x == u.x
        &&& r.bound_multipliers_lower == u.z_l
        &&& r.bound_multipliers_upper == u.z_u
        &&& if self.multiplier_recovery is AuxiliaryStationarity {
            exists|e: RecoveryData| #[trigger]
                self.asked(p, u.x, e, fpu) && r.constraint_multipliers == (match self.recovered(
                    p.shape(),
                    u,
                    e,
                    fpu,
                ) {
                    Ok(y) => y,
                    Err(_) => u.y,
                })
        } else {
            r.constraint_multipliers == u.y
        }
        &&& exists|v: Option<u64>| #[trigger]
            p.objective_gives(u.x, v) && is_left(v, r.objective)
        &&& r.constraint_values.len() == self.m_orig
        &&& self.m_orig > 0 ==> exists|v: Option<Seq<u64>>| #[trigger]
            p.constraints_give(u.x, v) && is_left(v, r.constraint_values)
        &&& r.status == reduced.status
        &&& r.iterations == reduced.iterations
        &&& cloned(reduced.diagnostics, r.diagnostics)
    }
}

/// A variable or constraint is removed if and only if the list does not hold it.
pub proof fn removed_are_the_others(total: nat, list: Seq<usize>, i: usize)
    requires
        total <= usize::MAX,
    ensures
        removed(total, list).contains(i) <==> i < total && !list.contains(i),
{
    lemma_kept(outside(total, list), total);
    lemma_kept_all(outside(total, list), total, i);
    if removed(total, list).contains(i) {
        let k = choose|k: int| 0 <= k < removed(total, list).len() && removed(total, list)[k] == i;
        assert(outside(total, list)[removed(total, list)[k] as int]);
    }
}

proof fn lemma_kept_all(keep: Seq<bool>, k: nat, i: usize)
    requires
        k <= keep.len() <= usize::MAX,
    ensures
        i < k && keep[i as int] ==> kept(keep, k).contains(i),
    decreases k,
{
    if k > 0 && i < k && keep[i as int] {
        if i == k - 1 {
            let s = kept(keep, k);
            assert(s[s.len() - 1] == i);
        } else {
            lemma_kept_all(keep, (k - 1) as nat, i);
            let before = kept(keep, (k - 1) as nat);
            let p = choose|p: int| 0 <= p < before.len() && before[p] == i;
            assert(kept(keep, k)[p] == i);
        }
    }
}

fn removed_indices(total: usize, list: &Vec<usize>) -> (r: Vec<usize>)
    ensures
        r@ == removed(total as nat, list@),
        forall|i: int| 0 <= i < r@.len() ==> (#[trigger] r@[i]) < total,
        r@.len() <= total,
{
    let mut keep: Vec<bool> = vec![true; total];
    for k in 0..list.len()
        invariant
            keep@.len() == total,
            forall|i: int|
                0 <= i < total ==> #[trigger] keep@[i] == !list@.take(k as int).contains(
                    i as usize,
                ),
    {
        let idx: usize = list[k];
        let ghost was = keep@;
        if idx < total {
            keep.set(idx, false);
        }
        proof {
            assert forall|i: int| 0 <= i < total implies #[trigger] keep@[i] == !list@.take(
                k + 1,
            ).contains(i as usize) by {
                let a = list@.take(k as int);
                let b = list@.take(k + 1);
                assert(b =~= a.push(idx));
                assert(was[i] == !a.contains(i as usize));
                if a.contains(i as usize) {
                    let q = choose|q: int| 0 <= q < a.len() && a[q] == i as usize;
                    assert(b[q] == i as usize);
                }
                if b.contains(i as usize) {
                    let q = choose|q: int| 0 <= q < b.len() && b[q] == i as usize;
                    if q < k {
                        assert(a[q] == i as usize);
                    }
                }
                if i == idx {
                    assert(b[k as int] == i as usize);
                }
            }
        }
    }
    proof {
        assert(list@.take(list@.len() as int) =~= list@);
        assert(keep@ =~= outside(total as nat, list@));
        lemma_kept(keep@, total as nat);
    }
    let (r, _): (Vec<usize>, Vec<Option<usize>>) = keep_indices(&keep);
    r
}

fn index_positions(total: usize, list: &Vec<usize>) -> (r: Vec<Option<usize>>)
    ensures
        r@ == positioned(total as nat, list@, list@.len()),
        r@.len() == total,
        forall|i: int|
            0 <= i < total ==> ((#[trigger] r@[i]) matches Some(p) ==> p < list@.len()),
{
    let mut r: Vec<Option<usize>> = Vec::with_capacity(total);
    for i in 0..total
        invariant
            r@.len() == i,
            forall|k: int| 0 <= k < i ==> #[trigger] r@[k] is None,
    {
        r.push(None);
    }
    assert(r@ =~= positioned(total as nat, list@, 0));
    for k in 0..list.len()
        invariant
            r@.len() == total,
            r@ == positioned(total as nat, list@, k as nat),
            forall|i: int| 0 <= i < total ==> ((#[trigger] r@[i]) matches Some(p) ==> p < k),
    {
        let idx: usize = list[k];
        if idx < total {
            r.set(idx, Some(k));
        }
    }
    r
}

impl ReductionFrame {
    /// A frame from its parts.
    pub fn new(
        n_orig: usize,
        m_orig: usize,
        var_map: Vec<usize>,
        row_map: Vec<usize>,
        fixed_values: Vec<u64>,
        multiplier_recovery: RemovedMultiplierRecovery,
    ) -> (f: Self)
        requires
            fixed_values@.len() == n_orig,
        ensures
            f.n_orig == n_orig,
            f.m_orig == m_orig,
            f.var_map@ == var_map@,
            f.row_map@ == row_map@,
            f.fixed_values@ == fixed_values@,
            f.multiplier_recovery == multiplier_recovery,
    {
        ReductionFrame { n_orig, m_orig, var_map, row_map, fixed_values, multiplier_recovery }
    }

    /// Whether a variable or a constraint was removed.
    pub fn did_reduce(&self) -> (r: bool)
        ensures
            r == (self.var_map@.len() < self.n_orig || self.row_map@.len() < self.m_orig),
    {
        self.var_map.len() < self.n_orig || self.row_map.len() < self.m_orig
    }

    /// Number of removed variables.
    pub fn num_removed_vars(&self) -> (r: usize)
        requires
            self.var_map@.len() <= self.n_orig,
        ensures
            r == self.n_orig - self.var_map@.len(),
    {
        self.n_orig - self.var_map.len()
    }

    /// Number of removed constraints.
    pub fn num_removed_rows(&self) -> (r: usize)
        requires
            self.row_map@.len() <= self.m_orig,
        ensures
            r == self.m_orig - self.row_map@.len(),
    {
        self.m_orig - self.row_map.len()
    }

    /// The removed variables.
    pub fn removed_vars(&self) -> (r: Vec<usize>)
        ensures
            r@ == self.gone_vars(),
            forall|i: int| 0 <= i < r@.len() ==> (#[trigger] r@[i]) < self.n_orig,
    {
        removed_indices(self.n_orig, &self.var_map)
    }

    /// The removed constraints.
    pub fn removed_rows(&self) -> (r: Vec<usize>)
        ensures
            r@ == self.gone_rows(),
            forall|i: int| 0 <= i < r@.len() ==> (#[trigger] r@[i]) < self.m_orig,
    {
        removed_indices(self.m_orig, &self.row_map)
    }

    /// The factors of the variables that stay, if there is one for each variable.
    pub fn reduced_x_scaling(&self, scaling: &Vec<u64>) -> (r: Option<Vec<u64>>)
        requires
            self.well_formed(),
        ensures
            r is Some <==> scaling@.len() == self.n_orig,
            r matches Some(v) ==> v@ == selected(scaling@, self.var_map@),
    {
        if scaling.len() != self.n_orig {
            return None;
        }
        Some(select(scaling, &self.var_map))
    }

    /// The factors of the constraints that stay, if there is one for each
    /// constraint.
    pub fn reduced_g_scaling(&self, scaling: &Vec<u64>) -> (r: Option<Vec<u64>>)
        requires
            self.well_formed(),
        ensures
            r is Some <==> scaling@.len() == self.m_orig,
            r matches Some(v) ==> v@ == selected(scaling@, self.row_map@),
    {
        if scaling.len() != self.m_orig {
            return None;
        }
        Some(select(scaling, &self.row_map))
    }

    /// The point of all variables at a reduced point.
    pub fn expand_x(&self, x_reduced: &[u64]) -> (x: Vec<u64>)
        requires
            self.well_formed(),
            x_reduced@.len() >= self.var_map@.len(),
        ensures
            x@ == scattered(
                self.fixed_values@,
                self.var_map@,
                x_reduced@,
                self.var_map@.len(),
            ),
            x@.len() == self.n_orig,
    {
        let mut x: Vec<u64> = copy_numbers(&self.fixed_values);
        for i in 0..self.var_map.len()
            invariant
                self.well_formed(),
                x_reduced@.len() >= self.var_map@.len(),
                x@.len() == self.n_orig,
                x@ == scattered(self.fixed_values@, self.var_map@, x_reduced@, i as nat),
        {
            x.set(self.var_map[i], x_reduced[i]);
        }
        x
    }
}

fn count_of(map: &Vec<usize>, vals: &Vec<u64>) -> (k: usize)
    ensures
        k == shorter(map@.len(), vals@.len()),
{
    if map.len() <= vals.len() {
        map.len()
    } else {
        vals.len()
    }
}

/// A message as a mathematical value.
pub open spec fn said(r: Result<(), &'static str>, y: Seq<u64>) -> Result<Seq<u64>, Seq<char>> {
    match r {
        Ok(_) => Ok(y),
        Err(e) => Err(e@),
    }
}

impl ReductionFrame {
    /// Whether a removed variable is at one of its finite bounds.
    fn removed_vars_have_bound_ambiguity<
        P: NlpProblem + ?Sized,
        F: Fn(FloatOp, u64, u64) -> u64,
    >(&self, inner: &P, removed_vars: &Vec<usize>, x_full: &Vec<u64>, fpu: &Fpu<F>) -> (b: bool)
        requires
            fpu.sound(),
            self.suits(inner),
            x_full@.len() == self.n_orig,
            forall|i: int|
                0 <= i < removed_vars@.len() ==> (#[trigger] removed_vars@[i]) < self.n_orig,
        ensures
            b == some_at_bound(removed_vars@, x_full@, inner.shape(), *fpu),
    {
        let ghost s = inner.shape();
        let mut x_l: Vec<u64> = vec![ZERO; self.n_orig];
        let mut x_u: Vec<u64> = vec![ZERO; self.n_orig];
        inner.bounds(&mut x_l, &mut x_u);
        for k in 0..removed_vars.len()
            invariant
                fpu.sound(),
                s == inner.shape(),
                x_full@.len() == self.n_orig,
                x_l@.len() == self.n_orig,
                x_u@.len() == self.n_orig,
                x_l@ == s.x_l,
                x_u@ == s.x_u,
                forall|i: int|
                    0 <= i < removed_vars@.len() ==> (#[trigger] removed_vars@[i]) < self.n_orig,
                forall|i: int|
                    0 <= i < k ==> !at_bound(
                        x_full@[#[trigger] removed_vars@[i] as int],
                        s.x_l[removed_vars@[i] as int],
                        s.x_u[removed_vars@[i] as int],
                        *fpu,
                    ),
        {
            let v: usize = removed_vars[k];
            let x: u64 = x_full[v];
            let l: u64 = x_l[v];
            let u: u64 = x_u[v];
            let scale_l: u64 = fpu.max(fpu.max(abs(x), abs(l)), ONE);
            let scale_u: u64 = fpu.max(fpu.max(abs(x), abs(u)), ONE);
            if (is_finite(l) && le(x, fpu.add(l, fpu.mul(TEN_M8, scale_l)))) || (is_finite(u)
                && le(fpu.sub(u, fpu.mul(TEN_M8, scale_u)), x)) {
                assert(at_bound(
                    x_full@[removed_vars@[k as int] as int],
                    s.x_l[removed_vars@[k as int] as int],
                    s.x_u[removed_vars@[k as int] as int],
                    *fpu,
                ));
                return true;
            }
        }
        false
    }

    /// The matrix and right-hand side for the multipliers of removed constraints,
    /// or nothing where an entry is not finite.
    fn build_system<F: Fn(FloatOp, u64, u64) -> u64>(
        &self,
        rows: &Vec<usize>,
        cols: &Vec<usize>,
        vals: &Vec<u64>,
        row_pos: &Vec<Option<usize>>,
        var_pos: &Vec<Option<usize>>,
        y: &Vec<u64>,
        dim: usize,
        start: Vec<u64>,
        fpu: &Fpu<F>,
        Ghost(d): Ghost<AuxData>,
    ) -> (r: Option<(Vec<u64>, Vec<u64>)>)
        requires
            fpu.sound(),
            d.n == self.n_orig,
            d.m == self.m_orig,
            d.rows == rows@,
            d.cols == cols@,
            d.vals == vals@,
            d.row_pos == row_pos@,
            d.var_pos == var_pos@,
            d.y == y@,
            d.dim == dim,
            rows@.len() == cols@.len(),
            vals@.len() == rows@.len(),
            row_pos@.len() == self.m_orig,
            var_pos@.len() == self.n_orig,
            y@.len() == self.m_orig,
            start@.len() == dim,
            dim * dim <= usize::MAX,
            forall|i: int|
                0 <= i < row_pos@.len() ==> ((#[trigger] row_pos@[i]) matches Some(p) ==> p < dim),
            forall|i: int|
                0 <= i < var_pos@.len() ==> ((#[trigger] var_pos@[i]) matches Some(p) ==> p < dim),
        ensures
            r is None <==> d.has_bad_entry(),
            r matches Some((a, b)) ==> (a@, b@) == d.system(start@, rows@.len(), *fpu) && a@.len()
                == dim * dim && b@.len() == dim,
    {
        let size: usize = dim * dim;
        let ghost start_view = start@;
        let mut a: Vec<u64> = vec![ZERO; size];
        let mut b: Vec<u64> = start;
        assert(a@ =~= zeros(size as nat));
        for k in 0..rows.len()
            invariant
                fpu.sound(),
                size == dim * dim,
                d.n == self.n_orig,
                d.m == self.m_orig,
                d.rows == rows@,
                d.cols == cols@,
                d.vals == vals@,
                d.row_pos == row_pos@,
                d.var_pos == var_pos@,
                d.y == y@,
                d.dim == dim,
                rows@.len() == cols@.len(),
                vals@.len() == rows@.len(),
                row_pos@.len() == self.m_orig,
                var_pos@.len() == self.n_orig,
                y@.len() == self.m_orig,
                a@.len() == dim * dim,
                b@.len() == dim,
                forall|i: int|
                    0 <= i < row_pos@.len() ==> ((#[trigger] row_pos@[i]) matches Some(p) ==> p
                        < dim),
                forall|i: int|
                    0 <= i < var_pos@.len() ==> ((#[trigger] var_pos@[i]) matches Some(p) ==> p
                        < dim),
                (a@, b@) == d.system(start_view, k as nat, *fpu),
                forall|q: int| 0 <= q < k && #[trigger] d.in_range(q) ==> finite(d.vals[q]),
        {
            let row: usize = rows[k];
            let col: usize = cols[k];
            if row < self.m_orig && col < self.n_orig {
                let val: u64 = vals[k];
                assert(d.in_range(k as int));
                if !is_finite(val) {
                    return None;
                }
                assert(row_pos@[row as int] matches Some(p) ==> p < dim);
                assert(var_pos@[col as int] matches Some(p) ==> p < dim);
                match var_pos[col] {
                    None => {},
                    Some(i) => {
                        match row_pos[row] {
                            Some(j) => {
                                proof {
                                    lemma_cell(dim as int, i as int, j as int, dim as int);
                                }
                                let t: usize = i * dim + j;
                                a.set(t, fpu.add(a[t], val));
                            },
                            None => {
                                b.set(i, fpu.sub(b[i], fpu.mul(val, y[row])));
                            },
                        }
                    },
                }
            }
        }
        Some((a, b))
    }

    /// Sets the multipliers of removed constraints so that the Lagrangian is
    /// stationary in the removed variables, where that can be done.
    fn reconstruct_removed_constraint_multipliers<
        P: NlpProblem + ?Sized,
        F: Fn(FloatOp, u64, u64) -> u64,
    >(
        &self,
        inner: &P,
        x_full: &Vec<u64>,
        constraint_multipliers: &mut Vec<u64>,
        bound_multipliers_lower: &Vec<u64>,
        bound_multipliers_upper: &Vec<u64>,
        fpu: &Fpu<F>,
    ) -> (r: (Result<(), &'static str>, Ghost<RecoveryData>))
        requires
            fpu.sound(),
            self.well_formed(),
            self.suits(inner),
            self.multiplier_recovery is AuxiliaryStationarity,
            x_full@.len() == self.n_orig,
            old(constraint_multipliers)@.len() == self.m_orig,
            bound_multipliers_lower@.len() == self.n_orig,
            bound_multipliers_upper@.len() == self.n_orig,
        ensures
            self.asked(inner, x_full@, r.1@, *fpu),
            self.recovered(
                inner.shape(),
                UnmappedModel {
                    x: x_full@,
                    y: old(constraint_multipliers)@,
                    z_l: bound_multipliers_lower@,
                    z_u: bound_multipliers_upper@,
                },
                r.1@,
                *fpu,
            ) == said(r.0, final(constraint_multipliers)@),
            r.0 is Err ==> final(constraint_multipliers)@ == old(constraint_multipliers)@,
    {
        let ghost s = inner.shape();
        let ghost u = UnmappedModel {
            x: x_full@,
            y: constraint_multipliers@,
            z_l: bound_multipliers_lower@,
            z_u: bound_multipliers_upper@,
        };
        let ghost nothing = RecoveryData { grad: None, jac: None };
        let rows_out: Vec<usize> = self.removed_rows();
        let vars_out: Vec<usize> = self.removed_vars();
        if rows_out.len() == 0 && vars_out.len() == 0 {
            return (Ok(()), Ghost(nothing));
        }
        if rows_out.len() != vars_out.len() {
            return (
                Err("removed auxiliary row/variable counts are not square"),
                Ghost(nothing),
            );
        }
        if self.removed_vars_have_bound_ambiguity(inner, &vars_out, x_full, fpu) {
            return (
                Err("removed auxiliary variable is active at a finite bound"),
                Ghost(nothing),
            );
        }
        let mut grad: Vec<u64> = vec![ZERO; self.n_orig];
        if !inner.gradient(x_full, true, &mut grad) {
            return (Err("full gradient evaluation failed"), Ghost(nothing));
        }
        let (jac_rows, jac_cols): (Vec<usize>, Vec<usize>) = inner.jacobian_structure();
        if jac_rows.len() != jac_cols.len() {
            return (
                Err("Jacobian structure has mismatched row/column lengths"),
                Ghost(RecoveryData { grad: Some(grad@), jac: None }),
            );
        }
        let mut vals: Vec<u64> = vec![ZERO; jac_rows.len()];
        if !inner.jacobian_values(x_full, true, &mut vals) {
            return (
                Err("full Jacobian evaluation failed"),
                Ghost(RecoveryData { grad: Some(grad@), jac: None }),
            );
        }
        let ghost e = RecoveryData { grad: Some(grad@), jac: Some(vals@) };
        let row_pos: Vec<Option<usize>> = index_positions(self.m_orig, &rows_out);
        let var_pos: Vec<Option<usize>> = index_positions(self.n_orig, &vars_out);
        let dim: usize = rows_out.len();
        let ghost want = stationarity_rhs(
            vars_out@,
            grad@,
            bound_multipliers_lower@,
            bound_multipliers_upper@,
            *fpu,
        );
        let mut rhs: Vec<u64> = Vec::with_capacity(dim);
        for k in 0..dim
            invariant
                fpu.sound(),
                dim == vars_out@.len(),
                grad@.len() == self.n_orig,
                bound_multipliers_lower@.len() == self.n_orig,
                bound_multipliers_upper@.len() == self.n_orig,
                forall|i: int|
                    0 <= i < vars_out@.len() ==> (#[trigger] vars_out@[i]) < self.n_orig,
                want == stationarity_rhs(
                    vars_out@,
                    grad@,
                    bound_multipliers_lower@,
                    bound_multipliers_upper@,
                    *fpu,
                ),
                rhs@ == want.take(k as int),
        {
            let v: usize = vars_out[k];
            rhs.push(
                neg(
                    fpu.add(
                        fpu.sub(grad[v], bound_multipliers_lower[v]),
                        bound_multipliers_upper[v],
                    ),
                ),
            );
            assert(rhs@ =~= want.take(k + 1));
        }
        assert(rhs@ =~= want);
        let ghost d = self.aux_data(s, u.y, vals@);
        let (a, b): (Vec<u64>, Vec<u64>) = match self.build_system(
            &jac_rows,
            &jac_cols,
            &vals,
            &row_pos,
            &var_pos,
            constraint_multipliers,
            dim,
            rhs,
            fpu,
            Ghost(d),
        ) {
            None => {
                return (Err("Jacobian contains a non-finite value"), Ghost(e));
            },
            Some(t) => t,
        };
        let solved: Result<Vec<u64>, &'static str> = solve_dense_square_system(&a, &b, dim, fpu);
        match solved {
            Err(m) => (Err(m), Ghost(e)),
            Ok(lambda) => {
                proof {
                    lemma_solution_len(a@, b@, dim as int, *fpu);
                }
                for k in 0..dim
                    invariant
                        dim == rows_out@.len(),
                        lambda@.len() == dim,
                        constraint_multipliers@.len() == self.m_orig,
                        forall|i: int|
                            0 <= i < rows_out@.len() ==> (#[trigger] rows_out@[i]) < self.m_orig,
                        constraint_multipliers@ == scattered(
                            u.y,
                            rows_out@,
                            lambda@,
                            k as nat,
                        ),
                {
                    constraint_multipliers.set(rows_out[k], lambda[k]);
                }
                (Ok(()), Ghost(e))
            },
        }
    }

    /// The result of the problem for a reduced one.
    pub fn unmap_solution<P: NlpProblem + ?Sized, D: Clone, F: Fn(FloatOp, u64, u64) -> u64>(
        &self,
        inner: &P,
        reduced: &SolveResult<D>,
        fpu: &Fpu<F>,
    ) -> (r: SolveResult<D>)
        requires
            fpu.sound(),
            self.well_formed(),
            self.suits(inner),
            reduced.x@.len() >= self.var_map@.len(),
        ensures
            self.unmaps(inner, reduced.model(), r.model(), *fpu),
            r.x@.len() == self.n_orig,
    {
        proof {
            reveal(ReductionFrame::unmaps);
        }
        let ghost u = self.spread(reduced.model());
        let x: Vec<u64> = self.expand_x(&reduced.x);
        let mut y: Vec<u64> = scatter(
            self.m_orig,
            &self.row_map,
            &reduced.constraint_multipliers,
            count_of(&self.row_map, &reduced.constraint_multipliers),
        );
        let z_l: Vec<u64> = scatter(
            self.n_orig,
            &self.var_map,
            &reduced.bound_multipliers_lower,
            count_of(&self.var_map, &reduced.bound_multipliers_lower),
        );
        let z_u: Vec<u64> = scatter(
            self.n_orig,
            &self.var_map,
            &reduced.bound_multipliers_upper,
            count_of(&self.var_map, &reduced.bound_multipliers_upper),
        );
        let ghost mut e = RecoveryData { grad: None, jac: None };
        if self.multiplier_recovery == RemovedMultiplierRecovery::AuxiliaryStationarity {
            let (outcome_, Ghost(made)): (Result<(), &'static str>, Ghost<RecoveryData>) =
                self.reconstruct_removed_constraint_multipliers(
                inner,
                &x,
                &mut y,
                &z_l,
                &z_u,
                fpu,
            );
            proof {
                e = made;
                assert(self.asked(inner, u.x, e, *fpu));
            }
        }
        let mut objective: u64 = reduced.objective;
        let ok: bool = inner.objective(&x, true, &mut objective);
        let ghost f = outcome(ok, objective);
        let mut values: Vec<u64> = vec![ZERO; self.m_orig];
        let ghost mut g: Option<Seq<u64>> = None;
        if self.m_orig > 0 {
            let done: bool = inner.constraints(&x, true, &mut values);
            proof {
                g = outcome(done, values@);
            }
        }
        let r = SolveResult {
            x,
            objective,
            constraint_multipliers: y,
            bound_multipliers_lower: z_l,
            bound_multipliers_upper: z_u,
            constraint_values: values,
            status: reduced.status,
            iterations: reduced.iterations,
            diagnostics: reduced.diagnostics.clone(),
        };
        assert(inner.objective_gives(u.x, f) && is_left(f, r.objective));
        assert(self.m_orig > 0 ==> inner.constraints_give(u.x, g) && is_left(
            g,
            r.constraint_values@,
        ));
        r
    }
}

proof fn lemma_solution_len<F: Fn(FloatOp, u64, u64) -> u64>(
    a: Seq<u64>,
    b: Seq<u64>,
    dim: int,
    fpu: Fpu<F>,
)
    requires
        dim >= 0,
    ensures
        dense_solution(a, b, dim, fpu) matches Ok(x) ==> x.len() == dim,
{
}

/// Reductions of reductions, the last one first.
pub struct ReductionStack<'a, P: ?Sized> {
    pub layers: Vec<ReductionLayer<'a, P>>,
}

/// A reduction and the problem that it was made of.
pub struct ReductionLayer<'a, P: ?Sized> {
    pub frame: &'a ReductionFrame,
    pub inner: &'a P,
}

impl<'a, P: NlpProblem + ?Sized> ReductionLayer<'a, P> {
    pub open spec fn well_formed(&self) -> bool {
        self.frame.well_formed() && self.frame.suits(self.inner)
    }
}

impl<'a, P: NlpProblem + ?Sized> ReductionStack<'a, P> {
    /// No reduction.
    pub fn new() -> (s: Self)
        ensures
            s.layers@ == Seq::<ReductionLayer<'a, P>>::empty(),
    {
        ReductionStack { layers: Vec::new() }
    }

    /// The stack with one more layer, which is unmapped after the others.
    pub fn push(self, frame: &'a ReductionFrame, inner: &'a P) -> (s: Self)
        ensures
            s.layers@ == self.layers@.push(ReductionLayer { frame, inner }),
    {
        let mut layers: Vec<ReductionLayer<'a, P>> = self.layers;
        layers.push(ReductionLayer { frame, inner });
        ReductionStack { layers }
    }

    /// Each layer takes a point of the size that the one before gives.
    pub open spec fn chains(&self, n: nat) -> bool {
        &&& forall|k: int| 0 <= k < self.layers@.len() ==> (#[trigger] self.layers@[k]).well_formed()
        &&& self.layers@.len() > 0 ==> n >= self.layers@[0].frame.var_map@.len()
        &&& forall|k: int| 1 <= k < self.layers@.len() ==> #[trigger] self.links(k)
    }

    /// Layer `k` takes the points that the one before gives.
    pub open spec fn links(&self, k: int) -> bool {
        self.layers@[k - 1].frame.n_orig >= self.layers@[k].frame.var_map@.len()
    }

    /// `r` is the result after the first `k` layers.
    pub open spec fn unmaps<D: Clone, F: Fn(FloatOp, u64, u64) -> u64>(
        &self,
        reduced: ResultModel<D>,
        r: ResultModel<D>,
        k: nat,
        fpu: Fpu<F>,
    ) -> bool
        decreases k,
    {
        if k == 0 {
            cloned_result(reduced, r)
        } else {
            let layer = self.layers@[k - 1];
            exists|mid: ResultModel<D>|
                self.unmaps(reduced, mid, (k - 1) as nat, fpu) && #[trigger] layer.frame.unmaps(
                    layer.inner,
                    mid,
                    r,
                    fpu,
                )
        }
    }

    proof fn lemma_one_more<D: Clone, F: Fn(FloatOp, u64, u64) -> u64>(
        &self,
        reduced: ResultModel<D>,
        mid: ResultModel<D>,
        r: ResultModel<D>,
        k: nat,
        fpu: Fpu<F>,
    )
        requires
            0 < k <= self.layers@.len(),
            self.unmaps(reduced, mid, (k - 1) as nat, fpu),
            self.layers@[k - 1].frame.unmaps(self.layers@[k - 1].inner, mid, r, fpu),
        ensures
            self.unmaps(reduced, r, k, fpu),
    {
    }

    /// The result of the outermost problem for a reduced one.
    pub fn unmap_solution<D: Clone, F: Fn(FloatOp, u64, u64) -> u64>(
        &self,
        reduced: &SolveResult<D>,
        fpu: &Fpu<F>,
    ) -> (r: SolveResult<D>)
        requires
            fpu.sound(),
            self.chains(reduced.x@.len()),
        ensures
            self.unmaps(reduced.model(), r.model(), self.layers@.len(), *fpu),
    {
        let mut current: SolveResult<D> = reduced.copy();
        for k in 0..self.layers.len()
            invariant
                fpu.sound(),
                self.chains(reduced.x@.len()),
                self.unmaps(reduced.model(), current.model(), k as nat, *fpu),
                k == 0 ==> current.x@.len() == reduced.x@.len(),
                k > 0 ==> current.x@.len() == self.layers@[k - 1].frame.n_orig,
        {
            let layer: &ReductionLayer<'a, P> = &self.layers[k];
            assert(self.layers@[k as int].well_formed());
            assert(k > 0 ==> self.links(k as int));
            let ghost mid = current.model();
            let next: SolveResult<D> = layer.frame.unmap_solution(layer.inner, &current, fpu);
            proof {
                self.lemma_one_more(reduced.model(), mid, next.model(), (k + 1) as nat, *fpu);
            }
            current = next;
        }
        current
    }
}

proof fn lemma_scattered(base: Seq<u64>, map: Seq<usize>, vals: Seq<u64>, k: nat)
    requires
        k <= map.len(),
        k <= vals.len(),
        map.no_duplicates(),
        forall|i: int| 0 <= i < map.len() ==> (#[trigger] map[i]) < base.len(),
    ensures
        scattered(base, map, vals, k).len() == base.len(),
        forall|i: int|
            0 <= i < k ==> scattered(base, map, vals, k)[(#[trigger] map[i]) as int] == vals[i],
        forall|j: int|
            0 <= j < base.len() && !map.take(k as int).contains(j as usize)
                ==> #[trigger] scattered(base, map, vals, k)[j] == base[j],
    decreases k,
{
    if k > 0 {
        let before = (k - 1) as nat;
        lemma_scattered(base, map, vals, before);
        assert forall|j: int|
            0 <= j < base.len() && !map.take(k as int).contains(
                j as usize,
            ) implies #[trigger] scattered(base, map, vals, k)[j] == base[j] by {
            assert(map.take(k as int)[k - 1] == map[k - 1]);
            assert(map[k - 1] != j as usize);
            if map.take(before as int).contains(j as usize) {
                let i = choose|i: int|
                    0 <= i < before && map.take(before as int)[i] == j as usize;
                assert(map.take(k as int)[i] == j as usize);
            }
        }
    }
}

/// A reduced point is what its expansion holds at the variables that stay, and the
/// removed variables have their fixed values there.
pub proof fn frame_expansion_restricts(frame: ReductionFrame, x: Seq<u64>)
    requires
        frame.well_formed(),
        frame.var_map@.no_duplicates(),
        x.len() == frame.var_map@.len(),
    ensures
        ({
            let full = scattered(
                frame.fixed_values@,
                frame.var_map@,
                x,
                frame.var_map@.len(),
            );
            &&& selected(full, frame.var_map@) == x
            &&& forall|j: int|
                0 <= j < frame.n_orig && frame.gone_vars().contains(j as usize)
                    ==> #[trigger] full[j] == frame.fixed_values@[j]
        }),
{
    let map = frame.var_map@;
    let full = scattered(frame.fixed_values@, map, x, map.len());
    lemma_scattered(frame.fixed_values@, map, x, map.len());
    assert(map.take(map.len() as int) =~= map);
    assert forall|i: int| 0 <= i < map.len() implies selected(full, map)[i] == x[i] by {
        assert(full[map[i] as int] == x[i]);
    }
    assert(selected(full, map) =~= x);
    assert forall|j: int|
        0 <= j < frame.n_orig && frame.gone_vars().contains(
            j as usize,
        ) implies #[trigger] full[j] == frame.fixed_values@[j] by {
        removed_are_the_others(frame.n_orig as nat, map, j as usize);
    }
}

} // verus!
