//! Nonlinear programs.

use vstd::prelude::*;

verus! {

/// The parts of a problem that do not depend on a point.
#[verifier::ext_equal]
pub struct ProblemShape {
    /// Number of variables.
    pub n: nat,
    /// Number of constraints.
    pub m: nat,
    pub x_l: Seq<u64>,
    pub x_u: Seq<u64>,
    pub g_l: Seq<u64>,
    pub g_u: Seq<u64>,
    pub x0: Seq<u64>,
    pub jac_rows: Seq<usize>,
    pub jac_cols: Seq<usize>,
    pub hess_rows: Seq<usize>,
    pub hess_cols: Seq<usize>,
}

/// Rows and columns come in lists of one length and lie in their ranges.
pub open spec fn pattern_within(
    rows: Seq<usize>,
    cols: Seq<usize>,
    n_rows: nat,
    n_cols: nat,
) -> bool {
    &&& rows.len() == cols.len()
    &&& rows.len() <= usize::MAX
    &&& forall|k: int| 0 <= k < rows.len() ==> (#[trigger] rows[k]) < n_rows
    &&& forall|k: int| 0 <= k < cols.len() ==> (#[trigger] cols[k]) < n_cols
}

impl ProblemShape {
    pub open spec fn well_formed(self) -> bool {
        &&& self.x_l.len() == self.n
        &&& self.x_u.len() == self.n
        &&& self.x0.len() == self.n
        &&& self.g_l.len() == self.m
        &&& self.g_u.len() == self.m
        &&& pattern_within(self.jac_rows, self.jac_cols, self.m, self.n)
        &&& pattern_within(self.hess_rows, self.hess_cols, self.n, self.n)
    }
}

/// What an evaluation gave: the buffer after it, or nothing where it failed.
pub open spec fn outcome<T>(ok: bool, v: T) -> Option<T> {
    if ok {
        Some(v)
    } else {
        None
    }
}

/// A nonlinear program: minimize `f(x)` subject to `g_l <= g(x) <= g_u` and
/// `x_l <= x <= x_u`. Numbers are given by their bits.
///
/// The evaluations fill buffers of the caller and return `false` where a function
/// cannot be evaluated at the point. What they may give at a point is a relation,
/// not a function of the point: a problem may also depend on what it was notified
/// of. `new_x` tells that the point differs from that of the last evaluation; a
/// problem may use it to keep intermediate results.
pub trait NlpProblem {
    /// The problem is ready to be asked.
    open spec fn posed(&self) -> bool {
        true
    }

    open spec fn shape(&self) -> ProblemShape {
        vstd::pervasive::arbitrary()
    }

    /// The objective at `x` may come out as `v`.
    open spec fn objective_gives(&self, x: Seq<u64>, v: Option<u64>) -> bool {
        true
    }

    open spec fn gradient_gives(&self, x: Seq<u64>, v: Option<Seq<u64>>) -> bool {
        true
    }

    open spec fn constraints_give(&self, x: Seq<u64>, v: Option<Seq<u64>>) -> bool {
        true
    }

    open spec fn jacobian_gives(&self, x: Seq<u64>, v: Option<Seq<u64>>) -> bool {
        true
    }

    open spec fn hessian_gives(
        &self,
        x: Seq<u64>,
        obj_factor: u64,
        lambda: Seq<u64>,
        v: Option<Seq<u64>>,
    ) -> bool {
        true
    }

    /// Number of variables.
    fn num_variables(&self) -> (n: usize)
        requires
            self.posed(),
        ensures
            n == self.shape().n,
    ;

    /// Number of constraints.
    fn num_constraints(&self) -> (m: usize)
        requires
            self.posed(),
        ensures
            m == self.shape().m,
    ;

    /// Fills in the bounds of the variables, infinite where there is none.
    fn bounds(&self, x_l: &mut Vec<u64>, x_u: &mut Vec<u64>)
        requires
            self.posed(),
            old(x_l)@.len() == self.shape().n,
            old(x_u)@.len() == self.shape().n,
        ensures
            final(x_l)@ == self.shape().x_l,
            final(x_u)@ == self.shape().x_u,
    ;

    /// Fills in the bounds of the constraints.
    fn constraint_bounds(&self, g_l: &mut Vec<u64>, g_u: &mut Vec<u64>)
        requires
            self.posed(),
            old(g_l)@.len() == self.shape().m,
            old(g_u)@.len() == self.shape().m,
        ensures
            final(g_l)@ == self.shape().g_l,
            final(g_u)@ == self.shape().g_u,
    ;

    /// Fills in the point to start from.
    fn initial_point(&self, x0: &mut Vec<u64>)
        requires
            self.posed(),
            old(x0)@.len() == self.shape().n,
        ensures
            final(x0)@ == self.shape().x0,
    ;

    /// Fills in multipliers to start from. Returns `false` where there are none.
    fn initial_multipliers(
        &self,
        lam_g: &mut Vec<u64>,
        z_l: &mut Vec<u64>,
        z_u: &mut Vec<u64>,
    ) -> (given: bool)
        requires
            self.posed(),
        ensures
            final(lam_g)@.len() == old(lam_g)@.len(),
            final(z_l)@.len() == old(z_l)@.len(),
            final(z_u)@.len() == old(z_u)@.len(),
        default_ensures
            !given,
            final(lam_g)@ == old(lam_g)@,
            final(z_l)@ == old(z_l)@,
            final(z_u)@ == old(z_u)@,
    {
        false
    }

    /// Evaluates the objective.
    fn objective(&self, x: &[u64], new_x: bool, obj: &mut u64) -> (ok: bool)
        requires
            self.posed(),
            x@.len() == self.shape().n,
        ensures
            self.objective_gives(x@, outcome(ok, *final(obj))),
    ;

    /// Evaluates the gradient of the objective.
    fn gradient(&self, x: &[u64], new_x: bool, grad: &mut Vec<u64>) -> (ok: bool)
        requires
            self.posed(),
            x@.len() == self.shape().n,
            old(grad)@.len() == self.shape().n,
        ensures
            final(grad)@.len() == old(grad)@.len(),
            self.gradient_gives(x@, outcome(ok, final(grad)@)),
    ;

    /// Evaluates the constraints.
    fn constraints(&self, x: &[u64], new_x: bool, g: &mut Vec<u64>) -> (ok: bool)
        requires
            self.posed(),
            x@.len() == self.shape().n,
            old(g)@.len() == self.shape().m,
        ensures
            final(g)@.len() == old(g)@.len(),
            self.constraints_give(x@, outcome(ok, final(g)@)),
    ;

    /// Rows and columns of the entries of the constraint Jacobian.
    fn jacobian_structure(&self) -> (pattern: (Vec<usize>, Vec<usize>))
        requires
            self.posed(),
        ensures
            pattern.0@ == self.shape().jac_rows,
            pattern.1@ == self.shape().jac_cols,
    ;

    /// Evaluates the entries of the Jacobian, in the order of its structure.
    fn jacobian_values(&self, x: &[u64], new_x: bool, vals: &mut Vec<u64>) -> (ok: bool)
        requires
            self.posed(),
            x@.len() == self.shape().n,
            old(vals)@.len() == self.shape().jac_rows.len(),
        ensures
            final(vals)@.len() == old(vals)@.len(),
            self.jacobian_gives(x@, outcome(ok, final(vals)@)),
    ;

    /// Rows and columns of the entries of the Hessian of the Lagrangian, lower
    /// triangle only.
    fn hessian_structure(&self) -> (pattern: (Vec<usize>, Vec<usize>))
        requires
            self.posed(),
        ensures
            pattern.0@ == self.shape().hess_rows,
            pattern.1@ == self.shape().hess_cols,
    ;

    /// Evaluates the entries of the Hessian of `obj_factor * f + lambda^T g`, in
    /// the order of its structure.
    fn hessian_values(
        &self,
        x: &[u64],
        new_x: bool,
        obj_factor: u64,
        lambda: &[u64],
        vals: &mut Vec<u64>,
    ) -> (ok: bool)
        requires
            self.posed(),
            x@.len() == self.shape().n,
            lambda@.len() == self.shape().m,
            old(vals)@.len() == self.shape().hess_rows.len(),
        ensures
            final(vals)@.len() == old(vals)@.len(),
            self.hessian_gives(x@, obj_factor, lambda@, outcome(ok, final(vals)@)),
    ;

    /// Tells the problem the barrier parameter.
    fn notify_mu(&self, mu: u64)
        requires
            self.posed(),
    {
    }

    /// Whether to stop at the given iterate.
    fn resto_early_exit(&self, x: &[u64]) -> (stop: bool)
        requires
            self.posed(),
        default_ensures
            !stop,
    {
        false
    }
}

} // verus!
