//! Outcome of a solve.

use crate::linear_solver::copy_numbers;
use vstd::prelude::*;

verus! {

/// How a solve ended.
#[derive(Debug, Clone, Copy, PartialEq, Eq, Structural)]
pub enum SolveStatus {
    Optimal,
    Acceptable,
    /// The search direction became too small.
    StopAtTinyStep,
    Infeasible,
    /// Converged to a point of local infeasibility.
    LocalInfeasibility,
    MaxIterations,
    MaxTimeExceeded,
    NumericalError,
    /// A callback of the problem failed.
    EvaluationError,
    UserRequestedStop,
    DivergingIterates,
    RestorationFailed,
    InternalError,
}

/// A solution with its multipliers, and what the solver reports of the solve.
/// Numbers are binary64 bit patterns.
#[derive(Debug)]
pub struct SolveResult<D = ()> {
    pub x: Vec<u64>,
    pub objective: u64,
    pub constraint_multipliers: Vec<u64>,
    pub bound_multipliers_lower: Vec<u64>,
    pub bound_multipliers_upper: Vec<u64>,
    pub constraint_values: Vec<u64>,
    pub status: SolveStatus,
    pub iterations: usize,
    pub diagnostics: D,
}

/// A result as a mathematical value.
#[verifier::ext_equal]
pub struct ResultModel<D> {
    pub x: Seq<u64>,
    pub objective: u64,
    pub constraint_multipliers: Seq<u64>,
    pub bound_multipliers_lower: Seq<u64>,
    pub bound_multipliers_upper: Seq<u64>,
    pub constraint_values: Seq<u64>,
    pub status: SolveStatus,
    pub iterations: int,
    pub diagnostics: D,
}

/// `b` is `a` with a clone of its diagnostics.
pub open spec fn cloned_result<D: Clone>(a: ResultModel<D>, b: ResultModel<D>) -> bool {
    &&& b == ResultModel { diagnostics: b.diagnostics, ..a }
    &&& cloned(a.diagnostics, b.diagnostics)
}

impl<D> SolveResult<D> {
    pub open spec fn model(&self) -> ResultModel<D> {
        ResultModel {
            x: self.x@,
            objective: self.objective,
            constraint_multipliers: self.constraint_multipliers@,
            bound_multipliers_lower: self.bound_multipliers_lower@,
            bound_multipliers_upper: self.bound_multipliers_upper@,
            constraint_values: self.constraint_values@,
            status: self.status,
            iterations: self.iterations as int,
            diagnostics: self.diagnostics,
        }
    }

    /// A copy of the result, with a clone of the diagnostics.
    pub fn copy(&self) -> (r: Self) where D: Clone
        ensures
            cloned_result(self.model(), r.model()),
    {
        SolveResult {
            x: copy_numbers(&self.x),
            objective: self.objective,
            constraint_multipliers: copy_numbers(&self.constraint_multipliers),
            bound_multipliers_lower: copy_numbers(&self.bound_multipliers_lower),
            bound_multipliers_upper: copy_numbers(&self.bound_multipliers_upper),
            constraint_values: copy_numbers(&self.constraint_values),
            status: self.status,
            iterations: self.iterations,
            diagnostics: self.diagnostics.clone(),
        }
    }
}

} // verus!
