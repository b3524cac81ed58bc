//! A solver behind the interface of an iterative one.

use crate::linear_solver::solver::{FactorDiagnostics, LinearSolver, SolverEvent};
use crate::linear_solver::{Inertia, KktMatrix, SolverError};
use vstd::prelude::*;

verus! {

/// A solver that stands for an iterative one. With a full factorization as the
/// preconditioner a Krylov method ends after one step, so every call goes to the
/// inner solver.
pub struct FeralIterativeMinres<S> {
    pub inner: S,
}

impl<S: LinearSolver> FeralIterativeMinres<S> {
    pub fn new(inner: S) -> (s: Self)
        ensures
            s.inner == inner,
    {
        FeralIterativeMinres { inner }
    }

    /// The same as `new`: the options of a Krylov method have no effect.
    pub fn with_options(inner: S, tol: u64, max_iter: usize, drop_tolerance: u64) -> (s: Self)
        ensures
            s.inner == inner,
    {
        FeralIterativeMinres::new(inner)
    }
}

impl<S: LinearSolver> LinearSolver for FeralIterativeMinres<S> {
    open spec fn log(&self) -> Seq<SolverEvent> {
        self.inner.log()
    }

    fn factor(&mut self, matrix: &KktMatrix) -> (r: Result<Option<Inertia>, SolverError>) {
        self.inner.factor(matrix)
    }

    fn solve(&mut self, rhs: &Vec<u64>, solution: &mut Vec<u64>) -> (r: Result<(), SolverError>) {
        self.inner.solve(rhs, solution)
    }

    fn provides_inertia(&self) -> (p: bool)
        ensures
            call_ensures(S::provides_inertia, (&self.inner,), p),
    {
        self.inner.provides_inertia()
    }

    fn min_diagonal(&self) -> (least: Option<u64>)
        ensures
            call_ensures(S::min_diagonal, (&self.inner,), least),
    {
        self.inner.min_diagonal()
    }

    fn increase_quality(&mut self) -> (improved: bool) {
        self.inner.increase_quality()
    }

    fn last_factor_diagnostics(&self) -> (d: FactorDiagnostics)
        ensures
            call_ensures(S::last_factor_diagnostics, (&self.inner,), d),
    {
        self.inner.last_factor_diagnostics()
    }
}

} // verus!
