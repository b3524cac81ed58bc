//! How often a linear solver is called.

use crate::float::{FloatOp, Fpu, Notation};
use crate::kkt::direction::{
    direction_run, solve_run, solve_start, DirectionTask, SolvePhase, SolveState,
};
use crate::kkt::factor::{factor_run, factor_start, FactorState, Layout};
use crate::kkt::inertia::{
    after_singular, after_wrong_inertia, considered, InertiaCorrectionParams,
};
use crate::linear_solver::model::MatrixModel;
use crate::linear_solver::solver::SolverEvent;
use vstd::prelude::*;

verus! {

/// The factorizations among the calls.
pub open spec fn factorizations(ev: Seq<SolverEvent>) -> nat
    decreases ev.len(),
{
    if ev.len() == 0 {
        0
    } else {
        factorizations(ev.drop_last()) + (if ev.last() is Factor {
            1nat
        } else {
            0nat
        })
    }
}

proof fn lemma_attempts_kept<F: Fn(FloatOp, u64, u64) -> u64>(
    p: InertiaCorrectionParams,
    mu: u64,
    fpu: Fpu<F>,
)
    ensures
        considered(p, mu, fpu).0.max_attempts == p.max_attempts,
        after_singular(p, mu, fpu).0.max_attempts == p.max_attempts,
        after_wrong_inertia(p, mu, fpu).0.max_attempts == p.max_attempts,
{
    reveal(considered);
    reveal(after_singular);
    reveal(after_wrong_inertia);
}

/// As many factorizations as attempts were made, and no more than allowed.
spec fn attempts_hold(s: FactorState, count: nat, limit: usize) -> bool {
    &&& s.params.max_attempts == limit
    &&& s.phase is Factor ==> count == s.attempt && s.attempt < limit
    &&& s.phase is Probe || s.phase is Improve ==> count == s.attempt + 1 && s.attempt < limit
    &&& s.phase is Done ==> count <= limit
}

proof fn lemma_attempts<F: Fn(FloatOp, u64, u64) -> u64, D: Fn(u64) -> String>(
    layout: Layout,
    start: FactorState,
    ev: Seq<SolverEvent>,
    mu: u64,
    limit: usize,
    fpu: Fpu<F>,
    notation: Notation<D>,
)
    requires
        attempts_hold(start, 0, limit),
        !(factor_run(layout, start, ev, mu, fpu, notation).phase is Stray),
    ensures
        attempts_hold(
            factor_run(layout, start, ev, mu, fpu, notation),
            factorizations(ev),
            limit,
        ),
    decreases ev.len(),
{
    if ev.len() > 0 {
        let s = factor_run(layout, start, ev.drop_last(), mu, fpu, notation);
        assert(!(s.phase is Stray));
        lemma_attempts(layout, start, ev.drop_last(), mu, limit, fpu, notation);
        lemma_attempts_kept(s.params, mu, fpu);
    }
}

/// A matrix is factored no more often than the handler allows.
pub proof fn attempts_are_bounded<F: Fn(FloatOp, u64, u64) -> u64, D: Fn(u64) -> String>(
    layout: Layout,
    matrix: MatrixModel,
    rhs: Seq<u64>,
    scale: Option<Seq<u64>>,
    params: InertiaCorrectionParams,
    mu: u64,
    ev: Seq<SolverEvent>,
    fpu: Fpu<F>,
    notation: Notation<D>,
)
    requires
        factor_run(
            layout,
            factor_start(layout, matrix, rhs, scale, params, mu, fpu, notation),
            ev,
            mu,
            fpu,
            notation,
        ).phase is Done,
    ensures
        factorizations(ev) <= params.max_attempts,
{
    let start = factor_start(layout, matrix, rhs, scale, params, mu, fpu, notation);
    lemma_attempts_kept(params, mu, fpu);
    lemma_attempts_kept(
        InertiaCorrectionParams { use_scaling: true, ..params },
        mu,
        fpu,
    );
    lemma_attempts(layout, start, ev, mu, params.max_attempts, fpu, notation);
}

/// The larger of the two numbers of refinement steps.
pub open spec fn step_limit(t: DirectionTask) -> int {
    if t.ir.least() <= t.ir.most() {
        t.ir.most()
    } else {
        t.ir.least()
    }
}

/// The calls so far, by where the solve stands.
spec fn calls_hold(t: DirectionTask, s: SolveState, count: int) -> bool {
    let limit = step_limit(t);
    let before: int = if s.tried {
        limit + 3
    } else {
        0
    };
    match s.phase {
        SolvePhase::Solve => count <= before,
        SolvePhase::Refine => 0 <= s.iters < limit && count <= before + 1 + s.iters,
        SolvePhase::Improve => !s.tried && count <= 1 + limit,
        SolvePhase::Refactor => s.tried && count <= 2 + limit,
        SolvePhase::Done(_) => count <= 2 * limit + 4,
        SolvePhase::Stray => true,
    }
}

proof fn lemma_calls<F: Fn(FloatOp, u64, u64) -> u64>(
    t: DirectionTask,
    ev: Seq<SolverEvent>,
    fpu: Fpu<F>,
)
    ensures
        calls_hold(t, solve_run(t, solve_start(t), ev, fpu), ev.len() as int),
    decreases ev.len(),
{
    if ev.len() > 0 {
        lemma_calls(t, ev.drop_last(), fpu);
    }
}

/// A direction takes a bounded number of calls: at most two rounds of one solve and
/// the refinement steps, and between them a change of quality and a factorization.
pub proof fn direction_is_bounded<F: Fn(FloatOp, u64, u64) -> u64>(
    t: DirectionTask,
    ev: Seq<SolverEvent>,
    fpu: Fpu<F>,
)
    requires
        direction_run(t, ev, fpu).phase is Done,
    ensures
        ev.len() <= 2 * step_limit(t) + 4,
{
    lemma_calls(t, ev, fpu);
}

} // verus!
