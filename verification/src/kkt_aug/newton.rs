//! Factorization and refined solution of the augmented system.

use crate::float::{
    eq, finite, is_finite, le, lt, num_eq, num_le, num_lt, FloatOp, Fpu, Notation, INFINITY,
    NEARLY_ONE, TEN_M10, TEN_P6, ZERO,
};
use crate::kkt::barrier::zeros;
use crate::kkt::direction::{amax, inf_norm};
use crate::kkt::factor::{
    all_finite, factor_run, factor_shape, factor_start, has_room, is_all_finite, FactorPhase,
    FactorState, Kind, Layout, Shape,
};
use crate::kkt::inertia::InertiaCorrectionParams;
use crate::kkt_aug::system::AugKktSystem;
use crate::linear_solver::model::MatrixModel;
use crate::linear_solver::solver::{error_model, reply, ErrorModel, LinearSolver, SolverEvent};
use crate::linear_solver::{copy_numbers, SolverError};
use vstd::prelude::*;

verus! {

/// The residual ratio at which refinement stops.
pub const IR_RATIO_MAX_DEFAULT: u64 = TEN_M10;

/// The factor by which a refinement has to reduce the ratio.
pub const IR_IMPROVEMENT_FACTOR_DEFAULT: u64 = NEARLY_ONE;

/// The least number of solves.
pub const IR_MIN_STEPS_DEFAULT: usize = 1;

/// The greatest number of solves.
pub const IR_MAX_STEPS_DEFAULT: usize = 10;

/// A refined solution.
#[derive(Debug)]
pub struct AugSolveResult {
    pub sol: Vec<u64>,
    /// Number of solves.
    pub ir_iters: usize,
    /// The last residual ratio, where the first solution was finite.
    pub final_ratio: Option<u64>,
}

#[verifier::ext_equal]
pub struct SolutionModel {
    pub sol: Seq<u64>,
    pub iters: int,
    pub ratio: Option<u64>,
}

pub open spec fn solution(r: Result<AugSolveResult, SolverError>) -> Result<
    SolutionModel,
    ErrorModel,
> {
    match r {
        Ok(a) => Ok(
            SolutionModel { sol: a.sol@, iters: a.ir_iters as int, ratio: a.final_ratio },
        ),
        Err(e) => Err(error_model(e)),
    }
}

/// A system to solve, and when to stop refining.
pub struct RefineTask {
    pub matrix: MatrixModel,
    pub rhs: Seq<u64>,
    pub least: int,
    pub most: int,
    pub ratio_max: u64,
    pub improvement: u64,
}

pub open spec fn default_task(matrix: MatrixModel, rhs: Seq<u64>) -> RefineTask {
    RefineTask {
        matrix,
        rhs,
        least: IR_MIN_STEPS_DEFAULT as int,
        most: IR_MAX_STEPS_DEFAULT as int,
        ratio_max: IR_RATIO_MAX_DEFAULT,
        improvement: IR_IMPROVEMENT_FACTOR_DEFAULT,
    }
}

/// Elementwise differences.
pub open spec fn differences<F: Fn(FloatOp, u64, u64) -> u64>(
    a: Seq<u64>,
    b: Seq<u64>,
    fpu: Fpu<F>,
) -> Seq<u64> {
    Seq::new(a.len(), |i: int| fpu.difference(a[i], b[i]))
}

impl RefineTask {
    /// Product of the matrix and `sol`, minus the right-hand side.
    pub open spec fn residual<F: Fn(FloatOp, u64, u64) -> u64>(
        self,
        sol: Seq<u64>,
        fpu: Fpu<F>,
    ) -> Seq<u64> {
        differences(self.matrix.times(sol, fpu), self.rhs, fpu)
    }

    /// Size of the residual against those of solution and right-hand side.
    pub open spec fn ratio<F: Fn(FloatOp, u64, u64) -> u64>(
        self,
        sol: Seq<u64>,
        fpu: Fpu<F>,
    ) -> u64 {
        let nr = amax(self.residual(sol, fpu), fpu);
        let nrhs = amax(self.rhs, fpu);
        let scale = fpu.sum(
            fpu.calc(FloatOp::Min, amax(sol, fpu), fpu.product(TEN_P6, nrhs)),
            nrhs,
        );
        if num_eq(scale, ZERO) {
            if num_eq(nr, ZERO) {
                ZERO
            } else {
                INFINITY
            }
        } else {
            fpu.quotient(nr, scale)
        }
    }
}

pub enum RefinePhase {
    /// The first solve is due.
    Solve,
    /// A solve for the residual is due.
    Refine,
    Done(Result<SolutionModel, ErrorModel>),
    /// A call that was not due.
    Stray,
}

pub struct RefineState {
    pub sol: Seq<u64>,
    pub iters: int,
    /// The ratio before the last correction, infinite before the first.
    pub last: u64,
    pub phase: RefinePhase,
}

pub open spec fn refine_start() -> RefineState {
    RefineState {
        sol: Seq::empty(),
        iters: 0,
        last: INFINITY,
        phase: RefinePhase::Solve,
    }
}

/// Whether the present solution is kept.
pub open spec fn is_settled<F: Fn(FloatOp, u64, u64) -> u64>(
    t: RefineTask,
    sol: Seq<u64>,
    iters: int,
    last: u64,
    fpu: Fpu<F>,
) -> bool {
    let ratio = t.ratio(sol, fpu);
    ||| iters >= t.least && num_le(ratio, t.ratio_max)
    ||| iters >= t.most
    ||| finite(last) && num_lt(fpu.product(last, t.improvement), ratio)
}

/// The state with a new solution.
pub open spec fn refine_head<F: Fn(FloatOp, u64, u64) -> u64>(
    t: RefineTask,
    sol: Seq<u64>,
    iters: int,
    last: u64,
    fpu: Fpu<F>,
) -> RefineState {
    RefineState {
        sol,
        iters,
        last,
        phase: if is_settled(t, sol, iters, last, fpu) {
            RefinePhase::Done(
                Ok(SolutionModel { sol, iters, ratio: Some(t.ratio(sol, fpu)) }),
            )
        } else {
            RefinePhase::Refine
        },
    }
}

/// The state after one more call of the solver.
pub open spec fn refine_step<F: Fn(FloatOp, u64, u64) -> u64>(
    t: RefineTask,
    s: RefineState,
    e: SolverEvent,
    fpu: Fpu<F>,
) -> RefineState {
    let stray = RefineState { phase: RefinePhase::Stray, ..s };
    match (s.phase, e) {
        (RefinePhase::Solve, SolverEvent::Solve(b, z, x, r)) => {
            if b != t.rhs || z != zeros(t.rhs.len()) || x.len() != t.rhs.len() {
                stray
            } else {
                match r {
                    Err(e) => RefineState { phase: RefinePhase::Done(Err(e)), ..s },
                    Ok(_) => if all_finite(x) {
                        refine_head(t, x, 1, INFINITY, fpu)
                    } else {
                        RefineState {
                            phase: RefinePhase::Done(
                                Ok(SolutionModel { sol: x, iters: 1, ratio: None }),
                            ),
                            ..s
                        }
                    },
                }
            }
        },
        (RefinePhase::Refine, SolverEvent::Solve(b, z, x, r)) => {
            if b != t.residual(s.sol, fpu) || z != zeros(t.rhs.len()) || x.len() != t.rhs.len() {
                stray
            } else {
                match r {
                    Err(e) => RefineState { phase: RefinePhase::Done(Err(e)), ..s },
                    Ok(_) => if all_finite(x) {
                        refine_head(
                            t,
                            differences(s.sol, x, fpu),
                            s.iters + 1,
                            t.ratio(s.sol, fpu),
                            fpu,
                        )
                    } else {
                        RefineState {
                            phase: RefinePhase::Done(
                                Ok(
                                    SolutionModel {
                                        sol: s.sol,
                                        iters: s.iters,
                                        ratio: Some(t.ratio(s.sol, fpu)),
                                    },
                                ),
                            ),
                            ..s
                        }
                    },
                }
            }
        },
        _ => stray,
    }
}

/// The state after a list of calls.
pub open spec fn refine_run<F: Fn(FloatOp, u64, u64) -> u64>(
    t: RefineTask,
    ev: Seq<SolverEvent>,
    fpu: Fpu<F>,
) -> RefineState
    decreases ev.len(),
{
    if ev.len() == 0 {
        refine_start()
    } else {
        refine_step(t, refine_run(t, ev.drop_last(), fpu), ev.last(), fpu)
    }
}

proof fn lemma_refine_push<F: Fn(FloatOp, u64, u64) -> u64>(
    t: RefineTask,
    ev: Seq<SolverEvent>,
    e: SolverEvent,
    fpu: Fpu<F>,
)
    ensures
        refine_run(t, ev.push(e), fpu) == refine_step(t, refine_run(t, ev, fpu), e, fpu),
{
    assert(ev.push(e).drop_last() =~= ev);
}

/// A refined solution takes at least one solve, and at most the allowed number
/// or one.
pub proof fn refinement_is_bounded<F: Fn(FloatOp, u64, u64) -> u64>(
    t: RefineTask,
    ev: Seq<SolverEvent>,
    fpu: Fpu<F>,
)
    ensures
        refine_run(t, ev, fpu).phase matches RefinePhase::Done(Ok(a)) ==> 1 <= a.iters && (a.iters
            <= t.most || a.iters == 1),
        refine_run(t, ev, fpu).phase is Refine ==> 1 <= refine_run(t, ev, fpu).iters < t.most,
    decreases ev.len(),
{
    if ev.len() > 0 {
        refinement_is_bounded(t, ev.drop_last(), fpu);
    }
}

fn subtracted<F: Fn(FloatOp, u64, u64) -> u64>(a: &Vec<u64>, b: &Vec<u64>, fpu: &Fpu<F>) -> (r: Vec<
    u64,
>)
    requires
        fpu.sound(),
        a@.len() == b@.len(),
    ensures
        r@ == differences(a@, b@, *fpu),
{
    let mut r: Vec<u64> = Vec::with_capacity(a.len());
    for i in 0..a.len()
        invariant
            fpu.sound(),
            a@.len() == b@.len(),
            r@ == differences(a@, b@, *fpu).take(i as int),
    {
        r.push(fpu.sub(a[i], b[i]));
        assert(r@ =~= differences(a@, b@, *fpu).take(i + 1));
    }
    assert(r@ =~= differences(a@, b@, *fpu));
    r
}

/// Product of the system's matrix and `sol`, minus `rhs`.
fn aug_residual<F: Fn(FloatOp, u64, u64) -> u64>(
    aug: &AugKktSystem,
    sol: &Vec<u64>,
    rhs: &Vec<u64>,
    fpu: &Fpu<F>,
) -> (resid: Vec<u64>)
    requires
        fpu.sound(),
        aug.well_formed(),
        sol@.len() == aug.dim,
        rhs@.len() == aug.dim,
    ensures
        resid@ == differences(aug.matrix.model().times(sol@, *fpu), rhs@, *fpu),
        resid@.len() == aug.dim,
{
    let mut product: Vec<u64> = vec![ZERO; aug.dim];
    aug.matrix.matvec(sol, &mut product, fpu);
    subtracted(&product, rhs, fpu)
}

fn residual_ratio<F: Fn(FloatOp, u64, u64) -> u64>(
    resid: &Vec<u64>,
    sol: &Vec<u64>,
    rhs: &Vec<u64>,
    fpu: &Fpu<F>,
    Ghost(t): Ghost<RefineTask>,
) -> (ratio: u64)
    requires
        fpu.sound(),
        resid@ == t.residual(sol@, *fpu),
        rhs@ == t.rhs,
    ensures
        ratio == t.ratio(sol@, *fpu),
{
    let nr: u64 = inf_norm(resid, fpu);
    let ns: u64 = inf_norm(sol, fpu);
    let nrhs: u64 = inf_norm(rhs, fpu);
    let scale: u64 = fpu.add(fpu.min(ns, fpu.mul(TEN_P6, nrhs)), nrhs);
    if eq(scale, ZERO) {
        if eq(nr, ZERO) {
            ZERO
        } else {
            INFINITY
        }
    } else {
        fpu.div(nr, scale)
    }
}

/// Solves with the factors that the solver holds, and refines the solution
/// until the residual is small, no longer falls, or all solves are used.
pub fn solve_aug_with_ir<S: LinearSolver, F: Fn(FloatOp, u64, u64) -> u64>(
    solver: &mut S,
    aug: &AugKktSystem,
    rhs_aug: &Vec<u64>,
    min_iters: usize,
    max_iters: usize,
    ratio_max: u64,
    improvement_factor: u64,
    fpu: &Fpu<F>,
) -> (r: Result<AugSolveResult, SolverError>)
    requires
        fpu.sound(),
        aug.well_formed(),
        rhs_aug@.len() == aug.dim,
    ensures
        old(solver).log().is_prefix_of(final(solver).log()),
        refine_run(
            RefineTask {
                matrix: aug.matrix.model(),
                rhs: rhs_aug@,
                least: min_iters as int,
                most: max_iters as int,
                ratio_max,
                improvement: improvement_factor,
            },
            final(solver).log().skip(old(solver).log().len() as int),
            *fpu,
        ).phase == RefinePhase::Done(solution(r)),
        r matches Ok(a) ==> a.sol@.len() == aug.dim,
{
    let ghost t = RefineTask {
        matrix: aug.matrix.model(),
        rhs: rhs_aug@,
        least: min_iters as int,
        most: max_iters as int,
        ratio_max,
        improvement: improvement_factor,
    };
    let ghost was = solver.log();
    let mut sol: Vec<u64> = vec![ZERO; aug.dim];
    let ghost given = sol@;
    assert(given =~= zeros(rhs_aug@.len()));
    let first: Result<(), SolverError> = solver.solve(rhs_aug, &mut sol);
    let ghost e = SolverEvent::Solve(rhs_aug@, given, sol@, reply(first));
    proof {
        assert(solver.log().skip(was.len() as int) =~= Seq::<SolverEvent>::empty().push(e));
        lemma_refine_push(t, Seq::empty(), e, *fpu);
    }
    match first {
        Err(e) => {
            return Err(e);
        },
        Ok(_) => {},
    }
    if !is_all_finite(&sol) {
        return Ok(AugSolveResult { sol, ir_iters: 1, final_ratio: None });
    }
    let mut ir_iters: usize = 1;
    let mut last_ratio: u64 = INFINITY;
    loop
        invariant
            fpu.sound(),
            aug.well_formed(),
            rhs_aug@.len() == aug.dim,
            sol@.len() == aug.dim,
            given == zeros(rhs_aug@.len()),
            was == old(solver).log(),
            was.is_prefix_of(solver.log()),
            t == (RefineTask {
                matrix: aug.matrix.model(),
                rhs: rhs_aug@,
                least: min_iters as int,
                most: max_iters as int,
                ratio_max,
                improvement: improvement_factor,
            }),
            1 <= ir_iters <= max_iters || ir_iters == 1,
            refine_run(t, solver.log().skip(was.len() as int), *fpu) == refine_head(
                t,
                sol@,
                ir_iters as int,
                last_ratio,
                *fpu,
            ),
        decreases max_iters - ir_iters,
    {
        let resid: Vec<u64> = aug_residual(aug, &sol, rhs_aug, fpu);
        let ratio: u64 = residual_ratio(&resid, &sol, rhs_aug, fpu, Ghost(t));
        if ir_iters >= min_iters && le(ratio, ratio_max) {
            return Ok(AugSolveResult { sol, ir_iters, final_ratio: Some(ratio) });
        }
        if ir_iters >= max_iters {
            return Ok(AugSolveResult { sol, ir_iters, final_ratio: Some(ratio) });
        }
        if is_finite(last_ratio) && lt(fpu.mul(last_ratio, improvement_factor), ratio) {
            return Ok(AugSolveResult { sol, ir_iters, final_ratio: Some(ratio) });
        }
        let ghost before = solver.log();
        let mut correction: Vec<u64> = vec![ZERO; aug.dim];
        assert(correction@ =~= given);
        let reply_: Result<(), SolverError> = solver.solve(&resid, &mut correction);
        let ghost e = SolverEvent::Solve(resid@, given, correction@, reply(reply_));
        proof {
            assert(solver.log().skip(was.len() as int) =~= before.skip(was.len() as int).push(e));
            lemma_refine_push(t, before.skip(was.len() as int), e, *fpu);
        }
        match reply_ {
            Err(e) => {
                return Err(e);
            },
            Ok(_) => {},
        }
        if !is_all_finite(&correction) {
            return Ok(AugSolveResult { sol, ir_iters, final_ratio: Some(ratio) });
        }
        sol = subtracted(&sol, &correction, fpu);
        last_ratio = ratio;
        ir_iters = ir_iters + 1;
    }
}

impl AugKktSystem {
    pub open spec fn layout(&self) -> Layout {
        Layout::Augmented { n: self.n as int, n_c: self.n_c as int, n_d: self.n_d as int }
    }
}

/// The factorization of an augmented matrix as a run of the solver.
pub open spec fn aug_factored<F: Fn(FloatOp, u64, u64) -> u64, D: Fn(u64) -> String>(
    layout: Layout,
    matrix: MatrixModel,
    rhs: Seq<u64>,
    params: InertiaCorrectionParams,
    mu: u64,
    ev: Seq<SolverEvent>,
    fpu: Fpu<F>,
    notation: Notation<D>,
) -> FactorState {
    factor_run(
        layout,
        factor_start(layout, matrix, rhs, None, params, mu, fpu, notation),
        ev,
        mu,
        fpu,
        notation,
    )
}

/// Factors the matrix of the system, perturbed as far as its inertia calls for.
/// The result holds the perturbations of the primal and the dual unknowns, and
/// the system then holds them and the perturbed matrix. `rhs` is the
/// right-hand side of the trial solve.
pub fn factor_aug_with_inertia_correction<
    S: LinearSolver,
    F: Fn(FloatOp, u64, u64) -> u64,
    D: Fn(u64) -> String,
>(
    aug: &mut AugKktSystem,
    solver: &mut S,
    params: &mut InertiaCorrectionParams,
    mu: u64,
    rhs: &Vec<u64>,
    fpu: &Fpu<F>,
    notation: &Notation<D>,
) -> (r: Result<(u64, u64), SolverError>)
    requires
        fpu.sound(),
        notation.sound(),
        old(aug).well_formed(),
        rhs@.len() == old(aug).dim,
        has_room(*old(params)),
    ensures
        final(aug).well_formed(),
        final(aug).dim == old(aug).dim,
        final(aug).n == old(aug).n,
        final(aug).n_c == old(aug).n_c,
        final(aug).n_d == old(aug).n_d,
        r matches Ok((dx, dc)) ==> final(aug).delta_x == dx && final(aug).delta_s == dx
            && final(aug).delta_c == dc && final(aug).delta_d == dc,
        r is Err ==> final(aug).delta_x == old(aug).delta_x && final(aug).delta_s == old(
            aug,
        ).delta_s && final(aug).delta_c == old(aug).delta_c && final(aug).delta_d == old(
            aug,
        ).delta_d,
        old(solver).log().is_prefix_of(final(solver).log()),
        ({
            let end = aug_factored(
                old(aug).layout(),
                old(aug).matrix.model(),
                rhs@,
                *old(params),
                mu,
                final(solver).log().skip(old(solver).log().len() as int),
                *fpu,
                *notation,
            );
            &&& end.phase == FactorPhase::Done(reply(r))
            &&& end.matrix == final(aug).matrix.model()
            &&& end.params == *final(params)
        }),
{
    let shape: Shape = Shape { kind: Kind::Augmented, n: aug.n, n_c: aug.n_c, n_d: aug.n_d };
    let mut probe: Vec<u64> = copy_numbers(rhs);
    let mut scale: Option<Vec<u64>> = None;
    let r: Result<(u64, u64), SolverError> = factor_shape(
        &shape,
        &mut aug.matrix,
        &mut probe,
        &mut scale,
        solver,
        params,
        mu,
        fpu,
        notation,
    );
    match r {
        Ok((dx, dc)) => {
            aug.delta_x = dx;
            aug.delta_s = dx;
            aug.delta_c = dc;
            aug.delta_d = dc;
            Ok((dx, dc))
        },
        Err(e) => Err(e),
    }
}

/// What comes of factoring a matrix with the first `k` calls and solving with
/// the others.
#[verifier::ext_equal]
pub struct NewtonOutcome {
    pub result: Result<(SolutionModel, u64, u64), ErrorModel>,
    /// The matrix after the factorization.
    pub matrix: MatrixModel,
    pub params: InertiaCorrectionParams,
}

/// The outcome, if the calls are those of a factorization and a refined
/// solution.
pub open spec fn newton_outcome<F: Fn(FloatOp, u64, u64) -> u64, D: Fn(u64) -> String>(
    layout: Layout,
    matrix: MatrixModel,
    rhs: Seq<u64>,
    params: InertiaCorrectionParams,
    mu: u64,
    ev: Seq<SolverEvent>,
    k: int,
    fpu: Fpu<F>,
    notation: Notation<D>,
) -> Option<NewtonOutcome> {
    let f = aug_factored(layout, matrix, rhs, params, mu, ev.take(k), fpu, notation);
    let s = refine_run(default_task(f.matrix, rhs), ev.skip(k), fpu);
    match f.phase {
        FactorPhase::Done(Err(e)) => if k == ev.len() {
            Some(NewtonOutcome { result: Err(e), matrix: f.matrix, params: f.params })
        } else {
            None
        },
        FactorPhase::Done(Ok((dw, dc))) => match s.phase {
            RefinePhase::Done(Err(e)) => Some(
                NewtonOutcome { result: Err(e), matrix: f.matrix, params: f.params },
            ),
            RefinePhase::Done(Ok(a)) => Some(
                NewtonOutcome { result: Ok((a, dw, dc)), matrix: f.matrix, params: f.params },
            ),
            _ => None,
        },
        _ => None,
    }
}

/// The calls are those of a factorization and a refined solution, with the
/// given outcome.
pub open spec fn newton_gives<F: Fn(FloatOp, u64, u64) -> u64, D: Fn(u64) -> String>(
    layout: Layout,
    matrix: MatrixModel,
    rhs: Seq<u64>,
    params: InertiaCorrectionParams,
    mu: u64,
    ev: Seq<SolverEvent>,
    o: NewtonOutcome,
    fpu: Fpu<F>,
    notation: Notation<D>,
) -> bool {
    exists|k: int|
        0 <= k <= ev.len() && #[trigger] newton_outcome(
            layout,
            matrix,
            rhs,
            params,
            mu,
            ev,
            k,
            fpu,
            notation,
        ) == Some(o)
}

/// A result of `newton_solve` as a mathematical value.
pub open spec fn newton_model(r: Result<(AugSolveResult, u64, u64), SolverError>) -> Result<
    (SolutionModel, u64, u64),
    ErrorModel,
> {
    match r {
        Ok((a, dw, dc)) => Ok(
            (SolutionModel { sol: a.sol@, iters: a.ir_iters as int, ratio: a.final_ratio }, dw, dc),
        ),
        Err(e) => Err(error_model(e)),
    }
}

/// Factors the system and solves it for `rhs`.
pub(crate) fn newton_solve<
    S: LinearSolver,
    F: Fn(FloatOp, u64, u64) -> u64,
    D: Fn(u64) -> String,
>(
    aug: &mut AugKktSystem,
    rhs: &Vec<u64>,
    mu: u64,
    solver: &mut S,
    params: &mut InertiaCorrectionParams,
    fpu: &Fpu<F>,
    notation: &Notation<D>,
) -> (r: Result<(AugSolveResult, u64, u64), SolverError>)
    requires
        fpu.sound(),
        notation.sound(),
        old(aug).well_formed(),
        rhs@.len() == old(aug).dim,
        has_room(*old(params)),
    ensures
        final(aug).well_formed(),
        final(aug).dim == old(aug).dim,
        final(aug).n == old(aug).n,
        final(aug).n_c == old(aug).n_c,
        final(aug).n_d == old(aug).n_d,
        r matches Ok((a, dw, dc)) ==> a.sol@.len() == old(aug).dim && final(aug).delta_x == dw
            && final(aug).delta_s == dw && final(aug).delta_c == dc && final(aug).delta_d == dc,
        old(solver).log().is_prefix_of(final(solver).log()),
        newton_gives(
            old(aug).layout(),
            old(aug).matrix.model(),
            rhs@,
            *old(params),
            mu,
            final(solver).log().skip(old(solver).log().len() as int),
            NewtonOutcome {
                result: newton_model(r),
                matrix: final(aug).matrix.model(),
                params: *final(params),
            },
            *fpu,
            *notation,
        ),
{
    let ghost was = solver.log();
    let ghost start = *aug;
    let ghost params0 = *params;
    let f: Result<(u64, u64), SolverError> = factor_aug_with_inertia_correction(
        aug,
        solver,
        params,
        mu,
        rhs,
        fpu,
        notation,
    );
    let ghost mid = solver.log();
    let ghost k = (mid.len() - was.len()) as int;
    match f {
        Err(e) => {
            proof {
                let ev = mid.skip(was.len() as int);
                assert(ev.take(k) =~= ev);
                let o = NewtonOutcome {
                    result: Err(error_model(e)),
                    matrix: aug.matrix.model(),
                    params: *params,
                };
                assert(newton_outcome(
                    start.layout(),
                    start.matrix.model(),
                    rhs@,
                    params0,
                    mu,
                    ev,
                    k,
                    *fpu,
                    *notation,
                ) == Some(o));
            }
            Err(e)
        },
        Ok((dw, dc)) => {
            let s: Result<AugSolveResult, SolverError> = solve_aug_with_ir(
                solver,
                aug,
                rhs,
                IR_MIN_STEPS_DEFAULT,
                IR_MAX_STEPS_DEFAULT,
                IR_RATIO_MAX_DEFAULT,
                IR_IMPROVEMENT_FACTOR_DEFAULT,
                fpu,
            );
            let r: Result<(AugSolveResult, u64, u64), SolverError> = match s {
                Err(e) => Err(e),
                Ok(a) => Ok((a, dw, dc)),
            };
            proof {
                let ev = solver.log().skip(was.len() as int);
                assert(ev.take(k) =~= mid.skip(was.len() as int));
                assert(ev.skip(k) =~= solver.log().skip(mid.len() as int));
                let o = NewtonOutcome {
                    result: newton_model(r),
                    matrix: aug.matrix.model(),
                    params: *params,
                };
                assert(newton_outcome(
                    start.layout(),
                    start.matrix.model(),
                    rhs@,
                    params0,
                    mu,
                    ev,
                    k,
                    *fpu,
                    *notation,
                ) == Some(o));
            }
            r
        },
    }
}

} // verus!
