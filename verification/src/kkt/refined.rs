//! Directions checked against the whole primal-dual system, and solves for
//! several right-hand sides.

use crate::float::{
    abs, absolute, eq, finite, is_finite, le, num_eq, num_le, FloatOp, Fpu, NEARLY_ONE, TEN_M10,
    TEN_M5, TEN_P6, ZERO,
};
use crate::kkt::assemble::{option_view, KktSystem};
use crate::kkt::barrier::{lower_steps, recover_dz, safe_slack, slack, upper_steps, zeros};
use crate::kkt::direction::{
    amax, context_model, direction, direction_run, inf_norm, residual_of,
    solve_for_direction_with_ir, solve_for_direction_with_ir_ctx, solve_start, solve_step,
    split_solution, sums, task_of, BoundModel, BoundResidualContext, DirectionTask, IrParams,
    SolvePhase, SolveState,
};
use crate::kkt::factor::{all_finite, is_all_finite};
use crate::kkt::inertia::InertiaCorrectionParams;
use crate::linear_solver::solver::{
    column, error_model, failure, reply, ErrorModel, LinearSolver, SolverEvent,
};
use crate::linear_solver::SolverError;
use vstd::prelude::*;

verus! {

/// Steps of the bound multipliers, from the step of the variables.
pub fn recover_full_step<F: Fn(FloatOp, u64, u64) -> u64>(
    ctx: &BoundResidualContext<'_>,
    dx: &Vec<u64>,
    fpu: &Fpu<F>,
) -> (r: (Vec<u64>, Vec<u64>))
    requires
        fpu.sound(),
        ctx.covers(0),
        dx@.len() >= ctx.x@.len(),
    ensures
        r.0@ == lower_steps(ctx.x@, ctx.x_l@, ctx.z_l@, dx@, ctx.mu, *fpu),
        r.1@ == upper_steps(ctx.x@, ctx.x_u@, ctx.z_u@, dx@, ctx.mu, *fpu),
{
    recover_dz(ctx.x, ctx.x_l, ctx.x_u, ctx.z_l, ctx.z_u, dx, ctx.mu, fpu)
}

/// Largest residuals of the complementarity equations of lower and upper
/// bounds, and the sizes of solution and right-hand side.
pub struct FullNorms {
    pub lower: u64,
    pub upper: u64,
    pub sol: u64,
    pub rhs: u64,
}

pub open spec fn max_abs<F: Fn(FloatOp, u64, u64) -> u64>(a: u64, v: u64, fpu: Fpu<F>) -> u64 {
    fpu.calc(FloatOp::Max, a, absolute(v))
}

/// The norms over the first `k` variables.
pub open spec fn full_norms<F: Fn(FloatOp, u64, u64) -> u64>(
    b: BoundModel,
    rhs: u64,
    dx: Seq<u64>,
    dz_l: Seq<u64>,
    dz_u: Seq<u64>,
    k: nat,
    fpu: Fpu<F>,
) -> FullNorms
    decreases k,
{
    if k == 0 {
        FullNorms { lower: ZERO, upper: ZERO, sol: ZERO, rhs }
    } else {
        let i = k - 1;
        let a = full_norms(b, rhs, dx, dz_l, dz_u, (k - 1) as nat, fpu);
        let c = FullNorms {
            sol: max_abs(max_abs(max_abs(a.sol, dx[i], fpu), dz_l[i], fpu), dz_u[i], fpu),
            ..a
        };
        let d = if finite(b.x_l[i]) {
            let s = slack(b.x[i], b.x_l[i], fpu);
            let zs = fpu.product(b.z_l[i], s);
            let r = fpu.difference(
                fpu.sum(fpu.product(s, dz_l[i]), fpu.product(b.z_l[i], dx[i])),
                fpu.difference(b.mu, zs),
            );
            FullNorms {
                lower: max_abs(c.lower, r, fpu),
                rhs: max_abs(max_abs(c.rhs, zs, fpu), b.mu, fpu),
                ..c
            }
        } else {
            c
        };
        if finite(b.x_u[i]) {
            let s = slack(b.x_u[i], b.x[i], fpu);
            let zs = fpu.product(b.z_u[i], s);
            let r = fpu.difference(
                fpu.difference(fpu.product(s, dz_u[i]), fpu.product(b.z_u[i], dx[i])),
                fpu.difference(b.mu, zs),
            );
            FullNorms {
                upper: max_abs(d.upper, r, fpu),
                rhs: max_abs(max_abs(d.rhs, zs, fpu), b.mu, fpu),
                ..d
            }
        } else {
            d
        }
    }
}

/// Size of the complementarity residuals against the sizes of solution and
/// right-hand side.
pub open spec fn full_ratio<F: Fn(FloatOp, u64, u64) -> u64>(norms: FullNorms, fpu: Fpu<F>) -> u64 {
    let resid = fpu.calc(FloatOp::Max, norms.lower, norms.upper);
    if num_eq(norms.rhs, ZERO) && num_eq(norms.sol, ZERO) {
        resid
    } else {
        fpu.quotient(
            resid,
            fpu.sum(
                fpu.calc(FloatOp::Min, norms.sol, fpu.product(TEN_P6, norms.rhs)),
                norms.rhs,
            ),
        )
    }
}

/// The residual ratio of the complementarity equations and, behind a place that
/// is always zero, the largest residuals of the lower and upper bounds.
pub fn compute_full_residual_ratio<F: Fn(FloatOp, u64, u64) -> u64>(
    kkt: &KktSystem,
    ctx: &BoundResidualContext<'_>,
    dx: &Vec<u64>,
    dz_l: &Vec<u64>,
    dz_u: &Vec<u64>,
    fpu: &Fpu<F>,
) -> (r: (u64, u64, u64, u64))
    requires
        fpu.sound(),
        ctx.covers(0),
        dx@.len() >= ctx.x@.len(),
        dz_l@.len() >= ctx.x@.len(),
        dz_u@.len() >= ctx.x@.len(),
    ensures
        ({
            let norms = full_norms(
                ctx.model(),
                amax(kkt.rhs@, *fpu),
                dx@,
                dz_l@,
                dz_u@,
                ctx.x@.len(),
                *fpu,
            );
            r == (full_ratio(norms, *fpu), ZERO, norms.lower, norms.upper)
        }),
{
    let n: usize = ctx.x.len();
    let mu: u64 = ctx.mu;
    let rhs0: u64 = inf_norm(&kkt.rhs, fpu);
    let mut norms: FullNorms = FullNorms { lower: ZERO, upper: ZERO, sol: ZERO, rhs: rhs0 };
    for i in 0..n
        invariant
            fpu.sound(),
            n == ctx.x@.len(),
            mu == ctx.mu,
            ctx.covers(0),
            dx@.len() >= n,
            dz_l@.len() >= n,
            dz_u@.len() >= n,
            norms == full_norms(ctx.model(), rhs0, dx@, dz_l@, dz_u@, i as nat, *fpu),
    {
        norms.sol = fpu.max(
            fpu.max(fpu.max(norms.sol, abs(dx[i])), abs(dz_l[i])),
            abs(dz_u[i]),
        );
        if is_finite(ctx.x_l[i]) {
            let s: u64 = safe_slack(ctx.x[i], ctx.x_l[i], fpu);
            let zs: u64 = fpu.mul(ctx.z_l[i], s);
            let r: u64 = fpu.sub(
                fpu.add(fpu.mul(s, dz_l[i]), fpu.mul(ctx.z_l[i], dx[i])),
                fpu.sub(mu, zs),
            );
            norms.lower = fpu.max(norms.lower, abs(r));
            norms.rhs = fpu.max(fpu.max(norms.rhs, abs(zs)), abs(mu));
        }
        if is_finite(ctx.x_u[i]) {
            let s: u64 = safe_slack(ctx.x_u[i], ctx.x[i], fpu);
            let zs: u64 = fpu.mul(ctx.z_u[i], s);
            let r: u64 = fpu.sub(
                fpu.sub(fpu.mul(s, dz_u[i]), fpu.mul(ctx.z_u[i], dx[i])),
                fpu.sub(mu, zs),
            );
            norms.upper = fpu.max(norms.upper, abs(r));
            norms.rhs = fpu.max(fpu.max(norms.rhs, abs(zs)), abs(mu));
        }
    }
    let resid: u64 = fpu.max(norms.lower, norms.upper);
    let ratio: u64 = if eq(norms.rhs, ZERO) && eq(norms.sol, ZERO) {
        resid
    } else {
        fpu.div(resid, fpu.add(fpu.min(norms.sol, fpu.mul(TEN_P6, norms.rhs)), norms.rhs))
    };
    (ratio, ZERO, norms.lower, norms.upper)
}

/// The residual ratio of a step of the variables, with the steps of the bound
/// multipliers that follow from it.
pub open spec fn step_ratio<F: Fn(FloatOp, u64, u64) -> u64>(
    t: DirectionTask,
    b: BoundModel,
    dx: Seq<u64>,
    fpu: Fpu<F>,
) -> u64 {
    full_ratio(
        full_norms(
            b,
            amax(t.rhs, fpu),
            dx,
            lower_steps(b.x, b.x_l, b.z_l, dx, b.mu, fpu),
            upper_steps(b.x, b.x_u, b.z_u, dx, b.mu, fpu),
            b.x.len(),
            fpu,
        ),
        fpu,
    )
}

/// A direction as a solution of the equilibrated system.
pub open spec fn packed<F: Fn(FloatOp, u64, u64) -> u64>(
    t: DirectionTask,
    dx: Seq<u64>,
    dy: Seq<u64>,
    fpu: Fpu<F>,
) -> Seq<u64> {
    Seq::new(
        t.rhs.len(),
        |i: int|
            {
                let v = if i < t.n {
                    dx[i]
                } else {
                    dy[i - t.n]
                };
                match t.scale {
                    Some(s) => fpu.quotient(v, s[i]),
                    None => v,
                }
            },
    )
}

pub enum FullPhase {
    Inner(SolveState),
    /// A solve for the residual of the direction.
    Correct { dx: Seq<u64>, dy: Seq<u64>, ratio: u64 },
    Done(Result<(Seq<u64>, Seq<u64>), ErrorModel>),
    /// A call that was not due.
    Stray,
}

/// A direction is done when the complementarity equations hold well enough;
/// else it is corrected once.
pub open spec fn full_lift<F: Fn(FloatOp, u64, u64) -> u64>(
    t: DirectionTask,
    b: BoundModel,
    s: SolveState,
    fpu: Fpu<F>,
) -> FullPhase {
    match s.phase {
        SolvePhase::Done(Ok((dx, dy))) => {
            let ratio = step_ratio(t, b, dx, fpu);
            if num_le(ratio, t.ir.residual_ratio_max) {
                FullPhase::Done(Ok((dx, dy)))
            } else {
                FullPhase::Correct { dx, dy, ratio }
            }
        },
        SolvePhase::Done(Err(e)) => FullPhase::Done(Err(e)),
        _ => FullPhase::Inner(s),
    }
}

pub open spec fn full_step<F: Fn(FloatOp, u64, u64) -> u64>(
    t: DirectionTask,
    b: BoundModel,
    p: FullPhase,
    ev: SolverEvent,
    fpu: Fpu<F>,
) -> FullPhase {
    match p {
        FullPhase::Inner(s) => full_lift(t, b, solve_step(t, s, ev, fpu), fpu),
        FullPhase::Correct { dx, dy, ratio } => match ev {
            SolverEvent::Solve(r, z, c, reply) => if r != t.residual(packed(t, dx, dy, fpu), fpu)
                || z != zeros(t.rhs.len()) {
                FullPhase::Stray
            } else if reply is Err || !all_finite(c) {
                FullPhase::Done(Ok((dx, dy)))
            } else {
                let new = t.split(sums(packed(t, dx, dy, fpu), c, fpu), fpu);
                if num_le(step_ratio(t, b, new.0, fpu), ratio) {
                    FullPhase::Done(Ok(new))
                } else {
                    FullPhase::Done(Ok((dx, dy)))
                }
            },
            _ => FullPhase::Stray,
        },
        _ => FullPhase::Stray,
    }
}

pub open spec fn full_run<F: Fn(FloatOp, u64, u64) -> u64>(
    t: DirectionTask,
    b: BoundModel,
    ev: Seq<SolverEvent>,
    fpu: Fpu<F>,
) -> FullPhase
    decreases ev.len(),
{
    if ev.len() == 0 {
        full_lift(t, b, solve_start(t), fpu)
    } else {
        full_step(t, b, full_run(t, b, ev.drop_last(), fpu), ev.last(), fpu)
    }
}

/// The inner solve is not done before its last call.
proof fn lemma_not_done_before<F: Fn(FloatOp, u64, u64) -> u64>(
    t: DirectionTask,
    ev: Seq<SolverEvent>,
    fpu: Fpu<F>,
)
    requires
        ev.len() > 0,
        !(direction_run(t, ev, fpu).phase is Stray),
    ensures
        !(direction_run(t, ev.drop_last(), fpu).phase is Done),
        !(direction_run(t, ev.drop_last(), fpu).phase is Stray),
{
}

proof fn lemma_full_inner<F: Fn(FloatOp, u64, u64) -> u64>(
    t: DirectionTask,
    b: BoundModel,
    ev: Seq<SolverEvent>,
    fpu: Fpu<F>,
)
    requires
        !(direction_run(t, ev, fpu).phase is Stray),
    ensures
        full_run(t, b, ev, fpu) == full_lift(t, b, direction_run(t, ev, fpu), fpu),
    decreases ev.len(),
{
    if ev.len() > 0 {
        lemma_not_done_before(t, ev, fpu);
        lemma_full_inner(t, b, ev.drop_last(), fpu);
    }
}

/// The corrected direction never has a larger residual ratio than the one
/// before the correction.
pub proof fn correction_does_not_worsen<F: Fn(FloatOp, u64, u64) -> u64>(
    t: DirectionTask,
    b: BoundModel,
    dx: Seq<u64>,
    dy: Seq<u64>,
    ev: SolverEvent,
    fpu: Fpu<F>,
)
    ensures
        full_step(
            t,
            b,
            FullPhase::Correct { dx, dy, ratio: step_ratio(t, b, dx, fpu) },
            ev,
            fpu,
        ) matches FullPhase::Done(Ok(d)) ==> d.0 == dx || num_le(
            step_ratio(t, b, d.0, fpu),
            step_ratio(t, b, dx, fpu),
        ),
{
}

fn pack<F: Fn(FloatOp, u64, u64) -> u64>(
    kkt: &KktSystem,
    dx: &Vec<u64>,
    dy: &Vec<u64>,
    fpu: &Fpu<F>,
    Ghost(t): Ghost<DirectionTask>,
) -> (sol: Vec<u64>)
    requires
        fpu.sound(),
        kkt.well_formed(),
        dx@.len() == kkt.n,
        dy@.len() == kkt.m,
        t.rhs == kkt.rhs@,
        t.n == kkt.n,
        t.scale == option_view(kkt.scale_factors),
    ensures
        sol@ == packed(t, dx@, dy@, *fpu),
{
    let mut sol: Vec<u64> = Vec::with_capacity(kkt.dim);
    let ghost want = packed(t, dx@, dy@, *fpu);
    for i in 0..kkt.dim
        invariant
            fpu.sound(),
            kkt.well_formed(),
            dx@.len() == kkt.n,
            dy@.len() == kkt.m,
            t.rhs == kkt.rhs@,
            t.n == kkt.n,
            t.scale == option_view(kkt.scale_factors),
            want == packed(t, dx@, dy@, *fpu),
            sol@ == want.take(i as int),
    {
        let v: u64 = if i < kkt.n {
            dx[i]
        } else {
            dy[i - kkt.n]
        };
        let w: u64 = match &kkt.scale_factors {
            Some(s) => fpu.div(v, s[i]),
            None => v,
        };
        sol.push(w);
        assert(sol@ =~= want.take(i + 1));
    }
    assert(sol@ =~= want);
    sol
}

/// `solve_for_direction_with_ir`, and with bounds one corrective solve where the
/// complementarity equations do not hold well enough. The correction is kept
/// only where it does not make them worse.
pub fn solve_for_direction_with_ir_full<S: LinearSolver, F: Fn(FloatOp, u64, u64) -> u64>(
    kkt: &KktSystem,
    solver: &mut S,
    delta_w: u64,
    delta_c_ic: u64,
    ir: IrParams,
    ctx: Option<&BoundResidualContext<'_>>,
    fpu: &Fpu<F>,
) -> (r: Result<(Vec<u64>, Vec<u64>), SolverError>)
    requires
        fpu.sound(),
        kkt.well_formed(),
        ctx matches Some(c) ==> c.covers(0) && c.x@.len() <= kkt.n,
    ensures
        old(solver).log().is_prefix_of(final(solver).log()),
        ctx is None ==> direction_run(
            task_of(*kkt, ir, None),
            final(solver).log().skip(old(solver).log().len() as int),
            *fpu,
        ).phase == SolvePhase::Done(direction(r)),
        ctx matches Some(c) ==> full_run(
            task_of(*kkt, ir, None),
            c.model(),
            final(solver).log().skip(old(solver).log().len() as int),
            *fpu,
        ) == FullPhase::Done(direction(r)),
{
    let ghost t = task_of(*kkt, ir, None);
    let ghost was = solver.log();
    let first: Result<(Vec<u64>, Vec<u64>), SolverError> = solve_for_direction_with_ir(
        kkt,
        solver,
        delta_w,
        delta_c_ic,
        ir,
        fpu,
    );
    let c: &BoundResidualContext<'_> = match ctx {
        Some(c) => c,
        None => {
            return first;
        },
    };
    let ghost b = c.model();
    let ghost log1 = solver.log();
    proof {
        lemma_full_inner(t, b, log1.skip(was.len() as int), *fpu);
    }
    let (dx, dy): (Vec<u64>, Vec<u64>) = match first {
        Ok(d) => d,
        Err(e) => {
            return Err(e);
        },
    };
    let (dz_l, dz_u): (Vec<u64>, Vec<u64>) = recover_full_step(c, &dx, fpu);
    let ratio: u64 = compute_full_residual_ratio(kkt, c, &dx, &dz_l, &dz_u, fpu).0;
    if le(ratio, ir.residual_ratio_max) {
        return Ok((dx, dy));
    }
    let mut sol: Vec<u64> = pack(kkt, &dx, &dy, fpu, Ghost(t));
    let residual: Vec<u64> = residual_of(kkt, &sol, fpu, Ghost(t));
    let mut correction: Vec<u64> = vec![ZERO; kkt.dim];
    let ghost given = correction@;
    assert(given =~= zeros(kkt.rhs@.len()));
    let result: Result<(), SolverError> = solver.solve(&residual, &mut correction);
    proof {
        let e = SolverEvent::Solve(residual@, given, correction@, reply(result));
        assert(solver.log().skip(was.len() as int) =~= log1.skip(was.len() as int).push(e));
        assert(log1.skip(was.len() as int).push(e).drop_last() =~= log1.skip(was.len() as int));
    }
    match result {
        Err(_) => {
            return Ok((dx, dy));
        },
        Ok(()) => {},
    }
    if !is_all_finite(&correction) {
        return Ok((dx, dy));
    }
    let ghost before = sol@;
    for i in 0..kkt.dim
        invariant
            fpu.sound(),
            sol@.len() == kkt.dim,
            before.len() == kkt.dim,
            correction@.len() == kkt.dim,
            forall|k: int|
                0 <= k < i ==> #[trigger] sol@[k] == fpu.sum(before[k], correction@[k]),
            forall|k: int| i <= k < kkt.dim ==> #[trigger] sol@[k] == before[k],
    {
        sol.set(i, fpu.add(sol[i], correction[i]));
    }
    assert(sol@ =~= sums(before, correction@, *fpu));
    let (dx_new, dy_new): (Vec<u64>, Vec<u64>) = split_solution(
        &kkt.scale_factors,
        &sol,
        kkt.n,
        fpu,
    );
    let (dz_l_new, dz_u_new): (Vec<u64>, Vec<u64>) = recover_full_step(c, &dx_new, fpu);
    let ratio_new: u64 = compute_full_residual_ratio(
        kkt,
        c,
        &dx_new,
        &dz_l_new,
        &dz_u_new,
        fpu,
    ).0;
    if le(ratio_new, ratio) {
        Ok((dx_new, dy_new))
    } else {
        Ok((dx, dy))
    }
}

/// A solve for a direction that may call a system singular for its residual
/// only once in an iteration.
pub enum AwarePhase {
    Inner(SolveState),
    /// A plain solve for the right-hand side.
    Fallback,
    Done(Result<(Seq<u64>, Seq<u64>), ErrorModel>),
    /// A call that was not due.
    Stray,
}

pub open spec fn aware_lift(s: SolveState, used: bool) -> AwarePhase {
    match s.phase {
        SolvePhase::Done(r) => if r == Err::<(Seq<u64>, Seq<u64>), ErrorModel>(ErrorModel::Pretend)
            && used {
            AwarePhase::Fallback
        } else {
            AwarePhase::Done(r)
        },
        _ => AwarePhase::Inner(s),
    }
}

pub open spec fn aware_step<F: Fn(FloatOp, u64, u64) -> u64>(
    t: DirectionTask,
    used: bool,
    p: AwarePhase,
    ev: SolverEvent,
    fpu: Fpu<F>,
) -> AwarePhase {
    match p {
        AwarePhase::Inner(s) => aware_lift(solve_step(t, s, ev, fpu), used),
        AwarePhase::Fallback => match ev {
            SolverEvent::Solve(b, z, x, r) => if b != t.rhs || z != zeros(t.rhs.len()) {
                AwarePhase::Stray
            } else {
                match r {
                    Err(e) => AwarePhase::Done(Err(e)),
                    Ok(_) => if all_finite(x) {
                        AwarePhase::Done(Ok(t.split(x, fpu)))
                    } else {
                        AwarePhase::Done(
                            Err(
                                ErrorModel::Failure(
                                    "KKT solution contains NaN/Inf (T0.14 fallback)"@,
                                ),
                            ),
                        )
                    },
                }
            },
            _ => AwarePhase::Stray,
        },
        _ => AwarePhase::Stray,
    }
}

pub open spec fn aware_run<F: Fn(FloatOp, u64, u64) -> u64>(
    t: DirectionTask,
    used: bool,
    ev: Seq<SolverEvent>,
    fpu: Fpu<F>,
) -> AwarePhase
    decreases ev.len(),
{
    if ev.len() == 0 {
        aware_lift(solve_start(t), used)
    } else {
        aware_step(t, used, aware_run(t, used, ev.drop_last(), fpu), ev.last(), fpu)
    }
}

proof fn lemma_aware_inner<F: Fn(FloatOp, u64, u64) -> u64>(
    t: DirectionTask,
    used: bool,
    ev: Seq<SolverEvent>,
    fpu: Fpu<F>,
)
    requires
        !(direction_run(t, ev, fpu).phase is Stray),
    ensures
        aware_run(t, used, ev, fpu) == aware_lift(direction_run(t, ev, fpu), used),
    decreases ev.len(),
{
    if ev.len() > 0 {
        lemma_not_done_before(t, ev, fpu);
        lemma_aware_inner(t, used, ev.drop_last(), fpu);
    }
}

/// Where a system was called singular for its residual before in the iteration,
/// it is not called so again.
pub proof fn second_pretend_singular_is_refused<F: Fn(FloatOp, u64, u64) -> u64>(
    t: DirectionTask,
    ev: Seq<SolverEvent>,
    fpu: Fpu<F>,
)
    requires
        ev.len() > 0 ==> !(ev.last() matches SolverEvent::Factor(_, Err(ErrorModel::Pretend))),
        ev.len() > 0 ==> !(ev.last() matches SolverEvent::Solve(_, _, _, Err(ErrorModel::Pretend))),
    ensures
        aware_run(t, true, ev, fpu) != AwarePhase::Done(
            Err::<(Seq<u64>, Seq<u64>), ErrorModel>(ErrorModel::Pretend),
        ),
{
}

/// `solve_for_direction`, called once more in an iteration without calling the
/// system singular for its residual a second time.
pub fn solve_for_direction_iter_aware<S: LinearSolver, F: Fn(FloatOp, u64, u64) -> u64>(
    kkt: &KktSystem,
    solver: &mut S,
    params: &mut InertiaCorrectionParams,
    delta_w: u64,
    delta_c_ic: u64,
    fpu: &Fpu<F>,
) -> (r: Result<(Vec<u64>, Vec<u64>), SolverError>)
    requires
        fpu.sound(),
        kkt.well_formed(),
    ensures
        old(solver).log().is_prefix_of(final(solver).log()),
        aware_run(
            task_of(
                *kkt,
                IrParams {
                    enabled: true,
                    steps_required: 1,
                    max_steps: 10,
                    residual_ratio_max: TEN_M10,
                    residual_ratio_singular: TEN_M5,
                    residual_improvement_factor: NEARLY_ONE,
                },
                None,
            ),
            old(params).pretend_singular_used,
            final(solver).log().skip(old(solver).log().len() as int),
            *fpu,
        ) == AwarePhase::Done(direction(r)),
        !old(params).pretend_singular_used ==> *final(params) == (InertiaCorrectionParams {
            pretend_singular_used: direction(r) == Err::<(Seq<u64>, Seq<u64>), ErrorModel>(
                ErrorModel::Pretend,
            ),
            ..*old(params)
        }),
        old(params).pretend_singular_used ==> *final(params) == *old(params),
{
    solve_for_direction_iter_aware_with_ir(
        kkt,
        solver,
        params,
        delta_w,
        delta_c_ic,
        IrParams::default(),
        fpu,
    )
}

/// `solve_for_direction_iter_aware` with given refinement.
pub fn solve_for_direction_iter_aware_with_ir<S: LinearSolver, F: Fn(FloatOp, u64, u64) -> u64>(
    kkt: &KktSystem,
    solver: &mut S,
    params: &mut InertiaCorrectionParams,
    delta_w: u64,
    delta_c_ic: u64,
    ir: IrParams,
    fpu: &Fpu<F>,
) -> (r: Result<(Vec<u64>, Vec<u64>), SolverError>)
    requires
        fpu.sound(),
        kkt.well_formed(),
    ensures
        old(solver).log().is_prefix_of(final(solver).log()),
        aware_run(
            task_of(*kkt, ir, None),
            old(params).pretend_singular_used,
            final(solver).log().skip(old(solver).log().len() as int),
            *fpu,
        ) == AwarePhase::Done(direction(r)),
        !old(params).pretend_singular_used ==> *final(params) == (InertiaCorrectionParams {
            pretend_singular_used: direction(r) == Err::<(Seq<u64>, Seq<u64>), ErrorModel>(
                ErrorModel::Pretend,
            ),
            ..*old(params)
        }),
        old(params).pretend_singular_used ==> *final(params) == *old(params),
{
    solve_for_direction_iter_aware_with_ir_ctx(
        kkt,
        solver,
        params,
        delta_w,
        delta_c_ic,
        ir,
        None,
        fpu,
    )
}

/// `solve_for_direction_iter_aware` with given refinement and bounds. The first
/// time that a system is called singular for its residual is recorded; after
/// that a plain solve takes its place.
pub fn solve_for_direction_iter_aware_with_ir_ctx<
    S: LinearSolver,
    F: Fn(FloatOp, u64, u64) -> u64,
>(
    kkt: &KktSystem,
    solver: &mut S,
    params: &mut InertiaCorrectionParams,
    delta_w: u64,
    delta_c_ic: u64,
    ir: IrParams,
    ctx: Option<&BoundResidualContext<'_>>,
    fpu: &Fpu<F>,
) -> (r: Result<(Vec<u64>, Vec<u64>), SolverError>)
    requires
        fpu.sound(),
        kkt.well_formed(),
        ctx matches Some(c) ==> c.covers(kkt.n as int),
    ensures
        old(solver).log().is_prefix_of(final(solver).log()),
        aware_run(
            task_of(*kkt, ir, context_model(ctx)),
            old(params).pretend_singular_used,
            final(solver).log().skip(old(solver).log().len() as int),
            *fpu,
        ) == AwarePhase::Done(direction(r)),
        !old(params).pretend_singular_used ==> *final(params) == (InertiaCorrectionParams {
            pretend_singular_used: direction(r) == Err::<(Seq<u64>, Seq<u64>), ErrorModel>(
                ErrorModel::Pretend,
            ),
            ..*old(params)
        }),
        old(params).pretend_singular_used ==> *final(params) == *old(params),
{
    let ghost t = task_of(*kkt, ir, context_model(ctx));
    let ghost was = solver.log();
    let used: bool = params.pretend_singular_used;
    let first: Result<(Vec<u64>, Vec<u64>), SolverError> = solve_for_direction_with_ir_ctx(
        kkt,
        solver,
        delta_w,
        delta_c_ic,
        ir,
        ctx,
        fpu,
    );
    let ghost log1 = solver.log();
    proof {
        lemma_aware_inner(t, used, log1.skip(was.len() as int), *fpu);
    }
    match first {
        Ok(d) => Ok(d),
        Err(SolverError::PretendSingular) => {
            if !used {
                params.pretend_singular_used = true;
                return Err(SolverError::PretendSingular);
            }
            let mut sol: Vec<u64> = vec![ZERO; kkt.dim];
            let ghost given = sol@;
            assert(given =~= zeros(kkt.rhs@.len()));
            let result: Result<(), SolverError> = solver.solve(&kkt.rhs, &mut sol);
            proof {
                let e = SolverEvent::Solve(kkt.rhs@, given, sol@, reply(result));
                assert(solver.log().skip(was.len() as int) =~= log1.skip(was.len() as int).push(e));
                assert(log1.skip(was.len() as int).push(e).drop_last() =~= log1.skip(
                    was.len() as int,
                ));
            }
            match result {
                Err(e) => {
                    return Err(e);
                },
                Ok(()) => {},
            }
            if !is_all_finite(&sol) {
                return Err(failure("KKT solution contains NaN/Inf (T0.14 fallback)"));
            }
            Ok(split_solution(&kkt.scale_factors, &sol, kkt.n, fpu))
        },
        Err(e) => Err(e),
    }
}

/// The first right-hand side of the wrong length or with a number that is not
/// finite, as an error.
pub open spec fn bad_column(cols: Seq<Vec<u64>>, dim: usize, k: nat) -> Option<ErrorModel>
    decreases k,
{
    if k == 0 {
        None
    } else {
        match bad_column(cols, dim, (k - 1) as nat) {
            Some(e) => Some(e),
            None => {
                let c = cols[k - 1]@;
                if c.len() != dim {
                    Some(ErrorModel::Mismatch(dim, c.len() as usize))
                } else if !all_finite(c) {
                    Some(ErrorModel::Failure("Custom RHS contains NaN/Inf"@))
                } else {
                    None
                }
            },
        }
    }
}

proof fn lemma_bad_column(cols: Seq<Vec<u64>>, dim: usize, k: nat, n: nat)
    requires
        k <= n,
        bad_column(cols, dim, k) is Some,
    ensures
        bad_column(cols, dim, n) == bad_column(cols, dim, k),
    decreases n,
{
    if k < n {
        lemma_bad_column(cols, dim, k, (n - 1) as nat);
    }
}

/// What solves of the columns give: the split solutions, or the first error.
pub open spec fn columns_split(
    n: int,
    cols: Seq<Vec<u64>>,
    ev: Seq<SolverEvent>,
    r: Result<Vec<(Vec<u64>, Vec<u64>)>, SolverError>,
) -> bool {
    &&& ev.len() <= cols.len()
    &&& forall|c: int|
        0 <= c < ev.len() ==> (#[trigger] ev[c] matches SolverEvent::Solve(b, z, x, q) && b
            == cols[c]@ && z == zeros(cols[c]@.len()) && (c + 1 < ev.len() ==> q is Ok))
    &&& match r {
        Ok(out) => {
            &&& ev.len() == cols.len()
            &&& out@.len() == cols.len()
            &&& forall|c: int|
                0 <= c < cols.len() ==> (#[trigger] ev[c] matches SolverEvent::Solve(b, _, x, q) && q
                    is Ok && all_finite(x) && out@[c].0@ == x.take(n) && out@[c].1@ == x.skip(n))
        },
        Err(e) => if ev.len() > 0 && (ev.last() matches SolverEvent::Solve(b, _, x, q) && q is Err) {
            ev.last() matches SolverEvent::Solve(b, _, x, q) && q == Err::<(), ErrorModel>(
                error_model(e),
            )
        } else {
            &&& ev.len() == cols.len()
            &&& error_model(e) == ErrorModel::Failure(
                "Custom solve_many solution contains NaN/Inf"@,
            )
            &&& exists|c: int|
                0 <= c < cols.len() && (#[trigger] ev[c] matches SolverEvent::Solve(b, _, x, q)
                    && !all_finite(x))
        },
    }
}

/// Solves for several right-hand sides with the matrix factored last. The result
/// holds the primal part, of length `n`, and the dual part of each solution.
#[verifier::rlimit(40)]
pub fn solve_with_custom_rhs_many<S: LinearSolver>(
    n: usize,
    dim: usize,
    solver: &mut S,
    rhs_columns: &Vec<Vec<u64>>,
) -> (r: Result<Vec<(Vec<u64>, Vec<u64>)>, SolverError>)
    requires
        n <= dim,
        dim * rhs_columns@.len() <= usize::MAX,
    ensures
        old(solver).log().is_prefix_of(final(solver).log()),
        bad_column(rhs_columns@, dim, rhs_columns@.len()) matches Some(e) ==> (r matches Err(f)
            && error_model(f) == e && final(solver).log() == old(solver).log()),
        bad_column(rhs_columns@, dim, rhs_columns@.len()) is None ==> columns_split(
            n as int,
            rhs_columns@,
            final(solver).log().skip(old(solver).log().len() as int),
            r,
        ),
{
    let ghost was = solver.log();
    let nrhs: usize = rhs_columns.len();
    proof {
        assert(was.is_prefix_of(was)) by {
            assert(was =~= was.subrange(0, was.len() as int));
        }
        assert(was.skip(was.len() as int) =~= Seq::<SolverEvent>::empty());
    }
    if nrhs == 0 {
        return Ok(Vec::new());
    }
    let mut packed_rhs: Vec<u64> = Vec::new();
    for c in 0..nrhs
        invariant
            nrhs == rhs_columns@.len(),
            was == old(solver).log(),
            was == solver.log(),
            was.is_prefix_of(was),
            dim * nrhs <= usize::MAX,
            bad_column(rhs_columns@, dim, c as nat) is None,
            packed_rhs@.len() == c * dim,
            forall|k: int|
                #![trigger rhs_columns@[k]]
                0 <= k < c ==> rhs_columns@[k]@.len() == dim && column(
                    packed_rhs@,
                    dim as int,
                    k,
                ) == rhs_columns@[k]@,
    {
        let col: &Vec<u64> = &rhs_columns[c];
        if col.len() != dim {
            proof {
                lemma_bad_column(rhs_columns@, dim, (c + 1) as nat, nrhs as nat);
            }
            return Err(SolverError::DimensionMismatch { expected: dim, got: col.len() });
        }
        if !is_all_finite(col) {
            proof {
                lemma_bad_column(rhs_columns@, dim, (c + 1) as nat, nrhs as nat);
            }
            return Err(failure("Custom RHS contains NaN/Inf"));
        }
        let ghost start = packed_rhs@;
        for i in 0..dim
            invariant
                col@.len() == dim,
                packed_rhs@ == start + col@.take(i as int),
        {
            packed_rhs.push(col[i]);
            assert(packed_rhs@ =~= start + col@.take(i + 1));
        }
        proof {
            assert((c + 1) * dim == c * dim + dim) by (nonlinear_arith);
            assert(column(packed_rhs@, dim as int, c as int) =~= col@);
            assert forall|k: int| 0 <= k < c implies column(packed_rhs@, dim as int, k) == column(
                start,
                dim as int,
                k,
            ) by {
                assert(0 <= k * dim && k * dim + dim <= c * dim) by (nonlinear_arith)
                    requires
                        0 <= k < c,
                        0 <= dim,
                ;
                assert(column(packed_rhs@, dim as int, k) =~= column(start, dim as int, k));
            }
        }
    }
    let total: usize = packed_rhs.len();
    let mut solution: Vec<u64> = vec![ZERO; total];
    let ghost given = solution@;
    proof {
        vstd::arithmetic::div_mod::lemma_mod_multiples_basic(dim as int, nrhs as int);
        vstd::arithmetic::div_mod::lemma_div_multiples_vanish(dim as int, nrhs as int);
        vstd::arithmetic::mul::lemma_mul_is_commutative(dim as int, nrhs as int);
    }
    let result: Result<(), SolverError> = solver.solve_many(&packed_rhs, nrhs, &mut solution);
    let ghost ev = solver.log().skip(was.len() as int);
    proof {
        assert forall|c: int| 0 <= c < ev.len() implies (#[trigger] ev[c] matches SolverEvent::Solve(
            b,
            z,
            x,
            q,
        ) && b == rhs_columns@[c]@ && z == zeros(dim as nat) && x == column(solution@, dim as int, c) && (c + 1 < ev.len()
            ==> q is Ok)) by {
            assert(rhs_columns@[c]@.len() == dim);
            assert(0 <= c * dim && c * dim + dim <= nrhs * dim) by (nonlinear_arith)
                requires
                    0 <= c < nrhs,
                    0 <= dim,
            ;
            assert(column(given, dim as int, c) =~= zeros(dim as nat));
        }
    }
    match result {
        Err(e) => {
            return Err(e);
        },
        Ok(()) => {},
    }
    let mut out: Vec<(Vec<u64>, Vec<u64>)> = Vec::with_capacity(nrhs);
    let mut fine: bool = true;
    let ghost mut bad: int = -1;
    for c in 0..nrhs
        invariant
            n <= dim,
            nrhs == rhs_columns@.len(),
            ev.len() == nrhs,
            solution@.len() == nrhs * dim,
            nrhs * dim <= usize::MAX,
            out@.len() == c,
            forall|k: int|
                0 <= k < nrhs ==> (#[trigger] ev[k] matches SolverEvent::Solve(b, _, x, q) && q is Ok
                    && x == column(solution@, dim as int, k)),
            forall|k: int|
                #![trigger out@[k]]
                0 <= k < c ==> out@[k].0@ == column(solution@, dim as int, k).take(n as int)
                    && out@[k].1@ == column(solution@, dim as int, k).skip(n as int),
            fine ==> forall|k: int|
                0 <= k < c ==> all_finite(#[trigger] column(solution@, dim as int, k)),
            !fine ==> 0 <= bad < c && !all_finite(column(solution@, dim as int, bad)),
    {
        proof {
            assert(c * dim + dim <= nrhs * dim) by (nonlinear_arith)
                requires
                    c < nrhs,
                    0 <= dim,
            ;
            assert(0 <= c * dim) by (nonlinear_arith);
        }
        let start: usize = c * dim;
        let mut x: Vec<u64> = Vec::with_capacity(dim);
        for i in 0..dim
            invariant
                start == c * dim,
                start + dim <= solution@.len(),
                solution@.len() <= usize::MAX,
                x@ == solution@.subrange(start as int, start + i),
        {
            x.push(solution[start + i]);
            assert(x@ =~= solution@.subrange(start as int, start + i + 1));
        }
        assert(x@ == column(solution@, dim as int, c as int));
        if !is_all_finite(&x) && fine {
            fine = false;
            proof {
                bad = c as int;
            }
        }
        let ghost whole = x@;
        let dy: Vec<u64> = x.split_off(n);
        out.push((x, dy));
        proof {
            assert(out@[c as int].0@ =~= whole.take(n as int));
            assert(out@[c as int].1@ =~= whole.skip(n as int));
        }
    }
    if !fine {
        proof {
            assert(ev[bad] matches SolverEvent::Solve(b, _, x, q) && !all_finite(x));
            assert(ev.last() == ev[nrhs - 1]);
        }
        return Err(failure("Custom solve_many solution contains NaN/Inf"));
    }
    proof {
        assert forall|c: int| 0 <= c < nrhs implies (#[trigger] ev[c] matches SolverEvent::Solve(
            b,
            _,
            x,
            q,
        ) && q is Ok && all_finite(x) && out@[c].0@ == x.take(n as int) && out@[c].1@ == x.skip(
            n as int,
        )) by {
            assert(all_finite(column(solution@, dim as int, c)));
        }
    }
    Ok(out)
}

} // verus!
