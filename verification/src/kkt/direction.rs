//! Search directions from the factored KKT system.

use crate::float::{
    abs, absolute, eq, finite, is_finite, lt, num_eq, num_lt, FloatOp, Fpu, NEARLY_ONE, ONE,
    TEN_M10, TEN_M5, TEN_P10, TEN_P6, ZERO,
};
use crate::kkt::assemble::{option_view, KktSystem};
use crate::kkt::barrier::{
    lower_step, safe_slack, slack, step_of_multiplier, upper_step, zeros,
};
use crate::kkt::factor::{all_finite, is_all_finite};
use crate::linear_solver::model::MatrixModel;
use crate::linear_solver::solver::{
    error_model, failure, reply, ErrorModel, LinearSolver, SolverEvent,
};
use crate::linear_solver::{Inertia, SolverError};
use crate::options::SolverOptions;
use vstd::prelude::*;

verus! {

/// Parameters of iterative refinement.
#[derive(Debug, Clone, Copy, PartialEq, Eq, Structural)]
pub struct IrParams {
    /// Without refinement a solve is a single back-substitution.
    pub enabled: bool,
    /// Steps that are taken in any case.
    pub steps_required: usize,
    pub max_steps: usize,
    /// Refinement goes on while the residual ratio is above this.
    pub residual_ratio_max: u64,
    /// A final residual ratio above this counts as singular.
    pub residual_ratio_singular: u64,
    /// A step must reduce the ratio by this factor.
    pub residual_improvement_factor: u64,
}

impl Default for IrParams {
    fn default() -> (p: Self)
        ensures
            p == (IrParams {
                enabled: true,
                steps_required: 1,
                max_steps: 10,
                residual_ratio_max: TEN_M10,
                residual_ratio_singular: TEN_M5,
                residual_improvement_factor: NEARLY_ONE,
            }),
    {
        IrParams {
            enabled: true,
            steps_required: 1,
            max_steps: 10,
            residual_ratio_max: TEN_M10,
            residual_ratio_singular: TEN_M5,
            residual_improvement_factor: NEARLY_ONE,
        }
    }
}

impl IrParams {
    /// The parameters that the solver options hold.
    pub fn from_options(options: &SolverOptions) -> (p: Self)
        ensures
            p == (IrParams {
                enabled: options.use_ic_refinement,
                steps_required: options.iterative_refinement_steps_required,
                max_steps: options.max_refinement_steps,
                residual_ratio_max: options.residual_ratio_max,
                residual_ratio_singular: options.residual_ratio_singular,
                residual_improvement_factor: options.residual_improvement_factor,
            }),
    {
        IrParams {
            enabled: options.use_ic_refinement,
            steps_required: options.iterative_refinement_steps_required,
            max_steps: options.max_refinement_steps,
            residual_ratio_max: options.residual_ratio_max,
            residual_ratio_singular: options.residual_ratio_singular,
            residual_improvement_factor: options.residual_improvement_factor,
        }
    }

    /// Least number of refinement steps.
    pub open spec fn least(self) -> int {
        if self.enabled {
            self.steps_required as int
        } else {
            0
        }
    }

    /// Largest number of refinement steps.
    pub open spec fn most(self) -> int {
        if self.enabled {
            self.max_steps as int
        } else {
            0
        }
    }
}

/// Bounds and their multipliers, for the residual of the whole primal-dual
/// system.
#[derive(Debug, Clone)]
pub struct BoundResidualContext<'a> {
    pub x: &'a [u64],
    pub x_l: &'a [u64],
    pub x_u: &'a [u64],
    pub z_l: &'a [u64],
    pub z_u: &'a [u64],
    pub mu: u64,
    /// Residual of the variables before the multipliers are eliminated.
    pub r_x_full: &'a [u64],
}

pub struct BoundModel {
    pub x: Seq<u64>,
    pub x_l: Seq<u64>,
    pub x_u: Seq<u64>,
    pub z_l: Seq<u64>,
    pub z_u: Seq<u64>,
    pub mu: u64,
}

impl<'a> BoundResidualContext<'a> {
    pub open spec fn model(&self) -> BoundModel {
        BoundModel {
            x: self.x@,
            x_l: self.x_l@,
            x_u: self.x_u@,
            z_l: self.z_l@,
            z_u: self.z_u@,
            mu: self.mu,
        }
    }

    /// There is an entry for each of `n` variables.
    pub open spec fn covers(&self, n: int) -> bool {
        &&& self.x@.len() >= n
        &&& self.x_l@.len() >= self.x@.len()
        &&& self.x_u@.len() >= self.x@.len()
        &&& self.z_l@.len() >= self.x@.len()
        &&& self.z_u@.len() >= self.x@.len()
    }
}

pub open spec fn context_model(c: Option<&BoundResidualContext<'_>>) -> Option<BoundModel> {
    match c {
        Some(c) => Some(c.model()),
        None => None,
    }
}

/// Largest magnitude of the first `k` numbers.
pub open spec fn amax_upto<F: Fn(FloatOp, u64, u64) -> u64>(v: Seq<u64>, k: nat, fpu: Fpu<F>) -> u64
    decreases k,
{
    if k == 0 {
        ZERO
    } else {
        fpu.calc(FloatOp::Max, amax_upto(v, (k - 1) as nat, fpu), absolute(v[k - 1]))
    }
}

/// Largest magnitude.
pub open spec fn amax<F: Fn(FloatOp, u64, u64) -> u64>(v: Seq<u64>, fpu: Fpu<F>) -> u64 {
    amax_upto(v, v.len(), fpu)
}

/// Largest magnitude of a vector.
pub fn inf_norm<F: Fn(FloatOp, u64, u64) -> u64>(v: &Vec<u64>, fpu: &Fpu<F>) -> (r: u64)
    requires
        fpu.sound(),
    ensures
        r == amax(v@, *fpu),
{
    let mut r: u64 = ZERO;
    for i in 0..v.len()
        invariant
            fpu.sound(),
            r == amax_upto(v@, i as nat, *fpu),
    {
        r = fpu.max(r, abs(v[i]));
    }
    r
}

/// Residual of the complementarity of a bound at distance `s`.
pub open spec fn centrality<F: Fn(FloatOp, u64, u64) -> u64>(
    mu: u64,
    z: u64,
    s: u64,
    fpu: Fpu<F>,
) -> u64 {
    absolute(fpu.difference(mu, fpu.product(z, s)))
}

/// Largest residual of the complementarity of the first `k` variables.
pub open spec fn bound_rhs_max<F: Fn(FloatOp, u64, u64) -> u64>(
    b: BoundModel,
    k: nat,
    fpu: Fpu<F>,
) -> u64
    decreases k,
{
    if k == 0 {
        ZERO
    } else {
        let i = k - 1;
        let m = bound_rhs_max(b, (k - 1) as nat, fpu);
        let l = if finite(b.x_l[i]) {
            fpu.calc(
                FloatOp::Max,
                m,
                centrality(b.mu, b.z_l[i], slack(b.x[i], b.x_l[i], fpu), fpu),
            )
        } else {
            m
        };
        if finite(b.x_u[i]) {
            fpu.calc(
                FloatOp::Max,
                l,
                centrality(b.mu, b.z_u[i], slack(b.x_u[i], b.x[i], fpu), fpu),
            )
        } else {
            l
        }
    }
}

fn bound_rhs<F: Fn(FloatOp, u64, u64) -> u64>(
    c: &BoundResidualContext<'_>,
    fpu: &Fpu<F>,
) -> (m: u64)
    requires
        fpu.sound(),
        c.covers(0),
    ensures
        m == bound_rhs_max(c.model(), c.x@.len(), *fpu),
{
    let mut m: u64 = ZERO;
    for i in 0..c.x.len()
        invariant
            fpu.sound(),
            c.covers(0),
            m == bound_rhs_max(c.model(), i as nat, *fpu),
    {
        if is_finite(c.x_l[i]) {
            let s: u64 = safe_slack(c.x[i], c.x_l[i], fpu);
            m = fpu.max(m, abs(fpu.sub(c.mu, fpu.mul(c.z_l[i], s))));
        }
        if is_finite(c.x_u[i]) {
            let s: u64 = safe_slack(c.x_u[i], c.x[i], fpu);
            m = fpu.max(m, abs(fpu.sub(c.mu, fpu.mul(c.z_u[i], s))));
        }
    }
    m
}

/// What a direction is solved from.
pub struct DirectionTask {
    pub matrix: MatrixModel,
    pub rhs: Seq<u64>,
    pub n: int,
    pub scale: Option<Seq<u64>>,
    pub ir: IrParams,
    pub bounds: Option<BoundModel>,
}

pub open spec fn task_of(kkt: KktSystem, ir: IrParams, bounds: Option<BoundModel>) -> DirectionTask {
    DirectionTask {
        matrix: kkt.matrix.model(),
        rhs: kkt.rhs@,
        n: kkt.n as int,
        scale: option_view(kkt.scale_factors),
        ir,
        bounds,
    }
}

/// An entry of a solution without the equilibration.
pub open spec fn unscaled_entry<F: Fn(FloatOp, u64, u64) -> u64>(
    scale: Option<Seq<u64>>,
    sol: Seq<u64>,
    i: int,
    fpu: Fpu<F>,
) -> u64 {
    match scale {
        Some(s) => fpu.product(sol[i], s[i]),
        None => sol[i],
    }
}

/// A solution without the equilibration.
pub open spec fn unscaled<F: Fn(FloatOp, u64, u64) -> u64>(
    scale: Option<Seq<u64>>,
    sol: Seq<u64>,
    fpu: Fpu<F>,
) -> Seq<u64> {
    Seq::new(sol.len(), |i: int| unscaled_entry(scale, sol, i, fpu))
}

/// Step of variable `i`, as the factor times the solution entry.
pub open spec fn scaled_dx<F: Fn(FloatOp, u64, u64) -> u64>(
    scale: Option<Seq<u64>>,
    sol: Seq<u64>,
    i: int,
    fpu: Fpu<F>,
) -> u64 {
    match scale {
        Some(s) => fpu.product(s[i], sol[i]),
        None => sol[i],
    }
}

/// Largest step of a bound multiplier of the first `k` variables.
pub open spec fn bound_sol_max<F: Fn(FloatOp, u64, u64) -> u64>(
    b: BoundModel,
    scale: Option<Seq<u64>>,
    sol: Seq<u64>,
    k: nat,
    fpu: Fpu<F>,
) -> u64
    decreases k,
{
    if k == 0 {
        ZERO
    } else {
        let i = k - 1;
        let m = bound_sol_max(b, scale, sol, (k - 1) as nat, fpu);
        let dx = scaled_dx(scale, sol, i, fpu);
        let l = if finite(b.x_l[i]) {
            fpu.calc(
                FloatOp::Max,
                m,
                absolute(lower_step(b.x[i], b.x_l[i], b.z_l[i], dx, b.mu, fpu)),
            )
        } else {
            m
        };
        if finite(b.x_u[i]) {
            fpu.calc(
                FloatOp::Max,
                l,
                absolute(upper_step(b.x[i], b.x_u[i], b.z_u[i], dx, b.mu, fpu)),
            )
        } else {
            l
        }
    }
}

fn bound_sol<F: Fn(FloatOp, u64, u64) -> u64>(
    c: &BoundResidualContext<'_>,
    kkt: &KktSystem,
    sol: &Vec<u64>,
    fpu: &Fpu<F>,
) -> (m: u64)
    requires
        fpu.sound(),
        kkt.well_formed(),
        c.covers(kkt.n as int),
        sol@.len() == kkt.dim,
    ensures
        m == bound_sol_max(
            c.model(),
            option_view(kkt.scale_factors),
            sol@,
            kkt.n as nat,
            *fpu,
        ),
{
    let mut m: u64 = ZERO;
    for i in 0..kkt.n
        invariant
            fpu.sound(),
            kkt.well_formed(),
            c.covers(kkt.n as int),
            sol@.len() == kkt.dim,
            m == bound_sol_max(
                c.model(),
                option_view(kkt.scale_factors),
                sol@,
                i as nat,
                *fpu,
            ),
    {
        let dx: u64 = match &kkt.scale_factors {
            Some(s) => fpu.mul(s[i], sol[i]),
            None => sol[i],
        };
        if is_finite(c.x_l[i]) {
            let s: u64 = safe_slack(c.x[i], c.x_l[i], fpu);
            m = fpu.max(m, abs(step_of_multiplier(c.mu, c.z_l[i], s, dx, false, fpu)));
        }
        if is_finite(c.x_u[i]) {
            let s: u64 = safe_slack(c.x_u[i], c.x[i], fpu);
            m = fpu.max(m, abs(step_of_multiplier(c.mu, c.z_u[i], s, dx, true, fpu)));
        }
    }
    m
}

impl DirectionTask {
    /// Right-hand side minus the product of the matrix and `sol`.
    pub open spec fn residual<F: Fn(FloatOp, u64, u64) -> u64>(
        self,
        sol: Seq<u64>,
        fpu: Fpu<F>,
    ) -> Seq<u64> {
        Seq::new(
            self.rhs.len(),
            |i: int| fpu.difference(self.rhs[i], self.matrix.times(sol, fpu)[i]),
        )
    }

    pub open spec fn rhs_norm<F: Fn(FloatOp, u64, u64) -> u64>(self, fpu: Fpu<F>) -> u64 {
        match self.bounds {
            Some(b) => fpu.calc(
                FloatOp::Max,
                amax(self.rhs, fpu),
                bound_rhs_max(b, b.x.len(), fpu),
            ),
            None => amax(self.rhs, fpu),
        }
    }

    pub open spec fn sol_norm<F: Fn(FloatOp, u64, u64) -> u64>(
        self,
        sol: Seq<u64>,
        fpu: Fpu<F>,
    ) -> u64 {
        match self.bounds {
            Some(b) => fpu.calc(
                FloatOp::Max,
                amax(sol, fpu),
                bound_sol_max(b, self.scale, sol, self.n as nat, fpu),
            ),
            None => amax(sol, fpu),
        }
    }

    /// Size of the residual against the sizes of solution and right-hand side.
    /// With bounds those sizes take the bound multipliers in.
    pub open spec fn ratio<F: Fn(FloatOp, u64, u64) -> u64>(
        self,
        sol: Seq<u64>,
        fpu: Fpu<F>,
    ) -> u64 {
        let nrm_resid = amax(self.residual(sol, fpu), fpu);
        let nrm_rhs = self.rhs_norm(fpu);
        let nrm_sol = self.sol_norm(sol, fpu);
        if num_eq(fpu.sum(nrm_rhs, nrm_sol), ZERO) {
            nrm_resid
        } else {
            fpu.quotient(
                nrm_resid,
                fpu.sum(
                    fpu.calc(FloatOp::Min, nrm_sol, fpu.product(TEN_P6, nrm_rhs)),
                    nrm_rhs,
                ),
            )
        }
    }

    /// Size of the solution against that of the right-hand side.
    pub open spec fn magnitude<F: Fn(FloatOp, u64, u64) -> u64>(
        self,
        sol: Seq<u64>,
        fpu: Fpu<F>,
    ) -> u64 {
        let nrm_rhs = fpu.calc(
            FloatOp::Max,
            amax(self.rhs, fpu),
            match self.bounds {
                Some(b) => bound_rhs_max(b, b.x.len(), fpu),
                None => ZERO,
            },
        );
        fpu.quotient(amax(sol, fpu), fpu.calc(FloatOp::Max, nrm_rhs, ONE))
    }

    /// The steps of variables and multipliers that a solution holds.
    pub open spec fn split<F: Fn(FloatOp, u64, u64) -> u64>(
        self,
        sol: Seq<u64>,
        fpu: Fpu<F>,
    ) -> (Seq<u64>, Seq<u64>) {
        let u = unscaled(self.scale, sol, fpu);
        (u.take(self.n), u.skip(self.n))
    }
}

/// Elementwise sums.
pub open spec fn sums<F: Fn(FloatOp, u64, u64) -> u64>(
    a: Seq<u64>,
    b: Seq<u64>,
    fpu: Fpu<F>,
) -> Seq<u64> {
    Seq::new(a.len(), |i: int| fpu.sum(a[i], b[i]))
}

/// What comes next.
pub enum SolvePhase {
    /// A solve for the right-hand side.
    Solve,
    /// A solve for the residual.
    Refine,
    /// The solver is asked for a better quality.
    Improve,
    /// The matrix is factored again.
    Refactor,
    Done(Result<(Seq<u64>, Seq<u64>), ErrorModel>),
    /// A call that was not due.
    Stray,
}

pub struct SolveState {
    /// Whether the quality was improved.
    pub tried: bool,
    pub sol: Seq<u64>,
    pub ratio: u64,
    pub iters: int,
    pub phase: SolvePhase,
}

/// The end of refinement: the solution is accepted, unless the residual or the
/// solution itself is too large; then the quality is improved, once.
pub open spec fn concluded<F: Fn(FloatOp, u64, u64) -> u64>(
    t: DirectionTask,
    s: SolveState,
    fpu: Fpu<F>,
) -> SolveState {
    let phase = if num_lt(t.ir.residual_ratio_singular, s.ratio) || num_lt(
        TEN_P10,
        t.magnitude(s.sol, fpu),
    ) {
        if s.tried {
            SolvePhase::Done(Err(ErrorModel::Pretend))
        } else {
            SolvePhase::Improve
        }
    } else {
        SolvePhase::Done(Ok(t.split(s.sol, fpu)))
    };
    SolveState { phase, ..s }
}

/// Whether another refinement step is due.
pub open spec fn wants_step(t: DirectionTask, s: SolveState, quit: bool) -> bool {
    &&& !quit
    &&& s.iters < t.ir.least() || num_lt(t.ir.residual_ratio_max, s.ratio)
    &&& !(s.iters >= t.ir.most() && s.iters >= t.ir.least())
}

pub open spec fn at_head<F: Fn(FloatOp, u64, u64) -> u64>(
    t: DirectionTask,
    s: SolveState,
    quit: bool,
    fpu: Fpu<F>,
) -> SolveState {
    if wants_step(t, s, quit) {
        SolveState { phase: SolvePhase::Refine, ..s }
    } else {
        concluded(t, s, fpu)
    }
}

/// Refinement stops when the residual stays too large after enough steps, or
/// does not shrink.
pub open spec fn gives_up<F: Fn(FloatOp, u64, u64) -> u64>(
    t: DirectionTask,
    iters: int,
    ratio: u64,
    before: u64,
    fpu: Fpu<F>,
) -> bool {
    &&& num_lt(t.ir.residual_ratio_max, ratio)
    &&& iters > t.ir.least()
    &&& iters > t.ir.most() || num_lt(
        fpu.product(t.ir.residual_improvement_factor, before),
        ratio,
    )
}

/// The state before the first call. The solution starts from zeros.
pub open spec fn solve_start(t: DirectionTask) -> SolveState {
    SolveState {
        tried: false,
        sol: zeros(t.rhs.len()),
        ratio: ZERO,
        iters: 0,
        phase: if all_finite(t.rhs) {
            SolvePhase::Solve
        } else {
            SolvePhase::Done(Err(ErrorModel::Failure("KKT RHS contains NaN/Inf"@)))
        },
    }
}

/// The state after one call of the solver.
pub open spec fn solve_step<F: Fn(FloatOp, u64, u64) -> u64>(
    t: DirectionTask,
    s: SolveState,
    ev: SolverEvent,
    fpu: Fpu<F>,
) -> SolveState {
    let stray = SolveState { phase: SolvePhase::Stray, ..s };
    match (s.phase, ev) {
        (SolvePhase::Solve, SolverEvent::Solve(b, z, x, r)) => if b != t.rhs || z != s.sol {
            stray
        } else {
            match r {
                Err(e) => SolveState { phase: SolvePhase::Done(Err(e)), ..s },
                Ok(_) => if all_finite(x) {
                    at_head(
                        t,
                        SolveState { sol: x, ratio: t.ratio(x, fpu), iters: 0, ..s },
                        false,
                        fpu,
                    )
                } else {
                    SolveState {
                        phase: SolvePhase::Done(
                            Err(ErrorModel::Failure("KKT solution contains NaN/Inf"@)),
                        ),
                        ..s
                    }
                },
            }
        },
        (SolvePhase::Refine, SolverEvent::Solve(b, z, c, r)) => if b != t.residual(s.sol, fpu) || z
            != zeros(t.rhs.len()) {
            stray
        } else {
            match r {
                Err(e) => concluded(t, s, fpu),
                Ok(_) => {
                    let sol = sums(s.sol, c, fpu);
                    if all_finite(sol) {
                        let ratio = t.ratio(sol, fpu);
                        at_head(
                            t,
                            SolveState { sol, ratio, iters: s.iters + 1, ..s },
                            gives_up(t, s.iters + 1, ratio, s.ratio, fpu),
                            fpu,
                        )
                    } else {
                        SolveState {
                            phase: SolvePhase::Done(
                                Err(
                                    ErrorModel::Failure(
                                        "KKT solution contains NaN/Inf during IR"@,
                                    ),
                                ),
                            ),
                            ..s
                        }
                    }
                },
            }
        },
        (SolvePhase::Improve, SolverEvent::Improve(improved)) => if improved {
            SolveState { tried: true, phase: SolvePhase::Refactor, ..s }
        } else {
            SolveState { phase: SolvePhase::Done(Err(ErrorModel::Pretend)), ..s }
        },
        (SolvePhase::Refactor, SolverEvent::Factor(m, r)) => if m != t.matrix {
            stray
        } else {
            match r {
                Err(e) => SolveState { phase: SolvePhase::Done(Err(e)), ..s },
                Ok(_) => SolveState { phase: SolvePhase::Solve, ..s },
            }
        },
        _ => stray,
    }
}

/// The state after a list of calls.
pub open spec fn solve_run<F: Fn(FloatOp, u64, u64) -> u64>(
    t: DirectionTask,
    s: SolveState,
    ev: Seq<SolverEvent>,
    fpu: Fpu<F>,
) -> SolveState
    decreases ev.len(),
{
    if ev.len() == 0 {
        s
    } else {
        solve_step(t, solve_run(t, s, ev.drop_last(), fpu), ev.last(), fpu)
    }
}

pub proof fn lemma_solve_push<F: Fn(FloatOp, u64, u64) -> u64>(
    t: DirectionTask,
    s: SolveState,
    ev: Seq<SolverEvent>,
    e: SolverEvent,
    fpu: Fpu<F>,
)
    ensures
        solve_run(t, s, ev.push(e), fpu) == solve_step(t, solve_run(t, s, ev, fpu), e, fpu),
{
    assert(ev.push(e).drop_last() =~= ev);
}

pub proof fn lemma_solve_append<F: Fn(FloatOp, u64, u64) -> u64>(
    t: DirectionTask,
    s: SolveState,
    a: Seq<SolverEvent>,
    b: Seq<SolverEvent>,
    fpu: Fpu<F>,
)
    ensures
        solve_run(t, s, a + b, fpu) == solve_run(t, solve_run(t, s, a, fpu), b, fpu),
    decreases b.len(),
{
    if b.len() == 0 {
        assert(a + b =~= a);
    } else {
        lemma_solve_append(t, s, a, b.drop_last(), fpu);
        assert((a + b).drop_last() =~= a + b.drop_last());
    }
}

/// A direction, or an error, as a mathematical value.
pub open spec fn direction(r: Result<(Vec<u64>, Vec<u64>), SolverError>) -> Result<
    (Seq<u64>, Seq<u64>),
    ErrorModel,
> {
    match r {
        Ok((dx, dy)) => Ok((dx@, dy@)),
        Err(e) => Err(error_model(e)),
    }
}

pub(crate) fn residual_of<F: Fn(FloatOp, u64, u64) -> u64>(
    kkt: &KktSystem,
    sol: &Vec<u64>,
    fpu: &Fpu<F>,
    Ghost(t): Ghost<DirectionTask>,
) -> (residual: Vec<u64>)
    requires
        fpu.sound(),
        kkt.well_formed(),
        sol@.len() == kkt.dim,
        t.matrix == kkt.matrix.model(),
        t.rhs == kkt.rhs@,
    ensures
        residual@ == t.residual(sol@, *fpu),
{
    let dim: usize = kkt.dim;
    let mut residual: Vec<u64> = vec![ZERO; dim];
    kkt.matrix.matvec(sol, &mut residual, fpu);
    let ghost product = residual@;
    for i in 0..dim
        invariant
            fpu.sound(),
            residual@.len() == dim,
            product.len() == dim,
            kkt.rhs@.len() == dim,
            forall|k: int|
                0 <= k < i ==> #[trigger] residual@[k] == fpu.difference(kkt.rhs@[k], product[k]),
            forall|k: int| i <= k < dim ==> #[trigger] residual@[k] == product[k],
    {
        residual.set(i, fpu.sub(kkt.rhs[i], residual[i]));
    }
    assert(residual@ =~= t.residual(sol@, *fpu));
    residual
}

fn ratio_of<F: Fn(FloatOp, u64, u64) -> u64>(
    kkt: &KktSystem,
    ctx: Option<&BoundResidualContext<'_>>,
    sol: &Vec<u64>,
    residual: &Vec<u64>,
    fpu: &Fpu<F>,
    Ghost(t): Ghost<DirectionTask>,
) -> (ratio: u64)
    requires
        fpu.sound(),
        kkt.well_formed(),
        ctx matches Some(c) ==> c.covers(kkt.n as int),
        sol@.len() == kkt.dim,
        t == task_of(*kkt, t.ir, context_model(ctx)),
        residual@ == t.residual(sol@, *fpu),
    ensures
        ratio == t.ratio(sol@, *fpu),
{
    let mut nrm_rhs: u64 = inf_norm(&kkt.rhs, fpu);
    let mut nrm_sol: u64 = inf_norm(sol, fpu);
    let nrm_resid: u64 = inf_norm(residual, fpu);
    match ctx {
        Some(c) => {
            nrm_rhs = fpu.max(nrm_rhs, bound_rhs(c, fpu));
            nrm_sol = fpu.max(nrm_sol, bound_sol(c, kkt, sol, fpu));
        },
        None => {},
    }
    if eq(fpu.add(nrm_rhs, nrm_sol), ZERO) {
        nrm_resid
    } else {
        fpu.div(nrm_resid, fpu.add(fpu.min(nrm_sol, fpu.mul(TEN_P6, nrm_rhs)), nrm_rhs))
    }
}

fn magnitude_of<F: Fn(FloatOp, u64, u64) -> u64>(
    kkt: &KktSystem,
    ctx: Option<&BoundResidualContext<'_>>,
    sol: &Vec<u64>,
    fpu: &Fpu<F>,
    Ghost(t): Ghost<DirectionTask>,
) -> (r: u64)
    requires
        fpu.sound(),
        kkt.well_formed(),
        ctx matches Some(c) ==> c.covers(kkt.n as int),
        t == task_of(*kkt, t.ir, context_model(ctx)),
    ensures
        r == t.magnitude(sol@, *fpu),
{
    let bound: u64 = match ctx {
        Some(c) => bound_rhs(c, fpu),
        None => ZERO,
    };
    let nrm_rhs: u64 = fpu.max(inf_norm(&kkt.rhs, fpu), bound);
    fpu.div(inf_norm(sol, fpu), fpu.max(nrm_rhs, ONE))
}

/// The steps in a solution, without the equilibration.
pub fn split_solution<F: Fn(FloatOp, u64, u64) -> u64>(
    scale: &Option<Vec<u64>>,
    sol: &Vec<u64>,
    n: usize,
    fpu: &Fpu<F>,
) -> (r: (Vec<u64>, Vec<u64>))
    requires
        fpu.sound(),
        n <= sol@.len(),
        option_view(*scale) matches Some(s) ==> s.len() >= sol@.len(),
    ensures
        r.0@ == unscaled(option_view(*scale), sol@, *fpu).take(n as int),
        r.1@ == unscaled(option_view(*scale), sol@, *fpu).skip(n as int),
{
    let ghost u = unscaled(option_view(*scale), sol@, *fpu);
    let mut dx: Vec<u64> = Vec::with_capacity(n);
    let mut dy: Vec<u64> = Vec::new();
    for i in 0..sol.len()
        invariant
            fpu.sound(),
            n <= sol@.len(),
            option_view(*scale) matches Some(s) ==> s.len() >= sol@.len(),
            u == unscaled(option_view(*scale), sol@, *fpu),
            i <= n ==> dx@ == u.take(i as int) && dy@.len() == 0,
            i > n ==> dx@ == u.take(n as int) && dy@ == u.subrange(n as int, i as int),
    {
        let v: u64 = match scale {
            Some(s) => fpu.mul(sol[i], s[i]),
            None => sol[i],
        };
        if i < n {
            dx.push(v);
            assert(dx@ =~= u.take(i + 1));
        } else {
            dy.push(v);
            assert(dy@ =~= u.subrange(n as int, i + 1));
        }
    }
    assert(dx@ =~= u.take(n as int));
    assert(dy@ =~= u.skip(n as int));
    (dx, dy)
}

fn add_into<F: Fn(FloatOp, u64, u64) -> u64>(sol: &mut Vec<u64>, c: &Vec<u64>, fpu: &Fpu<F>)
    requires
        fpu.sound(),
        c@.len() >= old(sol)@.len(),
    ensures
        final(sol)@ == sums(old(sol)@, c@, *fpu),
{
    let ghost start = sol@;
    let len: usize = sol.len();
    for i in 0..len
        invariant
            fpu.sound(),
            sol@.len() == len,
            start.len() == len,
            c@.len() >= len,
            forall|k: int| 0 <= k < i ==> #[trigger] sol@[k] == fpu.sum(start[k], c@[k]),
            forall|k: int| i <= k < len ==> #[trigger] sol@[k] == start[k],
    {
        sol.set(i, fpu.add(sol[i], c[i]));
    }
    assert(sol@ =~= sums(start, c@, *fpu));
}

/// Solves for the right-hand side and refines, with `given` as the buffer of the
/// solution. The result tells whether the solution is neither too inaccurate nor
/// too large.
#[verifier::rlimit(40)]
fn solve_and_refine<S: LinearSolver, F: Fn(FloatOp, u64, u64) -> u64>(
    kkt: &KktSystem,
    solver: &mut S,
    ir: IrParams,
    ctx: Option<&BoundResidualContext<'_>>,
    given: Vec<u64>,
    fpu: &Fpu<F>,
    Ghost(t): Ghost<DirectionTask>,
    Ghost(start): Ghost<SolveState>,
) -> (r: Result<(bool, Vec<u64>), SolverError>)
    requires
        fpu.sound(),
        kkt.well_formed(),
        ctx matches Some(c) ==> c.covers(kkt.n as int),
        t == task_of(*kkt, ir, context_model(ctx)),
        start.phase is Solve,
        given@ == start.sol,
        given@.len() == kkt.dim,
    ensures
        old(solver).log().is_prefix_of(final(solver).log()),
        ({
            let end = solve_run(
                t,
                start,
                final(solver).log().skip(old(solver).log().len() as int),
                *fpu,
            );
            match r {
                Err(e) => end.phase == SolvePhase::Done(
                    Err::<(Seq<u64>, Seq<u64>), ErrorModel>(error_model(e)),
                ),
                Ok((true, sol)) => sol@.len() == kkt.dim && end.phase == SolvePhase::Done(
                    Ok::<(Seq<u64>, Seq<u64>), ErrorModel>(t.split(sol@, *fpu)),
                ),
                Ok((false, sol)) => sol@.len() == kkt.dim && end.sol == sol@ && end.tried
                    == start.tried && end.phase == if start.tried {
                    SolvePhase::Done(Err(ErrorModel::Pretend))
                } else {
                    SolvePhase::Improve
                },
            }
        }),
{
    let ghost was = solver.log();
    let ghost none = Seq::<SolverEvent>::empty();
    let dim: usize = kkt.dim;
    let mut sol: Vec<u64> = given;
    let first: Result<(), SolverError> = solver.solve(&kkt.rhs, &mut sol);
    let ghost mut s = start;
    proof {
        let e = SolverEvent::Solve(kkt.rhs@, start.sol, sol@, reply(first));
        assert(solver.log().skip(was.len() as int) =~= none.push(e));
        lemma_solve_push(t, start, none, e, *fpu);
        s = solve_step(t, start, e, *fpu);
    }
    match first {
        Ok(()) => {},
        Err(e) => {
            return Err(e);
        },
    }
    if !is_all_finite(&sol) {
        return Err(failure("KKT solution contains NaN/Inf"));
    }
    let most: usize = if ir.enabled {
        ir.max_steps
    } else {
        0
    };
    let least: usize = if ir.enabled {
        ir.steps_required
    } else {
        0
    };
    let mut residual: Vec<u64> = residual_of(kkt, &sol, fpu, Ghost(t));
    let mut ratio: u64 = ratio_of(kkt, ctx, &sol, &residual, fpu, Ghost(t));
    let mut iters: usize = 0;
    let mut quit: bool = false;
    let mut failed: bool = false;
    while !failed && !quit && (iters < least || lt(ir.residual_ratio_max, ratio)) && !(iters >= most
        && iters >= least)
        invariant
            fpu.sound(),
            kkt.well_formed(),
            dim == kkt.dim,
            ctx matches Some(c) ==> c.covers(kkt.n as int),
            t == task_of(*kkt, ir, context_model(ctx)),
            least == ir.least(),
            most == ir.most(),
            was == old(solver).log(),
            was.is_prefix_of(solver.log()),
            sol@.len() == dim,
            residual@ == t.residual(sol@, *fpu),
            ratio == t.ratio(sol@, *fpu),
            s == solve_run(t, start, solver.log().skip(was.len() as int), *fpu),
            s.tried == start.tried,
            iters <= most || iters <= least,
            ({
                let now = SolveState {
                    tried: start.tried,
                    sol: sol@,
                    ratio,
                    iters: iters as int,
                    phase: s.phase,
                };
                &&& s == now
                &&& failed ==> s == concluded(t, now, *fpu)
                &&& !failed ==> s == at_head(t, now, quit, *fpu)
            }),
        decreases
                (if failed {
                    0int
                } else {
                    1
                }),
                (if most >= least {
                    most - iters
                } else {
                    least - iters
                }),
    {
        let ghost log0 = solver.log();
        let ghost s0 = s;
        let mut correction: Vec<u64> = vec![ZERO; dim];
        let ghost none_yet = correction@;
        assert(none_yet =~= zeros(kkt.rhs@.len()));
        let result: Result<(), SolverError> = solver.solve(&residual, &mut correction);
        proof {
            let e = SolverEvent::Solve(residual@, none_yet, correction@, reply(result));
            assert(solver.log().skip(was.len() as int) =~= log0.skip(was.len() as int).push(e));
            lemma_solve_push(t, start, log0.skip(was.len() as int), e, *fpu);
            s = solve_step(t, s0, e, *fpu);
        }
        match result {
            Err(_) => {
                failed = true;
            },
            Ok(()) => {
                let before: u64 = ratio;
                add_into(&mut sol, &correction, fpu);
                if !is_all_finite(&sol) {
                    return Err(failure("KKT solution contains NaN/Inf during IR"));
                }
                residual = residual_of(kkt, &sol, fpu, Ghost(t));
                ratio = ratio_of(kkt, ctx, &sol, &residual, fpu, Ghost(t));
                iters = iters + 1;
                quit = lt(ir.residual_ratio_max, ratio) && iters > least && (iters > most || lt(
                    fpu.mul(ir.residual_improvement_factor, before),
                    ratio,
                ));
            },
        }
    }
    if lt(ir.residual_ratio_singular, ratio) || lt(
        TEN_P10,
        magnitude_of(kkt, ctx, &sol, fpu, Ghost(t)),
    ) {
        Ok((false, sol))
    } else {
        Ok((true, sol))
    }
}

/// The direction of a KKT system as a run of the solver.
pub open spec fn direction_run<F: Fn(FloatOp, u64, u64) -> u64>(
    t: DirectionTask,
    ev: Seq<SolverEvent>,
    fpu: Fpu<F>,
) -> SolveState {
    solve_run(t, solve_start(t), ev, fpu)
}

/// The steps of variables and multipliers, from the factored matrix, with
/// default refinement. `delta_w` and `delta_c_ic` are part of the matrix
/// already.
pub fn solve_for_direction<S: LinearSolver, F: Fn(FloatOp, u64, u64) -> u64>(
    kkt: &KktSystem,
    solver: &mut S,
    delta_w: u64,
    delta_c_ic: u64,
    fpu: &Fpu<F>,
) -> (r: Result<(Vec<u64>, Vec<u64>), SolverError>)
    requires
        fpu.sound(),
        kkt.well_formed(),
    ensures
        old(solver).log().is_prefix_of(final(solver).log()),
        direction_run(
            task_of(
                *kkt,
                IrParams {
                    enabled: true,
                    steps_required: 1,
                    max_steps: 10,
                    residual_ratio_max: TEN_M10,
                    residual_ratio_singular: TEN_M5,
                    residual_improvement_factor: NEARLY_ONE,
                },
                None,
            ),
            final(solver).log().skip(old(solver).log().len() as int),
            *fpu,
        ).phase == SolvePhase::Done(direction(r)),
        r matches Ok((dx, dy)) ==> dx@.len() == kkt.n && dy@.len() == kkt.m,
{
    solve_for_direction_with_ir(kkt, solver, delta_w, delta_c_ic, IrParams::default(), fpu)
}

/// `solve_for_direction` with given refinement.
pub fn solve_for_direction_with_ir<S: LinearSolver, F: Fn(FloatOp, u64, u64) -> u64>(
    kkt: &KktSystem,
    solver: &mut S,
    delta_w: u64,
    delta_c_ic: u64,
    ir: IrParams,
    fpu: &Fpu<F>,
) -> (r: Result<(Vec<u64>, Vec<u64>), SolverError>)
    requires
        fpu.sound(),
        kkt.well_formed(),
    ensures
        old(solver).log().is_prefix_of(final(solver).log()),
        direction_run(
            task_of(*kkt, ir, None),
            final(solver).log().skip(old(solver).log().len() as int),
            *fpu,
        ).phase == SolvePhase::Done(direction(r)),
        r matches Ok((dx, dy)) ==> dx@.len() == kkt.n && dy@.len() == kkt.m,
{
    solve_for_direction_with_ir_ctx(kkt, solver, delta_w, delta_c_ic, ir, None, fpu)
}

/// `solve_for_direction` with given refinement; with bounds the residual ratio
/// takes the bound multipliers in. A solution that stays too inaccurate is
/// tried once more with a better quality of the solver.
pub fn solve_for_direction_with_ir_ctx<S: LinearSolver, F: Fn(FloatOp, u64, u64) -> u64>(
    kkt: &KktSystem,
    solver: &mut S,
    delta_w: u64,
    delta_c_ic: u64,
    ir: IrParams,
    ctx: Option<&BoundResidualContext<'_>>,
    fpu: &Fpu<F>,
) -> (r: Result<(Vec<u64>, Vec<u64>), SolverError>)
    requires
        fpu.sound(),
        kkt.well_formed(),
        ctx matches Some(c) ==> c.covers(kkt.n as int),
    ensures
        old(solver).log().is_prefix_of(final(solver).log()),
        direction_run(
            task_of(*kkt, ir, context_model(ctx)),
            final(solver).log().skip(old(solver).log().len() as int),
            *fpu,
        ).phase == SolvePhase::Done(direction(r)),
        r matches Ok((dx, dy)) ==> dx@.len() == kkt.n && dy@.len() == kkt.m,
{
    let ghost t = task_of(*kkt, ir, context_model(ctx));
    let ghost start = solve_start(t);
    let ghost was = solver.log();
    assert(solver.log().skip(was.len() as int) =~= Seq::<SolverEvent>::empty());
    if !is_all_finite(&kkt.rhs) {
        return Err(failure("KKT RHS contains NaN/Inf"));
    }
    let zero: Vec<u64> = vec![ZERO; kkt.dim];
    assert(zero@ =~= zeros(kkt.rhs@.len()));
    let last: Vec<u64> = match solve_and_refine(
        kkt,
        solver,
        ir,
        ctx,
        zero,
        fpu,
        Ghost(t),
        Ghost(start),
    ) {
        Err(e) => {
            return Err(e);
        },
        Ok((true, sol)) => {
            return Ok(split_solution(&kkt.scale_factors, &sol, kkt.n, fpu));
        },
        Ok((false, sol)) => sol,
    };
    let ghost log1 = solver.log();
    let ghost s1 = solve_run(t, start, log1.skip(was.len() as int), *fpu);
    let improved: bool = solver.increase_quality();
    let ghost log2 = solver.log();
    let ghost s2 = solve_step(t, s1, SolverEvent::Improve(improved), *fpu);
    proof {
        let e = SolverEvent::Improve(improved);
        assert(log2.skip(was.len() as int) =~= log1.skip(was.len() as int).push(e));
        lemma_solve_push(t, start, log1.skip(was.len() as int), e, *fpu);
    }
    if !improved {
        return Err(SolverError::PretendSingular);
    }
    let again: Result<Option<Inertia>, SolverError> = solver.factor(&kkt.matrix);
    let ghost log3 = solver.log();
    let ghost s3 = solve_step(
        t,
        s2,
        SolverEvent::Factor(kkt.matrix.model(), reply(again)),
        *fpu,
    );
    proof {
        let e = SolverEvent::Factor(kkt.matrix.model(), reply(again));
        assert(log3.skip(was.len() as int) =~= log2.skip(was.len() as int).push(e));
        lemma_solve_push(t, start, log2.skip(was.len() as int), e, *fpu);
    }
    match again {
        Err(e) => {
            return Err(e);
        },
        Ok(_) => {},
    }
    let result: Result<(bool, Vec<u64>), SolverError> = solve_and_refine(
        kkt,
        solver,
        ir,
        ctx,
        last,
        fpu,
        Ghost(t),
        Ghost(s3),
    );
    proof {
        let ev = solver.log().skip(log3.len() as int);
        assert(solver.log().skip(was.len() as int) =~= log3.skip(was.len() as int) + ev);
        lemma_solve_append(t, start, log3.skip(was.len() as int), ev, *fpu);
    }
    match result {
        Err(e) => Err(e),
        Ok((true, sol)) => Ok(split_solution(&kkt.scale_factors, &sol, kkt.n, fpu)),
        Ok((false, _)) => Err(SolverError::PretendSingular),
    }
}

} // verus!
