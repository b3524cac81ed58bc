//! Factorization of the KKT matrix with the right inertia.

use crate::float::{
    eq, finite, is_finite, lt, neg, negated, num_eq, num_lt, FloatOp, Fpu, Notation, ZERO,
};
use crate::kkt::assemble::{equilibrated, option_view, ruiz_equilibrate, KktInputAtags, KktSystem};
use crate::kkt::barrier::zeros;
use crate::kkt::inertia::{after_singular, after_wrong_inertia, considered, InertiaCorrectionParams};
use crate::linear_solver::model::MatrixModel;
use crate::linear_solver::solver::{
    error_model, failure, reply, ErrorModel, LinearSolver, SolverEvent,
};
use crate::linear_solver::{Inertia, KktMatrix, SolverError};
use crate::text::{decimal, push_decimal};
use vstd::prelude::*;

verus! {

/// Which system is factored: the KKT system, or the augmented one, in which
/// the slacks of the inequalities are unknowns of their own.
pub enum Layout {
    Kkt { n: int, m: int },
    Augmented { n: int, n_c: int, n_d: int },
}

/// `delta` added to a part of the diagonal, where it is not zero and the part
/// not empty.
pub open spec fn shifted<F: Fn(FloatOp, u64, u64) -> u64>(
    m: MatrixModel,
    start: int,
    len: int,
    delta: u64,
    apply: bool,
    fpu: Fpu<F>,
) -> MatrixModel {
    if apply {
        m.diagonal_added(start, start + len, delta, fpu)
    } else {
        m
    }
}

/// The augmented matrix with its four perturbations.
pub open spec fn aug_perturbed<F: Fn(FloatOp, u64, u64) -> u64>(
    m: MatrixModel,
    n: int,
    n_c: int,
    n_d: int,
    delta_x: u64,
    delta_s: u64,
    delta_c: u64,
    delta_d: u64,
    fpu: Fpu<F>,
) -> MatrixModel {
    let a = shifted(m, 0, n, delta_x, !num_eq(delta_x, ZERO), fpu);
    let b = shifted(a, n, n_d, delta_s, !num_eq(delta_s, ZERO) && n_d > 0, fpu);
    let c = shifted(b, n + n_d, n_c, negated(delta_c), !num_eq(delta_c, ZERO) && n_c > 0, fpu);
    shifted(
        c,
        n + n_d + n_c,
        n_d,
        negated(delta_d),
        !num_eq(delta_d, ZERO) && n_d > 0,
        fpu,
    )
}

impl Layout {
    pub open spec fn dim(self) -> int {
        match self {
            Layout::Kkt { n, m } => n + m,
            Layout::Augmented { n, n_c, n_d } => n + n_d + n_c + n_d,
        }
    }

    /// The matrix with the perturbations `dx` of the primal and `dc` of the
    /// dual unknowns.
    #[verifier::opaque]
    pub open spec fn perturbed<F: Fn(FloatOp, u64, u64) -> u64>(
        self,
        matrix: MatrixModel,
        dx: u64,
        dc: u64,
        fpu: Fpu<F>,
    ) -> MatrixModel {
        match self {
            Layout::Kkt { n, m } => {
                let a = shifted(matrix, 0, n, dx, num_lt(ZERO, dx), fpu);
                shifted(a, n, m, negated(dc), num_lt(ZERO, dc) && m > 0, fpu)
            },
            Layout::Augmented { n, n_c, n_d } => aug_perturbed(
                matrix,
                n,
                n_c,
                n_d,
                dx,
                dx,
                dc,
                dc,
                fpu,
            ),
        }
    }

    /// The inertia that makes a step one of descent.
    pub open spec fn is_right(self, i: Inertia) -> bool {
        match self {
            Layout::Kkt { n, m } => i.positive == n && i.negative == m && i.zero == 0,
            Layout::Augmented { n, n_c, n_d } => i.positive == n + n_d && i.negative == n_c + n_d
                && i.zero == 0,
        }
    }

    /// A message, marked where it concerns the augmented system.
    pub open spec fn says(self, message: Seq<char>) -> ErrorModel {
        match self {
            Layout::Kkt { n, m } => ErrorModel::Failure(message),
            Layout::Augmented { n, n_c, n_d } => ErrorModel::Failure(message + " (aug)"@),
        }
    }
}

/// What comes next.
pub enum FactorPhase {
    /// The perturbed matrix is factored.
    Factor,
    /// A trial solve shows whether the factors are finite. The inertia is
    /// right, or the solver does not tell it.
    Probe { known: bool },
    /// The solver is asked for a better quality.
    Improve,
    Done(Result<(u64, u64), ErrorModel>),
    /// A call that was not due.
    Stray,
}

/// State of a factorization with perturbations.
pub struct FactorState {
    pub matrix: MatrixModel,
    pub rhs: Seq<u64>,
    pub scale: Option<Seq<u64>>,
    pub params: InertiaCorrectionParams,
    pub dx: u64,
    pub dc: u64,
    /// Whether the quality was improved.
    pub tried: bool,
    pub attempt: int,
    pub phase: FactorPhase,
}

pub open spec fn all_finite(v: Seq<u64>) -> bool {
    forall|i: int| 0 <= i < v.len() ==> finite(#[trigger] v[i])
}

/// The error when all attempts are spent.
#[verifier::opaque]
pub open spec fn exhausted<D: Fn(u64) -> String>(
    layout: Layout,
    max_attempts: usize,
    dx: u64,
    dc: u64,
    notation: Notation<D>,
) -> ErrorModel {
    ErrorModel::Failure(
        "PDPerturbationHandler: max_attempts="@ + decimal(max_attempts as nat) + (match layout {
            Layout::Kkt { n, m } => " exhausted (last δ_w="@,
            Layout::Augmented { n, n_c, n_d } => " exhausted (aug, last δ_w="@,
        }) + notation.text(dx) + ", δ_c="@ + notation.text(dc) + ")"@,
    )
}

/// Starts the attempt that the state is at, unless all are spent.
pub open spec fn begun<D: Fn(u64) -> String>(
    layout: Layout,
    s: FactorState,
    notation: Notation<D>,
) -> FactorState {
    FactorState {
        phase: if s.attempt < s.params.max_attempts {
            FactorPhase::Factor
        } else {
            FactorPhase::Done(
                Err(exhausted(layout, s.params.max_attempts, s.dx, s.dc, notation)),
            )
        },
        ..s
    }
}

pub open spec fn next_attempt<D: Fn(u64) -> String>(
    layout: Layout,
    s: FactorState,
    notation: Notation<D>,
) -> FactorState {
    begun(layout, FactorState { attempt: s.attempt + 1, ..s }, notation)
}

/// The state after the handler moved on, or gave up with a message.
pub open spec fn moved_on<D: Fn(u64) -> String>(
    layout: Layout,
    s: FactorState,
    p: InertiaCorrectionParams,
    ok: bool,
    message: Seq<char>,
    notation: Notation<D>,
) -> FactorState {
    if ok {
        next_attempt(
            layout,
            FactorState { params: p, dx: p.delta_x_curr, dc: p.delta_c_curr, ..s },
            notation,
        )
    } else {
        FactorState { params: p, phase: FactorPhase::Done(Err(layout.says(message))), ..s }
    }
}

pub open spec fn singular_next<F: Fn(FloatOp, u64, u64) -> u64, D: Fn(u64) -> String>(
    layout: Layout,
    s: FactorState,
    mu: u64,
    fpu: Fpu<F>,
    notation: Notation<D>,
) -> FactorState {
    let (p, ok) = after_singular(s.params, mu, fpu);
    moved_on(
        layout,
        s,
        p,
        ok,
        "PDPerturbationHandler: cap exhausted in singularity probe"@,
        notation,
    )
}

/// A singular matrix: the quality is improved once, then other perturbations
/// are tried.
pub open spec fn quality_next<F: Fn(FloatOp, u64, u64) -> u64, D: Fn(u64) -> String>(
    layout: Layout,
    s: FactorState,
    mu: u64,
    fpu: Fpu<F>,
    notation: Notation<D>,
) -> FactorState {
    if s.tried {
        singular_next(layout, s, mu, fpu, notation)
    } else {
        FactorState { phase: FactorPhase::Improve, ..s }
    }
}

pub open spec fn wrong_next<F: Fn(FloatOp, u64, u64) -> u64, D: Fn(u64) -> String>(
    layout: Layout,
    s: FactorState,
    mu: u64,
    known: bool,
    fpu: Fpu<F>,
    notation: Notation<D>,
) -> FactorState {
    let (p, ok) = after_wrong_inertia(s.params, mu, fpu);
    moved_on(
        layout,
        s,
        p,
        ok,
        if known {
            "PDPerturbationHandler: cap exhausted in wrong-inertia ladder"@
        } else {
            "PDPerturbationHandler: cap exhausted (no inertia)"@
        },
        notation,
    )
}

/// The perturbed matrix takes the place of the matrix, and the handler
/// remembers the perturbations that are not zero.
pub open spec fn accepted<F: Fn(FloatOp, u64, u64) -> u64>(
    layout: Layout,
    s: FactorState,
    fpu: Fpu<F>,
) -> FactorState {
    let p = InertiaCorrectionParams {
        delta_w_last: if num_lt(ZERO, s.dx) {
            s.dx
        } else {
            s.params.delta_w_last
        },
        delta_c_last: if num_lt(ZERO, s.dc) {
            s.dc
        } else {
            s.params.delta_c_last
        },
        degeneracy_count: match layout {
            Layout::Kkt { n, m } => if num_lt(ZERO, s.dx) {
                (s.params.degeneracy_count + 1) as usize
            } else {
                0
            },
            Layout::Augmented { n, n_c, n_d } => s.params.degeneracy_count,
        },
        ..s.params
    };
    FactorState {
        matrix: layout.perturbed(s.matrix, s.dx, s.dc, fpu),
        params: p,
        phase: FactorPhase::Done(Ok((s.dx, s.dc))),
        ..s
    }
}

/// The system is equilibrated.
pub open spec fn rescaled<F: Fn(FloatOp, u64, u64) -> u64>(s: FactorState, fpu: Fpu<F>) -> FactorState {
    let e = equilibrated(s.matrix, s.rhs, fpu);
    FactorState {
        matrix: e.matrix,
        rhs: e.rhs,
        scale: Some(e.scale),
        params: InertiaCorrectionParams { use_scaling: true, ..s.params },
        ..s
    }
}

/// The state before the first call.
pub open spec fn factor_start<F: Fn(FloatOp, u64, u64) -> u64, D: Fn(u64) -> String>(
    layout: Layout,
    matrix: MatrixModel,
    rhs: Seq<u64>,
    scale: Option<Seq<u64>>,
    params: InertiaCorrectionParams,
    mu: u64,
    fpu: Fpu<F>,
    notation: Notation<D>,
) -> FactorState {
    let s = FactorState {
        matrix,
        rhs,
        scale,
        params,
        dx: ZERO,
        dc: ZERO,
        tried: false,
        attempt: 0,
        phase: FactorPhase::Stray,
    };
    let t = if layout is Kkt && params.use_scaling {
        rescaled(s, fpu)
    } else {
        s
    };
    let (p, ok) = considered(t.params, mu, fpu);
    if ok {
        begun(
            layout,
            FactorState { params: p, dx: p.delta_x_curr, dc: p.delta_c_curr, ..t },
            notation,
        )
    } else {
        FactorState {
            params: p,
            phase: FactorPhase::Done(
                Err(
                    layout.says(
                        "PDPerturbationHandler: delta_x cap exhausted at consider_new_system"@,
                    ),
                ),
            ),
            ..t
        }
    }
}

/// The state after one call of the solver.
pub open spec fn factor_step<F: Fn(FloatOp, u64, u64) -> u64, D: Fn(u64) -> String>(
    layout: Layout,
    s: FactorState,
    ev: SolverEvent,
    mu: u64,
    fpu: Fpu<F>,
    notation: Notation<D>,
) -> FactorState {
    let stray = FactorState { phase: FactorPhase::Stray, ..s };
    match (s.phase, ev) {
        (FactorPhase::Factor, SolverEvent::Factor(matrix, r)) => if matrix != layout.perturbed(
            s.matrix,
            s.dx,
            s.dc,
            fpu,
        ) {
            stray
        } else {
            match r {
                Err(e) => FactorState { phase: FactorPhase::Done(Err(e)), ..s },
                Ok(None) => FactorState { phase: FactorPhase::Probe { known: false }, ..s },
                Ok(Some(i)) => if layout.is_right(i) {
                    FactorState { phase: FactorPhase::Probe { known: true }, ..s }
                } else if i.zero > 0 {
                    quality_next(layout, s, mu, fpu, notation)
                } else {
                    wrong_next(layout, s, mu, true, fpu, notation)
                },
            }
        },
        (FactorPhase::Probe { known }, SolverEvent::Solve(b, z, x, r)) => if b != s.rhs || z != zeros(
            s.rhs.len(),
        ) {
            stray
        } else if r is Ok && all_finite(x) {
            accepted(layout, s, fpu)
        } else if !known {
            wrong_next(layout, s, mu, false, fpu, notation)
        } else if layout is Kkt && !s.params.use_scaling && s.scale is None {
            next_attempt(layout, rescaled(s, fpu), notation)
        } else {
            quality_next(layout, s, mu, fpu, notation)
        },
        (FactorPhase::Improve, SolverEvent::Improve(improved)) => if improved {
            next_attempt(layout, FactorState { tried: true, ..s }, notation)
        } else {
            singular_next(layout, s, mu, fpu, notation)
        },
        _ => stray,
    }
}

/// The state after a list of calls.
pub open spec fn factor_run<F: Fn(FloatOp, u64, u64) -> u64, D: Fn(u64) -> String>(
    layout: Layout,
    s: FactorState,
    ev: Seq<SolverEvent>,
    mu: u64,
    fpu: Fpu<F>,
    notation: Notation<D>,
) -> FactorState
    decreases ev.len(),
{
    if ev.len() == 0 {
        s
    } else {
        factor_step(
            layout,
            factor_run(layout, s, ev.drop_last(), mu, fpu, notation),
            ev.last(),
            mu,
            fpu,
            notation,
        )
    }
}

/// Where a factorization is accepted, the solver's last calls are the
/// factorization of the resulting matrix, with the right inertia as far as the
/// solver tells it, and a solve with a finite solution.
pub proof fn accepted_factors_are_last<F: Fn(FloatOp, u64, u64) -> u64, D: Fn(u64) -> String>(
    layout: Layout,
    matrix: MatrixModel,
    rhs: Seq<u64>,
    scale: Option<Seq<u64>>,
    params: InertiaCorrectionParams,
    mu: u64,
    ev: Seq<SolverEvent>,
    fpu: Fpu<F>,
    notation: Notation<D>,
)
    requires
        factor_run(
            layout,
            factor_start(layout, matrix, rhs, scale, params, mu, fpu, notation),
            ev,
            mu,
            fpu,
            notation,
        ).phase matches FactorPhase::Done(r) && r is Ok,
    ensures
        ({
            let end = factor_run(
                layout,
                factor_start(layout, matrix, rhs, scale, params, mu, fpu, notation),
                ev,
                mu,
                fpu,
                notation,
            );
            &&& ev.len() >= 2
            &&& ev[ev.len() - 2] matches SolverEvent::Factor(m, Ok(inertia))
            &&& m == end.matrix
            &&& inertia matches Some(i) ==> layout.is_right(i)
            &&& ev[ev.len() - 1] matches SolverEvent::Solve(b, _, x, r)
            &&& b == end.rhs
            &&& r is Ok
            &&& all_finite(x)
        }),
{
    let s0 = factor_start(layout, matrix, rhs, scale, params, mu, fpu, notation);
    assert(ev.len() > 0);
    let before = ev.drop_last();
    let s1 = factor_run(layout, s0, before, mu, fpu, notation);
    assert(s1.phase is Probe);
    assert(before.len() > 0);
    let s2 = factor_run(layout, s0, before.drop_last(), mu, fpu, notation);
    assert(s2.phase is Factor);
    assert(before.last() == ev[ev.len() - 2]);
}

/// Tells whether every number is finite.
pub fn is_all_finite(v: &Vec<u64>) -> (b: bool)
    ensures
        b == all_finite(v@),
{
    for i in 0..v.len()
        invariant
            forall|k: int| 0 <= k < i ==> finite(#[trigger] v@[k]),
    {
        if !is_finite(v[i]) {
            assert(!finite(v@[i as int]));
            return false;
        }
    }
    true
}

/// A trial solve: it succeeds, and its solution is finite.
pub fn check_factorization_finite_with_matrix<S: LinearSolver>(
    rhs: &Vec<u64>,
    solver: &mut S,
) -> (ok: bool)
    ensures
        final(solver).log().len() == old(solver).log().len() + 1,
        ({
            let e = final(solver).log().last();
            &&& final(solver).log() == old(solver).log().push(e)
            &&& e matches SolverEvent::Solve(b, z, x, r)
            &&& b == rhs@
            &&& z == zeros(rhs@.len())
            &&& ok == (r is Ok && all_finite(x))
        }),
{
    let mut solution: Vec<u64> = vec![ZERO; rhs.len()];
    assert(solution@ =~= zeros(rhs@.len()));
    let r: Result<(), SolverError> = solver.solve(rhs, &mut solution);
    let ghost e = solver.log().last();
    assert(solver.log() =~= old(solver).log().push(e));
    match r {
        Ok(()) => is_all_finite(&solution),
        Err(_) => false,
    }
}

/// Which system the code factors.
pub enum Kind {
    Kkt,
    Augmented,
}

/// Dimensions of the system: variables, equations or all constraints, and
/// inequalities.
pub struct Shape {
    pub kind: Kind,
    pub n: usize,
    pub n_c: usize,
    pub n_d: usize,
}

impl Shape {
    pub open spec fn layout(&self) -> Layout {
        match self.kind {
            Kind::Kkt => Layout::Kkt { n: self.n as int, m: self.n_c as int },
            Kind::Augmented => Layout::Augmented {
                n: self.n as int,
                n_c: self.n_c as int,
                n_d: self.n_d as int,
            },
        }
    }

    fn perturb<F: Fn(FloatOp, u64, u64) -> u64>(
        &self,
        matrix: &KktMatrix,
        dx: u64,
        dc: u64,
        fpu: &Fpu<F>,
    ) -> (p: KktMatrix)
        requires
            fpu.sound(),
            matrix.well_formed(),
            matrix.dim() == self.layout().dim(),
        ensures
            p.well_formed(),
            p.dim() == matrix.dim(),
            p.model() == self.layout().perturbed(matrix.model(), dx, dc, *fpu),
    {
        proof {
            reveal(Layout::perturbed);
        }
        match self.kind {
            Kind::Kkt => {
                let mut p: KktMatrix = matrix.copy();
                let dim: usize = matrix.n();
                if lt(ZERO, dx) {
                    p.add_diagonal_range(0, self.n, dx, fpu);
                }
                if lt(ZERO, dc) && self.n_c > 0 {
                    p.add_diagonal_range(self.n, self.n + self.n_c, neg(dc), fpu);
                }
                p
            },
            Kind::Augmented => apply_aug_perturbation(
                matrix,
                self.n,
                self.n_c,
                self.n_d,
                dx,
                dx,
                dc,
                dc,
                fpu,
            ),
        }
    }

    fn right(&self, i: Inertia) -> (b: bool)
        requires
            self.layout().dim() <= usize::MAX,
        ensures
            b == self.layout().is_right(i),
    {
        match self.kind {
            Kind::Kkt => i.positive == self.n && i.negative == self.n_c && i.zero == 0,
            Kind::Augmented => i.positive == self.n + self.n_d && i.negative == self.n_c + self.n_d
                && i.zero == 0,
        }
    }

    fn fail(&self, message: &str) -> (e: SolverError)
        ensures
            error_model(e) == self.layout().says(message@),
    {
        match self.kind {
            Kind::Kkt => failure(message),
            Kind::Augmented => {
                let mut s: String = String::from_str(message);
                s.append(" (aug)");
                SolverError::NumericalFailure(s)
            },
        }
    }
}

/// A copy of the augmented matrix with the perturbations `delta_x` of the
/// variables, `delta_s` of the slacks, and minus `delta_c` and `delta_d` of the
/// multipliers of equations and inequalities.
pub fn apply_aug_perturbation<F: Fn(FloatOp, u64, u64) -> u64>(
    base: &KktMatrix,
    n: usize,
    n_c: usize,
    n_d: usize,
    delta_x: u64,
    delta_s: u64,
    delta_c: u64,
    delta_d: u64,
    fpu: &Fpu<F>,
) -> (p: KktMatrix)
    requires
        fpu.sound(),
        base.well_formed(),
        n + n_d + n_c + n_d <= base.dim(),
    ensures
        p.well_formed(),
        p.dim() == base.dim(),
        p.model() == aug_perturbed(
            base.model(),
            n as int,
            n_c as int,
            n_d as int,
            delta_x,
            delta_s,
            delta_c,
            delta_d,
            *fpu,
        ),
{
    let dim: usize = base.n();
    let mut p: KktMatrix = base.copy();
    if !eq(delta_x, ZERO) {
        p.add_diagonal_range(0, n, delta_x, fpu);
    }
    if !eq(delta_s, ZERO) && n_d > 0 {
        p.add_diagonal_range(n, n + n_d, delta_s, fpu);
    }
    if !eq(delta_c, ZERO) && n_c > 0 {
        p.add_diagonal_range(n + n_d, n + n_d + n_c, neg(delta_c), fpu);
    }
    if !eq(delta_d, ZERO) && n_d > 0 {
        p.add_diagonal_range(n + n_d + n_c, n + n_d + n_c + n_d, neg(delta_d), fpu);
    }
    p
}

/// The counters of the handler leave room for the tests of one matrix.
pub open spec fn has_room(p: InertiaCorrectionParams) -> bool {
    &&& p.degen_iters + p.max_attempts + 1 <= usize::MAX
    &&& p.degeneracy_count < usize::MAX
}

proof fn lemma_room<F: Fn(FloatOp, u64, u64) -> u64>(p: InertiaCorrectionParams, mu: u64, fpu: Fpu<F>)
    requires
        p.degen_iters < usize::MAX,
    ensures
        considered(p, mu, fpu).0.degen_iters <= p.degen_iters + 1,
        after_singular(p, mu, fpu).0.degen_iters == p.degen_iters,
        after_wrong_inertia(p, mu, fpu).0.degen_iters <= p.degen_iters + 1,
        considered(p, mu, fpu).0.max_attempts == p.max_attempts,
        after_singular(p, mu, fpu).0.max_attempts == p.max_attempts,
        after_wrong_inertia(p, mu, fpu).0.max_attempts == p.max_attempts,
        considered(p, mu, fpu).0.degeneracy_count == p.degeneracy_count,
        after_singular(p, mu, fpu).0.degeneracy_count == p.degeneracy_count,
        after_wrong_inertia(p, mu, fpu).0.degeneracy_count == p.degeneracy_count,
{
    reveal(considered);
    reveal(after_singular);
    reveal(after_wrong_inertia);
}

proof fn lemma_run_push<F: Fn(FloatOp, u64, u64) -> u64, D: Fn(u64) -> String>(
    layout: Layout,
    s: FactorState,
    ev: Seq<SolverEvent>,
    e: SolverEvent,
    mu: u64,
    fpu: Fpu<F>,
    notation: Notation<D>,
)
    ensures
        factor_run(layout, s, ev.push(e), mu, fpu, notation) == factor_step(
            layout,
            factor_run(layout, s, ev, mu, fpu, notation),
            e,
            mu,
            fpu,
            notation,
        ),
{
    assert(ev.push(e).drop_last() =~= ev);
}

proof fn lemma_run_append<F: Fn(FloatOp, u64, u64) -> u64, D: Fn(u64) -> String>(
    layout: Layout,
    s: FactorState,
    a: Seq<SolverEvent>,
    b: Seq<SolverEvent>,
    mu: u64,
    fpu: Fpu<F>,
    notation: Notation<D>,
)
    ensures
        factor_run(layout, s, a + b, mu, fpu, notation) == factor_run(
            layout,
            factor_run(layout, s, a, mu, fpu, notation),
            b,
            mu,
            fpu,
            notation,
        ),
    decreases b.len(),
{
    if b.len() == 0 {
        assert(a + b =~= a);
    } else {
        lemma_run_append(layout, s, a, b.drop_last(), mu, fpu, notation);
        assert((a + b).drop_last() =~= a + b.drop_last());
    }
}

/// The current perturbations and whether the quality was improved.
struct Trial {
    dx: u64,
    dc: u64,
    tried: bool,
}

/// What the code holds agrees with the state.
spec fn agrees(
    s: FactorState,
    matrix: KktMatrix,
    rhs: Vec<u64>,
    scale: Option<Vec<u64>>,
    params: InertiaCorrectionParams,
    trial: Trial,
) -> bool {
    &&& s.matrix == matrix.model()
    &&& s.rhs == rhs@
    &&& s.scale == option_view(scale)
    &&& s.params == params
    &&& s.dx == trial.dx
    &&& s.dc == trial.dc
    &&& s.tried == trial.tried
}

/// The state waits for a factorization, or all attempts are spent.
spec fn waits<D: Fn(u64) -> String>(layout: Layout, s: FactorState, notation: Notation<D>) -> bool {
    s.phase == if s.attempt < s.params.max_attempts {
        FactorPhase::Factor
    } else {
        FactorPhase::Done(Err(exhausted(layout, s.params.max_attempts, s.dx, s.dc, notation)))
    }
}

/// Answers a singular matrix. No result means that another attempt is due.
fn answer_singular<S: LinearSolver, F: Fn(FloatOp, u64, u64) -> u64, D: Fn(u64) -> String>(
    shape: &Shape,
    solver: &mut S,
    params: &mut InertiaCorrectionParams,
    trial: &mut Trial,
    mu: u64,
    fpu: &Fpu<F>,
    notation: &Notation<D>,
    Ghost(s): Ghost<FactorState>,
) -> (r: Option<SolverError>)
    requires
        fpu.sound(),
        s.params == *old(params),
        s.dx == old(trial).dx,
        s.dc == old(trial).dc,
        s.tried == old(trial).tried,
        old(params).degen_iters < usize::MAX,
    ensures
        old(solver).log().is_prefix_of(final(solver).log()),
        ({
            let ev = final(solver).log().skip(old(solver).log().len() as int);
            let end = factor_run(
                shape.layout(),
                quality_next(shape.layout(), s, mu, *fpu, *notation),
                ev,
                mu,
                *fpu,
                *notation,
            );
            &&& end.params == *final(params)
            &&& end.matrix == s.matrix
            &&& end.rhs == s.rhs
            &&& end.scale == s.scale
            &&& end.dx == final(trial).dx
            &&& end.dc == final(trial).dc
            &&& end.tried == final(trial).tried
            &&& match r {
                Some(e) => end.phase == FactorPhase::Done(
                    Err::<(u64, u64), ErrorModel>(error_model(e)),
                ),
                None => end.attempt == s.attempt + 1 && waits(shape.layout(), end, *notation),
            }
        }),
        final(params).degen_iters == old(params).degen_iters,
        final(params).degeneracy_count == old(params).degeneracy_count,
        final(params).max_attempts == old(params).max_attempts,
{
    let ghost layout = shape.layout();
    let ghost was = solver.log();
    proof {
        lemma_room(*params, mu, *fpu);
        assert(solver.log().skip(was.len() as int) =~= Seq::<SolverEvent>::empty());
    }
    if !trial.tried {
        let improved: bool = solver.increase_quality();
        proof {
            let e = SolverEvent::Improve(improved);
            let none = Seq::<SolverEvent>::empty();
            assert(solver.log().skip(was.len() as int) =~= none.push(e));
            lemma_run_push(
                layout,
                quality_next(layout, s, mu, *fpu, *notation),
                none,
                e,
                mu,
                *fpu,
                *notation,
            );
        }
        if improved {
            trial.tried = true;
            return None;
        }
    }
    if !params.perturb_for_singularity(mu, fpu) {
        return Some(shape.fail("PDPerturbationHandler: cap exhausted in singularity probe"));
    }
    trial.dx = params.delta_x_curr;
    trial.dc = params.delta_c_curr;
    None
}

/// Answers a matrix of wrong inertia. No result means that another attempt is
/// due.
fn answer_wrong<F: Fn(FloatOp, u64, u64) -> u64, D: Fn(u64) -> String>(
    shape: &Shape,
    params: &mut InertiaCorrectionParams,
    trial: &mut Trial,
    mu: u64,
    known: bool,
    fpu: &Fpu<F>,
    notation: &Notation<D>,
    Ghost(s): Ghost<FactorState>,
) -> (r: Option<SolverError>)
    requires
        fpu.sound(),
        s.params == *old(params),
        s.dx == old(trial).dx,
        s.dc == old(trial).dc,
        s.tried == old(trial).tried,
        old(params).degen_iters < usize::MAX,
    ensures
        ({
            let end = wrong_next(shape.layout(), s, mu, known, *fpu, *notation);
            &&& end.params == *final(params)
            &&& end.matrix == s.matrix
            &&& end.rhs == s.rhs
            &&& end.scale == s.scale
            &&& end.dx == final(trial).dx
            &&& end.dc == final(trial).dc
            &&& end.tried == final(trial).tried
            &&& match r {
                Some(e) => end.phase == FactorPhase::Done(
                    Err::<(u64, u64), ErrorModel>(error_model(e)),
                ),
                None => end.attempt == s.attempt + 1 && waits(shape.layout(), end, *notation),
            }
        }),
        final(params).degen_iters <= old(params).degen_iters + 1,
        final(params).degeneracy_count == old(params).degeneracy_count,
        final(params).max_attempts == old(params).max_attempts,
{
    proof {
        lemma_room(*params, mu, *fpu);
    }
    if !params.perturb_for_wrong_inertia(mu, fpu) {
        return Some(
            if known {
                shape.fail("PDPerturbationHandler: cap exhausted in wrong-inertia ladder")
            } else {
                shape.fail("PDPerturbationHandler: cap exhausted (no inertia)")
            },
        );
    }
    trial.dx = params.delta_x_curr;
    trial.dc = params.delta_c_curr;
    None
}

/// Takes the perturbed matrix over.
fn accept<F: Fn(FloatOp, u64, u64) -> u64>(
    shape: &Shape,
    matrix: &mut KktMatrix,
    perturbed: KktMatrix,
    params: &mut InertiaCorrectionParams,
    trial: &Trial,
    fpu: &Fpu<F>,
    Ghost(s): Ghost<FactorState>,
)
    requires
        s.params == *old(params),
        s.dx == trial.dx,
        s.dc == trial.dc,
        perturbed.model() == shape.layout().perturbed(s.matrix, s.dx, s.dc, *fpu),
        old(params).degeneracy_count < usize::MAX,
    ensures
        *final(matrix) == perturbed,
        *final(params) == accepted(shape.layout(), s, *fpu).params,
        accepted(shape.layout(), s, *fpu).matrix == perturbed.model(),
{
    *matrix = perturbed;
    if lt(ZERO, trial.dx) {
        params.delta_w_last = trial.dx;
    }
    if lt(ZERO, trial.dc) {
        params.delta_c_last = trial.dc;
    }
    match shape.kind {
        Kind::Kkt => {
            params.degeneracy_count = if lt(ZERO, trial.dx) {
                params.degeneracy_count + 1
            } else {
                0
            };
        },
        Kind::Augmented => {},
    }
}

/// One attempt: factors the perturbed matrix and answers its inertia. No result
/// means that another attempt is due.
#[verifier::rlimit(40)]
fn attempt_once<S: LinearSolver, F: Fn(FloatOp, u64, u64) -> u64, D: Fn(u64) -> String>(
    shape: &Shape,
    matrix: &mut KktMatrix,
    rhs: &mut Vec<u64>,
    scale: &mut Option<Vec<u64>>,
    solver: &mut S,
    params: &mut InertiaCorrectionParams,
    trial: &mut Trial,
    mu: u64,
    fpu: &Fpu<F>,
    notation: &Notation<D>,
    Ghost(s): Ghost<FactorState>,
) -> (r: Option<Result<(u64, u64), SolverError>>)
    requires
        fpu.sound(),
        old(matrix).well_formed(),
        old(matrix).dim() == shape.layout().dim(),
        old(rhs)@.len() == old(matrix).dim(),
        agrees(s, *old(matrix), *old(rhs), *old(scale), *old(params), *old(trial)),
        s.phase is Factor,
        old(params).degen_iters < usize::MAX,
        old(params).degeneracy_count < usize::MAX,
    ensures
        final(matrix).well_formed(),
        final(matrix).dim() == old(matrix).dim(),
        final(rhs)@.len() == old(rhs)@.len(),
        *final(scale) != *old(scale) ==> (option_view(*final(scale)) matches Some(v) && v.len()
            == old(rhs)@.len()),
        shape.kind is Augmented ==> final(rhs)@ == old(rhs)@ && *final(scale) == *old(scale),
        old(solver).log().is_prefix_of(final(solver).log()),
        ({
            let end = factor_run(
                shape.layout(),
                s,
                final(solver).log().skip(old(solver).log().len() as int),
                mu,
                *fpu,
                *notation,
            );
            &&& agrees(end, *final(matrix), *final(rhs), *final(scale), *final(params), *final(trial))
            &&& match r {
                Some(q) => end.phase == FactorPhase::Done(reply(q)),
                None => end.attempt == s.attempt + 1 && waits(shape.layout(), end, *notation),
            }
        }),
        r is None ==> final(params).degen_iters <= old(params).degen_iters + 1
            && final(params).degeneracy_count == old(params).degeneracy_count
            && final(params).max_attempts == old(params).max_attempts,
{
    let ghost layout = shape.layout();
    let ghost was = solver.log();
    let ghost none = Seq::<SolverEvent>::empty();
    let perturbed: KktMatrix = shape.perturb(matrix, trial.dx, trial.dc, fpu);
    let dim: usize = matrix.n();
    let result: Result<Option<Inertia>, SolverError> = solver.factor(&perturbed);
    let ghost e1 = SolverEvent::Factor(perturbed.model(), reply(result));
    let ghost s1 = factor_step(layout, s, e1, mu, *fpu, *notation);
    let ghost log1 = solver.log();
    proof {
        assert(log1.skip(was.len() as int) =~= none.push(e1));
        lemma_run_push(layout, s, none, e1, mu, *fpu, *notation);
    }
    let inertia: Option<Inertia> = match result {
        Ok(i) => i,
        Err(e) => {
            return Some(Err(e));
        },
    };
    let known: bool = inertia.is_some();
    let exact: bool = match inertia {
        Some(i) => shape.right(i),
        None => false,
    };
    if known && !exact {
        let zero: usize = match inertia {
            Some(i) => i.zero,
            None => 0,
        };
        if zero > 0 {
            let answer: Option<SolverError> = answer_singular(
                shape,
                solver,
                params,
                trial,
                mu,
                fpu,
                notation,
                Ghost(s),
            );
            proof {
                let ev = solver.log().skip(log1.len() as int);
                assert(solver.log().skip(was.len() as int) =~= log1.skip(was.len() as int) + ev);
                lemma_run_append(layout, s, log1.skip(was.len() as int), ev, mu, *fpu, *notation);
            }
            return match answer {
                Some(e) => Some(Err(e)),
                None => None,
            };
        }
        let answer: Option<SolverError> = answer_wrong(
            shape,
            params,
            trial,
            mu,
            true,
            fpu,
            notation,
            Ghost(s),
        );
        return match answer {
            Some(e) => Some(Err(e)),
            None => None,
        };
    }
    assert(s1 == (FactorState { phase: FactorPhase::Probe { known }, ..s }));
    let fine: bool = check_factorization_finite_with_matrix(rhs, solver);
    let ghost e2 = solver.log().last();
    let ghost log2 = solver.log();
    let ghost s2 = factor_step(layout, s1, e2, mu, *fpu, *notation);
    proof {
        assert(log2.skip(was.len() as int) =~= log1.skip(was.len() as int).push(e2));
        lemma_run_push(layout, s, log1.skip(was.len() as int), e2, mu, *fpu, *notation);
    }
    if fine {
        accept(shape, matrix, perturbed, params, trial, fpu, Ghost(s1));
        return Some(Ok((trial.dx, trial.dc)));
    }
    if !known {
        let answer: Option<SolverError> = answer_wrong(
            shape,
            params,
            trial,
            mu,
            false,
            fpu,
            notation,
            Ghost(s1),
        );
        return match answer {
            Some(e) => Some(Err(e)),
            None => None,
        };
    }
    let is_kkt: bool = match shape.kind {
        Kind::Kkt => true,
        Kind::Augmented => false,
    };
    if is_kkt && !params.use_scaling && scale.is_none() {
        params.use_scaling = true;
        let factors: Vec<u64> = ruiz_equilibrate(matrix, rhs, fpu);
        *scale = Some(factors);
        return None;
    }
    let answer: Option<SolverError> = answer_singular(
        shape,
        solver,
        params,
        trial,
        mu,
        fpu,
        notation,
        Ghost(s1),
    );
    proof {
        let ev = solver.log().skip(log2.len() as int);
        assert(solver.log().skip(was.len() as int) =~= log2.skip(was.len() as int) + ev);
        lemma_run_append(layout, s, log2.skip(was.len() as int), ev, mu, *fpu, *notation);
    }
    match answer {
        Some(e) => Some(Err(e)),
        None => None,
    }
}

/// Factors the matrix with the perturbations that its inertia calls for.
#[verifier::rlimit(40)]
pub fn factor_shape<S: LinearSolver, F: Fn(FloatOp, u64, u64) -> u64, D: Fn(u64) -> String>(
    shape: &Shape,
    matrix: &mut KktMatrix,
    rhs: &mut Vec<u64>,
    scale: &mut Option<Vec<u64>>,
    solver: &mut S,
    params: &mut InertiaCorrectionParams,
    mu: u64,
    fpu: &Fpu<F>,
    notation: &Notation<D>,
) -> (r: Result<(u64, u64), SolverError>)
    requires
        fpu.sound(),
        notation.sound(),
        old(matrix).well_formed(),
        old(matrix).dim() == shape.layout().dim(),
        old(rhs)@.len() == old(matrix).dim(),
        has_room(*old(params)),
    ensures
        final(matrix).well_formed(),
        final(matrix).dim() == old(matrix).dim(),
        final(rhs)@.len() == old(rhs)@.len(),
        *final(scale) != *old(scale) ==> (option_view(*final(scale)) matches Some(v) && v.len()
            == old(rhs)@.len()),
        shape.kind is Augmented ==> final(rhs)@ == old(rhs)@ && *final(scale) == *old(scale),
        old(solver).log().is_prefix_of(final(solver).log()),
        ({
            let end = factor_run(
                shape.layout(),
                factor_start(
                    shape.layout(),
                    old(matrix).model(),
                    old(rhs)@,
                    option_view(*old(scale)),
                    *old(params),
                    mu,
                    *fpu,
                    *notation,
                ),
                final(solver).log().skip(old(solver).log().len() as int),
                mu,
                *fpu,
                *notation,
            );
            &&& end.phase == FactorPhase::Done(reply(r))
            &&& end.matrix == final(matrix).model()
            &&& end.rhs == final(rhs)@
            &&& end.scale == option_view(*final(scale))
            &&& end.params == *final(params)
        }),
{
    let ghost layout = shape.layout();
    let ghost start = factor_start(
        layout,
        matrix.model(),
        rhs@,
        option_view(*scale),
        *params,
        mu,
        *fpu,
        *notation,
    );
    let ghost was = solver.log();
    let dim: usize = matrix.n();
    let len: usize = rhs.len();
    assert(solver.log().skip(was.len() as int) =~= Seq::<SolverEvent>::empty());
    let is_kkt: bool = match shape.kind {
        Kind::Kkt => true,
        Kind::Augmented => false,
    };
    if is_kkt && params.use_scaling {
        let factors: Vec<u64> = ruiz_equilibrate(matrix, rhs, fpu);
        *scale = Some(factors);
    }
    proof {
        lemma_room(*params, mu, *fpu);
    }
    let mut trial: Trial = match params.consider_new_system(mu, fpu) {
        Some((dx, dc)) => Trial { dx, dc, tried: false },
        None => {
            return Err(
                shape.fail("PDPerturbationHandler: delta_x cap exhausted at consider_new_system"),
            );
        },
    };
    let mut attempt: usize = 0;
    let max_attempts: usize = params.max_attempts;
    let ghost mut s = start;
    while attempt < max_attempts
        invariant
            fpu.sound(),
            notation.sound(),
            layout == shape.layout(),
            was == old(solver).log(),
            matrix.well_formed(),
            matrix.dim() == dim,
            dim == layout.dim(),
            rhs@.len() == len,
            len == dim,
            len == old(rhs)@.len(),
            dim == old(matrix).dim(),
            *scale != *old(scale) ==> (option_view(*scale) matches Some(v) && v.len() == len),
            shape.kind is Augmented ==> rhs@ == old(rhs)@ && *scale == *old(scale),
            was.is_prefix_of(solver.log()),
            start == factor_start(
                layout,
                old(matrix).model(),
                old(rhs)@,
                option_view(*old(scale)),
                *old(params),
                mu,
                *fpu,
                *notation,
            ),
            s == factor_run(
                layout,
                start,
                solver.log().skip(was.len() as int),
                mu,
                *fpu,
                *notation,
            ),
            agrees(s, *matrix, *rhs, *scale, *params, trial),
            s.attempt == attempt,
            attempt <= max_attempts,
            max_attempts == params.max_attempts,
            waits(layout, s, *notation),
            params.degen_iters + (max_attempts - attempt) <= usize::MAX,
            params.degeneracy_count < usize::MAX,
        decreases max_attempts - attempt,
    {
        let ghost log0 = solver.log();
        let ghost s0 = s;
        let outcome: Option<Result<(u64, u64), SolverError>> = attempt_once(
            shape,
            matrix,
            rhs,
            scale,
            solver,
            params,
            &mut trial,
            mu,
            fpu,
            notation,
            Ghost(s),
        );
        proof {
            let ev = solver.log().skip(log0.len() as int);
            assert(solver.log().skip(was.len() as int) =~= log0.skip(was.len() as int) + ev);
            lemma_run_append(layout, start, log0.skip(was.len() as int), ev, mu, *fpu, *notation);
            s = factor_run(layout, s0, ev, mu, *fpu, *notation);
        }
        match outcome {
            Some(r) => {
                return r;
            },
            None => {},
        }
        attempt = attempt + 1;
    }
    Err(exhausted_error(shape, max_attempts, trial.dx, trial.dc, notation))
}

fn exhausted_error<D: Fn(u64) -> String>(
    shape: &Shape,
    max_attempts: usize,
    dx: u64,
    dc: u64,
    notation: &Notation<D>,
) -> (e: SolverError)
    requires
        notation.sound(),
    ensures
        error_model(e) == exhausted(shape.layout(), max_attempts, dx, dc, *notation),
{
    proof {
        reveal(exhausted);
    }
    let mut m: String = String::from_str("PDPerturbationHandler: max_attempts=");
    push_decimal(&mut m, max_attempts);
    match shape.kind {
        Kind::Kkt => m.append(" exhausted (last δ_w="),
        Kind::Augmented => m.append(" exhausted (aug, last δ_w="),
    }
    let a: String = notation.show(dx);
    m.append(a.as_str());
    m.append(", δ_c=");
    let b: String = notation.show(dc);
    m.append(b.as_str());
    m.append(")");
    SolverError::NumericalFailure(m)
}

/// The factorization of a KKT system as a run of the solver.
pub open spec fn kkt_factored<F: Fn(FloatOp, u64, u64) -> u64, D: Fn(u64) -> String>(
    before: KktSystem,
    params: InertiaCorrectionParams,
    mu: u64,
    ev: Seq<SolverEvent>,
    fpu: Fpu<F>,
    notation: Notation<D>,
) -> FactorState {
    let layout = Layout::Kkt { n: before.n as int, m: before.m as int };
    factor_run(
        layout,
        factor_start(
            layout,
            before.matrix.model(),
            before.rhs@,
            option_view(before.scale_factors),
            params,
            mu,
            fpu,
            notation,
        ),
        ev,
        mu,
        fpu,
        notation,
    )
}

/// Factors the matrix of the system, perturbed as far as its inertia calls for.
/// The result holds the perturbations of the Hessian and the constraints, and
/// the system then holds the perturbed matrix.
pub fn factor_with_inertia_correction<
    S: LinearSolver,
    F: Fn(FloatOp, u64, u64) -> u64,
    D: Fn(u64) -> String,
>(
    kkt: &mut KktSystem,
    solver: &mut S,
    params: &mut InertiaCorrectionParams,
    mu: u64,
    fpu: &Fpu<F>,
    notation: &Notation<D>,
) -> (r: Result<(u64, u64), SolverError>)
    requires
        fpu.sound(),
        notation.sound(),
        old(kkt).well_formed(),
        has_room(*old(params)),
    ensures
        final(kkt).well_formed(),
        final(kkt).n == old(kkt).n,
        final(kkt).m == old(kkt).m,
        final(kkt).delta_c_diag == old(kkt).delta_c_diag,
        final(kkt).input_atags == old(kkt).input_atags,
        old(solver).log().is_prefix_of(final(solver).log()),
        ({
            let end = kkt_factored(
                *old(kkt),
                *old(params),
                mu,
                final(solver).log().skip(old(solver).log().len() as int),
                *fpu,
                *notation,
            );
            &&& end.phase == FactorPhase::Done(reply(r))
            &&& end.matrix == final(kkt).matrix.model()
            &&& end.rhs == final(kkt).rhs@
            &&& end.scale == option_view(final(kkt).scale_factors)
            &&& end.params == *final(params)
        }),
{
    let shape: Shape = Shape { kind: Kind::Kkt, n: kkt.n, n_c: kkt.m, n_d: 0 };
    factor_shape(
        &shape,
        &mut kkt.matrix,
        &mut kkt.rhs,
        &mut kkt.scale_factors,
        solver,
        params,
        mu,
        fpu,
        notation,
    )
}

/// Versions of the inputs and perturbations of a factored matrix.
#[derive(Debug, Clone, Copy, PartialEq, Eq, Structural)]
pub struct KktSystemFingerprint {
    pub atags: KktInputAtags,
    pub delta_x: u64,
    pub delta_c: u64,
}

impl KktSystemFingerprint {
    /// Tells whether two fingerprints agree, the perturbations bit for bit.
    pub fn matches(&self, other: &Self) -> (same: bool)
        ensures
            same == (*self == *other),
    {
        self.atags == other.atags && self.delta_x == other.delta_x && self.delta_c == other.delta_c
    }
}

/// Memory of the last factorization.
#[derive(Debug, Clone, Copy)]
pub struct FactorCache {
    pub enabled: bool,
    /// The factored matrix, if any.
    pub last_fingerprint: Option<KktSystemFingerprint>,
    /// Its perturbations.
    pub last_deltas: (u64, u64),
    pub hits: u64,
    pub misses: u64,
    /// Factorizations that were carried out.
    pub factor_calls: u64,
}

impl Default for FactorCache {
    fn default() -> (c: Self)
        ensures
            c == (FactorCache {
                enabled: false,
                last_fingerprint: None,
                last_deltas: (ZERO, ZERO),
                hits: 0,
                misses: 0,
                factor_calls: 0,
            }),
    {
        FactorCache {
            enabled: false,
            last_fingerprint: None,
            last_deltas: (ZERO, ZERO),
            hits: 0,
            misses: 0,
            factor_calls: 0,
        }
    }
}

impl FactorCache {
    pub fn new() -> (c: Self)
        ensures
            c == (FactorCache {
                enabled: false,
                last_fingerprint: None,
                last_deltas: (ZERO, ZERO),
                hits: 0,
                misses: 0,
                factor_calls: 0,
            }),
    {
        FactorCache::default()
    }

    /// Forgets the last factorization.
    pub fn invalidate(&mut self)
        ensures
            *final(self) == (FactorCache { last_fingerprint: None, ..*old(self) }),
    {
        self.last_fingerprint = None;
    }

    /// The cache is on, and the last factorization had the same inputs.
    pub open spec fn is_hit(self, atags: Option<KktInputAtags>) -> bool {
        &&& self.enabled
        &&& atags matches Some(a)
        &&& self.last_fingerprint matches Some(f)
        &&& f.atags == a
    }

    /// The cache after a factorization.
    pub open spec fn updated(
        self,
        atags: Option<KktInputAtags>,
        r: Result<(u64, u64), ErrorModel>,
    ) -> FactorCache {
        let counted = FactorCache {
            misses: if self.enabled {
                (self.misses + 1) as u64
            } else {
                self.misses
            },
            factor_calls: (self.factor_calls + 1) as u64,
            ..self
        };
        if !self.enabled {
            counted
        } else {
            match (r, atags) {
                (Ok((dw, dc)), Some(a)) => FactorCache {
                    last_fingerprint: Some(
                        KktSystemFingerprint { atags: a, delta_x: dw, delta_c: dc },
                    ),
                    last_deltas: (dw, dc),
                    ..counted
                },
                (Err(_), _) => FactorCache { last_fingerprint: None, ..counted },
                _ => counted,
            }
        }
    }
}

/// `factor_with_inertia_correction`, left out where the last factorization had
/// the same inputs: then its perturbations are the result and the solver is not
/// called.
pub fn factor_with_inertia_correction_cached<
    S: LinearSolver,
    F: Fn(FloatOp, u64, u64) -> u64,
    D: Fn(u64) -> String,
>(
    kkt: &mut KktSystem,
    solver: &mut S,
    params: &mut InertiaCorrectionParams,
    mu: u64,
    cache: &mut FactorCache,
    fpu: &Fpu<F>,
    notation: &Notation<D>,
) -> (r: Result<(u64, u64), SolverError>)
    requires
        fpu.sound(),
        notation.sound(),
        old(kkt).well_formed(),
        has_room(*old(params)),
        old(cache).is_hit(old(kkt).input_atags) ==> old(cache).hits < u64::MAX,
        !old(cache).is_hit(old(kkt).input_atags) ==> {
            &&& old(cache).enabled ==> old(cache).misses < u64::MAX
            &&& old(cache).factor_calls < u64::MAX
        },
    ensures
        final(kkt).well_formed(),
        old(cache).is_hit(old(kkt).input_atags) ==> {
            &&& reply(r) == Ok::<(u64, u64), ErrorModel>(old(cache).last_deltas)
            &&& *final(cache) == (FactorCache {
                hits: (old(cache).hits + 1) as u64,
                ..*old(cache)
            })
            &&& *final(kkt) == *old(kkt)
            &&& *final(params) == *old(params)
            &&& final(solver).log() == old(solver).log()
        },
        !old(cache).is_hit(old(kkt).input_atags) ==> {
            let end = kkt_factored(
                *old(kkt),
                *old(params),
                mu,
                final(solver).log().skip(old(solver).log().len() as int),
                *fpu,
                *notation,
            );
            &&& old(solver).log().is_prefix_of(final(solver).log())
            &&& end.phase == FactorPhase::Done(reply(r))
            &&& end.matrix == final(kkt).matrix.model()
            &&& end.rhs == final(kkt).rhs@
            &&& end.scale == option_view(final(kkt).scale_factors)
            &&& end.params == *final(params)
            &&& final(kkt).n == old(kkt).n
            &&& final(kkt).m == old(kkt).m
            &&& final(kkt).delta_c_diag == old(kkt).delta_c_diag
            &&& final(kkt).input_atags == old(kkt).input_atags
            &&& *final(cache) == old(cache).updated(old(kkt).input_atags, reply(r))
        },
{
    if cache.enabled {
        match (kkt.input_atags, cache.last_fingerprint) {
            (Some(atags), Some(prev)) => {
                if atags == prev.atags {
                    cache.hits = cache.hits + 1;
                    return Ok(cache.last_deltas);
                }
            },
            _ => {},
        }
        cache.misses = cache.misses + 1;
    }
    cache.factor_calls = cache.factor_calls + 1;
    let result: Result<(u64, u64), SolverError> = factor_with_inertia_correction(
        kkt,
        solver,
        params,
        mu,
        fpu,
        notation,
    );
    if cache.enabled {
        match &result {
            Ok((dw, dc)) => {
                match kkt.input_atags {
                    Some(atags) => {
                        cache.last_fingerprint = Some(
                            KktSystemFingerprint { atags, delta_x: *dw, delta_c: *dc },
                        );
                        cache.last_deltas = (*dw, *dc);
                    },
                    None => {},
                }
            },
            Err(_) => {
                cache.invalidate();
            },
        }
    }
    result
}

/// A successful factorization is remembered for its inputs and no others: the
/// next call with the same inputs is a hit that returns the same perturbations,
/// and any other call factors again.
pub proof fn successes_are_remembered(
    cache: FactorCache,
    atags: KktInputAtags,
    deltas: (u64, u64),
    later: Option<KktInputAtags>,
)
    requires
        cache.enabled,
    ensures
        cache.updated(Some(atags), Ok(deltas)).is_hit(later) <==> later == Some(atags),
        cache.updated(Some(atags), Ok(deltas)).last_deltas == deltas,
{
}

/// After a failed factorization, or once the cache is invalidated, the next
/// call factors, whatever its inputs.
pub proof fn forgotten_factorizations_are_repeated(
    cache: FactorCache,
    atags: Option<KktInputAtags>,
    error: ErrorModel,
    later: Option<KktInputAtags>,
)
    ensures
        !cache.updated(atags, Err(error)).is_hit(later),
        !(FactorCache { last_fingerprint: None, ..cache }).is_hit(later),
{
}

/// A cache that is off never hits, and remembers nothing.
pub proof fn disabled_caches_never_hit(
    cache: FactorCache,
    atags: Option<KktInputAtags>,
    r: Result<(u64, u64), ErrorModel>,
    later: Option<KktInputAtags>,
)
    requires
        !cache.enabled,
    ensures
        !cache.is_hit(later),
        !cache.updated(atags, r).is_hit(later),
        cache.updated(atags, r).last_fingerprint == cache.last_fingerprint,
        cache.updated(atags, r).hits == cache.hits,
        cache.updated(atags, r).misses == cache.misses,
{
}

} // verus!
