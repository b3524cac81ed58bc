//! How the perturbations of a matrix grow.

use crate::float::{finite, num_eq, num_lt, FloatOp, Fpu, Notation, TEN_P5, ZERO};
use crate::kkt::factor::{factor_run, FactorPhase, FactorState, Layout};
use crate::kkt::inertia::{
    after_singular, after_wrong_inertia, constraint_delta, escalated, finalized, DegenType,
    InertiaCorrectionParams, TrialStatus,
};
use crate::linear_solver::real_matrix::{exact, picks_larger, reads_numbers, reads_order};
use crate::linear_solver::solver::SolverEvent;
use vstd::prelude::*;

verus! {

/// The current perturbation of the Hessian is positive, and both factors by
/// which it may grow are above one and multiply it without rounding.
pub open spec fn can_grow<F: Fn(FloatOp, u64, u64) -> u64>(
    p: InertiaCorrectionParams,
    fpu: Fpu<F>,
    value: spec_fn(u64) -> real,
) -> bool {
    &&& finite(p.delta_x_curr)
    &&& value(p.delta_x_curr) > (0 as real)
    &&& value(p.delta_w_inc_fact_first) > (1 as real)
    &&& value(p.delta_w_inc_fact) > (1 as real)
    &&& exact(FloatOp::Mul, p.delta_x_curr, p.delta_w_inc_fact_first, fpu, value)
    &&& exact(FloatOp::Mul, p.delta_x_curr, p.delta_w_inc_fact, fpu, value)
}

/// The last perturbation of the Hessian, and a hundred thousand times that, are
/// known without rounding.
pub open spec fn last_is_known<F: Fn(FloatOp, u64, u64) -> u64>(
    p: InertiaCorrectionParams,
    fpu: Fpu<F>,
    value: spec_fn(u64) -> real,
) -> bool {
    &&& finite(p.delta_w_last)
    &&& value(TEN_P5) == (100000 as real)
    &&& exact(FloatOp::Mul, TEN_P5, p.delta_w_last, fpu, value)
    &&& finite(fpu.product(TEN_P5, p.delta_w_last))
}

proof fn lemma_grows(x: real, f: real)
    by (nonlinear_arith)
    requires
        x > (0 as real),
        f > (1 as real),
    ensures
        x * f > x,
{
}

/// A matrix of wrong inertia gets a larger perturbation: the current one is
/// multiplied by one of the two growth factors, also where an earlier matrix
/// left a perturbation behind. It is the first factor if there is no earlier
/// perturbation, or if the current one is beyond a hundred thousand times the
/// earlier one. The handler goes on if and only if the result is within the
/// limit.
pub proof fn perturbations_grow<F: Fn(FloatOp, u64, u64) -> u64>(
    p: InertiaCorrectionParams,
    fpu: Fpu<F>,
    value: spec_fn(u64) -> real,
)
    requires
        reads_numbers(value),
        reads_order(value),
        can_grow(p, fpu, value),
    ensures
        value(escalated(p, fpu).0.delta_x_curr) > value(p.delta_x_curr),
        ({
            let x = value(p.delta_x_curr);
            let now = value(escalated(p, fpu).0.delta_x_curr);
            ||| now == x * value(p.delta_w_inc_fact_first)
            ||| now == x * value(p.delta_w_inc_fact)
        }),
        last_is_known(p, fpu, value) ==> value(escalated(p, fpu).0.delta_x_curr) == value(
            p.delta_x_curr,
        ) * (if value(p.delta_w_last) == (0 as real) || value(p.delta_x_curr) > (100000 as real)
            * value(p.delta_w_last) {
            value(p.delta_w_inc_fact_first)
        } else {
            value(p.delta_w_inc_fact)
        }),
        finite(escalated(p, fpu).0.delta_x_curr) && finite(p.delta_w_max) ==> (escalated(p, fpu).1
            <==> value(escalated(p, fpu).0.delta_x_curr) <= value(p.delta_w_max)),
{
    let x = value(p.delta_x_curr);
    assert(finite(ZERO) && num_eq(ZERO, ZERO));
    assert(value(ZERO) == (0 as real));
    assert(!num_eq(p.delta_x_curr, ZERO));
    lemma_grows(x, value(p.delta_w_inc_fact_first));
    lemma_grows(x, value(p.delta_w_inc_fact));
    if last_is_known(p, fpu, value) {
        let far = fpu.product(TEN_P5, p.delta_w_last);
        assert(value(far) == (100000 as real) * value(p.delta_w_last));
        assert(num_eq(p.delta_w_last, ZERO) <==> value(p.delta_w_last) == value(ZERO));
        assert(num_lt(far, p.delta_x_curr) <==> value(far) < value(p.delta_x_curr));
    }
    let d = escalated(p, fpu).0.delta_x_curr;
    if finite(d) && finite(p.delta_w_max) {
        assert(num_lt(p.delta_w_max, d) <==> value(p.delta_w_max) < value(d));
    }
}

/// The first perturbation of a matrix is the initial one, or, where an earlier
/// matrix left one behind, that one shrunk, but not below the least one. So it
/// is positive, and below the earlier one where that is above the least one.
pub proof fn first_perturbations_shrink<F: Fn(FloatOp, u64, u64) -> u64>(
    p: InertiaCorrectionParams,
    fpu: Fpu<F>,
    value: spec_fn(u64) -> real,
)
    requires
        reads_numbers(value),
        reads_order(value),
        num_eq(p.delta_x_curr, ZERO),
        finite(p.delta_w_last),
        exact(FloatOp::Mul, p.delta_w_last, p.delta_w_dec_fact, fpu, value),
        picks_larger(fpu.product(p.delta_w_last, p.delta_w_dec_fact), p.delta_w_min, fpu, value),
        value(p.delta_w_min) > (0 as real),
        (0 as real) < value(p.delta_w_dec_fact) < (1 as real),
        value(p.delta_w_last) >= (0 as real),
    ensures
        value(p.delta_w_last) == (0 as real) ==> escalated(p, fpu).0.delta_x_curr
            == p.delta_w_init,
        value(p.delta_w_last) > (0 as real) ==> {
            let d = value(escalated(p, fpu).0.delta_x_curr);
            let shrunk = value(p.delta_w_last) * value(p.delta_w_dec_fact);
            &&& d > (0 as real)
            &&& d >= shrunk
            &&& d >= value(p.delta_w_min)
            &&& d == shrunk || d == value(p.delta_w_min)
            &&& value(p.delta_w_last) > value(p.delta_w_min) ==> d < value(p.delta_w_last)
        },
{
    let l = value(p.delta_w_last);
    let f = value(p.delta_w_dec_fact);
    assert(finite(ZERO) && num_eq(ZERO, ZERO));
    assert(value(ZERO) == (0 as real));
    assert(num_eq(p.delta_w_last, ZERO) <==> l == value(ZERO));
    if l > (0 as real) {
        assert(l * f < l) by (nonlinear_arith)
            requires
                l > (0 as real),
                f < (1 as real),
        ;
    }
}

/// While one matrix keeps having the wrong inertia, each further perturbation
/// of the Hessian is larger than the one before and that of the constraints
/// stays, until the limit is reached. Then the constraints are perturbed, once,
/// and the perturbation of the Hessian starts over.
pub proof fn wrong_inertia_is_answered<F: Fn(FloatOp, u64, u64) -> u64>(
    p: InertiaCorrectionParams,
    mu: u64,
    fpu: Fpu<F>,
    value: spec_fn(u64) -> real,
)
    requires
        reads_numbers(value),
        reads_order(value),
        can_grow(p, fpu, value),
    ensures
        ({
            let (q, ok) = after_wrong_inertia(p, mu, fpu);
            ok ==> {
                ||| value(q.delta_x_curr) > value(p.delta_x_curr) && q.delta_c_curr
                    == p.delta_c_curr && !num_lt(p.delta_w_max, q.delta_x_curr)
                ||| num_eq(p.delta_c_curr, ZERO) && q.delta_c_curr == fpu.product(
                    p.delta_c_base,
                    fpu.calc(FloatOp::Pow, fpu.calc(FloatOp::Max, mu, ZERO), p.delta_c_exp),
                ) && q.delta_x_curr == p.delta_w_init
            }
        }),
        ({
            let (q, ok) = after_wrong_inertia(p, mu, fpu);
            !ok ==> {
                ||| num_lt(p.delta_w_max, q.delta_x_curr)
            }
        }),
{
    reveal(after_wrong_inertia);
    let f = finalized(p);
    assert(f.delta_x_curr == p.delta_x_curr && f.delta_w_last == p.delta_w_last);
    perturbations_grow(f, fpu, value);
    assert(num_eq(ZERO, ZERO));
}

/// A singular matrix is answered by a perturbation that it did not have: the
/// constraints get their perturbation while that of the Hessian stays, or the
/// Hessian gets its next one.
pub proof fn singularity_is_answered<F: Fn(FloatOp, u64, u64) -> u64>(
    p: InertiaCorrectionParams,
    mu: u64,
    fpu: Fpu<F>,
)
    ensures
        ({
            let (q, ok) = after_singular(p, mu, fpu);
            let dc = fpu.product(
                p.delta_c_base,
                fpu.calc(FloatOp::Pow, fpu.calc(FloatOp::Max, mu, ZERO), p.delta_c_exp),
            );
            ok ==> {
                ||| q.delta_x_curr == p.delta_x_curr && q.delta_c_curr == dc
                ||| q.delta_x_curr == escalated(p, fpu).0.delta_x_curr && !num_lt(
                    p.delta_w_max,
                    q.delta_x_curr,
                ) && (q.delta_c_curr == p.delta_c_curr || q.delta_c_curr == ZERO || q.delta_c_curr
                    == dc)
            }
        }),
        // While both flags are known, the constraints come first.
        ({
            let (q, ok) = after_singular(p, mu, fpu);
            p.hess_degenerate != DegenType::NotYetDetermined && p.jac_degenerate
                != DegenType::NotYetDetermined && !num_lt(ZERO, p.delta_c_curr) ==> ok
                && q.delta_x_curr == p.delta_x_curr
        }),
        // Unperturbed, then the constraints alone, then the Hessian alone, then both.
        ({
            let (q, ok) = after_singular(p, mu, fpu);
            let open = p.hess_degenerate == DegenType::NotYetDetermined || p.jac_degenerate
                == DegenType::NotYetDetermined;
            open && ok && !p.perturb_always_cd && p.jac_degenerate == DegenType::NotYetDetermined
                ==> match p.test_status {
                TrialStatus::DcEq0DxEq0 => q.test_status == TrialStatus::DcGt0DxEq0
                    && q.delta_x_curr == p.delta_x_curr,
                TrialStatus::DcGt0DxEq0 => q.test_status == TrialStatus::DcEq0DxGt0
                    && q.delta_c_curr == ZERO,
                TrialStatus::DcEq0DxGt0 => q.test_status == TrialStatus::DcGt0DxGt0
                    && q.delta_c_curr == constraint_delta(p, mu, fpu),
                TrialStatus::DcGt0DxGt0 => q.test_status == TrialStatus::DcGt0DxGt0
                    && q.delta_c_curr == p.delta_c_curr,
                TrialStatus::NoTest => false,
            }
        }),
{
    reveal(after_singular);
}

/// The state before call `k` of a list of calls.
pub open spec fn before_call<F: Fn(FloatOp, u64, u64) -> u64, D: Fn(u64) -> String>(
    layout: Layout,
    start: FactorState,
    ev: Seq<SolverEvent>,
    k: int,
    mu: u64,
    fpu: Fpu<F>,
    notation: Notation<D>,
) -> FactorState {
    factor_run(layout, start, ev.take(k), mu, fpu, notation)
}

/// In a run of factorizations, a matrix that has neither a zero eigenvalue nor
/// the right inertia is followed by one that carries a larger perturbation of
/// the variables, as long as the perturbation of the constraints stays.
pub proof fn factored_perturbations_grow<F: Fn(FloatOp, u64, u64) -> u64, D: Fn(u64) -> String>(
    layout: Layout,
    start: FactorState,
    ev: Seq<SolverEvent>,
    k: int,
    mu: u64,
    fpu: Fpu<F>,
    notation: Notation<D>,
    value: spec_fn(u64) -> real,
)
    requires
        reads_numbers(value),
        reads_order(value),
        0 <= k < ev.len(),
        layout matches Layout::Kkt { n, m } ==> ev[k] matches SolverEvent::Factor(_, Ok(Some(i)))
            && i.zero == 0 && !(i.positive == n && i.negative == m),
        layout matches Layout::Augmented { n, n_c, n_d } ==> ev[k] matches SolverEvent::Factor(
            _,
            Ok(Some(i)),
        ) && i.zero == 0 && !(i.positive == n + n_d && i.negative == n_c + n_d),
        before_call(layout, start, ev, k + 1, mu, fpu, notation).phase is Factor,
        can_grow(before_call(layout, start, ev, k, mu, fpu, notation).params, fpu, value),
    ensures
        ({
            let was = before_call(layout, start, ev, k, mu, fpu, notation);
            let now = before_call(layout, start, ev, k + 1, mu, fpu, notation);
            &&& now.matrix == was.matrix
            &&& now.attempt == was.attempt + 1
            &&& now.dx == now.params.delta_x_curr
            &&& now.dc == now.params.delta_c_curr
            &&& now.dc == was.params.delta_c_curr && !num_eq(now.dc, ZERO) ==> value(now.dx)
                > value(was.params.delta_x_curr)
            &&& value(now.dx) > value(was.params.delta_x_curr) || num_eq(
                was.params.delta_c_curr,
                ZERO,
            )
        }),
{
    let was = before_call(layout, start, ev, k, mu, fpu, notation);
    assert(ev.take(k + 1).drop_last() =~= ev.take(k));
    assert(ev.take(k + 1).last() == ev[k]);
    wrong_inertia_is_answered(was.params, mu, fpu, value);
}

/// A factorization is accepted with the inertia of a step of descent only: as
/// many positive eigenvalues as variables and slacks, as many negative ones as
/// constraints, and none that is zero. This is said of the factorization that
/// comes before a trial solve which ends the run.
pub proof fn accepted_inertia_is_right<F: Fn(FloatOp, u64, u64) -> u64, D: Fn(u64) -> String>(
    layout: Layout,
    start: FactorState,
    ev: Seq<SolverEvent>,
    mu: u64,
    fpu: Fpu<F>,
    notation: Notation<D>,
)
    requires
        start.phase is Factor,
        factor_run(layout, start, ev, mu, fpu, notation).phase matches FactorPhase::Done(r)
            && r is Ok,
    ensures
        ev.len() >= 2,
        ev[ev.len() - 2] matches SolverEvent::Factor(_, Ok(inertia)) && (inertia matches Some(i)
            ==> i.zero == 0 && match layout {
            Layout::Kkt { n, m } => i.positive == n && i.negative == m,
            Layout::Augmented { n, n_c, n_d } => i.positive == n + n_d && i.negative == n_c + n_d,
        }),
{
    assert(ev.len() > 0);
    let before = ev.drop_last();
    let s1 = factor_run(layout, start, before, mu, fpu, notation);
    assert(s1.phase is Probe);
    assert(before.len() > 0);
    let s2 = factor_run(layout, start, before.drop_last(), mu, fpu, notation);
    assert(s2.phase is Factor);
    assert(before.last() == ev[ev.len() - 2]);
}

/// Three matrices in a row that needed a perturbation of the Hessian, and two
/// of them do not, make the Hessian count as degenerate; then every further
/// matrix starts with a perturbation.
pub proof fn three_tests_show_degeneracy(p: InertiaCorrectionParams)
    requires
        p.test_status == TrialStatus::DcEq0DxGt0,
        p.hess_degenerate == DegenType::NotYetDetermined,
        p.degen_iters == 0,
    ensures
        finalized(p).hess_degenerate == DegenType::NotYetDetermined,
        finalized(finalized(p)).hess_degenerate == DegenType::NotYetDetermined,
        finalized(finalized(finalized(p))).hess_degenerate == DegenType::Degenerate,
        finalized(finalized(finalized(p))).structurally_degenerate,
        finalized(p).jac_degenerate != DegenType::NotYetDetermined,
{
}

} // verus!
