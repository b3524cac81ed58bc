//! Steps of the interior-point method through the augmented system.

use crate::float::{FloatOp, Fpu, Notation, ZERO};
use crate::kkt::barrier::{compute_sigma, paired, sigma_of, zeros};
use crate::kkt::factor::{all_finite, has_room, is_all_finite, Layout};
use crate::kkt::inertia::InertiaCorrectionParams;
use crate::kkt_aug::newton::{
    default_task, newton_gives, newton_model, newton_solve, refine_run, solution, solve_aug_with_ir,
    AugSolveResult, NewtonOutcome, RefinePhase, SolutionModel, IR_IMPROVEMENT_FACTOR_DEFAULT,
    IR_MAX_STEPS_DEFAULT, IR_MIN_STEPS_DEFAULT, IR_RATIO_MAX_DEFAULT,
};
use crate::kkt_aug::probing::{
    aug_probing_mu_from_affine, probed_mu, slacks_of, variables_of,
};
use crate::kkt_aug::system::{
    assemble_aug_kkt, aug_matrix, build_outer_rhs, compute_sigma_s, fold_aug_rhs, folded,
    jacobian_fits, outer_rhs, part, partition_of, recover_step, recovered,
    slack_sigma, AugData, AugKktSystem, AugStep, ConstraintPartition, Iterate,
    OuterModel, OuterRhs, PartitionModel, StepModel,
};
use crate::linear_solver::model::MatrixModel;
use crate::linear_solver::solver::{error_model, ErrorModel, LinearSolver, SolverEvent};
use crate::linear_solver::{copy_numbers, SolverError};
use vstd::prelude::*;

verus! {

/// The second derivatives of the Lagrangian and the first ones of the
/// constraints, as lists of entries.
pub struct Derivatives {
    pub hess_rows: Seq<usize>,
    pub hess_cols: Seq<usize>,
    pub hess_vals: Seq<u64>,
    pub jac_rows: Seq<usize>,
    pub jac_cols: Seq<usize>,
    pub jac_vals: Seq<u64>,
}

/// Product of the transposed Jacobian and `y`, over the first `k` entries.
pub open spec fn transposed_product<F: Fn(FloatOp, u64, u64) -> u64>(
    rows: Seq<usize>,
    cols: Seq<usize>,
    vals: Seq<u64>,
    y: Seq<u64>,
    n: nat,
    m: nat,
    k: nat,
    fpu: Fpu<F>,
) -> Seq<u64>
    decreases k,
{
    if k == 0 {
        zeros(n)
    } else {
        let before = transposed_product(rows, cols, vals, y, n, m, (k - 1) as nat, fpu);
        let r = rows[k - 1] as int;
        let c = cols[k - 1] as int;
        if r < m && c < n {
            before.update(c, fpu.sum(before[c], fpu.product(vals[k - 1], y[r])))
        } else {
            before
        }
    }
}

/// The Jacobian entries come in lists of one length.
pub open spec fn jacobian_lists(rows: Seq<usize>, cols: Seq<usize>, vals: Seq<u64>) -> bool {
    cols.len() >= rows.len() && vals.len() >= rows.len()
}

/// Dimension of the augmented system.
pub open spec fn aug_dim(n: int, p: PartitionModel) -> int {
    n + p.n_d + p.n_c + p.n_d
}

/// The lists fit together, and the indices lie within the system.
pub open spec fn is_ready(
    n: int,
    p: PartitionModel,
    it: Iterate,
    d: Derivatives,
    sparse: bool,
) -> bool {
    let dim = aug_dim(n, p);
    &&& it.covers(n, it.g.len() as int)
    &&& dim <= usize::MAX
    &&& sparse || dim * (dim + 1) <= usize::MAX
    &&& d.hess_vals.len() >= paired(d.hess_rows, d.hess_cols)
    &&& forall|k: int|
        0 <= k < paired(d.hess_rows, d.hess_cols) ==> (#[trigger] d.hess_rows[k]) < dim
            && d.hess_cols[k] < dim
    &&& jacobian_lists(d.jac_rows, d.jac_cols, d.jac_vals)
    &&& jacobian_fits(d.jac_rows, d.jac_cols, d.jac_vals, it.g.len(), dim)
}

/// The unperturbed augmented matrix at an iterate.
pub open spec fn newton_matrix<F: Fn(FloatOp, u64, u64) -> u64>(
    n: int,
    p: PartitionModel,
    it: Iterate,
    d: Derivatives,
    sparse: bool,
    fpu: Fpu<F>,
) -> MatrixModel {
    aug_matrix(
        n,
        p,
        AugData {
            hess_rows: d.hess_rows,
            hess_cols: d.hess_cols,
            hess_vals: d.hess_vals,
            jac_rows: d.jac_rows,
            jac_cols: d.jac_cols,
            jac_vals: d.jac_vals,
            sigma_x: sigma_of(it.x.take(n), it.x_l, it.x_u, it.z_l, it.z_u, fpu),
            sigma_s: slack_sigma(
                p.ineq_to_constraint,
                it.s,
                it.g_l,
                it.g_u,
                it.v_l,
                it.v_u,
                fpu,
            ),
        },
        ZERO,
        ZERO,
        ZERO,
        ZERO,
        sparse,
        fpu,
    )
}

/// The residuals of the primal-dual equations at an iterate.
pub open spec fn newton_residuals<F: Fn(FloatOp, u64, u64) -> u64>(
    n: int,
    p: PartitionModel,
    it: Iterate,
    jac_rows: Seq<usize>,
    jac_cols: Seq<usize>,
    jac_vals: Seq<u64>,
    mu: u64,
    kappa_d: u64,
    fpu: Fpu<F>,
) -> OuterModel {
    outer_rhs(
        n as nat,
        p,
        it,
        transposed_product(
            jac_rows,
            jac_cols,
            jac_vals,
            it.y,
            n as nat,
            it.g.len(),
            jac_rows.len(),
            fpu,
        ),
        mu,
        kappa_d,
        fpu,
    )
}

/// The right-hand side of the augmented system for given residuals.
pub open spec fn rhs_at<F: Fn(FloatOp, u64, u64) -> u64>(
    n: int,
    p: PartitionModel,
    rhs: OuterModel,
    it: Iterate,
    fpu: Fpu<F>,
) -> Seq<u64> {
    folded(n, p, rhs, it.x, it.x_l, it.x_u, it.s, it.g_l, it.g_u, fpu)
}

fn transposed_times<F: Fn(FloatOp, u64, u64) -> u64>(
    n: usize,
    m: usize,
    rows: &[usize],
    cols: &[usize],
    vals: &[u64],
    y: &[u64],
    fpu: &Fpu<F>,
) -> (r: Vec<u64>)
    requires
        fpu.sound(),
        jacobian_lists(rows@, cols@, vals@),
        y@.len() >= m,
    ensures
        r@ == transposed_product(
            rows@,
            cols@,
            vals@,
            y@,
            n as nat,
            m as nat,
            rows@.len(),
            *fpu,
        ),
        r@.len() == n,
{
    let mut r: Vec<u64> = vec![ZERO; n];
    assert(r@ =~= zeros(n as nat));
    for k in 0..rows.len()
        invariant
            fpu.sound(),
            jacobian_lists(rows@, cols@, vals@),
            y@.len() >= m,
            r@.len() == n,
            r@ == transposed_product(
                rows@,
                cols@,
                vals@,
                y@,
                n as nat,
                m as nat,
                k as nat,
                *fpu,
            ),
    {
        let row: usize = rows[k];
        let col: usize = cols[k];
        if row < m && col < n {
            let v: u64 = fpu.add(r[col], fpu.mul(vals[k], y[row]));
            r.set(col, v);
        }
    }
    r
}

/// Assembles the unperturbed matrix at an iterate.
fn system_at<F: Fn(FloatOp, u64, u64) -> u64>(
    n: usize,
    partition: &ConstraintPartition,
    hess_rows: &[usize],
    hess_cols: &[usize],
    hess_vals: &[u64],
    jac_rows: &[usize],
    jac_cols: &[usize],
    jac_vals: &[u64],
    x: &[u64],
    x_l: &[u64],
    x_u: &[u64],
    z_l: &[u64],
    z_u: &[u64],
    s: &[u64],
    g_l: &[u64],
    g_u: &[u64],
    v_l: &[u64],
    v_u: &[u64],
    use_sparse: bool,
    fpu: &Fpu<F>,
    Ghost(it): Ghost<Iterate>,
) -> (aug: AugKktSystem)
    requires
        fpu.sound(),
        partition.fits(it.g.len()),
        it.x == x@,
        it.x_l == x_l@,
        it.x_u == x_u@,
        it.z_l == z_l@,
        it.z_u == z_u@,
        it.s == s@,
        it.g_l == g_l@,
        it.g_u == g_u@,
        it.v_l == v_l@,
        it.v_u == v_u@,
        is_ready(
            n as int,
            partition.model(),
            it,
            Derivatives {
                hess_rows: hess_rows@,
                hess_cols: hess_cols@,
                hess_vals: hess_vals@,
                jac_rows: jac_rows@,
                jac_cols: jac_cols@,
                jac_vals: jac_vals@,
            },
            use_sparse,
        ),
    ensures
        aug.well_formed(),
        aug.n == n,
        aug.n_c == partition.n_c,
        aug.n_d == partition.n_d,
        aug.matrix.model() == newton_matrix(
            n as int,
            partition.model(),
            it,
            Derivatives {
                hess_rows: hess_rows@,
                hess_cols: hess_cols@,
                hess_vals: hess_vals@,
                jac_rows: jac_rows@,
                jac_cols: jac_cols@,
                jac_vals: jac_vals@,
            },
            use_sparse,
            *fpu,
        ),
{
    let head: Vec<u64> = part(x, 0, n);
    assert(head@ =~= x@.take(n as int));
    let sigma_x: Vec<u64> = compute_sigma(&head, x_l, x_u, z_l, z_u, fpu);
    let sigma_s: Vec<u64> = compute_sigma_s(partition, s, g_l, g_u, v_l, v_u, fpu);
    proof {
        let d = Derivatives {
            hess_rows: hess_rows@,
            hess_cols: hess_cols@,
            hess_vals: hess_vals@,
            jac_rows: jac_rows@,
            jac_cols: jac_cols@,
            jac_vals: jac_vals@,
        };
        assert forall|k: int|
            0 <= k < paired(hess_rows@, hess_cols@) implies (#[trigger] hess_rows@[k]) < n
            + partition.n_d + partition.n_c + partition.n_d && hess_cols@[k] < n + partition.n_d
            + partition.n_c + partition.n_d by {
            assert(d.hess_rows[k] < aug_dim(n as int, partition.model()));
        }
    }
    assemble_aug_kkt(
        n,
        partition,
        hess_rows,
        hess_cols,
        hess_vals,
        jac_rows,
        jac_cols,
        jac_vals,
        &sigma_x,
        &sigma_s,
        ZERO,
        ZERO,
        ZERO,
        ZERO,
        use_sparse,
        fpu,
    )
}

/// The residuals and the right-hand side at an iterate. With `soc`, its lists
/// stand in place of the residuals of equations and inequalities.
fn rhs_of<F: Fn(FloatOp, u64, u64) -> u64>(
    n: usize,
    partition: &ConstraintPartition,
    jac_rows: &[usize],
    jac_cols: &[usize],
    jac_vals: &[u64],
    grad_f: &[u64],
    x: &[u64],
    x_l: &[u64],
    x_u: &[u64],
    z_l: &[u64],
    z_u: &[u64],
    s: &[u64],
    g: &[u64],
    g_l: &[u64],
    g_u: &[u64],
    y: &[u64],
    v_l: &[u64],
    v_u: &[u64],
    mu: u64,
    kappa_d: u64,
    soc: Option<(&Vec<u64>, &Vec<u64>)>,
    fpu: &Fpu<F>,
) -> (rhs: Vec<u64>)
    requires
        fpu.sound(),
        partition.fits(g@.len()),
        n + partition.n_d + partition.n_c + partition.n_d <= usize::MAX,
        jacobian_lists(jac_rows@, jac_cols@, jac_vals@),
        (Iterate {
            grad_f: grad_f@,
            x: x@,
            x_l: x_l@,
            x_u: x_u@,
            z_l: z_l@,
            z_u: z_u@,
            s: s@,
            g: g@,
            g_l: g_l@,
            g_u: g_u@,
            y: y@,
            v_l: v_l@,
            v_u: v_u@,
        }).covers(n as int, g@.len() as int),
        soc matches Some((c, d)) ==> c@.len() == partition.n_c && d@.len() == partition.n_d,
    ensures
        rhs@.len() == n + partition.n_d + partition.n_c + partition.n_d,
        ({
            let it = Iterate {
                grad_f: grad_f@,
                x: x@,
                x_l: x_l@,
                x_u: x_u@,
                z_l: z_l@,
                z_u: z_u@,
                s: s@,
                g: g@,
                g_l: g_l@,
                g_u: g_u@,
                y: y@,
                v_l: v_l@,
                v_u: v_u@,
            };
            let outer = newton_residuals(
                n as int,
                partition.model(),
                it,
                jac_rows@,
                jac_cols@,
                jac_vals@,
                mu,
                kappa_d,
                *fpu,
            );
            rhs@ == rhs_at(
                n as int,
                partition.model(),
                match soc {
                    Some((c, d)) => (OuterModel { y_c: c@, y_d: d@, ..outer }),
                    None => outer,
                },
                it,
                *fpu,
            )
        }),
{
    let j_t_y: Vec<u64> = transposed_times(n, g.len(), jac_rows, jac_cols, jac_vals, y, fpu);
    let mut outer: OuterRhs = build_outer_rhs(
        n,
        partition,
        grad_f,
        &j_t_y,
        x,
        x_l,
        x_u,
        z_l,
        z_u,
        s,
        g,
        g_l,
        g_u,
        y,
        v_l,
        v_u,
        mu,
        kappa_d,
        fpu,
    );
    match soc {
        Some((c, d)) => {
            outer.rhs_y_c = copy_numbers(c);
            outer.rhs_y_d = copy_numbers(d);
        },
        None => {},
    }
    fold_aug_rhs(n, partition, &outer, x, x_l, x_u, s, g_l, g_u, fpu)
}

/// A step with the perturbations that it took, or the error, as a mathematical
/// value.
pub open spec fn step_model(r: Result<(AugStep, u64, u64, AugKktSystem), SolverError>) -> Result<
    (StepModel, u64, u64),
    ErrorModel,
> {
    match r {
        Ok((step, dw, dc, _)) => Ok((step.model(), dw, dc)),
        Err(e) => Err(error_model(e)),
    }
}

/// The step that a solution of the augmented system gives.
pub open spec fn step_from<F: Fn(FloatOp, u64, u64) -> u64>(
    n: int,
    p: PartitionModel,
    it: Iterate,
    mu: u64,
    r: Result<(SolutionModel, u64, u64), ErrorModel>,
    fpu: Fpu<F>,
) -> Result<(StepModel, u64, u64), ErrorModel> {
    match r {
        Ok((a, dw, dc)) => Ok((recovered(n, p, a.sol, it, mu, fpu), dw, dc)),
        Err(e) => Err(e),
    }
}

pub open spec fn aug_layout(n: int, p: PartitionModel) -> Layout {
    Layout::Augmented { n, n_c: p.n_c, n_d: p.n_d }
}

/// The returned system is the one that was factored.
pub open spec fn holds_factored(
    aug: AugKktSystem,
    n: int,
    p: PartitionModel,
    matrix: MatrixModel,
    dw: u64,
    dc: u64,
) -> bool {
    &&& aug.well_formed()
    &&& aug.n == n
    &&& aug.n_c == p.n_c
    &&& aug.n_d == p.n_d
    &&& aug.matrix.model() == matrix
    &&& aug.delta_x == dw
    &&& aug.delta_s == dw
    &&& aug.delta_c == dc
    &&& aug.delta_d == dc
}

/// The Newton step at an iterate: assembles and factors the augmented system,
/// solves it with refinement and recovers the steps of all unknowns. The result
/// holds the step, the two perturbations and the factored system.
pub fn aug_step_from_state<
    S: LinearSolver,
    F: Fn(FloatOp, u64, u64) -> u64,
    D: Fn(u64) -> String,
>(
    n: usize,
    grad_f: &[u64],
    hess_rows: &[usize],
    hess_cols: &[usize],
    hess_vals: &[u64],
    jac_rows: &[usize],
    jac_cols: &[usize],
    jac_vals: &[u64],
    x: &[u64],
    x_l: &[u64],
    x_u: &[u64],
    z_l: &[u64],
    z_u: &[u64],
    s: &[u64],
    g: &[u64],
    g_l: &[u64],
    g_u: &[u64],
    y: &[u64],
    v_l: &[u64],
    v_u: &[u64],
    mu: u64,
    kappa_d: u64,
    use_sparse: bool,
    solver: &mut S,
    perturbation: &mut InertiaCorrectionParams,
    fpu: &Fpu<F>,
    notation: &Notation<D>,
) -> (r: Result<(AugStep, u64, u64, AugKktSystem), SolverError>)
    requires
        fpu.sound(),
        notation.sound(),
        has_room(*old(perturbation)),
        is_ready(
            n as int,
            partition_of(g_l@, g_u@, *fpu),
            Iterate {
                grad_f: grad_f@,
                x: x@,
                x_l: x_l@,
                x_u: x_u@,
                z_l: z_l@,
                z_u: z_u@,
                s: s@,
                g: g@,
                g_l: g_l@,
                g_u: g_u@,
                y: y@,
                v_l: v_l@,
                v_u: v_u@,
            },
            Derivatives {
                hess_rows: hess_rows@,
                hess_cols: hess_cols@,
                hess_vals: hess_vals@,
                jac_rows: jac_rows@,
                jac_cols: jac_cols@,
                jac_vals: jac_vals@,
            },
            use_sparse,
        ),
    ensures
        old(solver).log().is_prefix_of(final(solver).log()),
        ({
            let p = partition_of(g_l@, g_u@, *fpu);
            let it = Iterate {
                grad_f: grad_f@,
                x: x@,
                x_l: x_l@,
                x_u: x_u@,
                z_l: z_l@,
                z_u: z_u@,
                s: s@,
                g: g@,
                g_l: g_l@,
                g_u: g_u@,
                y: y@,
                v_l: v_l@,
                v_u: v_u@,
            };
            let d = Derivatives {
                hess_rows: hess_rows@,
                hess_cols: hess_cols@,
                hess_vals: hess_vals@,
                jac_rows: jac_rows@,
                jac_cols: jac_cols@,
                jac_vals: jac_vals@,
            };
            let rhs = rhs_at(
                n as int,
                p,
                newton_residuals(
                    n as int,
                    p,
                    it,
                    jac_rows@,
                    jac_cols@,
                    jac_vals@,
                    mu,
                    kappa_d,
                    *fpu,
                ),
                it,
                *fpu,
            );
            exists|o: NewtonOutcome| #[trigger]
                newton_gives(
                    aug_layout(n as int, p),
                    newton_matrix(n as int, p, it, d, use_sparse, *fpu),
                    rhs,
                    *old(perturbation),
                    mu,
                    final(solver).log().skip(old(solver).log().len() as int),
                    o,
                    *fpu,
                    *notation,
                ) && step_model(r) == step_from(n as int, p, it, mu, o.result, *fpu)
                    && *final(perturbation) == o.params && (r matches Ok((_, dw, dc, aug))
                    ==> holds_factored(aug, n as int, p, o.matrix, dw, dc))
        }),
{
    let ghost it = Iterate {
        grad_f: grad_f@,
        x: x@,
        x_l: x_l@,
        x_u: x_u@,
        z_l: z_l@,
        z_u: z_u@,
        s: s@,
        g: g@,
        g_l: g_l@,
        g_u: g_u@,
        y: y@,
        v_l: v_l@,
        v_u: v_u@,
    };
    let partition: ConstraintPartition = ConstraintPartition::new(g_l, g_u, fpu);
    let mut aug: AugKktSystem = system_at(
        n,
        &partition,
        hess_rows,
        hess_cols,
        hess_vals,
        jac_rows,
        jac_cols,
        jac_vals,
        x,
        x_l,
        x_u,
        z_l,
        z_u,
        s,
        g_l,
        g_u,
        v_l,
        v_u,
        use_sparse,
        fpu,
        Ghost(it),
    );
    let rhs: Vec<u64> = rhs_of(
        n,
        &partition,
        jac_rows,
        jac_cols,
        jac_vals,
        grad_f,
        x,
        x_l,
        x_u,
        z_l,
        z_u,
        s,
        g,
        g_l,
        g_u,
        y,
        v_l,
        v_u,
        mu,
        kappa_d,
        None,
        fpu,
    );
    let solved: Result<(AugSolveResult, u64, u64), SolverError> = newton_solve(
        &mut aug,
        &rhs,
        mu,
        solver,
        perturbation,
        fpu,
        notation,
    );
    let ghost o = NewtonOutcome {
        result: newton_model(solved),
        matrix: aug.matrix.model(),
        params: *perturbation,
    };
    match solved {
        Err(e) => Err(e),
        Ok((a, dw, dc)) => {
            let step: AugStep = recover_step(
                n,
                &partition,
                &a.sol,
                x,
                x_l,
                x_u,
                z_l,
                z_u,
                s,
                g_l,
                g_u,
                v_l,
                v_u,
                mu,
                fpu,
            );
            proof {
                assert(step.model() == recovered(n as int, partition.model(), a.sol@, it, mu, *fpu));
            }
            Ok((step, dw, dc, aug))
        },
    }
}

/// The barrier parameter after an affine step, the present one where the step
/// suggests none.
pub open spec fn mu_after<F: Fn(FloatOp, u64, u64) -> u64>(
    n: int,
    p: PartitionModel,
    it: Iterate,
    step: StepModel,
    mu_curr: u64,
    sigma_max: u64,
    mu_min: u64,
    mu_max: u64,
    fpu: Fpu<F>,
) -> u64 {
    match probed_mu(
        n as nat,
        p.ineq_to_constraint,
        variables_of(it, step),
        slacks_of(it, step),
        mu_curr,
        sigma_max,
        mu_min,
        mu_max,
        fpu,
    ) {
        Some(mu) => mu,
        None => mu_curr,
    }
}

/// The result of the second solve, which the calls `ev` make, if they are
/// those of a refined solution.
pub open spec fn second_step<F: Fn(FloatOp, u64, u64) -> u64>(
    n: int,
    p: PartitionModel,
    it: Iterate,
    d: Derivatives,
    matrix: MatrixModel,
    mu: u64,
    kappa_d: u64,
    ev: Seq<SolverEvent>,
    fpu: Fpu<F>,
) -> Option<Result<StepModel, ErrorModel>> {
    let rhs = rhs_at(
        n,
        p,
        newton_residuals(n, p, it, d.jac_rows, d.jac_cols, d.jac_vals, mu, kappa_d, fpu),
        it,
        fpu,
    );
    match refine_run(default_task(matrix, rhs), ev, fpu).phase {
        RefinePhase::Done(Ok(a)) => Some(Ok(recovered(n, p, a.sol, it, mu, fpu))),
        RefinePhase::Done(Err(e)) => Some(Err(e)),
        _ => None,
    }
}

/// A step with its barrier parameter and perturbations, or the error, as a
/// mathematical value.
pub open spec fn probed_model(
    r: Result<(AugStep, u64, u64, u64, AugKktSystem), SolverError>,
) -> Result<(StepModel, u64, u64, u64), ErrorModel> {
    match r {
        Ok((step, mu, dw, dc, _)) => Ok((step.model(), mu, dw, dc)),
        Err(e) => Err(error_model(e)),
    }
}

/// The step at the barrier parameter that the affine step suggests, where `o`
/// is the outcome of the affine solve and `ev` are the calls after it.
pub open spec fn probed_step<F: Fn(FloatOp, u64, u64) -> u64>(
    n: int,
    p: PartitionModel,
    it: Iterate,
    d: Derivatives,
    mu_curr: u64,
    kappa_d: u64,
    sigma_max: u64,
    mu_min: u64,
    mu_max: u64,
    o: NewtonOutcome,
    ev: Seq<SolverEvent>,
    fpu: Fpu<F>,
) -> Option<Result<(StepModel, u64, u64, u64), ErrorModel>> {
    match o.result {
        Err(e) => if ev.len() == 0 {
            Some(Err(e))
        } else {
            None
        },
        Ok((a, dw, dc)) => {
            let affine = recovered(n, p, a.sol, it, ZERO, fpu);
            let mu = mu_after(n, p, it, affine, mu_curr, sigma_max, mu_min, mu_max, fpu);
            match second_step(n, p, it, d, o.matrix, mu, kappa_d, ev, fpu) {
                Some(Ok(step)) => Some(Ok((step, mu, dw, dc))),
                Some(Err(e)) => Some(Err(e)),
                None => None,
            }
        },
    }
}

/// The step at the barrier parameter that an affine step suggests. The two
/// solves share one factorization. The result holds the step, the parameter,
/// the two perturbations and the factored system.
#[verifier::rlimit(40)]
pub fn aug_step_from_state_mehrotra<
    S: LinearSolver,
    F: Fn(FloatOp, u64, u64) -> u64,
    D: Fn(u64) -> String,
>(
    n: usize,
    grad_f: &[u64],
    hess_rows: &[usize],
    hess_cols: &[usize],
    hess_vals: &[u64],
    jac_rows: &[usize],
    jac_cols: &[usize],
    jac_vals: &[u64],
    x: &[u64],
    x_l: &[u64],
    x_u: &[u64],
    z_l: &[u64],
    z_u: &[u64],
    s: &[u64],
    g: &[u64],
    g_l: &[u64],
    g_u: &[u64],
    y: &[u64],
    v_l: &[u64],
    v_u: &[u64],
    mu_curr: u64,
    kappa_d: u64,
    sigma_max: u64,
    mu_min: u64,
    mu_max: u64,
    use_sparse: bool,
    solver: &mut S,
    perturbation: &mut InertiaCorrectionParams,
    fpu: &Fpu<F>,
    notation: &Notation<D>,
) -> (r: Result<(AugStep, u64, u64, u64, AugKktSystem), SolverError>)
    requires
        fpu.sound(),
        notation.sound(),
        has_room(*old(perturbation)),
        2 * n + 2 * partition_of(g_l@, g_u@, *fpu).n_d <= u64::MAX,
        is_ready(
            n as int,
            partition_of(g_l@, g_u@, *fpu),
            Iterate {
                grad_f: grad_f@,
                x: x@,
                x_l: x_l@,
                x_u: x_u@,
                z_l: z_l@,
                z_u: z_u@,
                s: s@,
                g: g@,
                g_l: g_l@,
                g_u: g_u@,
                y: y@,
                v_l: v_l@,
                v_u: v_u@,
            },
            Derivatives {
                hess_rows: hess_rows@,
                hess_cols: hess_cols@,
                hess_vals: hess_vals@,
                jac_rows: jac_rows@,
                jac_cols: jac_cols@,
                jac_vals: jac_vals@,
            },
            use_sparse,
        ),
    ensures
        old(solver).log().is_prefix_of(final(solver).log()),
        ({
            let p = partition_of(g_l@, g_u@, *fpu);
            let it = Iterate {
                grad_f: grad_f@,
                x: x@,
                x_l: x_l@,
                x_u: x_u@,
                z_l: z_l@,
                z_u: z_u@,
                s: s@,
                g: g@,
                g_l: g_l@,
                g_u: g_u@,
                y: y@,
                v_l: v_l@,
                v_u: v_u@,
            };
            let d = Derivatives {
                hess_rows: hess_rows@,
                hess_cols: hess_cols@,
                hess_vals: hess_vals@,
                jac_rows: jac_rows@,
                jac_cols: jac_cols@,
                jac_vals: jac_vals@,
            };
            let rhs = rhs_at(
                n as int,
                p,
                newton_residuals(
                    n as int,
                    p,
                    it,
                    jac_rows@,
                    jac_cols@,
                    jac_vals@,
                    ZERO,
                    ZERO,
                    *fpu,
                ),
                it,
                *fpu,
            );
            let ev = final(solver).log().skip(old(solver).log().len() as int);
            exists|o: NewtonOutcome, j: int|
                0 <= j <= ev.len() && #[trigger] newton_gives(
                    aug_layout(n as int, p),
                    newton_matrix(n as int, p, it, d, use_sparse, *fpu),
                    rhs,
                    *old(perturbation),
                    mu_curr,
                    ev.take(j),
                    o,
                    *fpu,
                    *notation,
                ) && probed_step(
                    n as int,
                    p,
                    it,
                    d,
                    mu_curr,
                    kappa_d,
                    sigma_max,
                    mu_min,
                    mu_max,
                    o,
                    ev.skip(j),
                    *fpu,
                ) == Some(probed_model(r)) && *final(perturbation) == o.params && (r matches Ok(
                    (_, _, dw, dc, aug),
                ) ==> holds_factored(aug, n as int, p, o.matrix, dw, dc))
        }),
{
    let ghost it = Iterate {
        grad_f: grad_f@,
        x: x@,
        x_l: x_l@,
        x_u: x_u@,
        z_l: z_l@,
        z_u: z_u@,
        s: s@,
        g: g@,
        g_l: g_l@,
        g_u: g_u@,
        y: y@,
        v_l: v_l@,
        v_u: v_u@,
    };
    let ghost d = Derivatives {
        hess_rows: hess_rows@,
        hess_cols: hess_cols@,
        hess_vals: hess_vals@,
        jac_rows: jac_rows@,
        jac_cols: jac_cols@,
        jac_vals: jac_vals@,
    };
    let ghost was = solver.log();
    let partition: ConstraintPartition = ConstraintPartition::new(g_l, g_u, fpu);
    let ghost p = partition.model();
    let mut aug: AugKktSystem = system_at(
        n,
        &partition,
        hess_rows,
        hess_cols,
        hess_vals,
        jac_rows,
        jac_cols,
        jac_vals,
        x,
        x_l,
        x_u,
        z_l,
        z_u,
        s,
        g_l,
        g_u,
        v_l,
        v_u,
        use_sparse,
        fpu,
        Ghost(it),
    );
    let rhs_aff: Vec<u64> = rhs_of(
        n,
        &partition,
        jac_rows,
        jac_cols,
        jac_vals,
        grad_f,
        x,
        x_l,
        x_u,
        z_l,
        z_u,
        s,
        g,
        g_l,
        g_u,
        y,
        v_l,
        v_u,
        ZERO,
        ZERO,
        None,
        fpu,
    );
    let affine: Result<(AugSolveResult, u64, u64), SolverError> = newton_solve(
        &mut aug,
        &rhs_aff,
        mu_curr,
        solver,
        perturbation,
        fpu,
        notation,
    );
    let ghost mid = solver.log();
    let ghost j = (mid.len() - was.len()) as int;
    let ghost o = NewtonOutcome {
        result: newton_model(affine),
        matrix: aug.matrix.model(),
        params: *perturbation,
    };
    let (a, dw, dc): (AugSolveResult, u64, u64) = match affine {
        Err(e) => {
            proof {
                let ev = mid.skip(was.len() as int);
                assert(ev.take(j) =~= ev);
                assert(ev.skip(j) =~= Seq::empty());
            }
            return Err(e);
        },
        Ok(t) => t,
    };
    let step_aff: AugStep = recover_step(
        n,
        &partition,
        &a.sol,
        x,
        x_l,
        x_u,
        z_l,
        z_u,
        s,
        g_l,
        g_u,
        v_l,
        v_u,
        ZERO,
        fpu,
    );
    assert(step_aff.model() == recovered(n as int, p, a.sol@, it, ZERO, *fpu));
    let mu_new: u64 = match aug_probing_mu_from_affine(
        n,
        &partition,
        &step_aff,
        x,
        x_l,
        x_u,
        z_l,
        z_u,
        s,
        g_l,
        g_u,
        v_l,
        v_u,
        mu_curr,
        sigma_max,
        mu_min,
        mu_max,
        fpu,
    ) {
        Some(mu) => mu,
        None => mu_curr,
    };
    assert(mu_new == mu_after(
        n as int,
        p,
        it,
        step_aff.model(),
        mu_curr,
        sigma_max,
        mu_min,
        mu_max,
        *fpu,
    ));
    let rhs: Vec<u64> = rhs_of(
        n,
        &partition,
        jac_rows,
        jac_cols,
        jac_vals,
        grad_f,
        x,
        x_l,
        x_u,
        z_l,
        z_u,
        s,
        g,
        g_l,
        g_u,
        y,
        v_l,
        v_u,
        mu_new,
        kappa_d,
        None,
        fpu,
    );
    let solved: Result<AugSolveResult, SolverError> = solve_aug_with_ir(
        solver,
        &aug,
        &rhs,
        IR_MIN_STEPS_DEFAULT,
        IR_MAX_STEPS_DEFAULT,
        IR_RATIO_MAX_DEFAULT,
        IR_IMPROVEMENT_FACTOR_DEFAULT,
        fpu,
    );
    proof {
        let ev = solver.log().skip(was.len() as int);
        assert(ev.take(j) =~= mid.skip(was.len() as int));
        assert(ev.skip(j) =~= solver.log().skip(mid.len() as int));
    }
    let b: AugSolveResult = match solved {
        Err(e) => {
            return Err(e);
        },
        Ok(b) => b,
    };
    let step: AugStep = recover_step(
        n,
        &partition,
        &b.sol,
        x,
        x_l,
        x_u,
        z_l,
        z_u,
        s,
        g_l,
        g_u,
        v_l,
        v_u,
        mu_new,
        fpu,
    );
    assert(step.model() == recovered(n as int, p, b.sol@, it, mu_new, *fpu));
    Ok((step, mu_new, dw, dc, aug))
}

/// The steps of variables and slacks in a solution, if it is finite.
pub open spec fn soc_steps(n: int, n_d: int, sol: Seq<u64>) -> Option<(Seq<u64>, Seq<u64>)> {
    if all_finite(sol) {
        Some((sol.subrange(0, n), sol.subrange(n, n + n_d)))
    } else {
        None
    }
}

pub open spec fn pair_model(r: Option<(Vec<u64>, Vec<u64>)>) -> Option<(Seq<u64>, Seq<u64>)> {
    match r {
        Some((a, b)) => Some((a@, b@)),
        None => None,
    }
}

fn steps_in(n: usize, n_d: usize, sol: &Vec<u64>) -> (r: Option<(Vec<u64>, Vec<u64>)>)
    requires
        n + n_d <= sol@.len(),
    ensures
        pair_model(r) == soc_steps(n as int, n_d as int, sol@),
{
    if !is_all_finite(sol) {
        return None;
    }
    let total: usize = sol.len();
    Some((part(sol, 0, n), part(sol, n, n + n_d)))
}

/// The second-order correction: the Newton step with `c_soc` and `dms_soc` in
/// place of the residuals of equations and inequalities. Assembles and factors
/// the system. The result holds the steps of variables and slacks; it is `None`
/// where the lists have wrong lengths, the solver fails, or the solution is not
/// finite.
pub fn aug_soc_solve_dx<
    S: LinearSolver,
    F: Fn(FloatOp, u64, u64) -> u64,
    D: Fn(u64) -> String,
>(
    n: usize,
    grad_f: &[u64],
    hess_rows: &[usize],
    hess_cols: &[usize],
    hess_vals: &[u64],
    jac_rows: &[usize],
    jac_cols: &[usize],
    jac_vals: &[u64],
    x: &[u64],
    x_l: &[u64],
    x_u: &[u64],
    z_l: &[u64],
    z_u: &[u64],
    s: &[u64],
    g: &[u64],
    g_l: &[u64],
    g_u: &[u64],
    y: &[u64],
    v_l: &[u64],
    v_u: &[u64],
    mu: u64,
    kappa_d: u64,
    use_sparse: bool,
    solver: &mut S,
    perturbation: &mut InertiaCorrectionParams,
    c_soc: &Vec<u64>,
    dms_soc: &Vec<u64>,
    fpu: &Fpu<F>,
    notation: &Notation<D>,
) -> (r: Option<(Vec<u64>, Vec<u64>)>)
    requires
        fpu.sound(),
        notation.sound(),
        has_room(*old(perturbation)),
        is_ready(
            n as int,
            partition_of(g_l@, g_u@, *fpu),
            Iterate {
                grad_f: grad_f@,
                x: x@,
                x_l: x_l@,
                x_u: x_u@,
                z_l: z_l@,
                z_u: z_u@,
                s: s@,
                g: g@,
                g_l: g_l@,
                g_u: g_u@,
                y: y@,
                v_l: v_l@,
                v_u: v_u@,
            },
            Derivatives {
                hess_rows: hess_rows@,
                hess_cols: hess_cols@,
                hess_vals: hess_vals@,
                jac_rows: jac_rows@,
                jac_cols: jac_cols@,
                jac_vals: jac_vals@,
            },
            use_sparse,
        ),
    ensures
        old(solver).log().is_prefix_of(final(solver).log()),
        ({
            let p = partition_of(g_l@, g_u@, *fpu);
            let it = Iterate {
                grad_f: grad_f@,
                x: x@,
                x_l: x_l@,
                x_u: x_u@,
                z_l: z_l@,
                z_u: z_u@,
                s: s@,
                g: g@,
                g_l: g_l@,
                g_u: g_u@,
                y: y@,
                v_l: v_l@,
                v_u: v_u@,
            };
            let d = Derivatives {
                hess_rows: hess_rows@,
                hess_cols: hess_cols@,
                hess_vals: hess_vals@,
                jac_rows: jac_rows@,
                jac_cols: jac_cols@,
                jac_vals: jac_vals@,
            };
            let rhs = rhs_at(
                n as int,
                p,
                OuterModel {
                    y_c: c_soc@,
                    y_d: dms_soc@,
                    ..newton_residuals(
                    n as int,
                    p,
                    it,
                    jac_rows@,
                    jac_cols@,
                    jac_vals@,
                    mu,
                    kappa_d,
                    *fpu,
                )
                },
                it,
                *fpu,
            );
            if c_soc@.len() != p.n_c || dms_soc@.len() != p.n_d {
                r is None && final(solver).log() == old(solver).log() && *final(perturbation)
                    == *old(perturbation)
            } else {
                exists|o: NewtonOutcome| #[trigger]
                    newton_gives(
                        aug_layout(n as int, p),
                        newton_matrix(n as int, p, it, d, use_sparse, *fpu),
                        rhs,
                        *old(perturbation),
                        mu,
                        final(solver).log().skip(old(solver).log().len() as int),
                        o,
                        *fpu,
                        *notation,
                    ) && *final(perturbation) == o.params && pair_model(r) == (match o.result {
                        Ok((a, _, _)) => soc_steps(n as int, p.n_d, a.sol),
                        Err(_) => None,
                    })
            }
        }),
{
    let ghost it = Iterate {
        grad_f: grad_f@,
        x: x@,
        x_l: x_l@,
        x_u: x_u@,
        z_l: z_l@,
        z_u: z_u@,
        s: s@,
        g: g@,
        g_l: g_l@,
        g_u: g_u@,
        y: y@,
        v_l: v_l@,
        v_u: v_u@,
    };
    let partition: ConstraintPartition = ConstraintPartition::new(g_l, g_u, fpu);
    if c_soc.len() != partition.n_c || dms_soc.len() != partition.n_d {
        return None;
    }
    let mut aug: AugKktSystem = system_at(
        n,
        &partition,
        hess_rows,
        hess_cols,
        hess_vals,
        jac_rows,
        jac_cols,
        jac_vals,
        x,
        x_l,
        x_u,
        z_l,
        z_u,
        s,
        g_l,
        g_u,
        v_l,
        v_u,
        use_sparse,
        fpu,
        Ghost(it),
    );
    let rhs: Vec<u64> = rhs_of(
        n,
        &partition,
        jac_rows,
        jac_cols,
        jac_vals,
        grad_f,
        x,
        x_l,
        x_u,
        z_l,
        z_u,
        s,
        g,
        g_l,
        g_u,
        y,
        v_l,
        v_u,
        mu,
        kappa_d,
        Some((c_soc, dms_soc)),
        fpu,
    );
    let solved: Result<(AugSolveResult, u64, u64), SolverError> = newton_solve(
        &mut aug,
        &rhs,
        mu,
        solver,
        perturbation,
        fpu,
        notation,
    );
    let ghost o = NewtonOutcome {
        result: newton_model(solved),
        matrix: aug.matrix.model(),
        params: *perturbation,
    };
    match solved {
        Err(_) => None,
        Ok((a, _, _)) => steps_in(n, partition.n_d, &a.sol),
    }
}

/// The second-order correction with the factors that the solver holds of the
/// given system.
pub fn aug_soc_solve_dx_factored<S: LinearSolver, F: Fn(FloatOp, u64, u64) -> u64>(
    n: usize,
    grad_f: &[u64],
    jac_rows: &[usize],
    jac_cols: &[usize],
    jac_vals: &[u64],
    x: &[u64],
    x_l: &[u64],
    x_u: &[u64],
    z_l: &[u64],
    z_u: &[u64],
    s: &[u64],
    g: &[u64],
    g_l: &[u64],
    g_u: &[u64],
    y: &[u64],
    v_l: &[u64],
    v_u: &[u64],
    mu: u64,
    kappa_d: u64,
    solver: &mut S,
    aug: &AugKktSystem,
    c_soc: &Vec<u64>,
    dms_soc: &Vec<u64>,
    fpu: &Fpu<F>,
) -> (r: Option<(Vec<u64>, Vec<u64>)>)
    requires
        fpu.sound(),
        aug.well_formed(),
        aug.dim == aug_dim(n as int, partition_of(g_l@, g_u@, *fpu)),
        jacobian_lists(jac_rows@, jac_cols@, jac_vals@),
        (Iterate {
            grad_f: grad_f@,
            x: x@,
            x_l: x_l@,
            x_u: x_u@,
            z_l: z_l@,
            z_u: z_u@,
            s: s@,
            g: g@,
            g_l: g_l@,
            g_u: g_u@,
            y: y@,
            v_l: v_l@,
            v_u: v_u@,
        }).covers(n as int, g@.len() as int),
    ensures
        old(solver).log().is_prefix_of(final(solver).log()),
        ({
            let p = partition_of(g_l@, g_u@, *fpu);
            let it = Iterate {
                grad_f: grad_f@,
                x: x@,
                x_l: x_l@,
                x_u: x_u@,
                z_l: z_l@,
                z_u: z_u@,
                s: s@,
                g: g@,
                g_l: g_l@,
                g_u: g_u@,
                y: y@,
                v_l: v_l@,
                v_u: v_u@,
            };
            let rhs = rhs_at(
                n as int,
                p,
                OuterModel {
                    y_c: c_soc@,
                    y_d: dms_soc@,
                    ..newton_residuals(
                    n as int,
                    p,
                    it,
                    jac_rows@,
                    jac_cols@,
                    jac_vals@,
                    mu,
                    kappa_d,
                    *fpu,
                )
                },
                it,
                *fpu,
            );
            let end = refine_run(
                default_task(aug.matrix.model(), rhs),
                final(solver).log().skip(old(solver).log().len() as int),
                *fpu,
            );
            if c_soc@.len() != p.n_c || dms_soc@.len() != p.n_d {
                r is None && final(solver).log() == old(solver).log()
            } else {
                match end.phase {
                    RefinePhase::Done(Ok(a)) => pair_model(r) == soc_steps(n as int, p.n_d, a.sol),
                    RefinePhase::Done(Err(_)) => r is None,
                    _ => false,
                }
            }
        }),
{
    let partition: ConstraintPartition = ConstraintPartition::new(g_l, g_u, fpu);
    if c_soc.len() != partition.n_c || dms_soc.len() != partition.n_d {
        return None;
    }
    let rhs: Vec<u64> = rhs_of(
        n,
        &partition,
        jac_rows,
        jac_cols,
        jac_vals,
        grad_f,
        x,
        x_l,
        x_u,
        z_l,
        z_u,
        s,
        g,
        g_l,
        g_u,
        y,
        v_l,
        v_u,
        mu,
        kappa_d,
        Some((c_soc, dms_soc)),
        fpu,
    );
    let solved: Result<AugSolveResult, SolverError> = solve_aug_with_ir(
        solver,
        aug,
        &rhs,
        IR_MIN_STEPS_DEFAULT,
        IR_MAX_STEPS_DEFAULT,
        IR_RATIO_MAX_DEFAULT,
        IR_IMPROVEMENT_FACTOR_DEFAULT,
        fpu,
    );
    match solved {
        Err(_) => None,
        Ok(a) => steps_in(n, partition.n_d, &a.sol),
    }
}

} // verus!
