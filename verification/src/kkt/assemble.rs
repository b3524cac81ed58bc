//! Assembly and scaling of the KKT system.

use crate::float::{
    finite, is_finite, le, lt, neg, negated, num_le, num_lt, FloatOp, Fpu, MINUS_TEN_M8, ONE,
    TEN_M10, TEN_M20, TEN_M30, TEN_P10, TEN_P20, ZERO,
};
use crate::kkt::barrier::{pair_count, paired, zeros};
use crate::kkt::layout::ConstraintLayout;
use crate::linear_solver::model::{table, MatrixModel};
use crate::linear_solver::sparse_matrix::diagonal;
use crate::linear_solver::KktMatrix;
use vstd::prelude::*;

verus! {

/// Version counters of the inputs of a KKT matrix. A counter moves on whenever
/// its input changes.
#[derive(Debug, Clone, Copy, PartialEq, Eq, Structural)]
pub struct KktInputAtags {
    /// Hessian.
    pub w: u64,
    /// Jacobian of the equations.
    pub j_c: u64,
    /// Jacobian of the inequalities.
    pub j_d: u64,
    pub z_l: u64,
    pub z_u: u64,
    pub v_l: u64,
    pub v_u: u64,
    /// Distances of the variables to their bounds.
    pub slacks_x: u64,
    /// Distances of the slacks to their bounds.
    pub slacks_s: u64,
    /// Barrier diagonal of the variables.
    pub sigma_x: u64,
    /// Barrier diagonal of the slacks.
    pub sigma_s: u64,
}

impl Default for KktInputAtags {
    fn default() -> (t: Self)
        ensures
            t == (KktInputAtags {
                w: 0,
                j_c: 0,
                j_d: 0,
                z_l: 0,
                z_u: 0,
                v_l: 0,
                v_u: 0,
                slacks_x: 0,
                slacks_s: 0,
                sigma_x: 0,
                sigma_s: 0,
            }),
    {
        KktInputAtags {
            w: 0,
            j_c: 0,
            j_d: 0,
            z_l: 0,
            z_u: 0,
            v_l: 0,
            v_u: 0,
            slacks_x: 0,
            slacks_s: 0,
            sigma_x: 0,
            sigma_s: 0,
        }
    }
}

/// An assembled KKT system.
#[derive(Debug)]
pub struct KktSystem {
    /// Dimension `n + m`.
    pub dim: usize,
    /// Number of variables.
    pub n: usize,
    /// Number of constraints.
    pub m: usize,
    pub matrix: KktMatrix,
    /// Right-hand side.
    pub rhs: Vec<u64>,
    /// What assembly subtracted from the diagonal of each constraint.
    pub delta_c_diag: Vec<u64>,
    /// Scaling factors, where the system is equilibrated: the factored matrix
    /// is `D A D`, and a solution is multiplied by them.
    pub scale_factors: Option<Vec<u64>>,
    /// Versions of the inputs at assembly, where they are tracked.
    pub input_atags: Option<KktInputAtags>,
}

pub open spec fn option_view(v: Option<Vec<u64>>) -> Option<Seq<u64>> {
    match v {
        Some(v) => Some(v@),
        None => None,
    }
}

impl KktSystem {
    pub open spec fn well_formed(&self) -> bool {
        &&& self.dim == self.n + self.m
        &&& self.matrix.well_formed()
        &&& self.matrix.dim() == self.dim
        &&& self.rhs@.len() == self.dim
        &&& self.delta_c_diag@.len() == self.m
        &&& option_view(self.scale_factors) matches Some(s) ==> s.len() == self.dim
    }
}

/// The matrix with the first `k` entries of a triplet list added.
pub open spec fn triplets_added<F: Fn(FloatOp, u64, u64) -> u64>(
    m: MatrixModel,
    rows: Seq<usize>,
    cols: Seq<usize>,
    vals: Seq<u64>,
    k: nat,
    fpu: Fpu<F>,
) -> MatrixModel
    decreases k,
{
    if k == 0 {
        m
    } else {
        triplets_added(m, rows, cols, vals, (k - 1) as nat, fpu).added(
            rows[k - 1] as int,
            cols[k - 1] as int,
            vals[k - 1],
            fpu,
        )
    }
}

/// The matrix with the first `k` values added to the diagonal from `offset` on.
pub open spec fn values_on_diagonal<F: Fn(FloatOp, u64, u64) -> u64>(
    m: MatrixModel,
    offset: int,
    vals: Seq<u64>,
    k: nat,
    fpu: Fpu<F>,
) -> MatrixModel
    decreases k,
{
    if k == 0 {
        m
    } else {
        values_on_diagonal(m, offset, vals, (k - 1) as nat, fpu).added(
            offset + k - 1,
            offset + k - 1,
            vals[k - 1],
            fpu,
        )
    }
}

/// The matrix with the first `k` Jacobian entries added. Row `r` of the block
/// stands in row `n + map[r]`.
pub open spec fn block_added<F: Fn(FloatOp, u64, u64) -> u64>(
    m: MatrixModel,
    n: int,
    map: Seq<usize>,
    rows: Seq<usize>,
    cols: Seq<usize>,
    vals: Seq<u64>,
    k: nat,
    fpu: Fpu<F>,
) -> MatrixModel
    decreases k,
{
    if k == 0 {
        m
    } else {
        block_added(m, n, map, rows, cols, vals, (k - 1) as nat, fpu).added(
            n + map[rows[k - 1] as int],
            cols[k - 1] as int,
            vals[k - 1],
            fpu,
        )
    }
}

/// Adds the entries of a triplet list.
pub fn add_triplets<F: Fn(FloatOp, u64, u64) -> u64>(
    matrix: &mut KktMatrix,
    rows: &[usize],
    cols: &[usize],
    vals: &[u64],
    fpu: &Fpu<F>,
)
    requires
        fpu.sound(),
        old(matrix).well_formed(),
        vals@.len() >= paired(rows@, cols@),
        forall|k: int|
            0 <= k < paired(rows@, cols@) ==> (#[trigger] rows@[k]) < old(matrix).dim() && cols@[k]
                < old(matrix).dim(),
    ensures
        final(matrix).well_formed(),
        final(matrix).dim() == old(matrix).dim(),
        final(matrix).model() == triplets_added(
            old(matrix).model(),
            rows@,
            cols@,
            vals@,
            paired(rows@, cols@),
            *fpu,
        ),
{
    let ghost start = *matrix;
    let dim: usize = matrix.n();
    let count: usize = pair_count(rows, cols);
    for k in 0..count
        invariant
            fpu.sound(),
            matrix.well_formed(),
            matrix.dim() == dim,
            dim == start.dim(),
            count == paired(rows@, cols@),
            vals@.len() >= count,
            forall|k: int| 0 <= k < count ==> (#[trigger] rows@[k]) < dim && cols@[k] < dim,
            matrix.model() == triplets_added(start.model(), rows@, cols@, vals@, k as nat, *fpu),
    {
        assert(rows@[k as int] < dim);
        matrix.add(rows[k], cols[k], vals[k], fpu);
    }
}

/// Adds values to the diagonal from `offset` on.
pub fn add_to_diagonal<F: Fn(FloatOp, u64, u64) -> u64>(
    matrix: &mut KktMatrix,
    offset: usize,
    vals: &[u64],
    count: usize,
    fpu: &Fpu<F>,
)
    requires
        fpu.sound(),
        old(matrix).well_formed(),
        vals@.len() >= count,
        offset + count <= old(matrix).dim(),
    ensures
        final(matrix).well_formed(),
        final(matrix).dim() == old(matrix).dim(),
        final(matrix).model() == values_on_diagonal(
            old(matrix).model(),
            offset as int,
            vals@,
            count as nat,
            *fpu,
        ),
{
    let ghost start = *matrix;
    let dim: usize = matrix.n();
    for k in 0..count
        invariant
            fpu.sound(),
            matrix.well_formed(),
            matrix.dim() == start.dim(),
            dim == start.dim(),
            vals@.len() >= count,
            offset + count <= dim,
            matrix.model() == values_on_diagonal(
                start.model(),
                offset as int,
                vals@,
                k as nat,
                *fpu,
            ),
    {
        matrix.add(offset + k, offset + k, vals[k], fpu);
    }
}

/// Adds a Jacobian block below the first `n` rows.
fn add_block<F: Fn(FloatOp, u64, u64) -> u64>(
    matrix: &mut KktMatrix,
    n: usize,
    map: &Vec<usize>,
    rows: &[usize],
    cols: &[usize],
    vals: &[u64],
    fpu: &Fpu<F>,
)
    requires
        fpu.sound(),
        old(matrix).well_formed(),
        vals@.len() >= paired(rows@, cols@),
        forall|k: int|
            0 <= k < paired(rows@, cols@) ==> (#[trigger] rows@[k]) < map@.len() && n
                + map@[rows@[k] as int] < old(matrix).dim() && cols@[k] < old(matrix).dim(),
    ensures
        final(matrix).well_formed(),
        final(matrix).dim() == old(matrix).dim(),
        final(matrix).model() == block_added(
            old(matrix).model(),
            n as int,
            map@,
            rows@,
            cols@,
            vals@,
            paired(rows@, cols@),
            *fpu,
        ),
{
    let ghost start = *matrix;
    let dim: usize = matrix.n();
    let count: usize = pair_count(rows, cols);
    for k in 0..count
        invariant
            fpu.sound(),
            matrix.well_formed(),
            matrix.dim() == start.dim(),
            dim == start.dim(),
            count == paired(rows@, cols@),
            vals@.len() >= count,
            forall|k: int|
                0 <= k < count ==> (#[trigger] rows@[k]) < map@.len() && n + map@[rows@[k] as int]
                    < dim && cols@[k] < dim,
            matrix.model() == block_added(
                start.model(),
                n as int,
                map@,
                rows@,
                cols@,
                vals@,
                k as nat,
                *fpu,
            ),
    {
        assert(rows@[k as int] < map@.len());
        matrix.add(n + map[rows[k]], cols[k], vals[k], fpu);
    }
}

/// The right-hand side of one variable before the constraint multipliers:
/// minus the gradient, the centering terms of the finite bounds, and damping
/// for a variable with one bound.
pub open spec fn dual_entry<F: Fn(FloatOp, u64, u64) -> u64>(
    grad: u64,
    x: u64,
    x_l: u64,
    x_u: u64,
    mu: u64,
    kappa_d: u64,
    fpu: Fpu<F>,
) -> u64 {
    let a = negated(grad);
    let b = if finite(x_l) {
        fpu.sum(a, fpu.quotient(mu, fpu.difference(x, x_l)))
    } else {
        a
    };
    let c = if finite(x_u) {
        fpu.difference(b, fpu.quotient(mu, fpu.difference(x_u, x)))
    } else {
        b
    };
    if num_lt(ZERO, kappa_d) && finite(x_l) != finite(x_u) {
        if finite(x_l) {
            fpu.difference(c, fpu.product(kappa_d, mu))
        } else {
            fpu.sum(c, fpu.product(kappa_d, mu))
        }
    } else {
        c
    }
}

fn dual_rhs<F: Fn(FloatOp, u64, u64) -> u64>(
    grad: u64,
    x: u64,
    x_l: u64,
    x_u: u64,
    mu: u64,
    kappa_d: u64,
    fpu: &Fpu<F>,
) -> (r: u64)
    requires
        fpu.sound(),
    ensures
        r == dual_entry(grad, x, x_l, x_u, mu, kappa_d, *fpu),
{
    let mut rd: u64 = neg(grad);
    let l_fin: bool = is_finite(x_l);
    let u_fin: bool = is_finite(x_u);
    if l_fin {
        rd = fpu.add(rd, fpu.div(mu, fpu.sub(x, x_l)));
    }
    if u_fin {
        rd = fpu.sub(rd, fpu.div(mu, fpu.sub(x_u, x)));
    }
    if lt(ZERO, kappa_d) && l_fin != u_fin {
        let damping: u64 = fpu.mul(kappa_d, mu);
        rd = if l_fin {
            fpu.sub(rd, damping)
        } else {
            fpu.add(rd, damping)
        };
    }
    rd
}

/// The right-hand side with the products of the first `k` Jacobian entries and
/// their multipliers subtracted, each at its column.
pub open spec fn transposed_subtracted<F: Fn(FloatOp, u64, u64) -> u64>(
    rhs: Seq<u64>,
    rows: Seq<usize>,
    cols: Seq<usize>,
    vals: Seq<u64>,
    y: Seq<u64>,
    k: nat,
    fpu: Fpu<F>,
) -> Seq<u64>
    decreases k,
{
    if k == 0 {
        rhs
    } else {
        let before = transposed_subtracted(rhs, rows, cols, vals, y, (k - 1) as nat, fpu);
        let c = cols[k - 1] as int;
        before.update(
            c,
            fpu.difference(before[c], fpu.product(vals[k - 1], y[rows[k - 1] as int])),
        )
    }
}

fn subtract_transposed<F: Fn(FloatOp, u64, u64) -> u64>(
    rhs: &mut Vec<u64>,
    rows: &[usize],
    cols: &[usize],
    vals: &[u64],
    y: &[u64],
    fpu: &Fpu<F>,
)
    requires
        fpu.sound(),
        vals@.len() >= paired(rows@, cols@),
        forall|k: int|
            0 <= k < paired(rows@, cols@) ==> (#[trigger] rows@[k]) < y@.len() && cols@[k]
                < old(rhs)@.len(),
    ensures
        final(rhs)@ == transposed_subtracted(
            old(rhs)@,
            rows@,
            cols@,
            vals@,
            y@,
            paired(rows@, cols@),
            *fpu,
        ),
        final(rhs)@.len() == old(rhs)@.len(),
{
    let ghost start = rhs@;
    let count: usize = pair_count(rows, cols);
    for k in 0..count
        invariant
            fpu.sound(),
            count == paired(rows@, cols@),
            vals@.len() >= count,
            rhs@.len() == start.len(),
            forall|k: int|
                0 <= k < count ==> (#[trigger] rows@[k]) < y@.len() && cols@[k] < start.len(),
            rhs@ == transposed_subtracted(start, rows@, cols@, vals@, y@, k as nat, *fpu),
    {
        assert(rows@[k as int] < y@.len());
        let c: usize = cols[k];
        rhs.set(c, fpu.sub(rhs[c], fpu.mul(vals[k], y[rows[k]])));
    }
}

/// What the bounds of an inequality contribute: to the barrier diagonal, to the
/// correction of the right-hand side, whether some bound holds, and the
/// violation of those that do not.
pub struct SlackTerms {
    pub sigma: u64,
    pub correction: u64,
    pub feasible: bool,
    pub violation: u64,
}

/// The terms with a bound at distance `slack` added. A multiplier is held
/// within a factor of `1e10` of the barrier parameter over the slack.
pub open spec fn with_bound<F: Fn(FloatOp, u64, u64) -> u64>(
    t: SlackTerms,
    slack: u64,
    gap: u64,
    v: u64,
    mu: u64,
    upper: bool,
    fpu: Fpu<F>,
) -> SlackTerms {
    if num_le(MINUS_TEN_M8, slack) {
        let safe = fpu.calc(FloatOp::Max, slack, fpu.calc(FloatOp::Max, mu, TEN_M10));
        let ratio = fpu.quotient(mu, safe);
        let z = fpu.calc(
            FloatOp::Min,
            fpu.calc(FloatOp::Max, v, fpu.quotient(ratio, TEN_P10)),
            fpu.product(TEN_P10, ratio),
        );
        SlackTerms {
            sigma: fpu.sum(t.sigma, fpu.quotient(z, safe)),
            correction: if upper {
                fpu.difference(t.correction, fpu.quotient(mu, safe))
            } else {
                fpu.sum(t.correction, fpu.quotient(mu, safe))
            },
            feasible: true,
            violation: t.violation,
        }
    } else {
        SlackTerms { violation: fpu.sum(t.violation, negated(gap)), ..t }
    }
}

fn add_bound<F: Fn(FloatOp, u64, u64) -> u64>(
    t: SlackTerms,
    slack: u64,
    gap: u64,
    v: u64,
    mu: u64,
    upper: bool,
    fpu: &Fpu<F>,
) -> (r: SlackTerms)
    requires
        fpu.sound(),
    ensures
        r == with_bound(t, slack, gap, v, mu, upper, *fpu),
{
    if le(MINUS_TEN_M8, slack) {
        let safe: u64 = fpu.max(slack, fpu.max(mu, TEN_M10));
        let ratio: u64 = fpu.div(mu, safe);
        let z: u64 = fpu.min(fpu.max(v, fpu.div(ratio, TEN_P10)), fpu.mul(TEN_P10, ratio));
        let centering: u64 = fpu.div(mu, safe);
        SlackTerms {
            sigma: fpu.add(t.sigma, fpu.div(z, safe)),
            correction: if upper {
                fpu.sub(t.correction, centering)
            } else {
                fpu.add(t.correction, centering)
            },
            feasible: true,
            violation: t.violation,
        }
    } else {
        SlackTerms { violation: fpu.add(t.violation, neg(gap)), ..t }
    }
}

/// The terms of both bounds of an inequality.
pub open spec fn slack_terms<F: Fn(FloatOp, u64, u64) -> u64>(
    d_x: u64,
    d_l: u64,
    d_u: u64,
    s: u64,
    y: u64,
    v_l: u64,
    v_u: u64,
    mu: u64,
    fpu: Fpu<F>,
) -> SlackTerms {
    let none = SlackTerms { sigma: ZERO, correction: y, feasible: false, violation: ZERO };
    let lower = if finite(d_l) {
        with_bound(none, fpu.difference(s, d_l), fpu.difference(d_x, d_l), v_l, mu, false, fpu)
    } else {
        none
    };
    if finite(d_u) {
        with_bound(lower, fpu.difference(d_u, s), fpu.difference(d_x, d_u), v_u, mu, true, fpu)
    } else {
        lower
    }
}

/// What an inequality adds to its diagonal, if anything, and its right-hand
/// side.
pub open spec fn slack_row<F: Fn(FloatOp, u64, u64) -> u64>(
    d_x: u64,
    s: u64,
    t: SlackTerms,
    fpu: Fpu<F>,
) -> (Option<u64>, u64) {
    if t.feasible && num_lt(TEN_M20, t.sigma) {
        let inverse = fpu.calc(FloatOp::Min, fpu.quotient(ONE, t.sigma), TEN_P20);
        (
            Some(negated(inverse)),
            fpu.sum(
                fpu.sum(
                    negated(fpu.difference(d_x, s)),
                    fpu.product(inverse, t.correction),
                ),
                t.violation,
            ),
        )
    } else {
        (None, t.violation)
    }
}

fn slack_row_of<F: Fn(FloatOp, u64, u64) -> u64>(
    d_x: u64,
    d_l: u64,
    d_u: u64,
    s: u64,
    y: u64,
    v_l: u64,
    v_u: u64,
    mu: u64,
    fpu: &Fpu<F>,
) -> (r: (Option<u64>, u64))
    requires
        fpu.sound(),
    ensures
        r == slack_row(d_x, s, slack_terms(d_x, d_l, d_u, s, y, v_l, v_u, mu, *fpu), *fpu),
{
    let mut t: SlackTerms = SlackTerms {
        sigma: ZERO,
        correction: y,
        feasible: false,
        violation: ZERO,
    };
    if is_finite(d_l) {
        t = add_bound(t, fpu.sub(s, d_l), fpu.sub(d_x, d_l), v_l, mu, false, fpu);
    }
    if is_finite(d_u) {
        t = add_bound(t, fpu.sub(d_u, s), fpu.sub(d_x, d_u), v_u, mu, true, fpu);
    }
    if t.feasible && lt(TEN_M20, t.sigma) {
        let inverse: u64 = fpu.min(fpu.div(ONE, t.sigma), TEN_P20);
        let residual: u64 = neg(fpu.sub(d_x, s));
        let r: u64 = fpu.add(fpu.add(residual, fpu.mul(inverse, t.correction)), t.violation);
        (Some(neg(inverse)), r)
    } else {
        (None, t.violation)
    }
}

/// The data of the inequalities.
pub struct SlackData {
    pub d_x: Seq<u64>,
    pub d_l: Seq<u64>,
    pub d_u: Seq<u64>,
    pub s: Seq<u64>,
    pub y_d: Seq<u64>,
    pub v_l: Seq<u64>,
    pub v_u: Seq<u64>,
    pub mu: u64,
}

pub open spec fn slack_row_at<F: Fn(FloatOp, u64, u64) -> u64>(
    d: SlackData,
    k: int,
    fpu: Fpu<F>,
) -> (Option<u64>, u64) {
    slack_row(
        d.d_x[k],
        d.s[k],
        slack_terms(d.d_x[k], d.d_l[k], d.d_u[k], d.s[k], d.y_d[k], d.v_l[k], d.v_u[k], d.mu, fpu),
        fpu,
    )
}

/// Matrix and right-hand side with the first `k` inequalities added.
pub open spec fn slacks_added<F: Fn(FloatOp, u64, u64) -> u64>(
    m: MatrixModel,
    rhs: Seq<u64>,
    n: int,
    map: Seq<usize>,
    d: SlackData,
    k: nat,
    fpu: Fpu<F>,
) -> (MatrixModel, Seq<u64>)
    decreases k,
{
    if k == 0 {
        (m, rhs)
    } else {
        let (a, b) = slacks_added(m, rhs, n, map, d, (k - 1) as nat, fpu);
        let i = n + map[k - 1];
        let (diag, r) = slack_row_at(d, k - 1, fpu);
        (
            match diag {
                Some(v) => a.added(i, i, v, fpu),
                None => a,
            },
            b.update(i, r),
        )
    }
}

/// The right-hand side with the residuals of the first `k` equations, negated.
pub open spec fn equations_set(rhs: Seq<u64>, n: int, map: Seq<usize>, c_x: Seq<u64>, k: nat) -> Seq<
    u64,
>
    decreases k,
{
    if k == 0 {
        rhs
    } else {
        equations_set(rhs, n, map, c_x, (k - 1) as nat).update(n + map[k - 1], negated(c_x[k - 1]))
    }
}

/// The matrix that assembly starts from.
pub open spec fn empty_matrix(dim: int, sparse: bool) -> MatrixModel {
    if sparse {
        MatrixModel::Sparse { n: dim, entries: diagonal(0, dim, 0) }
    } else {
        MatrixModel::Dense { n: dim, rows: table(dim, |p: int, q: int| 0) }
    }
}

/// The right-hand sides of the variables before the constraint multipliers,
/// followed by zeros.
pub open spec fn dual_start<F: Fn(FloatOp, u64, u64) -> u64>(
    n: nat,
    dim: nat,
    grad: Seq<u64>,
    x: Seq<u64>,
    x_l: Seq<u64>,
    x_u: Seq<u64>,
    mu: u64,
    kappa_d: u64,
    fpu: Fpu<F>,
) -> Seq<u64> {
    Seq::new(
        dim,
        |i: int|
            if i < n {
                dual_entry(grad[i], x[i], x_l[i], x_u[i], mu, kappa_d, fpu)
            } else {
                ZERO
            },
    )
}

/// Rows of a block lie among the rows below the first `n`, and its columns and
/// multipliers exist.
pub open spec fn block_fits(
    rows: Seq<usize>,
    cols: Seq<usize>,
    vals: Seq<u64>,
    map: Seq<usize>,
    n: int,
    dim: int,
    y: Seq<u64>,
) -> bool {
    &&& vals.len() >= paired(rows, cols)
    &&& forall|k: int|
        0 <= k < paired(rows, cols) ==> (#[trigger] rows[k]) < map.len() && rows[k] < y.len() && n
            + map[rows[k] as int] < dim && cols[k] < dim
}

/// What a KKT system is assembled from.
pub struct AssemblyData {
    pub n: nat,
    /// Equations and inequalities.
    pub n_c: nat,
    pub n_d: nat,
    pub hess_rows: Seq<usize>,
    pub hess_cols: Seq<usize>,
    pub hess_vals: Seq<u64>,
    pub jac_c_rows: Seq<usize>,
    pub jac_c_cols: Seq<usize>,
    pub jac_c_vals: Seq<u64>,
    pub jac_d_rows: Seq<usize>,
    pub jac_d_cols: Seq<usize>,
    pub jac_d_vals: Seq<u64>,
    /// Barrier diagonal of the variables.
    pub sigma: Seq<u64>,
    pub grad_f: Seq<u64>,
    pub c_x: Seq<u64>,
    pub y_c: Seq<u64>,
    pub x: Seq<u64>,
    pub x_l: Seq<u64>,
    pub x_u: Seq<u64>,
    pub kappa_d: u64,
    /// Constraint of each equation and of each inequality.
    pub c_map: Seq<usize>,
    pub d_map: Seq<usize>,
    pub slacks: SlackData,
}

/// The matrix before the inequalities get their diagonal.
pub open spec fn assembled_blocks<F: Fn(FloatOp, u64, u64) -> u64>(
    d: AssemblyData,
    sparse: bool,
    fpu: Fpu<F>,
) -> MatrixModel {
    let n = d.n as int;
    let hessian = triplets_added(
        empty_matrix(n + d.n_c + d.n_d, sparse),
        d.hess_rows,
        d.hess_cols,
        d.hess_vals,
        paired(d.hess_rows, d.hess_cols),
        fpu,
    );
    let barrier = values_on_diagonal(hessian, 0, d.sigma, d.n, fpu);
    let equations = block_added(
        barrier,
        n,
        d.c_map,
        d.jac_c_rows,
        d.jac_c_cols,
        d.jac_c_vals,
        paired(d.jac_c_rows, d.jac_c_cols),
        fpu,
    );
    block_added(
        equations,
        n,
        d.d_map,
        d.jac_d_rows,
        d.jac_d_cols,
        d.jac_d_vals,
        paired(d.jac_d_rows, d.jac_d_cols),
        fpu,
    )
}

/// The right-hand side before the inequalities get theirs.
pub open spec fn assembled_rhs<F: Fn(FloatOp, u64, u64) -> u64>(
    d: AssemblyData,
    fpu: Fpu<F>,
) -> Seq<u64> {
    let start = dual_start(
        d.n,
        d.n + d.n_c + d.n_d,
        d.grad_f,
        d.x,
        d.x_l,
        d.x_u,
        d.slacks.mu,
        d.kappa_d,
        fpu,
    );
    let with_c = transposed_subtracted(
        start,
        d.jac_c_rows,
        d.jac_c_cols,
        d.jac_c_vals,
        d.y_c,
        paired(d.jac_c_rows, d.jac_c_cols),
        fpu,
    );
    let with_d = transposed_subtracted(
        with_c,
        d.jac_d_rows,
        d.jac_d_cols,
        d.jac_d_vals,
        d.slacks.y_d,
        paired(d.jac_d_rows, d.jac_d_cols),
        fpu,
    );
    equations_set(with_d, d.n as int, d.c_map, d.c_x, d.n_c)
}

/// The assembled matrix and right-hand side.
pub open spec fn assembled<F: Fn(FloatOp, u64, u64) -> u64>(
    d: AssemblyData,
    sparse: bool,
    fpu: Fpu<F>,
) -> (MatrixModel, Seq<u64>) {
    slacks_added(
        assembled_blocks(d, sparse, fpu),
        assembled_rhs(d, fpu),
        d.n as int,
        d.d_map,
        d.slacks,
        d.n_d,
        fpu,
    )
}

/// Assembles the system
///
/// ```text
/// [ H + Sigma   J^T ] [dx]   [r_d]
/// [ J          -D   ] [dy] = [r_p]
/// ```
///
/// from the lower triangle of the Hessian, the barrier diagonal, and the
/// Jacobians of the equations and the inequalities. `D` holds the inverse
/// barrier terms of the slacks of the inequalities, and zero for equations.
pub fn assemble_kkt<F: Fn(FloatOp, u64, u64) -> u64>(
    n: usize,
    n_c: usize,
    n_d: usize,
    hess_rows: &[usize],
    hess_cols: &[usize],
    hess_vals: &[u64],
    jac_c_rows: &[usize],
    jac_c_cols: &[usize],
    jac_c_vals: &[u64],
    jac_d_rows: &[usize],
    jac_d_cols: &[usize],
    jac_d_vals: &[u64],
    sigma: &[u64],
    grad_f: &[u64],
    c_x: &[u64],
    d_x: &[u64],
    d_l: &[u64],
    d_u: &[u64],
    s: &[u64],
    y_c: &[u64],
    y_d: &[u64],
    x: &[u64],
    x_l: &[u64],
    x_u: &[u64],
    mu: u64,
    kappa_d: u64,
    use_sparse: bool,
    v_l: &[u64],
    v_u: &[u64],
    layout: &ConstraintLayout,
    fpu: &Fpu<F>,
) -> (kkt: KktSystem)
    requires
        fpu.sound(),
        n + n_c + n_d <= usize::MAX,
        use_sparse || (n + n_c + n_d) * (n + n_c + n_d + 1) <= usize::MAX,
        hess_vals@.len() >= paired(hess_rows@, hess_cols@),
        forall|k: int|
            0 <= k < paired(hess_rows@, hess_cols@) ==> (#[trigger] hess_rows@[k]) < n + n_c + n_d
                && hess_cols@[k] < n + n_c + n_d,
        block_fits(
            jac_c_rows@,
            jac_c_cols@,
            jac_c_vals@,
            layout.c_to_combined@,
            n as int,
            n + n_c + n_d,
            y_c@,
        ),
        block_fits(
            jac_d_rows@,
            jac_d_cols@,
            jac_d_vals@,
            layout.d_to_combined@,
            n as int,
            n + n_c + n_d,
            y_d@,
        ),
        layout.c_to_combined@.len() >= n_c,
        layout.d_to_combined@.len() >= n_d,
        forall|k: int|
            0 <= k < n_c ==> (#[trigger] layout.c_to_combined@[k]) < n_c + n_d,
        forall|k: int|
            0 <= k < n_d ==> (#[trigger] layout.d_to_combined@[k]) < n_c + n_d,
        sigma@.len() >= n,
        grad_f@.len() >= n,
        x@.len() >= n,
        x_l@.len() >= n,
        x_u@.len() >= n,
        c_x@.len() >= n_c,
        d_x@.len() >= n_d,
        d_l@.len() >= n_d,
        d_u@.len() >= n_d,
        s@.len() >= n_d,
        y_d@.len() >= n_d,
        v_l@.len() >= n_d,
        v_u@.len() >= n_d,
    ensures
        kkt.well_formed(),
        kkt.n == n,
        kkt.m == n_c + n_d,
        kkt.delta_c_diag@ == zeros((n_c + n_d) as nat),
        kkt.scale_factors is None,
        kkt.input_atags is None,
        (kkt.matrix.model(), kkt.rhs@) == assembled(
            AssemblyData {
                n: n as nat,
                n_c: n_c as nat,
                n_d: n_d as nat,
                hess_rows: hess_rows@,
                hess_cols: hess_cols@,
                hess_vals: hess_vals@,
                jac_c_rows: jac_c_rows@,
                jac_c_cols: jac_c_cols@,
                jac_c_vals: jac_c_vals@,
                jac_d_rows: jac_d_rows@,
                jac_d_cols: jac_d_cols@,
                jac_d_vals: jac_d_vals@,
                sigma: sigma@,
                grad_f: grad_f@,
                c_x: c_x@,
                y_c: y_c@,
                x: x@,
                x_l: x_l@,
                x_u: x_u@,
                kappa_d,
                c_map: layout.c_to_combined@,
                d_map: layout.d_to_combined@,
                slacks: SlackData {
                    d_x: d_x@,
                    d_l: d_l@,
                    d_u: d_u@,
                    s: s@,
                    y_d: y_d@,
                    v_l: v_l@,
                    v_u: v_u@,
                    mu,
                },
            },
            use_sparse,
            *fpu,
        ),
{
    let m: usize = n_c + n_d;
    let dim: usize = n + m;
    let mut matrix: KktMatrix = if use_sparse {
        KktMatrix::zeros_sparse(dim, hess_rows.len())
    } else {
        KktMatrix::zeros_dense(dim)
    };
    assert(matrix.model() == empty_matrix(dim as int, use_sparse));
    add_triplets(&mut matrix, hess_rows, hess_cols, hess_vals, fpu);
    add_to_diagonal(&mut matrix, 0, sigma, n, fpu);
    add_block(&mut matrix, n, &layout.c_to_combined, jac_c_rows, jac_c_cols, jac_c_vals, fpu);
    add_block(&mut matrix, n, &layout.d_to_combined, jac_d_rows, jac_d_cols, jac_d_vals, fpu);

    let mut rhs: Vec<u64> = vec![ZERO; dim];
    let ghost start = dual_start(
        n as nat,
        dim as nat,
        grad_f@,
        x@,
        x_l@,
        x_u@,
        mu,
        kappa_d,
        *fpu,
    );
    for i in 0..n
        invariant
            fpu.sound(),
            n <= dim,
            rhs@.len() == dim,
            grad_f@.len() >= n,
            x@.len() >= n,
            x_l@.len() >= n,
            x_u@.len() >= n,
            start == dual_start(
                n as nat,
                dim as nat,
                grad_f@,
                x@,
                x_l@,
                x_u@,
                mu,
                kappa_d,
                *fpu,
            ),
            forall|k: int| 0 <= k < i ==> #[trigger] rhs@[k] == start[k],
            forall|k: int| i <= k < dim ==> #[trigger] rhs@[k] == ZERO,
    {
        rhs.set(i, dual_rhs(grad_f[i], x[i], x_l[i], x_u[i], mu, kappa_d, fpu));
    }
    assert(rhs@ =~= start);
    subtract_transposed(&mut rhs, jac_c_rows, jac_c_cols, jac_c_vals, y_c, fpu);
    subtract_transposed(&mut rhs, jac_d_rows, jac_d_cols, jac_d_vals, y_d, fpu);

    let ghost with_d = rhs@;
    for k in 0..n_c
        invariant
            rhs@.len() == dim,
            dim == n + n_c + n_d,
            c_x@.len() >= n_c,
            layout.c_to_combined@.len() >= n_c,
            forall|k: int|
                0 <= k < n_c ==> (#[trigger] layout.c_to_combined@[k]) < n_c + n_d,
            rhs@ == equations_set(with_d, n as int, layout.c_to_combined@, c_x@, k as nat),
    {
        let i: usize = layout.c_to_combined[k];
        rhs.set(n + i, neg(c_x[k]));
    }
    let ghost primal = rhs@;
    let ghost before = matrix.model();
    let ghost data = SlackData {
        d_x: d_x@,
        d_l: d_l@,
        d_u: d_u@,
        s: s@,
        y_d: y_d@,
        v_l: v_l@,
        v_u: v_u@,
        mu,
    };
    for k in 0..n_d
        invariant
            fpu.sound(),
            rhs@.len() == dim,
            dim == n + n_c + n_d,
            matrix.well_formed(),
            matrix.dim() == dim,
            d_x@.len() >= n_d,
            d_l@.len() >= n_d,
            d_u@.len() >= n_d,
            s@.len() >= n_d,
            y_d@.len() >= n_d,
            v_l@.len() >= n_d,
            v_u@.len() >= n_d,
            data == (SlackData {
                d_x: d_x@,
                d_l: d_l@,
                d_u: d_u@,
                s: s@,
                y_d: y_d@,
                v_l: v_l@,
                v_u: v_u@,
                mu,
            }),
            layout.d_to_combined@.len() >= n_d,
            forall|k: int|
                0 <= k < n_d ==> (#[trigger] layout.d_to_combined@[k]) < n_c + n_d,
            (matrix.model(), rhs@) == slacks_added(
                before,
                primal,
                n as int,
                layout.d_to_combined@,
                data,
                k as nat,
                *fpu,
            ),
    {
        let i: usize = n + layout.d_to_combined[k];
        let (diag, r): (Option<u64>, u64) = slack_row_of(
            d_x[k],
            d_l[k],
            d_u[k],
            s[k],
            y_d[k],
            v_l[k],
            v_u[k],
            mu,
            fpu,
        );
        match diag {
            Some(v) => {
                matrix.add(i, i, v, fpu);
            },
            None => {},
        }
        rhs.set(i, r);
    }
    let delta_c_diag: Vec<u64> = vec![ZERO; m];
    assert(delta_c_diag@ =~= zeros(m as nat));
    KktSystem { dim, n, m, matrix, rhs, delta_c_diag, scale_factors: None, input_atags: None }
}

/// A matrix, a right-hand side and scaling factors.
#[verifier::ext_equal]
pub struct ScaledSystem {
    pub matrix: MatrixModel,
    pub rhs: Seq<u64>,
    pub scale: Seq<u64>,
}

/// The system with the first `k` rows and columns scaled by the inverse square
/// root of their norm; rows with a norm of at most `1e-30` are left alone.
pub open spec fn rows_scaled<F: Fn(FloatOp, u64, u64) -> u64>(
    s: ScaledSystem,
    norms: Seq<u64>,
    k: nat,
    fpu: Fpu<F>,
) -> ScaledSystem
    decreases k,
{
    if k == 0 {
        s
    } else {
        let b = rows_scaled(s, norms, (k - 1) as nat, fpu);
        let i = k - 1;
        if num_lt(TEN_M30, norms[i]) {
            let f = fpu.quotient(ONE, fpu.calc(FloatOp::Sqrt, norms[i], ZERO));
            ScaledSystem {
                matrix: b.matrix.scaled(i, f, fpu),
                rhs: b.rhs.update(i, fpu.product(b.rhs[i], f)),
                scale: b.scale.update(i, fpu.product(b.scale[i], f)),
            }
        } else {
            b
        }
    }
}

/// One pass of equilibration with row norms of the given kind.
pub open spec fn equilibration_pass<F: Fn(FloatOp, u64, u64) -> u64>(
    s: ScaledSystem,
    op: FloatOp,
    fpu: Fpu<F>,
) -> ScaledSystem {
    rows_scaled(s, s.matrix.norms(op, fpu), s.matrix.dim() as nat, fpu)
}

/// One pass with the largest magnitudes and three with the sums of magnitudes.
#[verifier::opaque]
pub open spec fn equilibrated<F: Fn(FloatOp, u64, u64) -> u64>(
    matrix: MatrixModel,
    rhs: Seq<u64>,
    fpu: Fpu<F>,
) -> ScaledSystem {
    let ones = Seq::new(matrix.dim() as nat, |i: int| ONE);
    let a = equilibration_pass(ScaledSystem { matrix, rhs, scale: ones }, FloatOp::Max, fpu);
    let b = equilibration_pass(a, FloatOp::Add, fpu);
    let c = equilibration_pass(b, FloatOp::Add, fpu);
    equilibration_pass(c, FloatOp::Add, fpu)
}

fn scale_rows<F: Fn(FloatOp, u64, u64) -> u64>(
    matrix: &mut KktMatrix,
    rhs: &mut Vec<u64>,
    scale: &mut Vec<u64>,
    norms: &Vec<u64>,
    fpu: &Fpu<F>,
)
    requires
        fpu.sound(),
        old(matrix).well_formed(),
        old(rhs)@.len() >= old(matrix).dim(),
        old(scale)@.len() >= old(matrix).dim(),
        norms@.len() == old(matrix).dim(),
    ensures
        final(matrix).well_formed(),
        final(matrix).dim() == old(matrix).dim(),
        final(rhs)@.len() == old(rhs)@.len(),
        final(scale)@.len() == old(scale)@.len(),
        (ScaledSystem {
            matrix: final(matrix).model(),
            rhs: final(rhs)@,
            scale: final(scale)@,
        }) == rows_scaled(
            ScaledSystem { matrix: old(matrix).model(), rhs: old(rhs)@, scale: old(scale)@ },
            norms@,
            old(matrix).dim() as nat,
            *fpu,
        ),
{
    let dim: usize = matrix.n();
    let ghost start = ScaledSystem { matrix: matrix.model(), rhs: rhs@, scale: scale@ };
    let ghost rhs_len = rhs@.len();
    let ghost scale_len = scale@.len();
    for k in 0..dim
        invariant
            fpu.sound(),
            matrix.well_formed(),
            matrix.dim() == dim,
            rhs@.len() == rhs_len,
            scale@.len() == scale_len,
            rhs_len >= dim,
            scale_len >= dim,
            norms@.len() == dim,
            (ScaledSystem { matrix: matrix.model(), rhs: rhs@, scale: scale@ }) == rows_scaled(
                start,
                norms@,
                k as nat,
                *fpu,
            ),
    {
        let norm: u64 = norms[k];
        if lt(TEN_M30, norm) {
            let f: u64 = fpu.div(ONE, fpu.run(FloatOp::Sqrt, norm, ZERO));
            matrix.scale_row_col(k, f, fpu);
            rhs.set(k, fpu.mul(rhs[k], f));
            scale.set(k, fpu.mul(scale[k], f));
        }
    }
}

/// Equilibrates the matrix and scales the right-hand side with it. The result
/// holds the scaling factors; a solution of the scaled system is multiplied by
/// them.
pub fn ruiz_equilibrate<F: Fn(FloatOp, u64, u64) -> u64>(
    matrix: &mut KktMatrix,
    rhs: &mut Vec<u64>,
    fpu: &Fpu<F>,
) -> (scale: Vec<u64>)
    requires
        fpu.sound(),
        old(matrix).well_formed(),
        old(rhs)@.len() >= old(matrix).dim(),
    ensures
        final(matrix).well_formed(),
        final(matrix).dim() == old(matrix).dim(),
        final(rhs)@.len() == old(rhs)@.len(),
        scale@.len() == old(matrix).dim(),
        (ScaledSystem { matrix: final(matrix).model(), rhs: final(rhs)@, scale: scale@ })
            == equilibrated(old(matrix).model(), old(rhs)@, *fpu),
{
    proof {
        reveal(equilibrated);
    }
    let dim: usize = matrix.n();
    let mut scale: Vec<u64> = vec![ONE; dim];
    assert(scale@ =~= Seq::new(matrix.model().dim() as nat, |i: int| ONE));
    let norms: Vec<u64> = matrix.row_abs_max(fpu);
    scale_rows(matrix, rhs, &mut scale, &norms, fpu);
    let norms: Vec<u64> = matrix.row_abs_sum(fpu);
    scale_rows(matrix, rhs, &mut scale, &norms, fpu);
    let norms: Vec<u64> = matrix.row_abs_sum(fpu);
    scale_rows(matrix, rhs, &mut scale, &norms, fpu);
    let norms: Vec<u64> = matrix.row_abs_sum(fpu);
    scale_rows(matrix, rhs, &mut scale, &norms, fpu);
    scale
}

/// The product of the matrix without its perturbations and `x`: what was added
/// to the diagonal of the variables is taken off, and what was subtracted from
/// that of the constraints put back.
pub open spec fn unperturbed_product<F: Fn(FloatOp, u64, u64) -> u64>(
    matrix: MatrixModel,
    n: int,
    m: int,
    delta_c_diag: Seq<u64>,
    x: Seq<u64>,
    delta_w: u64,
    delta_c_ic: u64,
    fpu: Fpu<F>,
) -> Seq<u64> {
    Seq::new(
        (n + m) as nat,
        |r: int|
            if r < n {
                if num_lt(ZERO, delta_w) {
                    fpu.difference(matrix.dot(x, r, fpu), fpu.product(delta_w, x[r]))
                } else {
                    matrix.dot(x, r, fpu)
                }
            } else {
                let total = fpu.sum(delta_c_diag[r - n], delta_c_ic);
                if num_lt(ZERO, total) {
                    fpu.sum(matrix.dot(x, r, fpu), fpu.product(total, x[r]))
                } else {
                    matrix.dot(x, r, fpu)
                }
            },
    )
}

/// The product of the matrix without its perturbations and `x`.
pub fn matvec_original<F: Fn(FloatOp, u64, u64) -> u64>(
    kkt: &KktSystem,
    x: &Vec<u64>,
    y: &mut Vec<u64>,
    delta_w: u64,
    delta_c_ic: u64,
    fpu: &Fpu<F>,
)
    requires
        fpu.sound(),
        kkt.well_formed(),
        x@.len() >= kkt.dim,
        old(y)@.len() == kkt.dim,
    ensures
        final(y)@ == unperturbed_product(
            kkt.matrix.model(),
            kkt.n as int,
            kkt.m as int,
            kkt.delta_c_diag@,
            x@,
            delta_w,
            delta_c_ic,
            *fpu,
        ),
{
    kkt.matrix.matvec(x, y, fpu);
    let ghost plain = kkt.matrix.model().times(x@, *fpu);
    let ghost want = unperturbed_product(
        kkt.matrix.model(),
        kkt.n as int,
        kkt.m as int,
        kkt.delta_c_diag@,
        x@,
        delta_w,
        delta_c_ic,
        *fpu,
    );
    let n: usize = kkt.n;
    let m: usize = kkt.m;
    if lt(ZERO, delta_w) {
        for j in 0..n
            invariant
                fpu.sound(),
                n + m == plain.len(),
                y@.len() == plain.len(),
                x@.len() >= plain.len(),
                num_lt(ZERO, delta_w),
                forall|k: int|
                    0 <= k < j ==> #[trigger] y@[k] == fpu.difference(
                        plain[k],
                        fpu.product(delta_w, x@[k]),
                    ),
                forall|k: int| j <= k < plain.len() ==> #[trigger] y@[k] == plain[k],
        {
            y.set(j, fpu.sub(y[j], fpu.mul(delta_w, x[j])));
        }
    }
    for i in 0..m
        invariant
            fpu.sound(),
            n + m == plain.len(),
            n + m <= usize::MAX,
            n == kkt.n,
            m == kkt.m,
            y@.len() == plain.len(),
            x@.len() >= plain.len(),
            kkt.delta_c_diag@.len() == m,
            plain == kkt.matrix.model().times(x@, *fpu),
            want == unperturbed_product(
                kkt.matrix.model(),
                kkt.n as int,
                kkt.m as int,
                kkt.delta_c_diag@,
                x@,
                delta_w,
                delta_c_ic,
                *fpu,
            ),
            forall|k: int| 0 <= k < n + i ==> #[trigger] y@[k] == want[k],
            forall|k: int| n + i <= k < n + m ==> #[trigger] y@[k] == plain[k],
    {
        let total: u64 = fpu.add(kkt.delta_c_diag[i], delta_c_ic);
        if lt(ZERO, total) {
            y.set(n + i, fpu.add(y[n + i], fpu.mul(total, x[n + i])));
        }
    }
    assert(y@ =~= want);
}

} // verus!
