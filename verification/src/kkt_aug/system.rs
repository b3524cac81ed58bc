//! Matrix, right-hand side and steps of the augmented system.

use crate::float::{
    eq, finite, is_finite, lt, neg, negated, num_eq, num_lt, FloatOp, Fpu, MINUS_ONE, ZERO,
};
use crate::kkt::assemble::{
    add_to_diagonal, add_triplets, empty_matrix, triplets_added, values_on_diagonal,
};
use crate::kkt::barrier::{
    lower_step, lower_steps, pair_count, paired, recover_dz, safe_slack, sigma_entry, slack,
    step_of_multiplier, upper_step, upper_steps, zeros,
};
use crate::kkt::layout::{constraints_of, is_equality_constraint, is_equation};
use crate::linear_solver::model::MatrixModel;
use crate::linear_solver::KktMatrix;
use vstd::prelude::*;

verus! {

/// The constraints split into equations and inequalities.
#[derive(Debug)]
pub struct ConstraintPartition {
    /// Number of equations.
    pub n_c: usize,
    /// Number of inequalities.
    pub n_d: usize,
    /// Place of each constraint among the equations, if it is one.
    pub eq_pos: Vec<Option<usize>>,
    /// Place of each constraint among the inequalities, if it is one.
    pub ineq_pos: Vec<Option<usize>>,
    /// Constraint of each inequality.
    pub ineq_to_constraint: Vec<usize>,
}

/// Place of constraint `i` among the equations, or the others.
pub open spec fn place_of<F: Fn(FloatOp, u64, u64) -> u64>(
    g_l: Seq<u64>,
    g_u: Seq<u64>,
    i: int,
    equation: bool,
    fpu: Fpu<F>,
) -> Option<usize> {
    if is_equation(g_l[i], g_u[i], fpu) == equation {
        Some(constraints_of(g_l, g_u, i as nat, equation, fpu).len() as usize)
    } else {
        None
    }
}

/// A partition as a mathematical value.
#[verifier::ext_equal]
pub struct PartitionModel {
    pub n_c: int,
    pub n_d: int,
    pub eq_pos: Seq<Option<usize>>,
    pub ineq_pos: Seq<Option<usize>>,
    pub ineq_to_constraint: Seq<usize>,
}

/// The partition of the constraints with the given bounds.
pub open spec fn partition_of<F: Fn(FloatOp, u64, u64) -> u64>(
    g_l: Seq<u64>,
    g_u: Seq<u64>,
    fpu: Fpu<F>,
) -> PartitionModel {
    let m = g_l.len();
    PartitionModel {
        n_c: constraints_of(g_l, g_u, m, true, fpu).len() as int,
        n_d: constraints_of(g_l, g_u, m, false, fpu).len() as int,
        eq_pos: Seq::new(m, |i: int| place_of(g_l, g_u, i, true, fpu)),
        ineq_pos: Seq::new(m, |i: int| place_of(g_l, g_u, i, false, fpu)),
        ineq_to_constraint: constraints_of(g_l, g_u, m, false, fpu),
    }
}

impl ConstraintPartition {
    pub open spec fn model(&self) -> PartitionModel {
        PartitionModel {
            n_c: self.n_c as int,
            n_d: self.n_d as int,
            eq_pos: self.eq_pos@,
            ineq_pos: self.ineq_pos@,
            ineq_to_constraint: self.ineq_to_constraint@,
        }
    }

    /// All places exist among `m` constraints.
    pub open spec fn fits(&self, m: nat) -> bool {
        &&& self.eq_pos@.len() == m
        &&& self.ineq_pos@.len() == m
        &&& self.ineq_to_constraint@.len() == self.n_d
        &&& self.n_c + self.n_d == m
        &&& forall|k: int|
            0 <= k < self.n_d ==> (#[trigger] self.ineq_to_constraint@[k]) < m
        &&& forall|i: int|
            0 <= i < m ==> ((#[trigger] self.eq_pos@[i]) matches Some(k) ==> k < self.n_c)
        &&& forall|i: int|
            0 <= i < m ==> ((#[trigger] self.ineq_pos@[i]) matches Some(k) ==> k < self.n_d)
    }

    /// Splits the constraints by their bounds.
    pub fn new<F: Fn(FloatOp, u64, u64) -> u64>(g_l: &[u64], g_u: &[u64], fpu: &Fpu<F>) -> (p: Self)
        requires
            fpu.sound(),
            g_u@.len() == g_l@.len(),
        ensures
            p.model() == partition_of(g_l@, g_u@, *fpu),
            p.fits(g_l@.len()),
    {
        let m: usize = g_l.len();
        let mut eq_pos: Vec<Option<usize>> = Vec::with_capacity(m);
        let mut ineq_pos: Vec<Option<usize>> = Vec::with_capacity(m);
        let mut ineq_to_constraint: Vec<usize> = Vec::new();
        let mut n_c: usize = 0;
        let mut n_d: usize = 0;
        for i in 0..m
            invariant
                fpu.sound(),
                m == g_l@.len(),
                g_u@.len() == m,
                n_c == constraints_of(g_l@, g_u@, i as nat, true, *fpu).len(),
                n_d == constraints_of(g_l@, g_u@, i as nat, false, *fpu).len(),
                n_c + n_d == i,
                ineq_to_constraint@ == constraints_of(g_l@, g_u@, i as nat, false, *fpu),
                eq_pos@ == Seq::new(i as nat, |k: int| place_of(g_l@, g_u@, k, true, *fpu)),
                ineq_pos@ == Seq::new(i as nat, |k: int| place_of(g_l@, g_u@, k, false, *fpu)),
                forall|k: int| 0 <= k < n_d ==> (#[trigger] ineq_to_constraint@[k]) < i,
                forall|k: int|
                    0 <= k < i ==> ((#[trigger] eq_pos@[k]) matches Some(p) ==> p < n_c),
                forall|k: int|
                    0 <= k < i ==> ((#[trigger] ineq_pos@[k]) matches Some(p) ==> p < n_d),
        {
            if is_equality_constraint(g_l[i], g_u[i], fpu) {
                eq_pos.push(Some(n_c));
                ineq_pos.push(None);
                n_c = n_c + 1;
            } else {
                eq_pos.push(None);
                ineq_pos.push(Some(n_d));
                ineq_to_constraint.push(i);
                n_d = n_d + 1;
            }
            assert(eq_pos@ =~= Seq::new(
                (i + 1) as nat,
                |k: int| place_of(g_l@, g_u@, k, true, *fpu),
            ));
            assert(ineq_pos@ =~= Seq::new(
                (i + 1) as nat,
                |k: int| place_of(g_l@, g_u@, k, false, *fpu),
            ));
        }
        ConstraintPartition { n_c, n_d, eq_pos, ineq_pos, ineq_to_constraint }
    }
}

/// Of each constraint exactly one of the two places exists.
pub proof fn partition_is_disjoint<F: Fn(FloatOp, u64, u64) -> u64>(
    g_l: Seq<u64>,
    g_u: Seq<u64>,
    i: int,
    fpu: Fpu<F>,
)
    requires
        0 <= i < g_l.len(),
    ensures
        partition_of(g_l, g_u, fpu).eq_pos[i] is Some <==> partition_of(
            g_l,
            g_u,
            fpu,
        ).ineq_pos[i] is None,
{
}

proof fn lemma_constraints_grow<F: Fn(FloatOp, u64, u64) -> u64>(
    g_l: Seq<u64>,
    g_u: Seq<u64>,
    i: nat,
    m: nat,
    fpu: Fpu<F>,
)
    requires
        i <= m,
    ensures
        constraints_of(g_l, g_u, i, false, fpu).len() <= constraints_of(
            g_l,
            g_u,
            m,
            false,
            fpu,
        ).len(),
        forall|k: int|
            0 <= k < constraints_of(g_l, g_u, i, false, fpu).len() ==> constraints_of(
                g_l,
                g_u,
                m,
                false,
                fpu,
            )[k] == #[trigger] constraints_of(g_l, g_u, i, false, fpu)[k],
    decreases m,
{
    if i < m {
        lemma_constraints_grow(g_l, g_u, i, (m - 1) as nat, fpu);
    }
}

pub(crate) proof fn lemma_constraints_few<F: Fn(FloatOp, u64, u64) -> u64>(
    g_l: Seq<u64>,
    g_u: Seq<u64>,
    i: nat,
    equation: bool,
    fpu: Fpu<F>,
)
    ensures
        constraints_of(g_l, g_u, i, equation, fpu).len() <= i,
    decreases i,
{
    if i > 0 {
        lemma_constraints_few(g_l, g_u, (i - 1) as nat, equation, fpu);
    }
}

/// The constraint at an inequality's place is the inequality itself.
pub proof fn partition_inverts<F: Fn(FloatOp, u64, u64) -> u64>(
    g_l: Seq<u64>,
    g_u: Seq<u64>,
    i: int,
    fpu: Fpu<F>,
)
    requires
        g_l.len() <= usize::MAX,
        0 <= i < g_l.len(),
        partition_of(g_l, g_u, fpu).ineq_pos[i] is Some,
    ensures
        ({
            let p = partition_of(g_l, g_u, fpu);
            &&& p.ineq_pos[i]->Some_0 < p.n_d
            &&& p.ineq_to_constraint[p.ineq_pos[i]->Some_0 as int] == i
        }),
{
    lemma_constraints_few(g_l, g_u, i as nat, false, fpu);
    lemma_constraints_grow(g_l, g_u, (i + 1) as nat, g_l.len(), fpu);
    let before = constraints_of(g_l, g_u, i as nat, false, fpu);
    let now = constraints_of(g_l, g_u, (i + 1) as nat, false, fpu);
    assert(now == before.push(i as usize));
    assert(now[before.len() as int] == i);
}

pub open spec fn slack_sigma<F: Fn(FloatOp, u64, u64) -> u64>(
    map: Seq<usize>,
    s: Seq<u64>,
    g_l: Seq<u64>,
    g_u: Seq<u64>,
    v_l: Seq<u64>,
    v_u: Seq<u64>,
    fpu: Fpu<F>,
) -> Seq<u64> {
    Seq::new(
        map.len(),
        |k: int|
            {
                let i = map[k] as int;
                sigma_entry(s[i], g_l[i], g_u[i], v_l[i], v_u[i], fpu)
            },
    )
}

/// There is an entry for each of `m` constraints in all lists.
pub open spec fn five_cover(
    m: nat,
    a: Seq<u64>,
    b: Seq<u64>,
    c: Seq<u64>,
    d: Seq<u64>,
    e: Seq<u64>,
) -> bool {
    a.len() >= m && b.len() >= m && c.len() >= m && d.len() >= m && e.len() >= m
}

/// The barrier diagonal of the slacks.
pub fn compute_sigma_s<F: Fn(FloatOp, u64, u64) -> u64>(
    partition: &ConstraintPartition,
    s: &[u64],
    g_l: &[u64],
    g_u: &[u64],
    v_l: &[u64],
    v_u: &[u64],
    fpu: &Fpu<F>,
) -> (sigma: Vec<u64>)
    requires
        fpu.sound(),
        partition.fits(partition.eq_pos@.len()),
        five_cover(partition.eq_pos@.len(), s@, g_l@, g_u@, v_l@, v_u@),
    ensures
        sigma@ == slack_sigma(
            partition.ineq_to_constraint@,
            s@,
            g_l@,
            g_u@,
            v_l@,
            v_u@,
            *fpu,
        ),
        sigma@.len() == partition.n_d,
{
    let mut sigma: Vec<u64> = Vec::with_capacity(partition.n_d);
    let ghost want = slack_sigma(
        partition.ineq_to_constraint@,
        s@,
        g_l@,
        g_u@,
        v_l@,
        v_u@,
        *fpu,
    );
    for k in 0..partition.ineq_to_constraint.len()
        invariant
            fpu.sound(),
            partition.fits(partition.eq_pos@.len()),
            five_cover(partition.eq_pos@.len(), s@, g_l@, g_u@, v_l@, v_u@),
            want == slack_sigma(
                partition.ineq_to_constraint@,
                s@,
                g_l@,
                g_u@,
                v_l@,
                v_u@,
                *fpu,
            ),
            sigma@ == want.take(k as int),
    {
        let i: usize = partition.ineq_to_constraint[k];
        let mut v: u64 = ZERO;
        if is_finite(g_l[i]) {
            v = fpu.add(v, fpu.div(v_l[i], safe_slack(s[i], g_l[i], fpu)));
        }
        if is_finite(g_u[i]) {
            v = fpu.add(v, fpu.div(v_u[i], safe_slack(g_u[i], s[i], fpu)));
        }
        sigma.push(v);
        assert(sigma@ =~= want.take(k + 1));
    }
    assert(sigma@ =~= want);
    sigma
}

/// An assembled augmented system.
#[derive(Debug)]
pub struct AugKktSystem {
    /// Dimension `n + n_d + n_c + n_d`.
    pub dim: usize,
    pub n: usize,
    pub n_c: usize,
    pub n_d: usize,
    pub matrix: KktMatrix,
    /// Perturbations of the four diagonal blocks, which the matrix holds.
    pub delta_c: u64,
    pub delta_d: u64,
    pub delta_x: u64,
    pub delta_s: u64,
}

impl AugKktSystem {
    pub open spec fn well_formed(&self) -> bool {
        &&& self.dim == self.n + self.n_d + self.n_c + self.n_d
        &&& self.matrix.well_formed()
        &&& self.matrix.dim() == self.dim
    }
}

/// Each element with `delta` added.
pub open spec fn raised<F: Fn(FloatOp, u64, u64) -> u64>(
    v: Seq<u64>,
    delta: u64,
    fpu: Fpu<F>,
) -> Seq<u64> {
    Seq::new(v.len(), |i: int| fpu.sum(v[i], delta))
}

/// The matrix with the first `k` Jacobian entries added: those of equations
/// from row `yc` on, those of inequalities from row `yd` on.
pub open spec fn routed<F: Fn(FloatOp, u64, u64) -> u64>(
    m: MatrixModel,
    eq_pos: Seq<Option<usize>>,
    ineq_pos: Seq<Option<usize>>,
    yc: int,
    yd: int,
    rows: Seq<usize>,
    cols: Seq<usize>,
    vals: Seq<u64>,
    k: nat,
    fpu: Fpu<F>,
) -> MatrixModel
    decreases k,
{
    if k == 0 {
        m
    } else {
        let before = routed(
            m,
            eq_pos,
            ineq_pos,
            yc,
            yd,
            rows,
            cols,
            vals,
            (k - 1) as nat,
            fpu,
        );
        let r = rows[k - 1] as int;
        let c = cols[k - 1] as int;
        match (eq_pos[r], ineq_pos[r]) {
            (Some(p), _) => before.added(yc + p, c, vals[k - 1], fpu),
            (None, Some(p)) => before.added(yd + p, c, vals[k - 1], fpu),
            (None, None) => before,
        }
    }
}

/// The matrix with minus one for the first `k` slacks in the rows of their
/// inequalities.
pub open spec fn slacks_coupled<F: Fn(FloatOp, u64, u64) -> u64>(
    m: MatrixModel,
    yd: int,
    so: int,
    k: nat,
    fpu: Fpu<F>,
) -> MatrixModel
    decreases k,
{
    if k == 0 {
        m
    } else {
        slacks_coupled(m, yd, so, (k - 1) as nat, fpu).added(
            yd + k - 1,
            so + k - 1,
            MINUS_ONE,
            fpu,
        )
    }
}

pub open spec fn repeated(v: u64, n: nat) -> Seq<u64> {
    Seq::new(n, |i: int| v)
}

/// `-delta` on a part of the diagonal, unless `delta` is zero.
pub open spec fn lowered<F: Fn(FloatOp, u64, u64) -> u64>(
    m: MatrixModel,
    offset: int,
    delta: u64,
    n: nat,
    fpu: Fpu<F>,
) -> MatrixModel {
    if num_eq(delta, ZERO) {
        m
    } else {
        values_on_diagonal(m, offset, repeated(negated(delta), n), n, fpu)
    }
}

/// The inputs of the augmented matrix.
pub struct AugData {
    pub hess_rows: Seq<usize>,
    pub hess_cols: Seq<usize>,
    pub hess_vals: Seq<u64>,
    pub jac_rows: Seq<usize>,
    pub jac_cols: Seq<usize>,
    pub jac_vals: Seq<u64>,
    pub sigma_x: Seq<u64>,
    pub sigma_s: Seq<u64>,
}

/// The augmented matrix.
pub open spec fn aug_matrix<F: Fn(FloatOp, u64, u64) -> u64>(
    n: int,
    p: PartitionModel,
    d: AugData,
    delta_x: u64,
    delta_s: u64,
    delta_c: u64,
    delta_d: u64,
    sparse: bool,
    fpu: Fpu<F>,
) -> MatrixModel {
    let yc = n + p.n_d;
    let yd = n + p.n_d + p.n_c;
    let hessian = triplets_added(
        empty_matrix(n + p.n_d + p.n_c + p.n_d, sparse),
        d.hess_rows,
        d.hess_cols,
        d.hess_vals,
        paired(d.hess_rows, d.hess_cols),
        fpu,
    );
    let variables = values_on_diagonal(hessian, 0, raised(d.sigma_x, delta_x, fpu), n as nat, fpu);
    let slacks = values_on_diagonal(
        variables,
        n,
        raised(d.sigma_s, delta_s, fpu),
        p.n_d as nat,
        fpu,
    );
    let jacobian = routed(
        slacks,
        p.eq_pos,
        p.ineq_pos,
        yc,
        yd,
        d.jac_rows,
        d.jac_cols,
        d.jac_vals,
        paired(d.jac_rows, d.jac_cols),
        fpu,
    );
    let coupled = slacks_coupled(jacobian, yd, n, p.n_d as nat, fpu);
    lowered(lowered(coupled, yc, delta_c, p.n_c as nat, fpu), yd, delta_d, p.n_d as nat, fpu)
}

fn raise<F: Fn(FloatOp, u64, u64) -> u64>(v: &[u64], delta: u64, fpu: &Fpu<F>) -> (r: Vec<u64>)
    requires
        fpu.sound(),
    ensures
        r@ == raised(v@, delta, *fpu),
{
    let mut r: Vec<u64> = Vec::with_capacity(v.len());
    for i in 0..v.len()
        invariant
            fpu.sound(),
            r@ == raised(v@, delta, *fpu).take(i as int),
    {
        r.push(fpu.add(v[i], delta));
        assert(r@ =~= raised(v@, delta, *fpu).take(i + 1));
    }
    assert(r@ =~= raised(v@, delta, *fpu));
    r
}

fn lower_diagonal<F: Fn(FloatOp, u64, u64) -> u64>(
    matrix: &mut KktMatrix,
    offset: usize,
    delta: u64,
    n: usize,
    fpu: &Fpu<F>,
)
    requires
        fpu.sound(),
        old(matrix).well_formed(),
        offset + n <= old(matrix).dim(),
    ensures
        final(matrix).well_formed(),
        final(matrix).dim() == old(matrix).dim(),
        final(matrix).model() == lowered(
            old(matrix).model(),
            offset as int,
            delta,
            n as nat,
            *fpu,
        ),
{
    if !eq(delta, ZERO) {
        let v: Vec<u64> = vec![neg(delta); n];
        assert(v@ =~= repeated(negated(delta), n as nat));
        add_to_diagonal(matrix, offset, &v, n, fpu);
    }
}

/// The Jacobian entries lie among `m` constraints and `dim` columns.
pub open spec fn jacobian_fits(
    rows: Seq<usize>,
    cols: Seq<usize>,
    vals: Seq<u64>,
    m: nat,
    dim: int,
) -> bool {
    &&& vals.len() >= paired(rows, cols)
    &&& forall|k: int|
        0 <= k < paired(rows, cols) ==> (#[trigger] rows[k]) < m && cols[k] < dim
}

fn route_jacobian<F: Fn(FloatOp, u64, u64) -> u64>(
    matrix: &mut KktMatrix,
    partition: &ConstraintPartition,
    n: usize,
    rows: &[usize],
    cols: &[usize],
    vals: &[u64],
    fpu: &Fpu<F>,
)
    requires
        fpu.sound(),
        old(matrix).well_formed(),
        partition.fits(partition.eq_pos@.len()),
        old(matrix).dim() == n + partition.n_d + partition.n_c + partition.n_d,
        jacobian_fits(rows@, cols@, vals@, partition.eq_pos@.len(), old(matrix).dim()),
    ensures
        final(matrix).well_formed(),
        final(matrix).dim() == old(matrix).dim(),
        final(matrix).model() == routed(
            old(matrix).model(),
            partition.eq_pos@,
            partition.ineq_pos@,
            n + partition.n_d,
            n + partition.n_d + partition.n_c,
            rows@,
            cols@,
            vals@,
            paired(rows@, cols@),
            *fpu,
        ),
{
    let ghost start = *matrix;
    let dim: usize = matrix.n();
    let yc: usize = n + partition.n_d;
    let yd: usize = yc + partition.n_c;
    let count: usize = pair_count(rows, cols);
    for k in 0..count
        invariant
            fpu.sound(),
            matrix.well_formed(),
            matrix.dim() == dim,
            partition.fits(partition.eq_pos@.len()),
            dim == n + partition.n_d + partition.n_c + partition.n_d,
            yc == n + partition.n_d,
            yd == yc + partition.n_c,
            count == paired(rows@, cols@),
            jacobian_fits(rows@, cols@, vals@, partition.eq_pos@.len(), dim as int),
            matrix.model() == routed(
                start.model(),
                partition.eq_pos@,
                partition.ineq_pos@,
                yc as int,
                yd as int,
                rows@,
                cols@,
                vals@,
                k as nat,
                *fpu,
            ),
    {
        let r: usize = rows[k];
        let c: usize = cols[k];
        assert(rows@[k as int] < partition.eq_pos@.len());
        assert(partition.eq_pos@[r as int] matches Some(p) ==> p < partition.n_c);
        assert(partition.ineq_pos@[r as int] matches Some(p) ==> p < partition.n_d);
        match partition.eq_pos[r] {
            Some(p) => {
                matrix.add(yc + p, c, vals[k], fpu);
            },
            None => {
                match partition.ineq_pos[r] {
                    Some(p) => {
                        matrix.add(yd + p, c, vals[k], fpu);
                    },
                    None => {},
                }
            },
        }
    }
}

/// Assembles the augmented matrix, with the perturbations in its diagonal.
pub fn assemble_aug_kkt<F: Fn(FloatOp, u64, u64) -> u64>(
    n: usize,
    partition: &ConstraintPartition,
    hess_rows: &[usize],
    hess_cols: &[usize],
    hess_vals: &[u64],
    jac_rows: &[usize],
    jac_cols: &[usize],
    jac_vals: &[u64],
    sigma_x: &[u64],
    sigma_s: &[u64],
    delta_x: u64,
    delta_s: u64,
    delta_c: u64,
    delta_d: u64,
    use_sparse: bool,
    fpu: &Fpu<F>,
) -> (aug: AugKktSystem)
    requires
        fpu.sound(),
        partition.fits(partition.eq_pos@.len()),
        n + partition.n_d + partition.n_c + partition.n_d <= usize::MAX,
        use_sparse || (n + partition.n_d + partition.n_c + partition.n_d) * (n + partition.n_d
            + partition.n_c + partition.n_d + 1) <= usize::MAX,
        sigma_x@.len() == n,
        sigma_s@.len() == partition.n_d,
        hess_vals@.len() >= paired(hess_rows@, hess_cols@),
        forall|k: int|
            0 <= k < paired(hess_rows@, hess_cols@) ==> (#[trigger] hess_rows@[k]) < n
                + partition.n_d + partition.n_c + partition.n_d && hess_cols@[k] < n
                + partition.n_d + partition.n_c + partition.n_d,
        jacobian_fits(
            jac_rows@,
            jac_cols@,
            jac_vals@,
            partition.eq_pos@.len(),
            n + partition.n_d + partition.n_c + partition.n_d,
        ),
    ensures
        aug.well_formed(),
        aug.n == n,
        aug.n_c == partition.n_c,
        aug.n_d == partition.n_d,
        aug.delta_x == delta_x,
        aug.delta_s == delta_s,
        aug.delta_c == delta_c,
        aug.delta_d == delta_d,
        aug.matrix.model() == aug_matrix(
            n as int,
            partition.model(),
            AugData {
                hess_rows: hess_rows@,
                hess_cols: hess_cols@,
                hess_vals: hess_vals@,
                jac_rows: jac_rows@,
                jac_cols: jac_cols@,
                jac_vals: jac_vals@,
                sigma_x: sigma_x@,
                sigma_s: sigma_s@,
            },
            delta_x,
            delta_s,
            delta_c,
            delta_d,
            use_sparse,
            *fpu,
        ),
{
    let n_c: usize = partition.n_c;
    let n_d: usize = partition.n_d;
    let dim: usize = n + n_d + n_c + n_d;
    let yc: usize = n + n_d;
    let yd: usize = n + n_d + n_c;
    let mut matrix: KktMatrix = if use_sparse {
        KktMatrix::zeros_sparse(dim, hess_rows.len())
    } else {
        KktMatrix::zeros_dense(dim)
    };
    assert(matrix.model() == empty_matrix(dim as int, use_sparse));
    add_triplets(&mut matrix, hess_rows, hess_cols, hess_vals, fpu);
    let dx: Vec<u64> = raise(sigma_x, delta_x, fpu);
    add_to_diagonal(&mut matrix, 0, &dx, n, fpu);
    let ds: Vec<u64> = raise(sigma_s, delta_s, fpu);
    add_to_diagonal(&mut matrix, n, &ds, n_d, fpu);
    route_jacobian(&mut matrix, partition, n, jac_rows, jac_cols, jac_vals, fpu);
    let ghost before = matrix.model();
    for k in 0..n_d
        invariant
            fpu.sound(),
            matrix.well_formed(),
            matrix.dim() == dim,
            dim == n + n_d + n_c + n_d,
            yd == n + n_d + n_c,
            matrix.model() == slacks_coupled(before, yd as int, n as int, k as nat, *fpu),
    {
        matrix.add(yd + k, n + k, MINUS_ONE, fpu);
    }
    lower_diagonal(&mut matrix, yc, delta_c, n_c, fpu);
    lower_diagonal(&mut matrix, yd, delta_d, n_d, fpu);
    AugKktSystem { dim, n, n_c, n_d, matrix, delta_c, delta_d, delta_x, delta_s }
}

/// The residuals of the primal-dual equations.
#[derive(Debug)]
pub struct OuterRhs {
    /// Gradient of the Lagrangian in the variables.
    pub rhs_x: Vec<u64>,
    /// Gradient of the Lagrangian in the slacks, one entry per inequality.
    pub rhs_s: Vec<u64>,
    /// Residuals of the equations.
    pub rhs_y_c: Vec<u64>,
    /// Residuals of the inequalities and their slacks.
    pub rhs_y_d: Vec<u64>,
    /// Complementarity of the lower and upper bounds of the variables.
    pub rhs_z_l: Vec<u64>,
    pub rhs_z_u: Vec<u64>,
    /// Complementarity of the lower and upper bounds of the constraints, one
    /// entry per constraint.
    pub rhs_v_l: Vec<u64>,
    pub rhs_v_u: Vec<u64>,
}

#[verifier::ext_equal]
pub struct OuterModel {
    pub x: Seq<u64>,
    pub s: Seq<u64>,
    pub y_c: Seq<u64>,
    pub y_d: Seq<u64>,
    pub z_l: Seq<u64>,
    pub z_u: Seq<u64>,
    pub v_l: Seq<u64>,
    pub v_u: Seq<u64>,
}

impl OuterRhs {
    pub open spec fn model(&self) -> OuterModel {
        OuterModel {
            x: self.rhs_x@,
            s: self.rhs_s@,
            y_c: self.rhs_y_c@,
            y_d: self.rhs_y_d@,
            z_l: self.rhs_z_l@,
            z_u: self.rhs_z_u@,
            v_l: self.rhs_v_l@,
            v_u: self.rhs_v_u@,
        }
    }
}

/// An entry of the gradient of the Lagrangian: the multipliers of finite bounds,
/// and damping where there is one bound only.
pub open spec fn lagrangian_entry<F: Fn(FloatOp, u64, u64) -> u64>(
    r: u64,
    lower: u64,
    upper: u64,
    z_l: u64,
    z_u: u64,
    mu: u64,
    kappa_d: u64,
    fpu: Fpu<F>,
) -> u64 {
    let a = if finite(lower) {
        fpu.difference(r, z_l)
    } else {
        r
    };
    let b = if finite(upper) {
        fpu.sum(a, z_u)
    } else {
        a
    };
    if num_lt(ZERO, kappa_d) && finite(lower) != finite(upper) {
        if finite(lower) {
            fpu.sum(b, fpu.product(kappa_d, mu))
        } else {
            fpu.difference(b, fpu.product(kappa_d, mu))
        }
    } else {
        b
    }
}

fn lagrangian_of<F: Fn(FloatOp, u64, u64) -> u64>(
    r: u64,
    lower: u64,
    upper: u64,
    z_l: u64,
    z_u: u64,
    mu: u64,
    kappa_d: u64,
    fpu: &Fpu<F>,
) -> (v: u64)
    requires
        fpu.sound(),
    ensures
        v == lagrangian_entry(r, lower, upper, z_l, z_u, mu, kappa_d, *fpu),
{
    let mut v: u64 = r;
    let l_fin: bool = is_finite(lower);
    let u_fin: bool = is_finite(upper);
    if l_fin {
        v = fpu.sub(v, z_l);
    }
    if u_fin {
        v = fpu.add(v, z_u);
    }
    if lt(ZERO, kappa_d) && l_fin != u_fin {
        let damping: u64 = fpu.mul(kappa_d, mu);
        v = if l_fin {
            fpu.add(v, damping)
        } else {
            fpu.sub(v, damping)
        };
    }
    v
}

/// Complementarity of a bound: the multiplier times the distance, minus the
/// barrier parameter; zero where the bound is not finite.
pub open spec fn complementarity<F: Fn(FloatOp, u64, u64) -> u64>(
    bound: u64,
    z: u64,
    distance: u64,
    mu: u64,
    fpu: Fpu<F>,
) -> u64 {
    if finite(bound) {
        fpu.difference(fpu.product(z, distance), mu)
    } else {
        ZERO
    }
}

/// `base` with the first `k` values at their places.
pub open spec fn scattered(base: Seq<u64>, map: Seq<usize>, vals: Seq<u64>, k: nat) -> Seq<u64>
    decreases k,
{
    if k == 0 {
        base
    } else {
        scattered(base, map, vals, (k - 1) as nat).update(map[k - 1] as int, vals[k - 1])
    }
}

/// `base` with the values of the first `k` constraints that have a place, there.
pub open spec fn gathered(base: Seq<u64>, place: Seq<Option<usize>>, vals: Seq<u64>, k: nat) -> Seq<
    u64,
>
    decreases k,
{
    if k == 0 {
        base
    } else {
        let before = gathered(base, place, vals, (k - 1) as nat);
        match place[k - 1] {
            Some(p) => before.update(p as int, vals[k - 1]),
            None => before,
        }
    }
}

/// An iterate of the interior-point method.
pub struct Iterate {
    pub grad_f: Seq<u64>,
    pub x: Seq<u64>,
    pub x_l: Seq<u64>,
    pub x_u: Seq<u64>,
    pub z_l: Seq<u64>,
    pub z_u: Seq<u64>,
    pub s: Seq<u64>,
    pub g: Seq<u64>,
    pub g_l: Seq<u64>,
    pub g_u: Seq<u64>,
    pub y: Seq<u64>,
    pub v_l: Seq<u64>,
    pub v_u: Seq<u64>,
}

impl Iterate {
    /// There is an entry for each of `n` variables and `m` constraints.
    pub open spec fn covers(self, n: int, m: int) -> bool {
        &&& self.grad_f.len() >= n
        &&& self.x.len() >= n
        &&& self.x_l.len() >= n
        &&& self.x_u.len() >= n
        &&& self.z_l.len() >= n
        &&& self.z_u.len() >= n
        &&& self.s.len() >= m
        &&& self.g.len() == m
        &&& self.g_l.len() == m
        &&& self.g_u.len() == m
        &&& self.y.len() >= m
        &&& self.v_l.len() >= m
        &&& self.v_u.len() >= m
    }
}

/// Complementarity of the constraint bounds of the inequalities.
pub open spec fn slack_complementarity<F: Fn(FloatOp, u64, u64) -> u64>(
    it: Iterate,
    map: Seq<usize>,
    upper: bool,
    mu: u64,
    fpu: Fpu<F>,
) -> Seq<u64> {
    Seq::new(
        map.len(),
        |k: int|
            {
                let i = map[k] as int;
                if upper {
                    complementarity(it.g_u[i], it.v_u[i], slack(it.g_u[i], it.s[i], fpu), mu, fpu)
                } else {
                    complementarity(it.g_l[i], it.v_l[i], slack(it.s[i], it.g_l[i], fpu), mu, fpu)
                }
            },
    )
}

/// The residuals of the primal-dual equations at an iterate. `j_t_y` is the
/// product of the transposed Jacobian and the constraint multipliers.
pub open spec fn outer_rhs<F: Fn(FloatOp, u64, u64) -> u64>(
    n: nat,
    p: PartitionModel,
    it: Iterate,
    j_t_y: Seq<u64>,
    mu: u64,
    kappa_d: u64,
    fpu: Fpu<F>,
) -> OuterModel {
    let map = p.ineq_to_constraint;
    let m = it.g.len();
    OuterModel {
        x: Seq::new(
            n,
            |i: int|
                lagrangian_entry(
                    fpu.sum(it.grad_f[i], j_t_y[i]),
                    it.x_l[i],
                    it.x_u[i],
                    it.z_l[i],
                    it.z_u[i],
                    mu,
                    kappa_d,
                    fpu,
                ),
        ),
        s: Seq::new(
            map.len(),
            |k: int|
                {
                    let i = map[k] as int;
                    lagrangian_entry(
                        negated(it.y[i]),
                        it.g_l[i],
                        it.g_u[i],
                        it.v_l[i],
                        it.v_u[i],
                        mu,
                        kappa_d,
                        fpu,
                    )
                },
        ),
        y_c: gathered(
            zeros(p.n_c as nat),
            p.eq_pos,
            Seq::new(m, |i: int| fpu.difference(it.g[i], it.g_l[i])),
            m,
        ),
        y_d: Seq::new(
            map.len(),
            |k: int| fpu.difference(it.g[map[k] as int], it.s[map[k] as int]),
        ),
        z_l: Seq::new(
            n,
            |i: int|
                complementarity(it.x_l[i], it.z_l[i], slack(it.x[i], it.x_l[i], fpu), mu, fpu),
        ),
        z_u: Seq::new(
            n,
            |i: int|
                complementarity(it.x_u[i], it.z_u[i], slack(it.x_u[i], it.x[i], fpu), mu, fpu),
        ),
        v_l: scattered(
            zeros(m),
            map,
            slack_complementarity(it, map, false, mu, fpu),
            map.len(),
        ),
        v_u: scattered(zeros(m), map, slack_complementarity(it, map, true, mu, fpu), map.len()),
    }
}

fn complementarity_of<F: Fn(FloatOp, u64, u64) -> u64>(
    bound: u64,
    z: u64,
    a: u64,
    b: u64,
    mu: u64,
    fpu: &Fpu<F>,
) -> (v: u64)
    requires
        fpu.sound(),
    ensures
        v == complementarity(bound, z, slack(a, b, *fpu), mu, *fpu),
{
    if is_finite(bound) {
        fpu.sub(fpu.mul(z, safe_slack(a, b, fpu)), mu)
    } else {
        ZERO
    }
}

/// The residuals of the primal-dual equations. `j_t_y` is the product of the
/// transposed Jacobian and the constraint multipliers; a `kappa_d` of zero
/// leaves damping out.
#[verifier::rlimit(40)]
pub fn build_outer_rhs<F: Fn(FloatOp, u64, u64) -> u64>(
    n: usize,
    partition: &ConstraintPartition,
    grad_f: &[u64],
    j_t_y: &[u64],
    x: &[u64],
    x_l: &[u64],
    x_u: &[u64],
    z_l: &[u64],
    z_u: &[u64],
    s: &[u64],
    g: &[u64],
    g_l: &[u64],
    g_u: &[u64],
    y: &[u64],
    v_l: &[u64],
    v_u: &[u64],
    mu: u64,
    kappa_d: u64,
    fpu: &Fpu<F>,
) -> (rhs: OuterRhs)
    requires
        fpu.sound(),
        partition.fits(g@.len()),
        j_t_y@.len() >= n,
        (Iterate {
            grad_f: grad_f@,
            x: x@,
            x_l: x_l@,
            x_u: x_u@,
            z_l: z_l@,
            z_u: z_u@,
            s: s@,
            g: g@,
            g_l: g_l@,
            g_u: g_u@,
            y: y@,
            v_l: v_l@,
            v_u: v_u@,
        }).covers(n as int, g@.len() as int),
    ensures
        outer_fits(rhs.model(), n as int, partition.model(), g@.len() as int),
        rhs.model() == outer_rhs(
            n as nat,
            partition.model(),
            Iterate {
                grad_f: grad_f@,
                x: x@,
                x_l: x_l@,
                x_u: x_u@,
                z_l: z_l@,
                z_u: z_u@,
                s: s@,
                g: g@,
                g_l: g_l@,
                g_u: g_u@,
                y: y@,
                v_l: v_l@,
                v_u: v_u@,
            },
            j_t_y@,
            mu,
            kappa_d,
            *fpu,
        ),
{
    let ghost it = Iterate {
        grad_f: grad_f@,
        x: x@,
        x_l: x_l@,
        x_u: x_u@,
        z_l: z_l@,
        z_u: z_u@,
        s: s@,
        g: g@,
        g_l: g_l@,
        g_u: g_u@,
        y: y@,
        v_l: v_l@,
        v_u: v_u@,
    };
    let ghost want = outer_rhs(n as nat, partition.model(), it, j_t_y@, mu, kappa_d, *fpu);
    let m: usize = g.len();
    let n_d: usize = partition.ineq_to_constraint.len();
    let mut rhs_x: Vec<u64> = Vec::with_capacity(n);
    let mut rhs_z_l: Vec<u64> = Vec::with_capacity(n);
    let mut rhs_z_u: Vec<u64> = Vec::with_capacity(n);
    for i in 0..n
        invariant
            fpu.sound(),
            j_t_y@.len() >= n,
            it == (Iterate {
                grad_f: grad_f@,
                x: x@,
                x_l: x_l@,
                x_u: x_u@,
                z_l: z_l@,
                z_u: z_u@,
                s: s@,
                g: g@,
                g_l: g_l@,
                g_u: g_u@,
                y: y@,
                v_l: v_l@,
                v_u: v_u@,
            }),
            it.covers(n as int, g@.len() as int),
            want == outer_rhs(n as nat, partition.model(), it, j_t_y@, mu, kappa_d, *fpu),
            rhs_x@ == want.x.take(i as int),
            rhs_z_l@ == want.z_l.take(i as int),
            rhs_z_u@ == want.z_u.take(i as int),
    {
        let r: u64 = fpu.add(grad_f[i], j_t_y[i]);
        rhs_x.push(lagrangian_of(r, x_l[i], x_u[i], z_l[i], z_u[i], mu, kappa_d, fpu));
        rhs_z_l.push(complementarity_of(x_l[i], z_l[i], x[i], x_l[i], mu, fpu));
        rhs_z_u.push(complementarity_of(x_u[i], z_u[i], x_u[i], x[i], mu, fpu));
        assert(rhs_x@ =~= want.x.take(i + 1));
        assert(rhs_z_l@ =~= want.z_l.take(i + 1));
        assert(rhs_z_u@ =~= want.z_u.take(i + 1));
    }
    let mut rhs_s: Vec<u64> = Vec::with_capacity(n_d);
    let mut rhs_y_d: Vec<u64> = Vec::with_capacity(n_d);
    let mut rhs_v_l: Vec<u64> = vec![ZERO; m];
    let mut rhs_v_u: Vec<u64> = vec![ZERO; m];
    assert(rhs_v_l@ =~= zeros(m as nat));
    assert(rhs_v_u@ =~= zeros(m as nat));
    let ghost map = partition.ineq_to_constraint@;
    let ghost below = slack_complementarity(it, map, false, mu, *fpu);
    let ghost above = slack_complementarity(it, map, true, mu, *fpu);
    for k in 0..n_d
        invariant
            fpu.sound(),
            m == g@.len(),
            n_d == map.len(),
            map == partition.ineq_to_constraint@,
            partition.fits(m as nat),
            it == (Iterate {
                grad_f: grad_f@,
                x: x@,
                x_l: x_l@,
                x_u: x_u@,
                z_l: z_l@,
                z_u: z_u@,
                s: s@,
                g: g@,
                g_l: g_l@,
                g_u: g_u@,
                y: y@,
                v_l: v_l@,
                v_u: v_u@,
            }),
            it.covers(n as int, m as int),
            want == outer_rhs(n as nat, partition.model(), it, j_t_y@, mu, kappa_d, *fpu),
            below == slack_complementarity(it, map, false, mu, *fpu),
            above == slack_complementarity(it, map, true, mu, *fpu),
            rhs_v_l@.len() == m,
            rhs_v_u@.len() == m,
            rhs_s@ == want.s.take(k as int),
            rhs_y_d@ == want.y_d.take(k as int),
            rhs_v_l@ == scattered(zeros(m as nat), map, below, k as nat),
            rhs_v_u@ == scattered(zeros(m as nat), map, above, k as nat),
    {
        let i: usize = partition.ineq_to_constraint[k];
        assert(map[k as int] < m);
        rhs_s.push(lagrangian_of(neg(y[i]), g_l[i], g_u[i], v_l[i], v_u[i], mu, kappa_d, fpu));
        rhs_y_d.push(fpu.sub(g[i], s[i]));
        rhs_v_l.set(i, complementarity_of(g_l[i], v_l[i], s[i], g_l[i], mu, fpu));
        rhs_v_u.set(i, complementarity_of(g_u[i], v_u[i], g_u[i], s[i], mu, fpu));
        assert(rhs_s@ =~= want.s.take(k + 1));
        assert(rhs_y_d@ =~= want.y_d.take(k + 1));
    }
    let mut rhs_y_c: Vec<u64> = vec![ZERO; partition.n_c];
    assert(rhs_y_c@ =~= zeros(partition.n_c as nat));
    let ghost residuals = Seq::new(m as nat, |i: int| fpu.difference(it.g[i], it.g_l[i]));
    for i in 0..m
        invariant
            fpu.sound(),
            m == g@.len(),
            g_l@.len() == m,
            partition.fits(m as nat),
            rhs_y_c@.len() == partition.n_c,
            residuals == Seq::new(m as nat, |i: int| fpu.difference(g@[i], g_l@[i])),
            rhs_y_c@ == gathered(
                zeros(partition.n_c as nat),
                partition.eq_pos@,
                residuals,
                i as nat,
            ),
    {
        assert(partition.eq_pos@[i as int] matches Some(p) ==> p < partition.n_c);
        match partition.eq_pos[i] {
            Some(k) => {
                rhs_y_c.set(k, fpu.sub(g[i], g_l[i]));
            },
            None => {},
        }
    }
    proof {
        assert(rhs_x@ =~= want.x);
        assert(rhs_z_l@ =~= want.z_l);
        assert(rhs_z_u@ =~= want.z_u);
        assert(rhs_s@ =~= want.s);
        assert(rhs_y_d@ =~= want.y_d);
    }
    OuterRhs { rhs_x, rhs_s, rhs_y_c, rhs_y_d, rhs_z_l, rhs_z_u, rhs_v_l, rhs_v_u }
}

/// An entry of the folded right-hand side: the negated residual, with the
/// complementarity of each finite bound over the distance to it.
pub open spec fn folded_entry<F: Fn(FloatOp, u64, u64) -> u64>(
    r: u64,
    v: u64,
    lower: u64,
    upper: u64,
    c_l: u64,
    c_u: u64,
    fpu: Fpu<F>,
) -> u64 {
    let a = negated(r);
    let b = if finite(lower) {
        fpu.difference(a, fpu.quotient(c_l, slack(v, lower, fpu)))
    } else {
        a
    };
    if finite(upper) {
        fpu.sum(b, fpu.quotient(c_u, slack(upper, v, fpu)))
    } else {
        b
    }
}

fn folded_of<F: Fn(FloatOp, u64, u64) -> u64>(
    r: u64,
    v: u64,
    lower: u64,
    upper: u64,
    c_l: u64,
    c_u: u64,
    fpu: &Fpu<F>,
) -> (f: u64)
    requires
        fpu.sound(),
    ensures
        f == folded_entry(r, v, lower, upper, c_l, c_u, *fpu),
{
    let mut f: u64 = neg(r);
    if is_finite(lower) {
        f = fpu.sub(f, fpu.div(c_l, safe_slack(v, lower, fpu)));
    }
    if is_finite(upper) {
        f = fpu.add(f, fpu.div(c_u, safe_slack(upper, v, fpu)));
    }
    f
}

/// The right-hand side of the augmented system. Its solution is the step.
pub open spec fn folded<F: Fn(FloatOp, u64, u64) -> u64>(
    n: int,
    p: PartitionModel,
    rhs: OuterModel,
    x: Seq<u64>,
    x_l: Seq<u64>,
    x_u: Seq<u64>,
    s: Seq<u64>,
    g_l: Seq<u64>,
    g_u: Seq<u64>,
    fpu: Fpu<F>,
) -> Seq<u64> {
    let n_c = p.n_c as int;
    let n_d = p.n_d as int;
    let map = p.ineq_to_constraint;
    Seq::new(
        (n + n_d + n_c + n_d) as nat,
        |j: int|
            if j < n {
                folded_entry(rhs.x[j], x[j], x_l[j], x_u[j], rhs.z_l[j], rhs.z_u[j], fpu)
            } else if j < n + n_d {
                let i = map[j - n] as int;
                folded_entry(rhs.s[j - n], s[i], g_l[i], g_u[i], rhs.v_l[i], rhs.v_u[i], fpu)
            } else if j < n + n_d + n_c {
                negated(rhs.y_c[j - n - n_d])
            } else {
                negated(rhs.y_d[j - n - n_d - n_c])
            },
    )
}

/// The residuals have an entry for each of `n` variables and the constraints.
pub open spec fn outer_fits(rhs: OuterModel, n: int, p: PartitionModel, m: int) -> bool {
    &&& rhs.x.len() >= n
    &&& rhs.z_l.len() >= n
    &&& rhs.z_u.len() >= n
    &&& rhs.s.len() >= p.n_d
    &&& rhs.y_c.len() >= p.n_c
    &&& rhs.y_d.len() >= p.n_d
    &&& rhs.v_l.len() >= m
    &&& rhs.v_u.len() >= m
}

/// Folds the residuals into the right-hand side of the augmented system.
pub fn fold_aug_rhs<F: Fn(FloatOp, u64, u64) -> u64>(
    n: usize,
    partition: &ConstraintPartition,
    rhs: &OuterRhs,
    x: &[u64],
    x_l: &[u64],
    x_u: &[u64],
    s: &[u64],
    g_l: &[u64],
    g_u: &[u64],
    fpu: &Fpu<F>,
) -> (aug: Vec<u64>)
    requires
        fpu.sound(),
        partition.fits(g_l@.len()),
        n + partition.n_d + partition.n_c + partition.n_d <= usize::MAX,
        outer_fits(rhs.model(), n as int, partition.model(), g_l@.len() as int),
        x@.len() >= n,
        x_l@.len() >= n,
        x_u@.len() >= n,
        s@.len() >= g_l@.len(),
        g_u@.len() >= g_l@.len(),
    ensures
        aug@ == folded(
            n as int,
            partition.model(),
            rhs.model(),
            x@,
            x_l@,
            x_u@,
            s@,
            g_l@,
            g_u@,
            *fpu,
        ),
        aug@.len() == n + partition.n_d + partition.n_c + partition.n_d,
{
    let n_c: usize = partition.n_c;
    let n_d: usize = partition.n_d;
    let ghost want = folded(
        n as int,
        partition.model(),
        rhs.model(),
        x@,
        x_l@,
        x_u@,
        s@,
        g_l@,
        g_u@,
        *fpu,
    );
    let mut aug: Vec<u64> = Vec::with_capacity(n + n_d + n_c + n_d);
    for i in 0..n
        invariant
            fpu.sound(),
            outer_fits(rhs.model(), n as int, partition.model(), g_l@.len() as int),
            x@.len() >= n,
            x_l@.len() >= n,
            x_u@.len() >= n,
            want == folded(
                n as int,
                partition.model(),
                rhs.model(),
                x@,
                x_l@,
                x_u@,
                s@,
                g_l@,
                g_u@,
                *fpu,
            ),
            aug@ == want.take(i as int),
    {
        aug.push(
            folded_of(
                rhs.rhs_x[i],
                x[i],
                x_l[i],
                x_u[i],
                rhs.rhs_z_l[i],
                rhs.rhs_z_u[i],
                fpu,
            ),
        );
        assert(aug@ =~= want.take(i + 1));
    }
    for k in 0..n_d
        invariant
            fpu.sound(),
            n_d == partition.n_d,
            partition.fits(g_l@.len()),
            outer_fits(rhs.model(), n as int, partition.model(), g_l@.len() as int),
            s@.len() >= g_l@.len(),
            g_u@.len() >= g_l@.len(),
            want == folded(
                n as int,
                partition.model(),
                rhs.model(),
                x@,
                x_l@,
                x_u@,
                s@,
                g_l@,
                g_u@,
                *fpu,
            ),
            aug@ == want.take(n + k),
    {
        let i: usize = partition.ineq_to_constraint[k];
        assert(partition.ineq_to_constraint@[k as int] < g_l@.len());
        aug.push(
            folded_of(
                rhs.rhs_s[k],
                s[i],
                g_l[i],
                g_u[i],
                rhs.rhs_v_l[i],
                rhs.rhs_v_u[i],
                fpu,
            ),
        );
        assert(aug@ =~= want.take(n + k + 1));
    }
    for k in 0..n_c
        invariant
            n_d == partition.n_d,
            n_c == partition.n_c,
            outer_fits(rhs.model(), n as int, partition.model(), g_l@.len() as int),
            want == folded(
                n as int,
                partition.model(),
                rhs.model(),
                x@,
                x_l@,
                x_u@,
                s@,
                g_l@,
                g_u@,
                *fpu,
            ),
            aug@ == want.take(n + n_d + k),
    {
        aug.push(neg(rhs.rhs_y_c[k]));
        assert(aug@ =~= want.take(n + n_d + k + 1));
    }
    for k in 0..n_d
        invariant
            n_d == partition.n_d,
            n_c == partition.n_c,
            outer_fits(rhs.model(), n as int, partition.model(), g_l@.len() as int),
            want == folded(
                n as int,
                partition.model(),
                rhs.model(),
                x@,
                x_l@,
                x_u@,
                s@,
                g_l@,
                g_u@,
                *fpu,
            ),
            aug@ == want.take(n + n_d + n_c + k),
    {
        aug.push(neg(rhs.rhs_y_d[k]));
        assert(aug@ =~= want.take(n + n_d + n_c + k + 1));
    }
    assert(aug@ =~= want);
    aug
}

/// The steps of all unknowns.
#[derive(Debug)]
pub struct AugStep {
    pub dx: Vec<u64>,
    /// Steps of the slacks, one entry per constraint; zero for an equation.
    pub ds: Vec<u64>,
    pub dy_c: Vec<u64>,
    pub dy_d: Vec<u64>,
    /// Steps of the constraint multipliers, one entry per constraint.
    pub dy_m: Vec<u64>,
    pub dz_l: Vec<u64>,
    pub dz_u: Vec<u64>,
    /// Steps of the multipliers of the constraint bounds, one entry per
    /// constraint.
    pub dv_l: Vec<u64>,
    pub dv_u: Vec<u64>,
}

#[verifier::ext_equal]
pub struct StepModel {
    pub dx: Seq<u64>,
    pub ds: Seq<u64>,
    pub dy_c: Seq<u64>,
    pub dy_d: Seq<u64>,
    pub dy_m: Seq<u64>,
    pub dz_l: Seq<u64>,
    pub dz_u: Seq<u64>,
    pub dv_l: Seq<u64>,
    pub dv_u: Seq<u64>,
}

impl AugStep {
    pub open spec fn model(&self) -> StepModel {
        StepModel {
            dx: self.dx@,
            ds: self.ds@,
            dy_c: self.dy_c@,
            dy_d: self.dy_d@,
            dy_m: self.dy_m@,
            dz_l: self.dz_l@,
            dz_u: self.dz_u@,
            dv_l: self.dv_l@,
            dv_u: self.dv_u@,
        }
    }
}

/// Whether the step has an entry for each of `n` variables and `m` constraints.
pub open spec fn step_covers(step: StepModel, n: int, m: int) -> bool {
    &&& step.dx.len() >= n
    &&& step.dz_l.len() >= n
    &&& step.dz_u.len() >= n
    &&& step.ds.len() >= m
    &&& step.dv_l.len() >= m
    &&& step.dv_u.len() >= m
}

/// Steps of the multipliers of the constraint bounds, one per inequality.
pub open spec fn slack_multiplier_steps<F: Fn(FloatOp, u64, u64) -> u64>(
    map: Seq<usize>,
    s: Seq<u64>,
    bounds: Seq<u64>,
    v: Seq<u64>,
    ds: Seq<u64>,
    mu: u64,
    upper: bool,
    fpu: Fpu<F>,
) -> Seq<u64> {
    Seq::new(
        map.len(),
        |k: int|
            {
                let i = map[k] as int;
                if upper {
                    upper_step(s[i], bounds[i], v[i], ds[k], mu, fpu)
                } else {
                    lower_step(s[i], bounds[i], v[i], ds[k], mu, fpu)
                }
            },
    )
}

/// `base` with the value at its place for the first `k` constraints that have
/// one.
pub open spec fn picked(base: Seq<u64>, place: Seq<Option<usize>>, vals: Seq<u64>, k: nat) -> Seq<
    u64,
>
    decreases k,
{
    if k == 0 {
        base
    } else {
        let before = picked(base, place, vals, (k - 1) as nat);
        match place[k - 1] {
            Some(p) => before.update(k - 1, vals[p as int]),
            None => before,
        }
    }
}

/// The steps of all unknowns, from a solution of the augmented system.
pub open spec fn recovered<F: Fn(FloatOp, u64, u64) -> u64>(
    n: int,
    p: PartitionModel,
    sol: Seq<u64>,
    it: Iterate,
    mu: u64,
    fpu: Fpu<F>,
) -> StepModel {
    let n_c = p.n_c as int;
    let n_d = p.n_d as int;
    let m = it.g_l.len();
    let map = p.ineq_to_constraint;
    let dx = sol.subrange(0, n);
    let ds = sol.subrange(n, n + n_d);
    let dy_c = sol.subrange(n + n_d, n + n_d + n_c);
    let dy_d = sol.subrange(n + n_d + n_c, n + n_d + n_c + n_d);
    let x = it.x.take(n);
    StepModel {
        dx,
        ds: scattered(zeros(m), map, ds, map.len()),
        dy_c,
        dy_d,
        dy_m: scattered(picked(zeros(m), p.eq_pos, dy_c, p.eq_pos.len()), map, dy_d, map.len()),
        dz_l: lower_steps(x, it.x_l, it.z_l, dx, mu, fpu),
        dz_u: upper_steps(x, it.x_u, it.z_u, dx, mu, fpu),
        dv_l: scattered(
            zeros(m),
            map,
            slack_multiplier_steps(map, it.s, it.g_l, it.v_l, ds, mu, false, fpu),
            map.len(),
        ),
        dv_u: scattered(
            zeros(m),
            map,
            slack_multiplier_steps(map, it.s, it.g_u, it.v_u, ds, mu, true, fpu),
            map.len(),
        ),
    }
}

pub(crate) fn part(v: &[u64], start: usize, end: usize) -> (r: Vec<u64>)
    requires
        start <= end <= v@.len(),
    ensures
        r@ == v@.subrange(start as int, end as int),
{
    let mut r: Vec<u64> = Vec::with_capacity(end - start);
    for i in start..end
        invariant
            start <= i <= end <= v@.len(),
            r@ == v@.subrange(start as int, i as int),
    {
        r.push(v[i]);
        assert(r@ =~= v@.subrange(start as int, i + 1));
    }
    r
}

/// Splits a solution of the augmented system and recovers the steps of the
/// multipliers that were eliminated.
#[verifier::rlimit(40)]
pub fn recover_step<F: Fn(FloatOp, u64, u64) -> u64>(
    n: usize,
    partition: &ConstraintPartition,
    aug_sol: &[u64],
    x: &[u64],
    x_l: &[u64],
    x_u: &[u64],
    z_l: &[u64],
    z_u: &[u64],
    s: &[u64],
    g_l: &[u64],
    g_u: &[u64],
    v_l: &[u64],
    v_u: &[u64],
    mu: u64,
    fpu: &Fpu<F>,
) -> (step: AugStep)
    requires
        fpu.sound(),
        partition.fits(g_l@.len()),
        aug_sol@.len() == n + partition.n_d + partition.n_c + partition.n_d,
        x@.len() >= n,
        x_l@.len() >= n,
        x_u@.len() >= n,
        z_l@.len() >= n,
        z_u@.len() >= n,
        s@.len() >= g_l@.len(),
        g_u@.len() >= g_l@.len(),
        v_l@.len() >= g_l@.len(),
        v_u@.len() >= g_l@.len(),
    ensures
        step_covers(step.model(), n as int, g_l@.len() as int),
        forall|it: Iterate|
            it.x == x@ && it.x_l == x_l@ && it.x_u == x_u@ && it.z_l == z_l@ && it.z_u == z_u@
                && it.s == s@ && it.g_l == g_l@ && it.g_u == g_u@ && it.v_l == v_l@ && it.v_u
                == v_u@ ==> step.model() == #[trigger] recovered(
                n as int,
                partition.model(),
                aug_sol@,
                it,
                mu,
                *fpu,
            ),
{
    let n_c: usize = partition.n_c;
    let n_d: usize = partition.n_d;
    let m: usize = g_l.len();
    let total: usize = aug_sol.len();
    let dx: Vec<u64> = part(aug_sol, 0, n);
    let ds_d: Vec<u64> = part(aug_sol, n, n + n_d);
    let dy_c: Vec<u64> = part(aug_sol, n + n_d, n + n_d + n_c);
    let dy_d: Vec<u64> = part(aug_sol, n + n_d + n_c, total);
    let head: Vec<u64> = part(x, 0, n);
    assert(head@ =~= x@.take(n as int));
    let (dz_l, dz_u): (Vec<u64>, Vec<u64>) = recover_dz(
        &head,
        x_l,
        x_u,
        z_l,
        z_u,
        &dx,
        mu,
        fpu,
    );
    let ghost map = partition.ineq_to_constraint@;
    let ghost below = slack_multiplier_steps(map, s@, g_l@, v_l@, ds_d@, mu, false, *fpu);
    let ghost above = slack_multiplier_steps(map, s@, g_u@, v_u@, ds_d@, mu, true, *fpu);
    let mut dv_l: Vec<u64> = vec![ZERO; m];
    let mut dv_u: Vec<u64> = vec![ZERO; m];
    let mut ds: Vec<u64> = vec![ZERO; m];
    let mut dy_m: Vec<u64> = vec![ZERO; m];
    assert(dv_l@ =~= zeros(m as nat));
    assert(dv_u@ =~= zeros(m as nat));
    assert(ds@ =~= zeros(m as nat));
    assert(dy_m@ =~= zeros(m as nat));
    for i in 0..m
        invariant
            m == g_l@.len(),
            partition.fits(m as nat),
            dy_c@.len() == partition.n_c,
            dy_m@.len() == m,
            dy_m@ == picked(zeros(m as nat), partition.eq_pos@, dy_c@, i as nat),
    {
        assert(partition.eq_pos@[i as int] matches Some(p) ==> p < partition.n_c);
        match partition.eq_pos[i] {
            Some(k) => {
                dy_m.set(i, dy_c[k]);
            },
            None => {},
        }
    }
    let ghost chosen = dy_m@;
    for k in 0..n_d
        invariant
            fpu.sound(),
            m == g_l@.len(),
            n_d == partition.n_d,
            map == partition.ineq_to_constraint@,
            partition.fits(m as nat),
            s@.len() >= m,
            g_u@.len() >= m,
            v_l@.len() >= m,
            v_u@.len() >= m,
            ds_d@.len() == n_d,
            dy_d@.len() == n_d,
            below == slack_multiplier_steps(map, s@, g_l@, v_l@, ds_d@, mu, false, *fpu),
            above == slack_multiplier_steps(map, s@, g_u@, v_u@, ds_d@, mu, true, *fpu),
            dv_l@.len() == m,
            dv_u@.len() == m,
            ds@.len() == m,
            dy_m@.len() == m,
            dv_l@ == scattered(zeros(m as nat), map, below, k as nat),
            dv_u@ == scattered(zeros(m as nat), map, above, k as nat),
            ds@ == scattered(zeros(m as nat), map, ds_d@, k as nat),
            dy_m@ == scattered(chosen, map, dy_d@, k as nat),
    {
        let i: usize = partition.ineq_to_constraint[k];
        assert(map[k as int] < m);
        let l: u64 = if is_finite(g_l[i]) {
            step_of_multiplier(mu, v_l[i], safe_slack(s[i], g_l[i], fpu), ds_d[k], false, fpu)
        } else {
            ZERO
        };
        let u: u64 = if is_finite(g_u[i]) {
            step_of_multiplier(mu, v_u[i], safe_slack(g_u[i], s[i], fpu), ds_d[k], true, fpu)
        } else {
            ZERO
        };
        dv_l.set(i, l);
        dv_u.set(i, u);
        ds.set(i, ds_d[k]);
        dy_m.set(i, dy_d[k]);
    }
    AugStep { dx, ds, dy_c, dy_d, dy_m, dz_l, dz_u, dv_l, dv_u }
}

} // verus!
