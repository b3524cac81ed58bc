//! The barrier parameter that an affine step suggests.

use crate::float::{
    finite, is_finite, le, lt, neg, negated, num_le, num_lt, FloatOp, Fpu, HUNDRED, ONE, TEN_M20,
    ZERO,
};
use crate::kkt::barrier::{safe_slack, slack};
use crate::kkt_aug::system::{step_covers, AugStep, ConstraintPartition, Iterate, StepModel};
use vstd::prelude::*;

verus! {

/// Default of the largest ratio of the new barrier parameter to the old one.
pub const PROBING_SIGMA_MAX_DEFAULT: u64 = HUNDRED;

/// The step length that keeps `v` between its bounds, at most `alpha`.
pub open spec fn primal_limit<F: Fn(FloatOp, u64, u64) -> u64>(
    alpha: u64,
    v: u64,
    lower: u64,
    upper: u64,
    d: u64,
    fpu: Fpu<F>,
) -> u64 {
    let a = if finite(lower) && num_lt(d, ZERO) {
        fpu.calc(
            FloatOp::Min,
            alpha,
            fpu.quotient(fpu.product(ONE, slack(v, lower, fpu)), negated(d)),
        )
    } else {
        alpha
    };
    if finite(upper) && num_lt(ZERO, d) {
        fpu.calc(FloatOp::Min, a, fpu.quotient(fpu.product(ONE, slack(upper, v, fpu)), d))
    } else {
        a
    }
}

/// The step length that keeps a multiplier from falling below zero, at most
/// `alpha`.
pub open spec fn dual_limit<F: Fn(FloatOp, u64, u64) -> u64>(
    alpha: u64,
    bound: u64,
    z: u64,
    dz: u64,
    fpu: Fpu<F>,
) -> u64 {
    if finite(bound) && num_lt(dz, ZERO) {
        fpu.calc(
            FloatOp::Min,
            alpha,
            fpu.quotient(
                fpu.product(ONE, fpu.calc(FloatOp::Max, z, TEN_M20)),
                negated(dz),
            ),
        )
    } else {
        alpha
    }
}

/// Values between bounds, with the multipliers of the bounds and the steps of
/// all.
pub struct Bounded {
    pub v: Seq<u64>,
    pub lower: Seq<u64>,
    pub upper: Seq<u64>,
    pub z_l: Seq<u64>,
    pub z_u: Seq<u64>,
    pub d: Seq<u64>,
    pub dz_l: Seq<u64>,
    pub dz_u: Seq<u64>,
}

impl Bounded {
    /// There is an entry for each index in all lists.
    pub open spec fn covers(self, idx: Seq<usize>) -> bool {
        forall|k: int|
            0 <= k < idx.len() ==> {
                let i = #[trigger] idx[k];
                &&& i < self.v.len()
                &&& i < self.lower.len()
                &&& i < self.upper.len()
                &&& i < self.z_l.len()
                &&& i < self.z_u.len()
                &&& i < self.d.len()
                &&& i < self.dz_l.len()
                &&& i < self.dz_u.len()
            }
    }

    /// The step length for the first `k` indices, at most `alpha`.
    pub open spec fn primal<F: Fn(FloatOp, u64, u64) -> u64>(
        self,
        alpha: u64,
        idx: Seq<usize>,
        k: nat,
        fpu: Fpu<F>,
    ) -> u64
        decreases k,
    {
        if k == 0 {
            alpha
        } else {
            let i = idx[k - 1] as int;
            primal_limit(
                self.primal(alpha, idx, (k - 1) as nat, fpu),
                self.v[i],
                self.lower[i],
                self.upper[i],
                self.d[i],
                fpu,
            )
        }
    }

    /// The step length for the multipliers of the first `k` indices, at most
    /// `alpha`.
    pub open spec fn dual<F: Fn(FloatOp, u64, u64) -> u64>(
        self,
        alpha: u64,
        idx: Seq<usize>,
        k: nat,
        fpu: Fpu<F>,
    ) -> u64
        decreases k,
    {
        if k == 0 {
            alpha
        } else {
            let i = idx[k - 1] as int;
            dual_limit(
                dual_limit(
                    self.dual(alpha, idx, (k - 1) as nat, fpu),
                    self.lower[i],
                    self.z_l[i],
                    self.dz_l[i],
                    fpu,
                ),
                self.upper[i],
                self.z_u[i],
                self.dz_u[i],
                fpu,
            )
        }
    }

    /// Sum of the products of distances and multipliers after the step, and
    /// their number, for the first `k` indices.
    pub open spec fn products<F: Fn(FloatOp, u64, u64) -> u64>(
        self,
        start: (u64, int),
        idx: Seq<usize>,
        alpha_p: u64,
        alpha_d: u64,
        k: nat,
        fpu: Fpu<F>,
    ) -> (u64, int)
        decreases k,
    {
        if k == 0 {
            start
        } else {
            let i = idx[k - 1] as int;
            let (s, c) = self.products(start, idx, alpha_p, alpha_d, (k - 1) as nat, fpu);
            let (s1, c1) = if finite(self.lower[i]) {
                let distance = fpu.sum(
                    slack(self.v[i], self.lower[i], fpu),
                    fpu.product(alpha_p, self.d[i]),
                );
                let z = fpu.sum(self.z_l[i], fpu.product(alpha_d, self.dz_l[i]));
                (fpu.sum(s, fpu.product(distance, z)), c + 1)
            } else {
                (s, c)
            };
            if finite(self.upper[i]) {
                let distance = fpu.difference(
                    slack(self.upper[i], self.v[i], fpu),
                    fpu.product(alpha_p, self.d[i]),
                );
                let z = fpu.sum(self.z_u[i], fpu.product(alpha_d, self.dz_u[i]));
                (fpu.sum(s1, fpu.product(distance, z)), c1 + 1)
            } else {
                (s1, c1)
            }
        }
    }
}

/// A value held between zero and one.
pub open spec fn unit_clamped(a: u64) -> u64 {
    if num_lt(a, ZERO) {
        ZERO
    } else if num_lt(ONE, a) {
        ONE
    } else {
        a
    }
}

/// All indices below `n`.
pub open spec fn up_to(n: nat) -> Seq<usize> {
    Seq::new(n, |i: int| i as usize)
}

/// The variables of an iterate and the steps.
pub open spec fn variables_of(it: Iterate, step: StepModel) -> Bounded {
    Bounded {
        v: it.x,
        lower: it.x_l,
        upper: it.x_u,
        z_l: it.z_l,
        z_u: it.z_u,
        d: step.dx,
        dz_l: step.dz_l,
        dz_u: step.dz_u,
    }
}

/// The slacks of an iterate and the steps.
pub open spec fn slacks_of(it: Iterate, step: StepModel) -> Bounded {
    Bounded {
        v: it.s,
        lower: it.g_l,
        upper: it.g_u,
        z_l: it.v_l,
        z_u: it.v_u,
        d: step.ds,
        dz_l: step.dv_l,
        dz_u: step.dv_u,
    }
}

/// Lengths of the affine step in the primal and the dual unknowns.
pub open spec fn affine_lengths<F: Fn(FloatOp, u64, u64) -> u64>(
    n: nat,
    map: Seq<usize>,
    x: Bounded,
    s: Bounded,
    fpu: Fpu<F>,
) -> (u64, u64) {
    (
        unit_clamped(s.primal(x.primal(ONE, up_to(n), n, fpu), map, map.len(), fpu)),
        unit_clamped(s.dual(x.dual(ONE, up_to(n), n, fpu), map, map.len(), fpu)),
    )
}

/// The barrier parameter that the mean product after the affine step suggests:
/// the old one times the cube of the ratio of the two, within limits.
pub open spec fn suggested_mu<F: Fn(FloatOp, u64, u64) -> u64>(
    total: u64,
    count: int,
    mu_curr: u64,
    sigma_max: u64,
    mu_min: u64,
    mu_max: u64,
    fpu: Fpu<F>,
) -> Option<u64> {
    let mean = fpu.quotient(total, fpu.calc(FloatOp::FromCount, count as u64, ZERO));
    let ratio = fpu.quotient(mean, mu_curr);
    let sigma = fpu.calc(
        FloatOp::Min,
        fpu.product(ratio, fpu.product(ratio, ratio)),
        sigma_max,
    );
    let mu = fpu.calc(
        FloatOp::Min,
        fpu.calc(FloatOp::Max, fpu.product(sigma, mu_curr), mu_min),
        mu_max,
    );
    if count == 0 || !finite(mean) || num_lt(mean, ZERO) || !finite(mu) {
        None
    } else {
        Some(mu)
    }
}

/// The barrier parameter that an affine step suggests.
pub open spec fn probed_mu<F: Fn(FloatOp, u64, u64) -> u64>(
    n: nat,
    map: Seq<usize>,
    x: Bounded,
    s: Bounded,
    mu_curr: u64,
    sigma_max: u64,
    mu_min: u64,
    mu_max: u64,
    fpu: Fpu<F>,
) -> Option<u64> {
    let (alpha_p, alpha_d) = affine_lengths(n, map, x, s, fpu);
    let (total, count) = s.products(
        x.products((ZERO, 0), up_to(n), alpha_p, alpha_d, n, fpu),
        map,
        alpha_p,
        alpha_d,
        map.len(),
        fpu,
    );
    if num_le(mu_curr, ZERO) {
        None
    } else {
        suggested_mu(total, count, mu_curr, sigma_max, mu_min, mu_max, fpu)
    }
}

struct BoundedRef<'a> {
    v: &'a [u64],
    lower: &'a [u64],
    upper: &'a [u64],
    z_l: &'a [u64],
    z_u: &'a [u64],
    d: &'a Vec<u64>,
    dz_l: &'a Vec<u64>,
    dz_u: &'a Vec<u64>,
}

impl<'a> BoundedRef<'a> {
    spec fn model(&self) -> Bounded {
        Bounded {
            v: self.v@,
            lower: self.lower@,
            upper: self.upper@,
            z_l: self.z_l@,
            z_u: self.z_u@,
            d: self.d@,
            dz_l: self.dz_l@,
            dz_u: self.dz_u@,
        }
    }

    fn primal<F: Fn(FloatOp, u64, u64) -> u64>(
        &self,
        alpha: u64,
        idx: &Vec<usize>,
        fpu: &Fpu<F>,
    ) -> (r: u64)
        requires
            fpu.sound(),
            self.model().covers(idx@),
        ensures
            r == self.model().primal(alpha, idx@, idx@.len(), *fpu),
    {
        let mut a: u64 = alpha;
        for k in 0..idx.len()
            invariant
                fpu.sound(),
                self.model().covers(idx@),
                a == self.model().primal(alpha, idx@, k as nat, *fpu),
        {
            let i: usize = idx[k];
            let d: u64 = self.d[i];
            if is_finite(self.lower[i]) && lt(d, ZERO) {
                let room: u64 = safe_slack(self.v[i], self.lower[i], fpu);
                a = fpu.min(a, fpu.div(fpu.mul(ONE, room), neg(d)));
            }
            if is_finite(self.upper[i]) && lt(ZERO, d) {
                let room: u64 = safe_slack(self.upper[i], self.v[i], fpu);
                a = fpu.min(a, fpu.div(fpu.mul(ONE, room), d));
            }
        }
        a
    }

    fn dual<F: Fn(FloatOp, u64, u64) -> u64>(
        &self,
        alpha: u64,
        idx: &Vec<usize>,
        fpu: &Fpu<F>,
    ) -> (r: u64)
        requires
            fpu.sound(),
            self.model().covers(idx@),
        ensures
            r == self.model().dual(alpha, idx@, idx@.len(), *fpu),
    {
        let mut a: u64 = alpha;
        for k in 0..idx.len()
            invariant
                fpu.sound(),
                self.model().covers(idx@),
                a == self.model().dual(alpha, idx@, k as nat, *fpu),
        {
            let i: usize = idx[k];
            if is_finite(self.lower[i]) && lt(self.dz_l[i], ZERO) {
                let room: u64 = fpu.mul(ONE, fpu.max(self.z_l[i], TEN_M20));
                a = fpu.min(a, fpu.div(room, neg(self.dz_l[i])));
            }
            if is_finite(self.upper[i]) && lt(self.dz_u[i], ZERO) {
                let room: u64 = fpu.mul(ONE, fpu.max(self.z_u[i], TEN_M20));
                a = fpu.min(a, fpu.div(room, neg(self.dz_u[i])));
            }
        }
        a
    }

    fn products<F: Fn(FloatOp, u64, u64) -> u64>(
        &self,
        start: (u64, u64),
        idx: &Vec<usize>,
        alpha_p: u64,
        alpha_d: u64,
        fpu: &Fpu<F>,
    ) -> (r: (u64, u64))
        requires
            fpu.sound(),
            self.model().covers(idx@),
            start.1 + 2 * idx@.len() <= u64::MAX,
        ensures
            (r.0, r.1 as int) == self.model().products(
                (start.0, start.1 as int),
                idx@,
                alpha_p,
                alpha_d,
                idx@.len(),
                *fpu,
            ),
            r.1 <= start.1 + 2 * idx@.len(),
    {
        let mut total: u64 = start.0;
        let mut count: u64 = start.1;
        for k in 0..idx.len()
            invariant
                fpu.sound(),
                self.model().covers(idx@),
                start.1 + 2 * idx@.len() <= u64::MAX,
                count <= start.1 + 2 * k,
                (total, count as int) == self.model().products(
                    (start.0, start.1 as int),
                    idx@,
                    alpha_p,
                    alpha_d,
                    k as nat,
                    *fpu,
                ),
        {
            let i: usize = idx[k];
            if is_finite(self.lower[i]) {
                let distance: u64 = fpu.add(
                    safe_slack(self.v[i], self.lower[i], fpu),
                    fpu.mul(alpha_p, self.d[i]),
                );
                let z: u64 = fpu.add(self.z_l[i], fpu.mul(alpha_d, self.dz_l[i]));
                total = fpu.add(total, fpu.mul(distance, z));
                count = count + 1;
            }
            if is_finite(self.upper[i]) {
                let distance: u64 = fpu.sub(
                    safe_slack(self.upper[i], self.v[i], fpu),
                    fpu.mul(alpha_p, self.d[i]),
                );
                let z: u64 = fpu.add(self.z_u[i], fpu.mul(alpha_d, self.dz_u[i]));
                total = fpu.add(total, fpu.mul(distance, z));
                count = count + 1;
            }
        }
        (total, count)
    }
}

fn clamp_unit(a: u64) -> (r: u64)
    ensures
        r == unit_clamped(a),
{
    if lt(a, ZERO) {
        ZERO
    } else if lt(ONE, a) {
        ONE
    } else {
        a
    }
}

fn all_indices(n: usize) -> (idx: Vec<usize>)
    ensures
        idx@ == up_to(n as nat),
{
    let mut idx: Vec<usize> = Vec::with_capacity(n);
    for i in 0..n
        invariant
            idx@ == up_to(i as nat),
    {
        idx.push(i);
        assert(idx@ =~= up_to((i + 1) as nat));
    }
    idx
}

/// The barrier parameter that an affine step suggests: the mean product of
/// distance and multiplier after the longest affine step, set against the
/// present parameter. `None` where there are no bounds, the parameter is not
/// positive, or no finite one comes out.
pub fn aug_probing_mu_from_affine<F: Fn(FloatOp, u64, u64) -> u64>(
    n: usize,
    partition: &ConstraintPartition,
    step_aff: &AugStep,
    x: &[u64],
    x_l: &[u64],
    x_u: &[u64],
    z_l: &[u64],
    z_u: &[u64],
    s: &[u64],
    g_l: &[u64],
    g_u: &[u64],
    v_l: &[u64],
    v_u: &[u64],
    mu_curr: u64,
    sigma_max: u64,
    mu_min: u64,
    mu_max: u64,
    fpu: &Fpu<F>,
) -> (r: Option<u64>)
    requires
        fpu.sound(),
        partition.fits(g_l@.len()),
        step_covers(step_aff.model(), n as int, g_l@.len() as int),
        2 * n + 2 * partition.n_d <= u64::MAX,
        x@.len() >= n,
        x_l@.len() >= n,
        x_u@.len() >= n,
        z_l@.len() >= n,
        z_u@.len() >= n,
        s@.len() >= g_l@.len(),
        g_u@.len() >= g_l@.len(),
        v_l@.len() >= g_l@.len(),
        v_u@.len() >= g_l@.len(),
    ensures
        r == probed_mu(
            n as nat,
            partition.ineq_to_constraint@,
            Bounded {
                v: x@,
                lower: x_l@,
                upper: x_u@,
                z_l: z_l@,
                z_u: z_u@,
                d: step_aff.dx@,
                dz_l: step_aff.dz_l@,
                dz_u: step_aff.dz_u@,
            },
            Bounded {
                v: s@,
                lower: g_l@,
                upper: g_u@,
                z_l: v_l@,
                z_u: v_u@,
                d: step_aff.ds@,
                dz_l: step_aff.dv_l@,
                dz_u: step_aff.dv_u@,
            },
            mu_curr,
            sigma_max,
            mu_min,
            mu_max,
            *fpu,
        ),
{
    if le(mu_curr, ZERO) {
        return None;
    }
    let variables: BoundedRef<'_> = BoundedRef {
        v: x,
        lower: x_l,
        upper: x_u,
        z_l,
        z_u,
        d: &step_aff.dx,
        dz_l: &step_aff.dz_l,
        dz_u: &step_aff.dz_u,
    };
    let slacks: BoundedRef<'_> = BoundedRef {
        v: s,
        lower: g_l,
        upper: g_u,
        z_l: v_l,
        z_u: v_u,
        d: &step_aff.ds,
        dz_l: &step_aff.dv_l,
        dz_u: &step_aff.dv_u,
    };
    let idx: Vec<usize> = all_indices(n);
    let map: &Vec<usize> = &partition.ineq_to_constraint;
    assert(variables.model().covers(idx@));
    assert(slacks.model().covers(map@)) by {
        assert forall|k: int| 0 <= k < map@.len() implies (#[trigger] map@[k]) < g_l@.len() by {}
    }
    let mut alpha_p: u64 = variables.primal(ONE, &idx, fpu);
    alpha_p = clamp_unit(slacks.primal(alpha_p, map, fpu));
    let mut alpha_d: u64 = variables.dual(ONE, &idx, fpu);
    alpha_d = clamp_unit(slacks.dual(alpha_d, map, fpu));
    let part: (u64, u64) = variables.products((ZERO, 0), &idx, alpha_p, alpha_d, fpu);
    let (total, count): (u64, u64) = slacks.products(part, map, alpha_p, alpha_d, fpu);
    if count == 0 {
        return None;
    }
    let mean: u64 = fpu.div(total, fpu.run(FloatOp::FromCount, count, ZERO));
    if !is_finite(mean) || lt(mean, ZERO) {
        return None;
    }
    let ratio: u64 = fpu.div(mean, mu_curr);
    let sigma: u64 = fpu.min(fpu.mul(ratio, fpu.mul(ratio, ratio)), sigma_max);
    let mu_new: u64 = fpu.min(fpu.max(fpu.mul(sigma, mu_curr), mu_min), mu_max);
    if !is_finite(mu_new) {
        return None;
    }
    Some(mu_new)
}

} // verus!
