//! How the step of the augmented system relates to that of the condensed one.

use crate::float::{FloatOp, Fpu, ZERO};
use crate::kkt::barrier::{constraint_steps, lower_steps, upper_steps, zeros};
use crate::kkt::layout::{constraints_of, is_equation};
use crate::kkt_aug::system::{
    partition_inverts, partition_of, recovered, scattered, slack_multiplier_steps, Iterate,
};
use vstd::prelude::*;

verus! {

/// The inequalities are listed in order, and no equation is among them.
pub(crate) proof fn lemma_listed<F: Fn(FloatOp, u64, u64) -> u64>(
    g_l: Seq<u64>,
    g_u: Seq<u64>,
    m: nat,
    fpu: Fpu<F>,
)
    requires
        m <= usize::MAX,
    ensures
        ({
            let map = constraints_of(g_l, g_u, m, false, fpu);
            &&& forall|k: int|
                0 <= k < map.len() ==> (#[trigger] map[k]) < m && !is_equation(
                    g_l[map[k] as int],
                    g_u[map[k] as int],
                    fpu,
                )
            &&& forall|k: int, l: int| 0 <= k < l < map.len() ==> map[k] < map[l]
        }),
    decreases m,
{
    if m > 0 {
        lemma_listed(g_l, g_u, (m - 1) as nat, fpu);
        let before = constraints_of(g_l, g_u, (m - 1) as nat, false, fpu);
        let map = constraints_of(g_l, g_u, m, false, fpu);
        assert forall|k: int| 0 <= k < map.len() implies (#[trigger] map[k]) < m && !is_equation(
            g_l[map[k] as int],
            g_u[map[k] as int],
            fpu,
        ) by {
            if k < before.len() {
                assert(map[k] == before[k]);
            } else {
                assert(map[k] == (m - 1) as usize);
            }
        }
        assert forall|k: int, l: int| 0 <= k < l < map.len() implies map[k] < map[l] by {
            assert(map[k] == before[k]);
            if l < before.len() {
                assert(map[l] == before[l]);
            }
        }
    }
}

/// Scattering leaves entries that are not listed.
pub(crate) proof fn lemma_unlisted(base: Seq<u64>, map: Seq<usize>, vals: Seq<u64>, k: nat, i: int)
    requires
        k <= map.len(),
        0 <= i < base.len(),
        forall|l: int| 0 <= l < k ==> (#[trigger] map[l]) != i && map[l] < base.len(),
    ensures
        scattered(base, map, vals, k).len() == base.len(),
        scattered(base, map, vals, k)[i] == base[i],
    decreases k,
{
    if k > 0 {
        lemma_unlisted(base, map, vals, (k - 1) as nat, i);
        assert(map[k - 1] != i);
    }
}

/// Scattering puts a value at the entry that is listed for it.
pub(crate) proof fn lemma_listed_entry(base: Seq<u64>, map: Seq<usize>, vals: Seq<u64>, k: nat, p: int)
    requires
        k <= map.len(),
        0 <= p < k,
        forall|l: int| 0 <= l < map.len() ==> (#[trigger] map[l]) < base.len(),
        forall|a: int, b: int| 0 <= a < b < map.len() ==> map[a] < map[b],
    ensures
        scattered(base, map, vals, k).len() == base.len(),
        scattered(base, map, vals, k)[map[p] as int] == vals[p],
    decreases k,
{
    if p == k - 1 {
        lemma_unlisted(base, map, vals, (k - 1) as nat, map[p] as int);
    } else {
        lemma_listed_entry(base, map, vals, (k - 1) as nat, p);
        assert(map[p] < map[k - 1]);
    }
}

/// Values for the inequalities, scattered over all constraints: each at its
/// inequality, and zero at an equation.
pub(crate) proof fn lemma_scattered_constraints<F: Fn(FloatOp, u64, u64) -> u64>(
    g_l: Seq<u64>,
    g_u: Seq<u64>,
    vals: Seq<u64>,
    i: int,
    fpu: Fpu<F>,
)
    requires
        g_l.len() <= usize::MAX,
        0 <= i < g_l.len(),
    ensures
        ({
            let p = partition_of(g_l, g_u, fpu);
            let map = p.ineq_to_constraint;
            let full = scattered(zeros(g_l.len()), map, vals, map.len());
            &&& full.len() == g_l.len()
            &&& if is_equation(g_l[i], g_u[i], fpu) {
                full[i] == ZERO
            } else {
                let k = p.ineq_pos[i]->Some_0 as int;
                0 <= k < map.len() && map[k] == i && full[i] == vals[k]
            }
        }),
{
    let m = g_l.len();
    let p = partition_of(g_l, g_u, fpu);
    let map = p.ineq_to_constraint;
    lemma_listed(g_l, g_u, m, fpu);
    if is_equation(g_l[i], g_u[i], fpu) {
        lemma_unlisted(zeros(m), map, vals, map.len(), i);
    } else {
        partition_inverts(g_l, g_u, i, fpu);
        lemma_listed_entry(zeros(m), map, vals, map.len(), p.ineq_pos[i]->Some_0 as int);
    }
}

/// One kind of constraint multiplier, recovered from the augmented system.
proof fn lemma_constraint_multipliers<F: Fn(FloatOp, u64, u64) -> u64>(
    g_l: Seq<u64>,
    g_u: Seq<u64>,
    s: Seq<u64>,
    v: Seq<u64>,
    ds: Seq<u64>,
    mu: u64,
    upper: bool,
    fpu: Fpu<F>,
)
    requires
        g_l.len() <= usize::MAX,
    ensures
        ({
            let m = g_l.len();
            let map = partition_of(g_l, g_u, fpu).ineq_to_constraint;
            let bounds = if upper {
                g_u
            } else {
                g_l
            };
            let steps = slack_multiplier_steps(map, s, bounds, v, ds, mu, upper, fpu);
            scattered(zeros(m), map, steps, map.len()) == constraint_steps(
                m,
                g_l,
                g_u,
                s,
                v,
                scattered(zeros(m), map, ds, map.len()),
                mu,
                upper,
                fpu,
            )
        }),
{
    let m = g_l.len();
    let map = partition_of(g_l, g_u, fpu).ineq_to_constraint;
    let bounds = if upper {
        g_u
    } else {
        g_l
    };
    let steps = slack_multiplier_steps(map, s, bounds, v, ds, mu, upper, fpu);
    let full = scattered(zeros(m), map, ds, map.len());
    let got = scattered(zeros(m), map, steps, map.len());
    let want = constraint_steps(m, g_l, g_u, s, v, full, mu, upper, fpu);
    assert forall|i: int| 0 <= i < m implies got[i] == want[i] by {
        lemma_scattered_constraints(g_l, g_u, steps, i, fpu);
        lemma_scattered_constraints(g_l, g_u, ds, i, fpu);
    }
    if m > 0 {
        lemma_scattered_constraints(g_l, g_u, steps, 0, fpu);
    }
    assert(got =~= want);
}

/// A step that is recovered from the augmented system has the steps of all
/// bound multipliers that `recover_dz` and `recover_dv` give for its steps of
/// the variables and of the slacks.
pub proof fn recovered_multipliers_agree<F: Fn(FloatOp, u64, u64) -> u64>(
    n: int,
    sol: Seq<u64>,
    it: Iterate,
    mu: u64,
    fpu: Fpu<F>,
)
    requires
        it.g_l.len() <= usize::MAX,
        0 <= n <= it.x.len(),
        ({
            let p = partition_of(it.g_l, it.g_u, fpu);
            sol.len() == n + p.n_d + p.n_c + p.n_d
        }),
    ensures
        ({
            let m = it.g_l.len();
            let step = recovered(n, partition_of(it.g_l, it.g_u, fpu), sol, it, mu, fpu);
            &&& step.dz_l == lower_steps(it.x.take(n), it.x_l, it.z_l, step.dx, mu, fpu)
            &&& step.dz_u == upper_steps(it.x.take(n), it.x_u, it.z_u, step.dx, mu, fpu)
            &&& step.dv_l == constraint_steps(
                m,
                it.g_l,
                it.g_u,
                it.s,
                it.v_l,
                step.ds,
                mu,
                false,
                fpu,
            )
            &&& step.dv_u == constraint_steps(
                m,
                it.g_l,
                it.g_u,
                it.s,
                it.v_u,
                step.ds,
                mu,
                true,
                fpu,
            )
        }),
{
    let p = partition_of(it.g_l, it.g_u, fpu);
    let ds = sol.subrange(n, n + p.n_d);
    lemma_constraint_multipliers(it.g_l, it.g_u, it.s, it.v_l, ds, mu, false, fpu);
    lemma_constraint_multipliers(it.g_l, it.g_u, it.s, it.v_u, ds, mu, true, fpu);
}

} // verus!
