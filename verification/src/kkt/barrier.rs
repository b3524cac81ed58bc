//! Barrier terms and steps of the bound multipliers.

use crate::float::{finite, is_finite, lt, num_lt, FloatOp, Fpu, TEN_M20, ZERO};
use crate::kkt::layout::{bounded_below, is_equality_constraint, is_equation, BoundLayout};
use vstd::prelude::*;

verus! {

/// Distance to a bound, at least `1e-20`.
pub open spec fn slack<F: Fn(FloatOp, u64, u64) -> u64>(a: u64, b: u64, fpu: Fpu<F>) -> u64 {
    fpu.calc(FloatOp::Max, fpu.difference(a, b), TEN_M20)
}

pub fn safe_slack<F: Fn(FloatOp, u64, u64) -> u64>(a: u64, b: u64, fpu: &Fpu<F>) -> (s: u64)
    requires
        fpu.sound(),
    ensures
        s == slack(a, b, *fpu),
{
    fpu.max(fpu.sub(a, b), TEN_M20)
}

/// The barrier term of one variable: the multiplier of each finite bound over
/// the distance to it.
pub open spec fn sigma_entry<F: Fn(FloatOp, u64, u64) -> u64>(
    x: u64,
    x_l: u64,
    x_u: u64,
    z_l: u64,
    z_u: u64,
    fpu: Fpu<F>,
) -> u64 {
    let lower = if finite(x_l) {
        fpu.sum(ZERO, fpu.quotient(z_l, slack(x, x_l, fpu)))
    } else {
        ZERO
    };
    if finite(x_u) {
        fpu.sum(lower, fpu.quotient(z_u, slack(x_u, x, fpu)))
    } else {
        lower
    }
}

pub open spec fn sigma_of<F: Fn(FloatOp, u64, u64) -> u64>(
    x: Seq<u64>,
    x_l: Seq<u64>,
    x_u: Seq<u64>,
    z_l: Seq<u64>,
    z_u: Seq<u64>,
    fpu: Fpu<F>,
) -> Seq<u64> {
    Seq::new(x.len(), |i: int| sigma_entry(x[i], x_l[i], x_u[i], z_l[i], z_u[i], fpu))
}

/// The barrier diagonal `z_l / (x - x_l) + z_u / (x_u - x)`.
pub fn compute_sigma<F: Fn(FloatOp, u64, u64) -> u64>(
    x: &[u64],
    x_l: &[u64],
    x_u: &[u64],
    z_l: &[u64],
    z_u: &[u64],
    fpu: &Fpu<F>,
) -> (sigma: Vec<u64>)
    requires
        fpu.sound(),
        x_l@.len() >= x@.len(),
        x_u@.len() >= x@.len(),
        z_l@.len() >= x@.len(),
        z_u@.len() >= x@.len(),
    ensures
        sigma@ == sigma_of(x@, x_l@, x_u@, z_l@, z_u@, *fpu),
{
    let n: usize = x.len();
    let mut sigma: Vec<u64> = Vec::with_capacity(n);
    for i in 0..n
        invariant
            fpu.sound(),
            n == x@.len(),
            x_l@.len() >= n,
            x_u@.len() >= n,
            z_l@.len() >= n,
            z_u@.len() >= n,
            sigma@ == sigma_of(x@, x_l@, x_u@, z_l@, z_u@, *fpu).take(i as int),
    {
        let mut v: u64 = ZERO;
        if is_finite(x_l[i]) {
            v = fpu.add(v, fpu.div(z_l[i], safe_slack(x[i], x_l[i], fpu)));
        }
        if is_finite(x_u[i]) {
            v = fpu.add(v, fpu.div(z_u[i], safe_slack(x_u[i], x[i], fpu)));
        }
        sigma.push(v);
        assert(sigma@ =~= sigma_of(x@, x_l@, x_u@, z_l@, z_u@, *fpu).take(i + 1));
    }
    assert(sigma@ =~= sigma_of(x@, x_l@, x_u@, z_l@, z_u@, *fpu));
    sigma
}

/// `sigma` with the terms of the first `k` lower bounds added.
pub open spec fn lower_terms<F: Fn(FloatOp, u64, u64) -> u64>(
    sigma: Seq<u64>,
    x: Seq<u64>,
    x_l: Seq<u64>,
    z: Seq<u64>,
    map: Seq<usize>,
    k: nat,
    fpu: Fpu<F>,
) -> Seq<u64>
    decreases k,
{
    if k == 0 {
        sigma
    } else {
        let before = lower_terms(sigma, x, x_l, z, map, (k - 1) as nat, fpu);
        let i = map[k - 1] as int;
        before.update(i, fpu.sum(before[i], fpu.quotient(z[k - 1], slack(x[i], x_l[i], fpu))))
    }
}

/// `sigma` with the terms of the first `k` upper bounds added.
pub open spec fn upper_terms<F: Fn(FloatOp, u64, u64) -> u64>(
    sigma: Seq<u64>,
    x: Seq<u64>,
    x_u: Seq<u64>,
    z: Seq<u64>,
    map: Seq<usize>,
    k: nat,
    fpu: Fpu<F>,
) -> Seq<u64>
    decreases k,
{
    if k == 0 {
        sigma
    } else {
        let before = upper_terms(sigma, x, x_u, z, map, (k - 1) as nat, fpu);
        let i = map[k - 1] as int;
        before.update(i, fpu.sum(before[i], fpu.quotient(z[k - 1], slack(x_u[i], x[i], fpu))))
    }
}

pub open spec fn zeros(n: nat) -> Seq<u64> {
    Seq::new(n, |i: int| ZERO)
}

/// The barrier diagonal from multipliers that are kept for finite bounds only.
pub fn compute_sigma_compressed<F: Fn(FloatOp, u64, u64) -> u64>(
    x: &[u64],
    x_l: &[u64],
    x_u: &[u64],
    z_l_compressed: &[u64],
    z_u_compressed: &[u64],
    bound_layout: &BoundLayout,
    fpu: &Fpu<F>,
) -> (sigma: Vec<u64>)
    requires
        fpu.sound(),
        x_l@.len() >= x@.len(),
        x_u@.len() >= x@.len(),
        bound_layout.n_x_l <= bound_layout.x_l_to_full@.len(),
        bound_layout.n_x_u <= bound_layout.x_u_to_full@.len(),
        z_l_compressed@.len() >= bound_layout.n_x_l,
        z_u_compressed@.len() >= bound_layout.n_x_u,
        forall|k: int|
            0 <= k < bound_layout.n_x_l ==> #[trigger] bound_layout.x_l_to_full@[k] < x@.len(),
        forall|k: int|
            0 <= k < bound_layout.n_x_u ==> #[trigger] bound_layout.x_u_to_full@[k] < x@.len(),
    ensures
        sigma@ == upper_terms(
            lower_terms(
                zeros(x@.len()),
                x@,
                x_l@,
                z_l_compressed@,
                bound_layout.x_l_to_full@,
                bound_layout.n_x_l as nat,
                *fpu,
            ),
            x@,
            x_u@,
            z_u_compressed@,
            bound_layout.x_u_to_full@,
            bound_layout.n_x_u as nat,
            *fpu,
        ),
{
    let n: usize = x.len();
    let mut sigma: Vec<u64> = vec![ZERO; n];
    assert(sigma@ =~= zeros(n as nat));
    for k in 0..bound_layout.n_x_l
        invariant
            fpu.sound(),
            n == x@.len(),
            sigma@.len() == n,
            x_l@.len() >= n,
            bound_layout.n_x_l <= bound_layout.x_l_to_full@.len(),
            z_l_compressed@.len() >= bound_layout.n_x_l,
            forall|k: int|
                0 <= k < bound_layout.n_x_l ==> #[trigger] bound_layout.x_l_to_full@[k] < n,
            sigma@ == lower_terms(
                zeros(n as nat),
                x@,
                x_l@,
                z_l_compressed@,
                bound_layout.x_l_to_full@,
                k as nat,
                *fpu,
            ),
    {
        let i: usize = bound_layout.x_l_to_full[k];
        let s: u64 = safe_slack(x[i], x_l[i], fpu);
        sigma.set(i, fpu.add(sigma[i], fpu.div(z_l_compressed[k], s)));
    }
    let ghost first = sigma@;
    for k in 0..bound_layout.n_x_u
        invariant
            fpu.sound(),
            n == x@.len(),
            sigma@.len() == n,
            x_u@.len() >= n,
            bound_layout.n_x_u <= bound_layout.x_u_to_full@.len(),
            z_u_compressed@.len() >= bound_layout.n_x_u,
            forall|k: int|
                0 <= k < bound_layout.n_x_u ==> #[trigger] bound_layout.x_u_to_full@[k] < n,
            sigma@ == upper_terms(
                first,
                x@,
                x_u@,
                z_u_compressed@,
                bound_layout.x_u_to_full@,
                k as nat,
                *fpu,
            ),
    {
        let i: usize = bound_layout.x_u_to_full[k];
        let s: u64 = safe_slack(x_u[i], x[i], fpu);
        sigma.set(i, fpu.add(sigma[i], fpu.div(z_u_compressed[k], s)));
    }
    sigma
}

/// The multipliers of the finite bounds among `z`.
pub open spec fn compressed(z: Seq<u64>, map: Seq<usize>) -> Seq<u64> {
    Seq::new(map.len(), |k: int| z[map[k] as int])
}

proof fn lemma_bounded(bounds: Seq<u64>, i: nat)
    requires
        i <= bounds.len() <= usize::MAX,
    ensures
        forall|k: int|
            0 <= k < bounded_below(bounds, i).len() ==> (#[trigger] bounded_below(bounds, i)[k]) < i
                && finite(bounds[bounded_below(bounds, i)[k] as int]),
        bounded_below(bounds, i).len() <= i,
    decreases i,
{
    if i > 0 {
        lemma_bounded(bounds, (i - 1) as nat);
    }
}

proof fn lemma_lower_terms<F: Fn(FloatOp, u64, u64) -> u64>(
    sigma: Seq<u64>,
    x: Seq<u64>,
    x_l: Seq<u64>,
    z: Seq<u64>,
    zc: Seq<u64>,
    map: Seq<usize>,
    i: nat,
    fpu: Fpu<F>,
)
    requires
        i <= x.len() <= usize::MAX,
        x_l.len() == x.len(),
        sigma.len() == x.len(),
        bounded_below(x_l, i).is_prefix_of(map),
        zc.len() >= bounded_below(x_l, i).len(),
        forall|k: int|
            0 <= k < bounded_below(x_l, i).len() ==> #[trigger] zc[k] == z[map[k] as int],
    ensures
        lower_terms(sigma, x, x_l, zc, map, bounded_below(x_l, i).len(), fpu).len() == x.len(),
        forall|v: int|
            0 <= v < x.len() ==> #[trigger] lower_terms(
                sigma,
                x,
                x_l,
                zc,
                map,
                bounded_below(x_l, i).len(),
                fpu,
            )[v] == if v < i && finite(x_l[v]) {
                fpu.sum(sigma[v], fpu.quotient(z[v], slack(x[v], x_l[v], fpu)))
            } else {
                sigma[v]
            },
    decreases i,
{
    if i > 0 {
        let before = bounded_below(x_l, (i - 1) as nat);
        let now = bounded_below(x_l, i);
        assert(before.is_prefix_of(map)) by {
            if finite(x_l[i - 1]) {
                assert(before =~= now.take(before.len() as int));
                assert forall|k: int| 0 <= k < before.len() implies before[k] == map[k] by {
                    assert(now[k] == map[k]);
                }
                assert(before =~= map.subrange(0, before.len() as int));
            }
        }
        lemma_lower_terms(sigma, x, x_l, z, zc, map, (i - 1) as nat, fpu);
        if finite(x_l[i - 1]) {
            assert(now[before.len() as int] == map[before.len() as int]);
            assert(zc[before.len() as int] == z[map[before.len() as int] as int]);
        }
    }
}

proof fn lemma_upper_terms<F: Fn(FloatOp, u64, u64) -> u64>(
    sigma: Seq<u64>,
    x: Seq<u64>,
    x_u: Seq<u64>,
    z: Seq<u64>,
    zc: Seq<u64>,
    map: Seq<usize>,
    i: nat,
    fpu: Fpu<F>,
)
    requires
        i <= x.len() <= usize::MAX,
        x_u.len() == x.len(),
        sigma.len() == x.len(),
        bounded_below(x_u, i).is_prefix_of(map),
        zc.len() >= bounded_below(x_u, i).len(),
        forall|k: int|
            0 <= k < bounded_below(x_u, i).len() ==> #[trigger] zc[k] == z[map[k] as int],
    ensures
        upper_terms(sigma, x, x_u, zc, map, bounded_below(x_u, i).len(), fpu).len() == x.len(),
        forall|v: int|
            0 <= v < x.len() ==> #[trigger] upper_terms(
                sigma,
                x,
                x_u,
                zc,
                map,
                bounded_below(x_u, i).len(),
                fpu,
            )[v] == if v < i && finite(x_u[v]) {
                fpu.sum(sigma[v], fpu.quotient(z[v], slack(x_u[v], x[v], fpu)))
            } else {
                sigma[v]
            },
    decreases i,
{
    if i > 0 {
        let before = bounded_below(x_u, (i - 1) as nat);
        let now = bounded_below(x_u, i);
        assert(before.is_prefix_of(map)) by {
            if finite(x_u[i - 1]) {
                assert(before =~= now.take(before.len() as int));
                assert forall|k: int| 0 <= k < before.len() implies before[k] == map[k] by {
                    assert(now[k] == map[k]);
                }
                assert(before =~= map.subrange(0, before.len() as int));
            }
        }
        lemma_upper_terms(sigma, x, x_u, z, zc, map, (i - 1) as nat, fpu);
        if finite(x_u[i - 1]) {
            assert(now[before.len() as int] == map[before.len() as int]);
            assert(zc[before.len() as int] == z[map[before.len() as int] as int]);
        }
    }
}

/// The barrier diagonal is the same, bit for bit, whether the multipliers are
/// kept for all variables or for the finite bounds only.
pub proof fn compressed_sigma_is_sigma<F: Fn(FloatOp, u64, u64) -> u64>(
    x: Seq<u64>,
    x_l: Seq<u64>,
    x_u: Seq<u64>,
    z_l: Seq<u64>,
    z_u: Seq<u64>,
    fpu: Fpu<F>,
)
    requires
        x.len() <= usize::MAX,
        x_l.len() == x.len(),
        x_u.len() == x.len(),
    ensures
        ({
            let lower = bounded_below(x_l, x.len());
            let upper = bounded_below(x_u, x.len());
            upper_terms(
                lower_terms(
                    zeros(x.len()),
                    x,
                    x_l,
                    compressed(z_l, lower),
                    lower,
                    lower.len(),
                    fpu,
                ),
                x,
                x_u,
                compressed(z_u, upper),
                upper,
                upper.len(),
                fpu,
            ) == sigma_of(x, x_l, x_u, z_l, z_u, fpu)
        }),
{
    let lower = bounded_below(x_l, x.len());
    let upper = bounded_below(x_u, x.len());
    assert(lower.is_prefix_of(lower)) by {
        assert(lower =~= lower.subrange(0, lower.len() as int));
    }
    assert(upper.is_prefix_of(upper)) by {
        assert(upper =~= upper.subrange(0, upper.len() as int));
    }
    lemma_lower_terms(zeros(x.len()), x, x_l, z_l, compressed(z_l, lower), lower, x.len(), fpu);
    let first = lower_terms(
        zeros(x.len()),
        x,
        x_l,
        compressed(z_l, lower),
        lower,
        lower.len(),
        fpu,
    );
    lemma_upper_terms(first, x, x_u, z_u, compressed(z_u, upper), upper, x.len(), fpu);
    let second = upper_terms(first, x, x_u, compressed(z_u, upper), upper, upper.len(), fpu);
    assert(second =~= sigma_of(x, x_l, x_u, z_l, z_u, fpu));
}

/// Step of a multiplier from the linearized complementarity at slack `s`:
/// `(mu - z s) / s - (z / s) d`, or with a plus for a slack that shrinks as `d`
/// grows.
pub open spec fn multiplier_step<F: Fn(FloatOp, u64, u64) -> u64>(
    mu: u64,
    z: u64,
    s: u64,
    d: u64,
    upper: bool,
    fpu: Fpu<F>,
) -> u64 {
    let centered = fpu.quotient(fpu.difference(mu, fpu.product(z, s)), s);
    let coupled = fpu.product(fpu.quotient(z, s), d);
    if upper {
        fpu.sum(centered, coupled)
    } else {
        fpu.difference(centered, coupled)
    }
}

pub fn step_of_multiplier<F: Fn(FloatOp, u64, u64) -> u64>(
    mu: u64,
    z: u64,
    s: u64,
    d: u64,
    upper: bool,
    fpu: &Fpu<F>,
) -> (r: u64)
    requires
        fpu.sound(),
    ensures
        r == multiplier_step(mu, z, s, d, upper, *fpu),
{
    let centered: u64 = fpu.div(fpu.sub(mu, fpu.mul(z, s)), s);
    let coupled: u64 = fpu.mul(fpu.div(z, s), d);
    if upper {
        fpu.add(centered, coupled)
    } else {
        fpu.sub(centered, coupled)
    }
}

/// Step of the multiplier of a lower bound; zero where it is not finite.
pub open spec fn lower_step<F: Fn(FloatOp, u64, u64) -> u64>(
    x: u64,
    x_l: u64,
    z: u64,
    dx: u64,
    mu: u64,
    fpu: Fpu<F>,
) -> u64 {
    if finite(x_l) {
        multiplier_step(mu, z, slack(x, x_l, fpu), dx, false, fpu)
    } else {
        ZERO
    }
}

/// Step of the multiplier of an upper bound; zero where it is not finite.
pub open spec fn upper_step<F: Fn(FloatOp, u64, u64) -> u64>(
    x: u64,
    x_u: u64,
    z: u64,
    dx: u64,
    mu: u64,
    fpu: Fpu<F>,
) -> u64 {
    if finite(x_u) {
        multiplier_step(mu, z, slack(x_u, x, fpu), dx, true, fpu)
    } else {
        ZERO
    }
}

pub open spec fn lower_steps<F: Fn(FloatOp, u64, u64) -> u64>(
    x: Seq<u64>,
    x_l: Seq<u64>,
    z: Seq<u64>,
    dx: Seq<u64>,
    mu: u64,
    fpu: Fpu<F>,
) -> Seq<u64> {
    Seq::new(x.len(), |i: int| lower_step(x[i], x_l[i], z[i], dx[i], mu, fpu))
}

pub open spec fn upper_steps<F: Fn(FloatOp, u64, u64) -> u64>(
    x: Seq<u64>,
    x_u: Seq<u64>,
    z: Seq<u64>,
    dx: Seq<u64>,
    mu: u64,
    fpu: Fpu<F>,
) -> Seq<u64> {
    Seq::new(x.len(), |i: int| upper_step(x[i], x_u[i], z[i], dx[i], mu, fpu))
}

/// Steps of the bound multipliers, from the step of the variables.
pub fn recover_dz<F: Fn(FloatOp, u64, u64) -> u64>(
    x: &[u64],
    x_l: &[u64],
    x_u: &[u64],
    z_l: &[u64],
    z_u: &[u64],
    dx: &[u64],
    mu: u64,
    fpu: &Fpu<F>,
) -> (r: (Vec<u64>, Vec<u64>))
    requires
        fpu.sound(),
        x_l@.len() >= x@.len(),
        x_u@.len() >= x@.len(),
        z_l@.len() >= x@.len(),
        z_u@.len() >= x@.len(),
        dx@.len() >= x@.len(),
    ensures
        r.0@ == lower_steps(x@, x_l@, z_l@, dx@, mu, *fpu),
        r.1@ == upper_steps(x@, x_u@, z_u@, dx@, mu, *fpu),
{
    let n: usize = x.len();
    let mut dz_l: Vec<u64> = Vec::with_capacity(n);
    let mut dz_u: Vec<u64> = Vec::with_capacity(n);
    let ghost lower = lower_steps(x@, x_l@, z_l@, dx@, mu, *fpu);
    let ghost upper = upper_steps(x@, x_u@, z_u@, dx@, mu, *fpu);
    for i in 0..n
        invariant
            fpu.sound(),
            n == x@.len(),
            x_l@.len() >= n,
            x_u@.len() >= n,
            z_l@.len() >= n,
            z_u@.len() >= n,
            dx@.len() >= n,
            lower == lower_steps(x@, x_l@, z_l@, dx@, mu, *fpu),
            upper == upper_steps(x@, x_u@, z_u@, dx@, mu, *fpu),
            dz_l@ == lower.take(i as int),
            dz_u@ == upper.take(i as int),
    {
        let mut l: u64 = ZERO;
        let mut u: u64 = ZERO;
        if is_finite(x_l[i]) {
            let s: u64 = safe_slack(x[i], x_l[i], fpu);
            l = step_of_multiplier(mu, z_l[i], s, dx[i], false, fpu);
        }
        if is_finite(x_u[i]) {
            let s: u64 = safe_slack(x_u[i], x[i], fpu);
            u = step_of_multiplier(mu, z_u[i], s, dx[i], true, fpu);
        }
        dz_l.push(l);
        dz_u.push(u);
        assert(dz_l@ =~= lower.take(i + 1));
        assert(dz_u@ =~= upper.take(i + 1));
    }
    assert(dz_l@ =~= lower);
    assert(dz_u@ =~= upper);
    (dz_l, dz_u)
}

/// Steps of the multipliers of the constraint bounds; zero for an equation.
pub open spec fn constraint_steps<F: Fn(FloatOp, u64, u64) -> u64>(
    m: nat,
    g_l: Seq<u64>,
    g_u: Seq<u64>,
    s: Seq<u64>,
    v: Seq<u64>,
    ds: Seq<u64>,
    mu: u64,
    upper: bool,
    fpu: Fpu<F>,
) -> Seq<u64> {
    Seq::new(
        m,
        |i: int|
            if is_equation(g_l[i], g_u[i], fpu) {
                ZERO
            } else if upper {
                upper_step(s[i], g_u[i], v[i], ds[i], mu, fpu)
            } else {
                lower_step(s[i], g_l[i], v[i], ds[i], mu, fpu)
            },
    )
}

/// Steps of the multipliers of the constraint bounds, from the step of the
/// slacks.
pub fn recover_dv<F: Fn(FloatOp, u64, u64) -> u64>(
    m: usize,
    g_l: &[u64],
    g_u: &[u64],
    s: &[u64],
    v_l: &[u64],
    v_u: &[u64],
    ds: &[u64],
    mu: u64,
    fpu: &Fpu<F>,
) -> (r: (Vec<u64>, Vec<u64>))
    requires
        fpu.sound(),
        g_l@.len() >= m,
        g_u@.len() >= m,
        s@.len() >= m,
        v_l@.len() >= m,
        v_u@.len() >= m,
        ds@.len() >= m,
    ensures
        r.0@ == constraint_steps(m as nat, g_l@, g_u@, s@, v_l@, ds@, mu, false, *fpu),
        r.1@ == constraint_steps(m as nat, g_l@, g_u@, s@, v_u@, ds@, mu, true, *fpu),
{
    let mut dv_l: Vec<u64> = Vec::with_capacity(m);
    let mut dv_u: Vec<u64> = Vec::with_capacity(m);
    let ghost lower = constraint_steps(m as nat, g_l@, g_u@, s@, v_l@, ds@, mu, false, *fpu);
    let ghost upper = constraint_steps(m as nat, g_l@, g_u@, s@, v_u@, ds@, mu, true, *fpu);
    for i in 0..m
        invariant
            fpu.sound(),
            g_l@.len() >= m,
            g_u@.len() >= m,
            s@.len() >= m,
            v_l@.len() >= m,
            v_u@.len() >= m,
            ds@.len() >= m,
            lower == constraint_steps(m as nat, g_l@, g_u@, s@, v_l@, ds@, mu, false, *fpu),
            upper == constraint_steps(m as nat, g_l@, g_u@, s@, v_u@, ds@, mu, true, *fpu),
            dv_l@ == lower.take(i as int),
            dv_u@ == upper.take(i as int),
    {
        let mut l: u64 = ZERO;
        let mut u: u64 = ZERO;
        if !is_equality_constraint(g_l[i], g_u[i], fpu) {
            if is_finite(g_l[i]) {
                let slack_l: u64 = safe_slack(s[i], g_l[i], fpu);
                l = step_of_multiplier(mu, v_l[i], slack_l, ds[i], false, fpu);
            }
            if is_finite(g_u[i]) {
                let slack_u: u64 = safe_slack(g_u[i], s[i], fpu);
                u = step_of_multiplier(mu, v_u[i], slack_u, ds[i], true, fpu);
            }
        }
        dv_l.push(l);
        dv_u.push(u);
        assert(dv_l@ =~= lower.take(i + 1));
        assert(dv_u@ =~= upper.take(i + 1));
    }
    assert(dv_l@ =~= lower);
    assert(dv_u@ =~= upper);
    (dv_l, dv_u)
}

/// The product of the first `k` Jacobian entries with `dx`. Entries outside the
/// `m` by `n` block are left out.
pub open spec fn jacobian_product<F: Fn(FloatOp, u64, u64) -> u64>(
    n: nat,
    m: nat,
    rows: Seq<usize>,
    cols: Seq<usize>,
    vals: Seq<u64>,
    dx: Seq<u64>,
    k: nat,
    fpu: Fpu<F>,
) -> Seq<u64>
    decreases k,
{
    if k == 0 {
        zeros(m)
    } else {
        let before = jacobian_product(n, m, rows, cols, vals, dx, (k - 1) as nat, fpu);
        let r = rows[k - 1] as int;
        let c = cols[k - 1] as int;
        if c < n && r < m {
            before.update(r, fpu.sum(before[r], fpu.product(vals[k - 1], dx[c])))
        } else {
            before
        }
    }
}

/// How many places two index lists have in common.
pub open spec fn paired(rows: Seq<usize>, cols: Seq<usize>) -> nat {
    if rows.len() <= cols.len() {
        rows.len()
    } else {
        cols.len()
    }
}

pub fn pair_count(rows: &[usize], cols: &[usize]) -> (k: usize)
    ensures
        k == paired(rows@, cols@),
{
    if rows.len() <= cols.len() {
        rows.len()
    } else {
        cols.len()
    }
}

/// Steps of the slacks: `J dx + (g - s) - delta dy`, and zero for an equation.
pub open spec fn slack_steps<F: Fn(FloatOp, u64, u64) -> u64>(
    m: nat,
    jdx: Seq<u64>,
    g: Seq<u64>,
    g_l: Seq<u64>,
    g_u: Seq<u64>,
    s: Seq<u64>,
    dy: Seq<u64>,
    delta_d: Seq<u64>,
    fpu: Fpu<F>,
) -> Seq<u64> {
    Seq::new(
        m,
        |i: int|
            if is_equation(g_l[i], g_u[i], fpu) {
                ZERO
            } else {
                let dd = if i < delta_d.len() {
                    delta_d[i]
                } else {
                    ZERO
                };
                fpu.sum(
                    jdx[i],
                    fpu.difference(fpu.difference(g[i], s[i]), fpu.product(dd, dy[i])),
                )
            },
    )
}

/// Steps of the slacks, from the steps of the variables and the constraint
/// multipliers. Where `delta_d` is short its missing entries are zero.
pub fn recover_ds<F: Fn(FloatOp, u64, u64) -> u64>(
    n: usize,
    m: usize,
    jac_rows: &[usize],
    jac_cols: &[usize],
    jac_vals: &[u64],
    g: &[u64],
    g_l: &[u64],
    g_u: &[u64],
    s: &[u64],
    dx: &[u64],
    dy: &[u64],
    delta_d: &[u64],
    fpu: &Fpu<F>,
) -> (ds: Vec<u64>)
    requires
        fpu.sound(),
        jac_vals@.len() >= paired(jac_rows@, jac_cols@),
        dx@.len() >= n,
        g@.len() >= m,
        g_l@.len() >= m,
        g_u@.len() >= m,
        s@.len() >= m,
        dy@.len() >= m,
    ensures
        ds@ == slack_steps(
            m as nat,
            jacobian_product(
                n as nat,
                m as nat,
                jac_rows@,
                jac_cols@,
                jac_vals@,
                dx@,
                paired(jac_rows@, jac_cols@),
                *fpu,
            ),
            g@,
            g_l@,
            g_u@,
            s@,
            dy@,
            delta_d@,
            *fpu,
        ),
{
    let mut ds: Vec<u64> = vec![ZERO; m];
    assert(ds@ =~= zeros(m as nat));
    let count: usize = pair_count(jac_rows, jac_cols);
    for k in 0..count
        invariant
            fpu.sound(),
            count == paired(jac_rows@, jac_cols@),
            jac_vals@.len() >= count,
            dx@.len() >= n,
            ds@.len() == m,
            ds@ == jacobian_product(
                n as nat,
                m as nat,
                jac_rows@,
                jac_cols@,
                jac_vals@,
                dx@,
                k as nat,
                *fpu,
            ),
    {
        let r: usize = jac_rows[k];
        let c: usize = jac_cols[k];
        if c < n && r < m {
            ds.set(r, fpu.add(ds[r], fpu.mul(jac_vals[k], dx[c])));
        }
    }
    let ghost jdx = ds@;
    let ghost want = slack_steps(m as nat, jdx, g@, g_l@, g_u@, s@, dy@, delta_d@, *fpu);
    for i in 0..m
        invariant
            fpu.sound(),
            g@.len() >= m,
            g_l@.len() >= m,
            g_u@.len() >= m,
            s@.len() >= m,
            dy@.len() >= m,
            ds@.len() == m,
            want == slack_steps(m as nat, jdx, g@, g_l@, g_u@, s@, dy@, delta_d@, *fpu),
            forall|k: int| 0 <= k < i ==> #[trigger] ds@[k] == want[k],
            forall|k: int| i <= k < m ==> #[trigger] ds@[k] == jdx[k],
    {
        if is_equality_constraint(g_l[i], g_u[i], fpu) {
            ds.set(i, ZERO);
        } else {
            let dd: u64 = if i < delta_d.len() {
                delta_d[i]
            } else {
                ZERO
            };
            let change: u64 = fpu.sub(fpu.sub(g[i], s[i]), fpu.mul(dd, dy[i]));
            ds.set(i, fpu.add(ds[i], change));
        }
    }
    assert(ds@ =~= want);
    ds
}

/// A right-hand side entry without the centering and damping terms.
pub open spec fn affine_entry<F: Fn(FloatOp, u64, u64) -> u64>(
    r: u64,
    x: u64,
    x_l: u64,
    x_u: u64,
    mu: u64,
    kappa_d: u64,
    fpu: Fpu<F>,
) -> u64 {
    let a = if finite(x_l) {
        fpu.difference(r, fpu.quotient(mu, slack(x, x_l, fpu)))
    } else {
        r
    };
    let b = if finite(x_u) {
        fpu.sum(a, fpu.quotient(mu, slack(x_u, x, fpu)))
    } else {
        a
    };
    if num_lt(ZERO, kappa_d) && finite(x_l) != finite(x_u) {
        if finite(x_l) {
            fpu.sum(b, fpu.product(kappa_d, mu))
        } else {
            fpu.difference(b, fpu.product(kappa_d, mu))
        }
    } else {
        b
    }
}

/// The right-hand side without the centering and damping terms, which are
/// proportional to the barrier parameter.
pub fn affine_predictor_rhs<F: Fn(FloatOp, u64, u64) -> u64>(
    rhs: &[u64],
    x: &[u64],
    x_l: &[u64],
    x_u: &[u64],
    mu: u64,
    kappa_d: u64,
    fpu: &Fpu<F>,
) -> (r: Vec<u64>)
    requires
        fpu.sound(),
        rhs@.len() >= x@.len(),
        x_l@.len() >= x@.len(),
        x_u@.len() >= x@.len(),
    ensures
        r@.len() == rhs@.len(),
        forall|i: int|
            0 <= i < x@.len() ==> #[trigger] r@[i] == affine_entry(
                rhs@[i],
                x@[i],
                x_l@[i],
                x_u@[i],
                mu,
                kappa_d,
                *fpu,
            ),
        forall|i: int| x@.len() <= i < rhs@.len() ==> #[trigger] r@[i] == rhs@[i],
{
    let n: usize = x.len();
    let mut out: Vec<u64> = Vec::with_capacity(rhs.len());
    for i in 0..rhs.len()
        invariant
            fpu.sound(),
            n == x@.len(),
            x_l@.len() >= n,
            x_u@.len() >= n,
            out@.len() == i,
            forall|k: int|
                0 <= k < i && k < n ==> #[trigger] out@[k] == affine_entry(
                    rhs@[k],
                    x@[k],
                    x_l@[k],
                    x_u@[k],
                    mu,
                    kappa_d,
                    *fpu,
                ),
            forall|k: int| n <= k < i ==> #[trigger] out@[k] == rhs@[k],
    {
        let mut v: u64 = rhs[i];
        if i < n {
            let l_fin: bool = is_finite(x_l[i]);
            let u_fin: bool = is_finite(x_u[i]);
            if l_fin {
                v = fpu.sub(v, fpu.div(mu, safe_slack(x[i], x_l[i], fpu)));
            }
            if u_fin {
                v = fpu.add(v, fpu.div(mu, safe_slack(x_u[i], x[i], fpu)));
            }
            if lt(ZERO, kappa_d) && l_fin != u_fin {
                let damping: u64 = fpu.mul(kappa_d, mu);
                v = if l_fin {
                    fpu.add(v, damping)
                } else {
                    fpu.sub(v, damping)
                };
            }
        }
        out.push(v);
    }
    out
}

} // verus!
