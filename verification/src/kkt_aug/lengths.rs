//! The affine step stays inside the bounds, and what it suggests for the barrier parameter.

use crate::float::{finite, negated, num_eq, num_lt, FloatOp, Fpu, ONE, TEN_M20, ZERO};
use crate::kkt::barrier::slack;
use crate::kkt_aug::probing::{
    dual_limit, primal_limit, suggested_mu, unit_clamped, Bounded,
};
use crate::linear_solver::real_matrix::{
    exact, picks_larger, picks_smaller, reads_numbers, reads_order,
};
use vstd::prelude::*;

verus! {

/// A length that a distance and the step towards its end allow is exact, and the smaller one of it and `alpha` is picked.
pub open spec fn exact_limit<F: Fn(FloatOp, u64, u64) -> u64>(
    alpha: u64,
    distance: u64,
    step: u64,
    fpu: Fpu<F>,
    value: spec_fn(u64) -> real,
) -> bool {
    let top = fpu.product(ONE, distance);
    &&& exact(FloatOp::Mul, ONE, distance, fpu, value)
    &&& exact(FloatOp::Div, top, step, fpu, value)
    &&& picks_smaller(alpha, fpu.quotient(top, step), fpu, value)
}

proof fn lemma_limit<F: Fn(FloatOp, u64, u64) -> u64>(
    alpha: u64,
    distance: u64,
    step: u64,
    fpu: Fpu<F>,
    value: spec_fn(u64) -> real,
)
    requires
        reads_numbers(value),
        exact_limit(alpha, distance, step, fpu, value),
        value(step) > (0 as real),
    ensures
        ({
            let r = value(
                fpu.calc(
                    FloatOp::Min,
                    alpha,
                    fpu.quotient(fpu.product(ONE, distance), step),
                ),
            );
            &&& r <= value(alpha)
            &&& r * value(step) <= value(distance)
            &&& r == value(alpha) || r * value(step) == value(distance)
        }),
{
    let q = value(fpu.quotient(fpu.product(ONE, distance), step));
    let d = value(distance);
    let (a, s) = (value(alpha), value(step));
    assert((1 as real) * d == d) by (nonlinear_arith);
    if a <= q {
        assert(a * s <= q * s) by (nonlinear_arith)
            requires
                a <= q,
                s > (0 as real),
        ;
    }
}

/// The lengths that the bounds of a value allow are exact.
pub open spec fn exact_primal<F: Fn(FloatOp, u64, u64) -> u64>(
    alpha: u64,
    v: u64,
    lower: u64,
    upper: u64,
    d: u64,
    fpu: Fpu<F>,
    value: spec_fn(u64) -> real,
) -> bool {
    &&& finite(d) && finite(ZERO)
    &&& finite(lower) && num_lt(d, ZERO) ==> exact_limit(
        alpha,
        slack(v, lower, fpu),
        negated(d),
        fpu,
        value,
    )
    &&& finite(upper) && num_lt(ZERO, d) ==> exact_limit(
        alpha,
        slack(upper, v, fpu),
        d,
        fpu,
        value,
    )
}

/// The length of a primal step is not greater than it was, it does not lead past a finite bound, and it is as great as that
/// allows: it is what it was, or leads to a bound. A length is not negative.
pub proof fn primal_steps_stay_inside<F: Fn(FloatOp, u64, u64) -> u64>(
    alpha: u64,
    v: u64,
    lower: u64,
    upper: u64,
    d: u64,
    fpu: Fpu<F>,
    value: spec_fn(u64) -> real,
)
    requires
        reads_numbers(value),
        reads_order(value),
        exact_primal(alpha, v, lower, upper, d, fpu, value),
        value(alpha) >= (0 as real),
        finite(lower) ==> value(slack(v, lower, fpu)) >= (0 as real),
        finite(upper) ==> value(slack(upper, v, fpu)) >= (0 as real),
    ensures
        ({
            let r = value(primal_limit(alpha, v, lower, upper, d, fpu));
            let (s_l, s_u) = (value(slack(v, lower, fpu)), value(slack(upper, v, fpu)));
            &&& (0 as real) <= r <= value(alpha)
            &&& finite(lower) ==> s_l + r * value(d) >= (0 as real)
            &&& finite(upper) ==> s_u - r * value(d) >= (0 as real)
            &&& r == value(alpha) || (finite(lower) && s_l + r * value(d) == (0 as real)) || (finite(
                upper,
            ) && s_u - r * value(d) == (0 as real))
        }),
{
    let r = value(primal_limit(alpha, v, lower, upper, d, fpu));
    let dv = value(d);
    assert(value(negated(d)) == -dv);
    assert(value(ZERO) == (0 as real)) by {
        assert(num_eq(ZERO, ZERO));
    }
    if num_lt(d, ZERO) {
        if finite(lower) {
            let s = value(slack(v, lower, fpu));
            lemma_limit(alpha, slack(v, lower, fpu), negated(d), fpu, value);
            assert(r * -dv == -(r * dv)) by (nonlinear_arith);
            assert(r >= (0 as real)) by (nonlinear_arith)
                requires
                    r == value(alpha) || r * -dv == s,
                    value(alpha) >= (0 as real),
                    s >= (0 as real),
                    dv < (0 as real),
            ;
        }
        assert(r * dv <= (0 as real)) by (nonlinear_arith)
            requires
                r >= (0 as real),
                dv < (0 as real),
        ;
    } else if num_lt(ZERO, d) {
        if finite(upper) {
            let s = value(slack(upper, v, fpu));
            lemma_limit(alpha, slack(upper, v, fpu), d, fpu, value);
            assert(r >= (0 as real)) by (nonlinear_arith)
                requires
                    r == value(alpha) || r * dv == s,
                    value(alpha) >= (0 as real),
                    s >= (0 as real),
                    dv > (0 as real),
            ;
        }
        assert(r * dv >= (0 as real)) by (nonlinear_arith)
            requires
                r >= (0 as real),
                dv > (0 as real),
        ;
    } else {
        assert(r * dv == (0 as real)) by (nonlinear_arith)
            requires
                dv == (0 as real),
        ;
    }
}

/// The length of a dual step is not greater than it was, does not make the multiplier of a finite bound negative, and is as
/// great as that allows. A multiplier below `1e-20` counts as that.
pub proof fn dual_steps_stay_positive<F: Fn(FloatOp, u64, u64) -> u64>(
    alpha: u64,
    bound: u64,
    z: u64,
    dz: u64,
    fpu: Fpu<F>,
    value: spec_fn(u64) -> real,
)
    requires
        reads_numbers(value),
        reads_order(value),
        finite(dz),
        finite(ZERO),
        value(alpha) >= (0 as real),
        value(z) >= (0 as real),
        finite(bound) && num_lt(dz, ZERO) ==> picks_larger(z, TEN_M20, fpu, value) && exact_limit(
            alpha,
            fpu.calc(FloatOp::Max, z, TEN_M20),
            negated(dz),
            fpu,
            value,
        ),
    ensures
        ({
            let r = value(dual_limit(alpha, bound, z, dz, fpu));
            &&& (0 as real) <= r <= value(alpha)
            &&& finite(bound) && value(z) >= value(TEN_M20) ==> value(z) + r * value(dz) >= (
            0 as real)
            &&& r == value(alpha) || (finite(bound) && value(z) + r * value(dz) <= (0 as real))
        }),
{
    let r = value(dual_limit(alpha, bound, z, dz, fpu));
    let dv = value(dz);
    assert(value(negated(dz)) == -dv);
    assert(value(ZERO) == (0 as real)) by {
        assert(num_eq(ZERO, ZERO));
    }
    if finite(bound) && num_lt(dz, ZERO) {
        let m = value(fpu.calc(FloatOp::Max, z, TEN_M20));
        lemma_limit(alpha, fpu.calc(FloatOp::Max, z, TEN_M20), negated(dz), fpu, value);
        assert(r * -dv == -(r * dv)) by (nonlinear_arith);
        assert(r >= (0 as real)) by (nonlinear_arith)
            requires
                r == value(alpha) || r * -dv == m,
                value(alpha) >= (0 as real),
                m >= (0 as real),
                dv < (0 as real),
        ;
    } else if !num_lt(dz, ZERO) {
        assert(r * dv >= (0 as real)) by (nonlinear_arith)
            requires
                r >= (0 as real),
                dv >= (0 as real),
        ;
    }
}

/// A length is held between zero and one, and one that is there stays.
pub proof fn lengths_are_held(a: u64, value: spec_fn(u64) -> real)
    requires
        reads_numbers(value),
        reads_order(value),
        finite(a),
        finite(ZERO),
        finite(ONE),
    ensures
        (0 as real) <= value(unit_clamped(a)) <= (1 as real),
        (0 as real) <= value(a) <= (1 as real) ==> unit_clamped(a) == a,
        value(a) > (1 as real) ==> value(unit_clamped(a)) == (1 as real),
        value(a) < (0 as real) ==> value(unit_clamped(a)) == (0 as real),
{
    assert(value(ZERO) == (0 as real)) by {
        assert(num_eq(ZERO, ZERO));
    }
    assert(value(ONE) == (1 as real));
}

/// `mean` is the mean of `count` products, `ratio` that to the old parameter, and `mu` the cube of it, at most `sigma_max`,
/// times the old parameter, held between `mu_min` and `mu_max`.
pub open spec fn cubed(
    total: real,
    count: real,
    mu_curr: real,
    sigma_max: real,
    mu_min: real,
    mu_max: real,
    mu: real,
    mean: real,
    ratio: real,
) -> bool {
    let cube = ratio * (ratio * ratio);
    let sigma = if cube <= sigma_max {
        cube
    } else {
        sigma_max
    };
    let wanted = sigma * mu_curr;
    &&& mean * count == total
    &&& ratio * mu_curr == mean
    &&& mu_min <= wanted <= mu_max ==> mu == wanted
    &&& wanted < mu_min ==> mu == mu_min
    &&& wanted > mu_max ==> mu == mu_max
}

/// The suggested barrier parameter is the cube of the ratio of the mean product to the old one, at most the greatest ratio,
/// times the old one, held between the limits. There is none without a bound or with a negative mean.
pub proof fn suggested_parameters_are_cubes<F: Fn(FloatOp, u64, u64) -> u64>(
    total: u64,
    count: int,
    mu_curr: u64,
    sigma_max: u64,
    mu_min: u64,
    mu_max: u64,
    fpu: Fpu<F>,
    value: spec_fn(u64) -> real,
)
    requires
        0 <= count <= u64::MAX,
        value(mu_curr) > (0 as real),
        value(mu_min) <= value(mu_max),
        count > 0 ==> ({
            let c = fpu.calc(FloatOp::FromCount, count as u64, ZERO);
            let mean = fpu.quotient(total, c);
            let ratio = fpu.quotient(mean, mu_curr);
            let square = fpu.product(ratio, ratio);
            let cube = fpu.product(ratio, square);
            let sigma = fpu.calc(FloatOp::Min, cube, sigma_max);
            let mu = fpu.product(sigma, mu_curr);
            &&& value(c) == count as real
            &&& exact(FloatOp::Div, total, c, fpu, value)
            &&& exact(FloatOp::Div, mean, mu_curr, fpu, value)
            &&& exact(FloatOp::Mul, ratio, ratio, fpu, value)
            &&& exact(FloatOp::Mul, ratio, square, fpu, value)
            &&& exact(FloatOp::Mul, sigma, mu_curr, fpu, value)
            &&& picks_smaller(cube, sigma_max, fpu, value)
            &&& picks_larger(mu, mu_min, fpu, value)
            &&& picks_smaller(fpu.calc(FloatOp::Max, mu, mu_min), mu_max, fpu, value)
        }),
    ensures
        count == 0 ==> suggested_mu(
            total,
            count,
            mu_curr,
            sigma_max,
            mu_min,
            mu_max,
            fpu,
        ) is None,
        suggested_mu(total, count, mu_curr, sigma_max, mu_min, mu_max, fpu) matches Some(mu) ==> {
            &&& value(mu_min) <= value(mu) <= value(mu_max)
            &&& exists|mean: real, ratio: real| #[trigger]
                cubed(
                    value(total),
                    count as real,
                    value(mu_curr),
                    value(sigma_max),
                    value(mu_min),
                    value(mu_max),
                    value(mu),
                    mean,
                    ratio,
                )
        },
{
    if let Some(mu) = suggested_mu(total, count, mu_curr, sigma_max, mu_min, mu_max, fpu) {
        let c = fpu.calc(FloatOp::FromCount, count as u64, ZERO);
        let mean = fpu.quotient(total, c);
        let ratio = fpu.quotient(mean, mu_curr);
        assert(cubed(
            value(total),
            count as real,
            value(mu_curr),
            value(sigma_max),
            value(mu_min),
            value(mu_max),
            value(mu),
            value(mean),
            value(ratio),
        ));
    }
}

/// The sum of the products of distances and multipliers that the first `k` indices have after the steps.
pub open spec fn product_total<F: Fn(FloatOp, u64, u64) -> u64>(
    b: Bounded,
    idx: Seq<usize>,
    alpha_p: real,
    alpha_d: real,
    k: nat,
    fpu: Fpu<F>,
    value: spec_fn(u64) -> real,
) -> real
    decreases k,
{
    if k == 0 {
        0 as real
    } else {
        let i = idx[k - 1] as int;
        let low = if finite(b.lower[i]) {
            (value(slack(b.v[i], b.lower[i], fpu)) + alpha_p * value(b.d[i])) * (value(b.z_l[i])
                + alpha_d * value(b.dz_l[i]))
        } else {
            0 as real
        };
        let high = if finite(b.upper[i]) {
            (value(slack(b.upper[i], b.v[i], fpu)) - alpha_p * value(b.d[i])) * (value(b.z_u[i])
                + alpha_d * value(b.dz_u[i]))
        } else {
            0 as real
        };
        product_total(b, idx, alpha_p, alpha_d, (k - 1) as nat, fpu, value) + low + high
    }
}

/// The number of finite bounds among those of the first `k` indices.
pub open spec fn bound_count(b: Bounded, idx: Seq<usize>, k: nat) -> int
    decreases k,
{
    if k == 0 {
        0
    } else {
        let i = idx[k - 1] as int;
        bound_count(b, idx, (k - 1) as nat) + (if finite(b.lower[i]) {
            1int
        } else {
            0
        }) + (if finite(b.upper[i]) {
            1int
        } else {
            0
        })
    }
}

/// The product of one bound after the steps, and its sum with `acc`, do not round.
pub open spec fn exact_product<F: Fn(FloatOp, u64, u64) -> u64>(
    acc: u64,
    s: u64,
    d: u64,
    z: u64,
    dz: u64,
    alpha_p: u64,
    alpha_d: u64,
    upper: bool,
    fpu: Fpu<F>,
    value: spec_fn(u64) -> real,
) -> bool {
    let move_p = fpu.product(alpha_p, d);
    let move_d = fpu.product(alpha_d, dz);
    let distance = if upper {
        fpu.difference(s, move_p)
    } else {
        fpu.sum(s, move_p)
    };
    let mult = fpu.sum(z, move_d);
    &&& exact(FloatOp::Mul, alpha_p, d, fpu, value)
    &&& exact(FloatOp::Mul, alpha_d, dz, fpu, value)
    &&& exact(FloatOp::Add, z, move_d, fpu, value)
    &&& upper ==> exact(FloatOp::Sub, s, move_p, fpu, value)
    &&& !upper ==> exact(FloatOp::Add, s, move_p, fpu, value)
    &&& exact(FloatOp::Mul, distance, mult, fpu, value)
    &&& exact(FloatOp::Add, acc, fpu.product(distance, mult), fpu, value)
}

/// The products at index `k` do not round.
pub open spec fn exact_products_at<F: Fn(FloatOp, u64, u64) -> u64>(
    b: Bounded,
    start: (u64, int),
    idx: Seq<usize>,
    alpha_p: u64,
    alpha_d: u64,
    k: int,
    fpu: Fpu<F>,
    value: spec_fn(u64) -> real,
) -> bool {
    let i = idx[k] as int;
    let acc = b.products(start, idx, alpha_p, alpha_d, k as nat, fpu).0;
    let s = slack(b.v[i], b.lower[i], fpu);
    let next = if finite(b.lower[i]) {
        fpu.sum(
            acc,
            fpu.product(
                fpu.sum(s, fpu.product(alpha_p, b.d[i])),
                fpu.sum(b.z_l[i], fpu.product(alpha_d, b.dz_l[i])),
            ),
        )
    } else {
        acc
    };
    &&& finite(b.lower[i]) ==> exact_product(
        acc,
        s,
        b.d[i],
        b.z_l[i],
        b.dz_l[i],
        alpha_p,
        alpha_d,
        false,
        fpu,
        value,
    )
    &&& finite(b.upper[i]) ==> exact_product(
        next,
        slack(b.upper[i], b.v[i], fpu),
        b.d[i],
        b.z_u[i],
        b.dz_u[i],
        alpha_p,
        alpha_d,
        true,
        fpu,
        value,
    )
}

/// The products after a step are those of the distances and the multipliers that it leads to, one for each finite bound: the
/// distance to a lower bound grows with the value, that to an upper bound shrinks.
pub proof fn products_are_those_after_the_step<F: Fn(FloatOp, u64, u64) -> u64>(
    b: Bounded,
    start: (u64, int),
    idx: Seq<usize>,
    alpha_p: u64,
    alpha_d: u64,
    k: nat,
    fpu: Fpu<F>,
    value: spec_fn(u64) -> real,
)
    requires
        k <= idx.len(),
        forall|e: int|
            0 <= e < k ==> #[trigger] exact_products_at(
                b,
                start,
                idx,
                alpha_p,
                alpha_d,
                e,
                fpu,
                value,
            ),
    ensures
        value(b.products(start, idx, alpha_p, alpha_d, k, fpu).0) == value(start.0) + product_total(
            b,
            idx,
            value(alpha_p),
            value(alpha_d),
            k,
            fpu,
            value,
        ),
        b.products(start, idx, alpha_p, alpha_d, k, fpu).1 == start.1 + bound_count(b, idx, k),
    decreases k,
{
    if k > 0 {
        products_are_those_after_the_step(
            b,
            start,
            idx,
            alpha_p,
            alpha_d,
            (k - 1) as nat,
            fpu,
            value,
        );
        assert(exact_products_at(b, start, idx, alpha_p, alpha_d, k - 1, fpu, value));
    }
}

/// The lengths at index `k` are exact, and its distances are not negative.
pub open spec fn exact_primal_at<F: Fn(FloatOp, u64, u64) -> u64>(
    b: Bounded,
    alpha: u64,
    idx: Seq<usize>,
    k: int,
    fpu: Fpu<F>,
    value: spec_fn(u64) -> real,
) -> bool {
    let i = idx[k] as int;
    &&& exact_primal(
        b.primal(alpha, idx, k as nat, fpu),
        b.v[i],
        b.lower[i],
        b.upper[i],
        b.d[i],
        fpu,
        value,
    )
    &&& finite(b.lower[i]) ==> value(slack(b.v[i], b.lower[i], fpu)) >= (0 as real)
    &&& finite(b.upper[i]) ==> value(slack(b.upper[i], b.v[i], fpu)) >= (0 as real)
}

/// A common length leads none of the values past a finite bound.
pub proof fn common_steps_stay_inside<F: Fn(FloatOp, u64, u64) -> u64>(
    b: Bounded,
    alpha: u64,
    idx: Seq<usize>,
    k: nat,
    e: int,
    fpu: Fpu<F>,
    value: spec_fn(u64) -> real,
)
    requires
        reads_numbers(value),
        reads_order(value),
        k <= idx.len(),
        value(alpha) >= (0 as real),
        forall|e: int|
            0 <= e < k ==> #[trigger] exact_primal_at(b, alpha, idx, e, fpu, value),
    ensures
        (0 as real) <= value(b.primal(alpha, idx, k, fpu)) <= value(alpha),
        0 <= e < k ==> ({
            let i = idx[e] as int;
            let r = value(b.primal(alpha, idx, k, fpu));
            &&& finite(b.lower[i]) ==> value(slack(b.v[i], b.lower[i], fpu)) + r * value(b.d[i])
                >= (0 as real)
            &&& finite(b.upper[i]) ==> value(slack(b.upper[i], b.v[i], fpu)) - r * value(b.d[i])
                >= (0 as real)
        }),
    decreases k,
{
    if k > 0 {
        common_steps_stay_inside(b, alpha, idx, (k - 1) as nat, e, fpu, value);
        assert(exact_primal_at(b, alpha, idx, k - 1, fpu, value));
        let before = b.primal(alpha, idx, (k - 1) as nat, fpu);
        let i = idx[k - 1] as int;
        primal_steps_stay_inside(
            before,
            b.v[i],
            b.lower[i],
            b.upper[i],
            b.d[i],
            fpu,
            value,
        );
        if 0 <= e < k - 1 {
            assert(exact_primal_at(b, alpha, idx, e, fpu, value));
            let i = idx[e] as int;
            let (r, q, d) = (value(b.primal(alpha, idx, k, fpu)), value(before), value(b.d[i]));
            let (l, u) = (
                value(slack(b.v[i], b.lower[i], fpu)),
                value(slack(b.upper[i], b.v[i], fpu)),
            );
            if finite(b.lower[i]) {
                assert(l + r * d >= (0 as real)) by (nonlinear_arith)
                    requires
                        l + q * d >= (0 as real),
                        l >= (0 as real),
                        (0 as real) <= r <= q,
                ;
            }
            if finite(b.upper[i]) {
                assert(u - r * d >= (0 as real)) by (nonlinear_arith)
                    requires
                        u - q * d >= (0 as real),
                        u >= (0 as real),
                        (0 as real) <= r <= q,
                ;
            }
        }
    }
}

/// The length that one multiplier allows is exact.
pub open spec fn exact_dual<F: Fn(FloatOp, u64, u64) -> u64>(
    alpha: u64,
    bound: u64,
    z: u64,
    dz: u64,
    fpu: Fpu<F>,
    value: spec_fn(u64) -> real,
) -> bool {
    &&& finite(dz) && finite(ZERO)
    &&& value(z) >= value(TEN_M20) > (0 as real)
    &&& finite(bound) && num_lt(dz, ZERO) ==> picks_larger(z, TEN_M20, fpu, value) && exact_limit(
        alpha,
        fpu.calc(FloatOp::Max, z, TEN_M20),
        negated(dz),
        fpu,
        value,
    )
}

/// The lengths that the multipliers at index `k` allow are exact.
pub open spec fn exact_dual_at<F: Fn(FloatOp, u64, u64) -> u64>(
    b: Bounded,
    alpha: u64,
    idx: Seq<usize>,
    k: int,
    fpu: Fpu<F>,
    value: spec_fn(u64) -> real,
) -> bool {
    let i = idx[k] as int;
    let before = b.dual(alpha, idx, k as nat, fpu);
    &&& exact_dual(before, b.lower[i], b.z_l[i], b.dz_l[i], fpu, value)
    &&& exact_dual(
        dual_limit(before, b.lower[i], b.z_l[i], b.dz_l[i], fpu),
        b.upper[i],
        b.z_u[i],
        b.dz_u[i],
        fpu,
        value,
    )
}

/// A common length leaves the multipliers of all finite bounds without a minus.
pub proof fn common_steps_stay_positive<F: Fn(FloatOp, u64, u64) -> u64>(
    b: Bounded,
    alpha: u64,
    idx: Seq<usize>,
    k: nat,
    e: int,
    fpu: Fpu<F>,
    value: spec_fn(u64) -> real,
)
    requires
        reads_numbers(value),
        reads_order(value),
        k <= idx.len(),
        value(alpha) >= (0 as real),
        forall|e: int|
            0 <= e < k ==> #[trigger] exact_dual_at(b, alpha, idx, e, fpu, value),
    ensures
        (0 as real) <= value(b.dual(alpha, idx, k, fpu)) <= value(alpha),
        0 <= e < k ==> ({
            let i = idx[e] as int;
            let r = value(b.dual(alpha, idx, k, fpu));
            &&& finite(b.lower[i]) ==> value(b.z_l[i]) + r * value(b.dz_l[i]) >= (0 as real)
            &&& finite(b.upper[i]) ==> value(b.z_u[i]) + r * value(b.dz_u[i]) >= (0 as real)
        }),
    decreases k,
{
    if k > 0 {
        common_steps_stay_positive(b, alpha, idx, (k - 1) as nat, e, fpu, value);
        assert(exact_dual_at(b, alpha, idx, k - 1, fpu, value));
        let before = b.dual(alpha, idx, (k - 1) as nat, fpu);
        let i = idx[k - 1] as int;
        let half = dual_limit(before, b.lower[i], b.z_l[i], b.dz_l[i], fpu);
        dual_steps_stay_positive(before, b.lower[i], b.z_l[i], b.dz_l[i], fpu, value);
        dual_steps_stay_positive(half, b.upper[i], b.z_u[i], b.dz_u[i], fpu, value);
        let r = value(b.dual(alpha, idx, k, fpu));
        if 0 <= e < k {
            assert(exact_dual_at(b, alpha, idx, e, fpu, value));
            let i = idx[e] as int;
            let (l, dl, u, du) = (
                value(b.z_l[i]),
                value(b.dz_l[i]),
                value(b.z_u[i]),
                value(b.dz_u[i]),
            );
            let q = if e == k - 1 {
                value(half)
            } else {
                value(before)
            };
            if finite(b.lower[i]) {
                assert(l + r * dl >= (0 as real)) by (nonlinear_arith)
                    requires
                        l + q * dl >= (0 as real),
                        l >= (0 as real),
                        (0 as real) <= r <= q,
                ;
            }
            if finite(b.upper[i]) && e < k - 1 {
                assert(u + r * du >= (0 as real)) by (nonlinear_arith)
                    requires
                        u + q * du >= (0 as real),
                        u >= (0 as real),
                        (0 as real) <= r <= q,
                ;
            }
        }
    }
}

} // verus!
