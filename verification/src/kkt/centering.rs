//! What the bounds contribute to the right-hand side and the barrier diagonal.

use crate::float::{
    finite, negated, num_eq, num_le, num_lt, FloatOp, Fpu, MINUS_TEN_M8, ONE, TEN_M10, TEN_M20, TEN_P10,
    TEN_P20, ZERO,
};
use crate::kkt::assemble::{dual_entry, slack_row, slack_terms, with_bound, SlackTerms};
use crate::kkt::barrier::sigma_entry;
use crate::kkt::complementarity::complements;
use crate::linear_solver::real_matrix::{exact, picks_larger, picks_smaller, reads_numbers, reads_order};
use vstd::prelude::*;

verus! {

/// `part` where the bound is finite, and nothing where it is not.
pub open spec fn at_bound(bound: u64, part: real) -> real {
    if finite(bound) {
        part
    } else {
        0 as real
    }
}

/// The distance `a - b` to a bound is positive and at least the barrier
/// parameter, and it and the barrier parameter over it do not round.
pub open spec fn inside<F: Fn(FloatOp, u64, u64) -> u64>(
    a: u64,
    b: u64,
    mu: u64,
    fpu: Fpu<F>,
    value: spec_fn(u64) -> real,
) -> bool {
    let d = fpu.difference(a, b);
    let least = fpu.calc(FloatOp::Max, mu, TEN_M10);
    &&& exact(FloatOp::Sub, a, b, fpu, value)
    &&& finite(d)
    &&& finite(MINUS_TEN_M8)
    &&& value(MINUS_TEN_M8) < (0 as real)
    &&& value(d) > (0 as real)
    &&& value(d) >= value(mu)
    &&& picks_larger(mu, TEN_M10, fpu, value)
    &&& value(d) >= value(least)
    &&& fpu.calc(FloatOp::Max, d, least) == d
    &&& exact(FloatOp::Div, mu, d, fpu, value)
}

/// The multiplier `v` of a bound at the distance `d` is within a factor of ten
/// to the tenth of the barrier parameter over the distance, so it counts as it
/// is, and its quotient by the distance does not round.
pub open spec fn near_centre<F: Fn(FloatOp, u64, u64) -> u64>(
    v: u64,
    d: u64,
    mu: u64,
    fpu: Fpu<F>,
    value: spec_fn(u64) -> real,
) -> bool {
    let ratio = fpu.quotient(mu, d);
    let low = fpu.quotient(ratio, TEN_P10);
    let high = fpu.product(TEN_P10, ratio);
    &&& fpu.calc(FloatOp::Max, v, low) == v
    &&& fpu.calc(FloatOp::Min, v, high) == v
    &&& exact(FloatOp::Div, v, d, fpu, value)
}

/// The terms of an inequality are added up without rounding.
pub open spec fn exact_slack_terms<F: Fn(FloatOp, u64, u64) -> u64>(
    d_x: u64,
    d_l: u64,
    d_u: u64,
    s: u64,
    y: u64,
    v_l: u64,
    v_u: u64,
    mu: u64,
    fpu: Fpu<F>,
    value: spec_fn(u64) -> real,
) -> bool {
    let below = fpu.difference(s, d_l);
    let above = fpu.difference(d_u, s);
    let low = fpu.quotient(mu, below);
    let low_sigma = fpu.quotient(v_l, below);
    let first = if finite(d_l) {
        fpu.sum(y, low)
    } else {
        y
    };
    let first_sigma = if finite(d_l) {
        fpu.sum(ZERO, low_sigma)
    } else {
        ZERO
    };
    &&& finite(d_l) ==> {
        &&& inside(s, d_l, mu, fpu, value)
        &&& near_centre(v_l, below, mu, fpu, value)
        &&& exact(FloatOp::Add, y, low, fpu, value)
        &&& exact(FloatOp::Add, ZERO, low_sigma, fpu, value)
    }
    &&& finite(d_u) ==> {
        &&& inside(d_u, s, mu, fpu, value)
        &&& near_centre(v_u, above, mu, fpu, value)
        &&& exact(FloatOp::Sub, first, fpu.quotient(mu, above), fpu, value)
        &&& exact(FloatOp::Add, first_sigma, fpu.quotient(v_u, above), fpu, value)
    }
}

proof fn lemma_over(q: real, b: real, a: real)
    requires
        b > (0 as real),
        q * b == a,
    ensures
        q == a / b,
{
    assert(q == a / b) by (nonlinear_arith)
        requires
            b > (0 as real),
            q * b == a,
    ;
}

/// Strictly inside the bounds of an inequality, and where nothing rounds, its
/// terms are those of the Newton step of the slack: the correction is the
/// multiplier plus the barrier parameter over the distance to the lower bound
/// minus the same for the upper one, and the barrier diagonal is the sum of the
/// bound multipliers over the distances. Bounds that are not finite have no
/// terms.
pub proof fn corrections_are_dual_residuals<F: Fn(FloatOp, u64, u64) -> u64>(
    d_x: u64,
    d_l: u64,
    d_u: u64,
    s: u64,
    y: u64,
    v_l: u64,
    v_u: u64,
    mu: u64,
    fpu: Fpu<F>,
    value: spec_fn(u64) -> real,
)
    requires
        reads_numbers(value),
        reads_order(value),
        exact_slack_terms(d_x, d_l, d_u, s, y, v_l, v_u, mu, fpu, value),
    ensures
        ({
            let t = slack_terms(d_x, d_l, d_u, s, y, v_l, v_u, mu, fpu);
            let (sv, lv, uv) = (value(s), value(d_l), value(d_u));
            &&& value(t.correction) == value(y) + at_bound(d_l, value(mu) / (sv - lv)) - at_bound(
                d_u,
                value(mu) / (uv - sv),
            )
            &&& value(t.sigma) == at_bound(d_l, value(v_l) / (sv - lv)) + at_bound(
                d_u,
                value(v_u) / (uv - sv),
            )
            &&& t.feasible == (finite(d_l) || finite(d_u))
            &&& value(t.violation) == (0 as real)
        }),
{
    assert(finite(ZERO) && num_eq(ZERO, ZERO));
    assert(value(ZERO) == (0 as real));
    if finite(d_l) {
        let d = fpu.difference(s, d_l);
        assert(num_lt(MINUS_TEN_M8, d) <==> value(MINUS_TEN_M8) < value(d));
        assert(num_le(MINUS_TEN_M8, d));
        lemma_over(value(fpu.quotient(mu, d)), value(d), value(mu));
        lemma_over(value(fpu.quotient(v_l, d)), value(d), value(v_l));
    }
    if finite(d_u) {
        let d = fpu.difference(d_u, s);
        assert(num_lt(MINUS_TEN_M8, d) <==> value(MINUS_TEN_M8) < value(d));
        assert(num_le(MINUS_TEN_M8, d));
        lemma_over(value(fpu.quotient(mu, d)), value(d), value(mu));
        lemma_over(value(fpu.quotient(v_u, d)), value(d), value(v_u));
    }
}

/// The multiplier of a bound counts as one within a factor of ten to the tenth
/// of the barrier parameter over the distance: as it is where it is in that
/// range, and else as the nearer end of it.
pub proof fn multipliers_are_held_near_the_centre<F: Fn(FloatOp, u64, u64) -> u64>(
    t: SlackTerms,
    a: u64,
    b: u64,
    gap: u64,
    v: u64,
    mu: u64,
    upper: bool,
    fpu: Fpu<F>,
    value: spec_fn(u64) -> real,
)
    requires
        reads_numbers(value),
        reads_order(value),
        inside(a, b, mu, fpu, value),
        ({
            let d = fpu.difference(a, b);
            let ratio = fpu.quotient(mu, d);
            let low = fpu.quotient(ratio, TEN_P10);
            let high = fpu.product(TEN_P10, ratio);
            let raised = fpu.calc(FloatOp::Max, v, low);
            let held = fpu.calc(FloatOp::Min, raised, high);
            &&& value(TEN_P10) == (10000000000 as real)
            &&& value(mu) >= (0 as real)
            &&& exact(FloatOp::Div, ratio, TEN_P10, fpu, value)
            &&& exact(FloatOp::Mul, TEN_P10, ratio, fpu, value)
            &&& picks_larger(v, low, fpu, value)
            &&& picks_smaller(raised, high, fpu, value)
            &&& exact(FloatOp::Div, held, d, fpu, value)
            &&& exact(FloatOp::Add, t.sigma, fpu.quotient(held, d), fpu, value)
        }),
    ensures
        ({
            let d = value(a) - value(b);
            let centre = value(mu) / d;
            let low = centre / (10000000000 as real);
            let high = centre * (10000000000 as real);
            let z = if value(v) < low {
                low
            } else if value(v) > high {
                high
            } else {
                value(v)
            };
            let r = with_bound(t, fpu.difference(a, b), gap, v, mu, upper, fpu);
            value(r.sigma) == value(t.sigma) + z / d
        }),
{
    let d = fpu.difference(a, b);
    let ratio = fpu.quotient(mu, d);
    let low = fpu.quotient(ratio, TEN_P10);
    let high = fpu.product(TEN_P10, ratio);
    let held = fpu.calc(FloatOp::Min, fpu.calc(FloatOp::Max, v, low), high);
    let ten = 10000000000 as real;
    assert(num_lt(MINUS_TEN_M8, d) <==> value(MINUS_TEN_M8) < value(d));
    assert(num_le(MINUS_TEN_M8, d));
    lemma_over(value(ratio), value(d), value(mu));
    lemma_over(value(low), ten, value(ratio));
    lemma_over(value(fpu.quotient(held, d)), value(d), value(held));
    let r = value(ratio);
    let dv = value(d);
    let m = value(mu);
    assert(r >= (0 as real)) by (nonlinear_arith)
        requires
            r * dv == m,
            dv > (0 as real),
            m >= (0 as real),
    ;
    assert(ten * r == r * ten) by (nonlinear_arith);
}

/// A bound that is violated adds minus the violation of the constraint by it,
/// and nothing else.
pub proof fn violated_bounds_pull_back<F: Fn(FloatOp, u64, u64) -> u64>(
    t: SlackTerms,
    a: u64,
    b: u64,
    d_x: u64,
    bound: u64,
    v: u64,
    mu: u64,
    upper: bool,
    fpu: Fpu<F>,
    value: spec_fn(u64) -> real,
)
    requires
        reads_numbers(value),
        reads_order(value),
        exact(FloatOp::Sub, a, b, fpu, value),
        finite(fpu.difference(a, b)),
        finite(MINUS_TEN_M8),
        value(a) - value(b) < value(MINUS_TEN_M8),
        exact(FloatOp::Sub, d_x, bound, fpu, value),
        exact(FloatOp::Add, t.violation, negated(fpu.difference(d_x, bound)), fpu, value),
    ensures
        ({
            let r = with_bound(
                t,
                fpu.difference(a, b),
                fpu.difference(d_x, bound),
                v,
                mu,
                upper,
                fpu,
            );
            &&& value(r.violation) == value(t.violation) - (value(d_x) - value(bound))
            &&& r.sigma == t.sigma
            &&& r.correction == t.correction
            &&& r.feasible == t.feasible
        }),
{
    let d = fpu.difference(a, b);
    assert(num_lt(d, MINUS_TEN_M8) <==> value(d) < value(MINUS_TEN_M8));
    assert(!num_le(MINUS_TEN_M8, d));
    assert(value(negated(fpu.difference(d_x, bound))) == -value(fpu.difference(d_x, bound)));
}

/// The right-hand side of a variable is added up without rounding.
pub open spec fn exact_dual_entry<F: Fn(FloatOp, u64, u64) -> u64>(
    grad: u64,
    x: u64,
    x_l: u64,
    x_u: u64,
    mu: u64,
    kappa_d: u64,
    fpu: Fpu<F>,
    value: spec_fn(u64) -> real,
) -> bool {
    let below = fpu.difference(x, x_l);
    let above = fpu.difference(x_u, x);
    let a = negated(grad);
    let b = if finite(x_l) {
        fpu.sum(a, fpu.quotient(mu, below))
    } else {
        a
    };
    let c = if finite(x_u) {
        fpu.difference(b, fpu.quotient(mu, above))
    } else {
        b
    };
    let damping = fpu.product(kappa_d, mu);
    &&& finite(x_l) ==> {
        &&& exact(FloatOp::Sub, x, x_l, fpu, value)
        &&& value(x) > value(x_l)
        &&& exact(FloatOp::Div, mu, below, fpu, value)
        &&& exact(FloatOp::Add, a, fpu.quotient(mu, below), fpu, value)
    }
    &&& finite(x_u) ==> {
        &&& exact(FloatOp::Sub, x_u, x, fpu, value)
        &&& value(x_u) > value(x)
        &&& exact(FloatOp::Div, mu, above, fpu, value)
        &&& exact(FloatOp::Sub, b, fpu.quotient(mu, above), fpu, value)
    }
    &&& finite(kappa_d)
    &&& exact(FloatOp::Mul, kappa_d, mu, fpu, value)
    &&& exact(FloatOp::Sub, c, damping, fpu, value)
    &&& exact(FloatOp::Add, c, damping, fpu, value)
}

/// Strictly inside its bounds, and where nothing rounds, the right-hand side of
/// a variable is minus the gradient of the barrier function: the gradient, less
/// the barrier parameter over the distance to the lower bound, plus the same for
/// the upper one, and with a positive damping factor the damping towards the
/// only bound.
pub proof fn dual_entries_are_barrier_gradients<F: Fn(FloatOp, u64, u64) -> u64>(
    grad: u64,
    x: u64,
    x_l: u64,
    x_u: u64,
    mu: u64,
    kappa_d: u64,
    fpu: Fpu<F>,
    value: spec_fn(u64) -> real,
)
    requires
        reads_numbers(value),
        reads_order(value),
        exact_dual_entry(grad, x, x_l, x_u, mu, kappa_d, fpu, value),
    ensures
        ({
            let barrier = value(grad) - at_bound(x_l, value(mu) / (value(x) - value(x_l)))
                + at_bound(x_u, value(mu) / (value(x_u) - value(x)));
            let damping = if value(kappa_d) <= (0 as real) || finite(x_l) == finite(x_u) {
                0 as real
            } else if finite(x_l) {
                value(kappa_d) * value(mu)
            } else {
                -(value(kappa_d) * value(mu))
            };
            value(dual_entry(grad, x, x_l, x_u, mu, kappa_d, fpu)) == -(barrier + damping)
        }),
{
    assert(finite(ZERO) && num_eq(ZERO, ZERO));
    assert(value(ZERO) == (0 as real));
    assert(value(negated(grad)) == -value(grad));
    assert(num_lt(ZERO, kappa_d) <==> value(ZERO) < value(kappa_d));
    if finite(x_l) {
        let d = fpu.difference(x, x_l);
        lemma_over(value(fpu.quotient(mu, d)), value(d), value(mu));
    }
    if finite(x_u) {
        let d = fpu.difference(x_u, x);
        lemma_over(value(fpu.quotient(mu, d)), value(d), value(mu));
    }
}

/// The barrier diagonal of a variable is added up without rounding, and no
/// distance to a bound is below the least one.
pub open spec fn exact_sigma<F: Fn(FloatOp, u64, u64) -> u64>(
    x: u64,
    x_l: u64,
    x_u: u64,
    z_l: u64,
    z_u: u64,
    fpu: Fpu<F>,
    value: spec_fn(u64) -> real,
) -> bool {
    let below = fpu.difference(x, x_l);
    let above = fpu.difference(x_u, x);
    let first = if finite(x_l) {
        fpu.sum(ZERO, fpu.quotient(z_l, below))
    } else {
        ZERO
    };
    &&& finite(x_l) ==> {
        &&& exact(FloatOp::Sub, x, x_l, fpu, value)
        &&& value(x) > value(x_l)
        &&& fpu.calc(FloatOp::Max, below, TEN_M20) == below
        &&& exact(FloatOp::Div, z_l, below, fpu, value)
        &&& exact(FloatOp::Add, ZERO, fpu.quotient(z_l, below), fpu, value)
    }
    &&& finite(x_u) ==> {
        &&& exact(FloatOp::Sub, x_u, x, fpu, value)
        &&& value(x_u) > value(x)
        &&& fpu.calc(FloatOp::Max, above, TEN_M20) == above
        &&& exact(FloatOp::Div, z_u, above, fpu, value)
        &&& exact(FloatOp::Add, first, fpu.quotient(z_u, above), fpu, value)
    }
}

/// Where nothing rounds, the barrier diagonal of a variable is the sum of its
/// bound multipliers over the distances to the bounds.
pub proof fn barrier_diagonals_are_ratios<F: Fn(FloatOp, u64, u64) -> u64>(
    x: u64,
    x_l: u64,
    x_u: u64,
    z_l: u64,
    z_u: u64,
    fpu: Fpu<F>,
    value: spec_fn(u64) -> real,
)
    requires
        reads_numbers(value),
        exact_sigma(x, x_l, x_u, z_l, z_u, fpu, value),
    ensures
        value(sigma_entry(x, x_l, x_u, z_l, z_u, fpu)) == at_bound(
            x_l,
            value(z_l) / (value(x) - value(x_l)),
        ) + at_bound(x_u, value(z_u) / (value(x_u) - value(x))),
{
    assert(num_eq(ZERO, ZERO));
    assert(value(ZERO) == (0 as real));
    if finite(x_l) {
        let d = fpu.difference(x, x_l);
        lemma_over(value(fpu.quotient(z_l, d)), value(d), value(z_l));
    }
    if finite(x_u) {
        let d = fpu.difference(x_u, x);
        lemma_over(value(fpu.quotient(z_u, d)), value(d), value(z_u));
    }
}

proof fn lemma_full_multiplier(mu: real, z: real, s: real, d: real, dz: real, upper: bool)
    requires
        s > (0 as real),
        complements(mu, z, s, d, dz, upper),
    ensures
        z + dz == mu / s + (if upper {
            (z / s) * d
        } else {
            -((z / s) * d)
        }),
{
    let q = z / s;
    let c = mu / s;
    assert(q * s == z && c * s == mu) by (nonlinear_arith)
        requires
            s > (0 as real),
            q == z / s,
            c == mu / s,
    ;
    let t = if upper {
        q * d
    } else {
        -(q * d)
    };
    let w = z + dz;
    assert(s * (c + t) == mu + (if upper {
        z * d
    } else {
        -(z * d)
    })) by (nonlinear_arith)
        requires
            q * s == z,
            c * s == mu,
            t == if upper {
                q * d
            } else {
                -(q * d)
            },
    ;
    assert(s * w == z * s + s * dz) by (nonlinear_arith)
        requires
            w == z + dz,
    ;
    assert(w == c + t) by (nonlinear_arith)
        requires
            s > (0 as real),
            s * w == s * (c + t),
    ;
}

/// A full step keeps the slack of an inequality stationary: if the condensed
/// equation of the slack holds, with its terms computed without rounding, and
/// the steps of the bound multipliers meet the linearized complementarity, then
/// after the step the multiplier of the constraint is that of the upper bound
/// less that of the lower one.
pub proof fn slack_steps_are_stationary<F: Fn(FloatOp, u64, u64) -> u64>(
    d_x: u64,
    d_l: u64,
    d_u: u64,
    s: u64,
    y: u64,
    v_l: u64,
    v_u: u64,
    mu: u64,
    ds: real,
    dy: real,
    dv_l: real,
    dv_u: real,
    fpu: Fpu<F>,
    value: spec_fn(u64) -> real,
)
    requires
        reads_numbers(value),
        reads_order(value),
        exact_slack_terms(d_x, d_l, d_u, s, y, v_l, v_u, mu, fpu, value),
        ({
            let t = slack_terms(d_x, d_l, d_u, s, y, v_l, v_u, mu, fpu);
            value(t.sigma) * ds - dy == value(t.correction)
        }),
        finite(d_l) ==> complements(
            value(mu),
            value(v_l),
            value(s) - value(d_l),
            ds,
            dv_l,
            false,
        ),
        finite(d_u) ==> complements(
            value(mu),
            value(v_u),
            value(d_u) - value(s),
            ds,
            dv_u,
            true,
        ),
    ensures
        value(y) + dy + at_bound(d_l, value(v_l) + dv_l) - at_bound(d_u, value(v_u) + dv_u) == (
        0 as real),
{
    corrections_are_dual_residuals(d_x, d_l, d_u, s, y, v_l, v_u, mu, fpu, value);
    let a = at_bound(d_l, value(v_l) / (value(s) - value(d_l)));
    let b = at_bound(d_u, value(v_u) / (value(d_u) - value(s)));
    assert((a + b) * ds == a * ds + b * ds) by (nonlinear_arith);
    assert((0 as real) * ds == (0 as real)) by (nonlinear_arith);
    if finite(d_l) {
        lemma_full_multiplier(
            value(mu),
            value(v_l),
            value(s) - value(d_l),
            ds,
            dv_l,
            false,
        );
    }
    if finite(d_u) {
        lemma_full_multiplier(value(mu), value(v_u), value(d_u) - value(s), ds, dv_u, true);
    }
}

/// A full step makes the Lagrangian stationary in a variable, to first order: if
/// the condensed row of the variable holds, with its barrier diagonal and its
/// right-hand side computed without rounding and without damping, and the steps
/// of the bound multipliers meet the linearized complementarity, then the
/// gradient of the objective, moved by the Hessian, plus the transposed Jacobian
/// times the new multipliers, is the new multiplier of the lower bound less that
/// of the upper one. Here `moved` is the row of the Hessian times the step, and
/// `pulled` that of the transposed Jacobian times the multipliers, to which
/// the step adds `pull`.
pub proof fn variable_steps_are_stationary<F: Fn(FloatOp, u64, u64) -> u64>(
    grad: u64,
    x: u64,
    x_l: u64,
    x_u: u64,
    z_l: u64,
    z_u: u64,
    mu: u64,
    kappa_d: u64,
    moved: real,
    pulled: real,
    pull: real,
    dx: real,
    dz_l: real,
    dz_u: real,
    fpu: Fpu<F>,
    value: spec_fn(u64) -> real,
)
    requires
        reads_numbers(value),
        reads_order(value),
        exact_dual_entry(grad, x, x_l, x_u, mu, kappa_d, fpu, value),
        exact_sigma(x, x_l, x_u, z_l, z_u, fpu, value),
        value(kappa_d) == (0 as real),
        moved + value(sigma_entry(x, x_l, x_u, z_l, z_u, fpu)) * dx + pull == value(
            dual_entry(grad, x, x_l, x_u, mu, kappa_d, fpu),
        ) - pulled,
        finite(x_l) ==> complements(
            value(mu),
            value(z_l),
            value(x) - value(x_l),
            dx,
            dz_l,
            false,
        ),
        finite(x_u) ==> complements(
            value(mu),
            value(z_u),
            value(x_u) - value(x),
            dx,
            dz_u,
            true,
        ),
    ensures
        value(grad) + moved + pulled + pull == at_bound(x_l, value(z_l) + dz_l) - at_bound(
            x_u,
            value(z_u) + dz_u,
        ),
{
    dual_entries_are_barrier_gradients(grad, x, x_l, x_u, mu, kappa_d, fpu, value);
    barrier_diagonals_are_ratios(x, x_l, x_u, z_l, z_u, fpu, value);
    let a = at_bound(x_l, value(z_l) / (value(x) - value(x_l)));
    let b = at_bound(x_u, value(z_u) / (value(x_u) - value(x)));
    assert((a + b) * dx == a * dx + b * dx) by (nonlinear_arith);
    assert((0 as real) * dx == (0 as real)) by (nonlinear_arith);
    if finite(x_l) {
        lemma_full_multiplier(value(mu), value(z_l), value(x) - value(x_l), dx, dz_l, false);
    }
    if finite(x_u) {
        lemma_full_multiplier(value(mu), value(z_u), value(x_u) - value(x), dx, dz_u, true);
    }
}

/// Where some bound of an inequality holds and nothing rounds, its row has minus
/// the inverse of the barrier diagonal on the diagonal, and on the right-hand side
/// the residual of the slack, the correction over the barrier diagonal, and the
/// violation. Otherwise nothing is added, and the right-hand side is the
/// violation.
pub proof fn slack_rows_are_condensed<F: Fn(FloatOp, u64, u64) -> u64>(
    d_x: u64,
    s: u64,
    t: SlackTerms,
    fpu: Fpu<F>,
    value: spec_fn(u64) -> real,
)
    requires
        reads_numbers(value),
        reads_order(value),
        finite(t.sigma),
        finite(TEN_M20),
        ({
            let inverse = fpu.quotient(ONE, t.sigma);
            let residual = negated(fpu.difference(d_x, s));
            let centered = fpu.product(inverse, t.correction);
            t.feasible && value(t.sigma) > value(TEN_M20) && value(TEN_M20) > (0 as real) ==> {
                &&& fpu.calc(FloatOp::Min, inverse, TEN_P20) == inverse
                &&& exact(FloatOp::Div, ONE, t.sigma, fpu, value)
                &&& exact(FloatOp::Sub, d_x, s, fpu, value)
                &&& exact(FloatOp::Mul, inverse, t.correction, fpu, value)
                &&& exact(FloatOp::Add, residual, centered, fpu, value)
                &&& exact(FloatOp::Add, fpu.sum(residual, centered), t.violation, fpu, value)
            }
        }),
        value(TEN_M20) > (0 as real),
    ensures
        ({
            let (diag, rhs) = slack_row(d_x, s, t, fpu);
            if t.feasible && value(t.sigma) > value(TEN_M20) {
                &&& diag matches Some(v) && value(v) == -((1 as real) / value(t.sigma))
                &&& value(rhs) == -(value(d_x) - value(s)) + value(t.correction) / value(t.sigma)
                    + value(t.violation)
            } else {
                diag is None && rhs == t.violation
            }
        }),
{
    assert(num_lt(TEN_M20, t.sigma) <==> value(TEN_M20) < value(t.sigma));
    if t.feasible && value(t.sigma) > value(TEN_M20) {
        let inverse = fpu.quotient(ONE, t.sigma);
        lemma_over(value(inverse), value(t.sigma), 1 as real);
        let (a, b, c) = (value(inverse), value(t.sigma), value(t.correction));
        assert((a * c) * b == c) by (nonlinear_arith)
            requires
                a * b == (1 as real),
        ;
        lemma_over(a * c, b, c);
        assert(value(negated(inverse)) == -value(inverse));
        assert(value(negated(fpu.difference(d_x, s))) == -value(fpu.difference(d_x, s)));
    }
}

} // verus!
