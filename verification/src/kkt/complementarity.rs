//! Recovered steps of multipliers meet the linearized complementarity.

use crate::float::{finite, FloatOp, Fpu};
use crate::kkt::barrier::{constraint_steps, lower_steps, multiplier_step, slack, upper_steps};
use crate::kkt::layout::is_equation;
use crate::linear_solver::real_matrix::exact;
use vstd::prelude::*;

verus! {

/// The step of a multiplier is computed without rounding.
pub open spec fn exact_step<F: Fn(FloatOp, u64, u64) -> u64>(
    mu: u64,
    z: u64,
    s: u64,
    d: u64,
    upper: bool,
    fpu: Fpu<F>,
    value: spec_fn(u64) -> real,
) -> bool {
    let gap = fpu.difference(mu, fpu.product(z, s));
    let ratio = fpu.quotient(z, s);
    &&& exact(FloatOp::Mul, z, s, fpu, value)
    &&& exact(FloatOp::Sub, mu, fpu.product(z, s), fpu, value)
    &&& exact(FloatOp::Div, gap, s, fpu, value)
    &&& exact(FloatOp::Div, z, s, fpu, value)
    &&& exact(FloatOp::Mul, ratio, d, fpu, value)
    &&& exact(
        if upper {
            FloatOp::Add
        } else {
            FloatOp::Sub
        },
        fpu.quotient(gap, s),
        fpu.product(ratio, d),
        fpu,
        value,
    )
}

/// The linearized complementarity of a multiplier `z` and a slack `s` that moves
/// with `d`, or against it at an upper bound: `s dz + z ds = mu - z s`.
pub open spec fn complements(
    mu: real,
    z: real,
    s: real,
    d: real,
    dz: real,
    upper: bool,
) -> bool {
    s * dz + (if upper {
        -(z * d)
    } else {
        z * d
    }) == mu - z * s
}

proof fn lemma_step<F: Fn(FloatOp, u64, u64) -> u64>(
    mu: u64,
    z: u64,
    s: u64,
    d: u64,
    upper: bool,
    fpu: Fpu<F>,
    value: spec_fn(u64) -> real,
)
    requires
        exact_step(mu, z, s, d, upper, fpu, value),
    ensures
        complements(
            value(mu),
            value(z),
            value(s),
            value(d),
            value(multiplier_step(mu, z, s, d, upper, fpu)),
            upper,
        ),
{
    let gap = fpu.difference(mu, fpu.product(z, s));
    let c = value(fpu.quotient(gap, s));
    let q = value(fpu.quotient(z, s));
    let (sv, dv, zv) = (value(s), value(d), value(z));
    assert(sv * (c + q * dv) == c * sv + (q * sv) * dv) by (nonlinear_arith);
    assert(sv * (c - q * dv) == c * sv - (q * sv) * dv) by (nonlinear_arith);
}

/// Where nothing rounds, the recovered steps of the bound multipliers meet the
/// linearized complementarity at every finite bound.
pub proof fn bound_steps_complement<F: Fn(FloatOp, u64, u64) -> u64>(
    x: Seq<u64>,
    x_l: Seq<u64>,
    x_u: Seq<u64>,
    z_l: Seq<u64>,
    z_u: Seq<u64>,
    dx: Seq<u64>,
    mu: u64,
    i: int,
    fpu: Fpu<F>,
    value: spec_fn(u64) -> real,
)
    requires
        0 <= i < x.len(),
        finite(x_l[i]) ==> exact_step(
            mu,
            z_l[i],
            slack(x[i], x_l[i], fpu),
            dx[i],
            false,
            fpu,
            value,
        ),
        finite(x_u[i]) ==> exact_step(
            mu,
            z_u[i],
            slack(x_u[i], x[i], fpu),
            dx[i],
            true,
            fpu,
            value,
        ),
    ensures
        finite(x_l[i]) ==> complements(
            value(mu),
            value(z_l[i]),
            value(slack(x[i], x_l[i], fpu)),
            value(dx[i]),
            value(lower_steps(x, x_l, z_l, dx, mu, fpu)[i]),
            false,
        ),
        finite(x_u[i]) ==> complements(
            value(mu),
            value(z_u[i]),
            value(slack(x_u[i], x[i], fpu)),
            value(dx[i]),
            value(upper_steps(x, x_u, z_u, dx, mu, fpu)[i]),
            true,
        ),
{
    if finite(x_l[i]) {
        lemma_step(mu, z_l[i], slack(x[i], x_l[i], fpu), dx[i], false, fpu, value);
    }
    if finite(x_u[i]) {
        lemma_step(mu, z_u[i], slack(x_u[i], x[i], fpu), dx[i], true, fpu, value);
    }
}

/// Where nothing rounds, the recovered steps of the multipliers of the constraint
/// bounds meet the linearized complementarity at every finite bound of an
/// inequality.
pub proof fn constraint_steps_complement<F: Fn(FloatOp, u64, u64) -> u64>(
    m: nat,
    g_l: Seq<u64>,
    g_u: Seq<u64>,
    s: Seq<u64>,
    v_l: Seq<u64>,
    v_u: Seq<u64>,
    ds: Seq<u64>,
    mu: u64,
    i: int,
    fpu: Fpu<F>,
    value: spec_fn(u64) -> real,
)
    requires
        0 <= i < m,
        !is_equation(g_l[i], g_u[i], fpu),
        finite(g_l[i]) ==> exact_step(
            mu,
            v_l[i],
            slack(s[i], g_l[i], fpu),
            ds[i],
            false,
            fpu,
            value,
        ),
        finite(g_u[i]) ==> exact_step(
            mu,
            v_u[i],
            slack(g_u[i], s[i], fpu),
            ds[i],
            true,
            fpu,
            value,
        ),
    ensures
        finite(g_l[i]) ==> complements(
            value(mu),
            value(v_l[i]),
            value(slack(s[i], g_l[i], fpu)),
            value(ds[i]),
            value(constraint_steps(m, g_l, g_u, s, v_l, ds, mu, false, fpu)[i]),
            false,
        ),
        finite(g_u[i]) ==> complements(
            value(mu),
            value(v_u[i]),
            value(slack(g_u[i], s[i], fpu)),
            value(ds[i]),
            value(constraint_steps(m, g_l, g_u, s, v_u, ds, mu, true, fpu)[i]),
            true,
        ),
{
    if finite(g_l[i]) {
        lemma_step(mu, v_l[i], slack(s[i], g_l[i], fpu), ds[i], false, fpu, value);
    }
    if finite(g_u[i]) {
        lemma_step(mu, v_u[i], slack(g_u[i], s[i], fpu), ds[i], true, fpu, value);
    }
}

} // verus!
