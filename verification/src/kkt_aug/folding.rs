//! The folded residuals of the variables are the right-hand side of the
//! condensed system.

use crate::float::{finite, negated, num_lt, FloatOp, Fpu, ZERO};
use crate::kkt::assemble::dual_entry;
use crate::kkt::barrier::slack;
use crate::kkt_aug::system::{
    complementarity, folded, folded_entry, lagrangian_entry, outer_rhs, Iterate, PartitionModel,
};
use crate::linear_solver::real_matrix::{exact, reads_numbers};
use vstd::prelude::*;

verus! {

/// A variable is off its bounds by more than the least slack.
pub open spec fn is_inside<F: Fn(FloatOp, u64, u64) -> u64>(
    a: u64,
    b: u64,
    fpu: Fpu<F>,
    value: spec_fn(u64) -> real,
) -> bool {
    &&& value(slack(a, b, fpu)) == value(fpu.difference(a, b))
    &&& value(slack(a, b, fpu)) != (0 as real)
}

/// The residual of a variable is computed without rounding.
pub open spec fn exact_residual<F: Fn(FloatOp, u64, u64) -> u64>(
    r: u64,
    lower: u64,
    upper: u64,
    z_l: u64,
    z_u: u64,
    mu: u64,
    kappa_d: u64,
    fpu: Fpu<F>,
    value: spec_fn(u64) -> real,
) -> bool {
    let a = if finite(lower) {
        fpu.difference(r, z_l)
    } else {
        r
    };
    let b = if finite(upper) {
        fpu.sum(a, z_u)
    } else {
        a
    };
    &&& finite(lower) ==> exact(FloatOp::Sub, r, z_l, fpu, value)
    &&& finite(upper) ==> exact(FloatOp::Add, a, z_u, fpu, value)
    &&& exact_damping(b, lower, upper, mu, kappa_d, finite(upper), fpu, value)
}

/// The damping is added to `b`, or subtracted from it, without rounding.
pub open spec fn exact_damping<F: Fn(FloatOp, u64, u64) -> u64>(
    b: u64,
    lower: u64,
    upper: u64,
    mu: u64,
    kappa_d: u64,
    minus: bool,
    fpu: Fpu<F>,
    value: spec_fn(u64) -> real,
) -> bool {
    num_lt(ZERO, kappa_d) && finite(lower) != finite(upper) ==> exact(
        if minus {
            FloatOp::Sub
        } else {
            FloatOp::Add
        },
        b,
        fpu.product(kappa_d, mu),
        fpu,
        value,
    )
}

/// The complementarity of a bound, and its quotient by the slack, are computed
/// without rounding.
pub open spec fn exact_complementarity<F: Fn(FloatOp, u64, u64) -> u64>(
    z: u64,
    s: u64,
    mu: u64,
    fpu: Fpu<F>,
    value: spec_fn(u64) -> real,
) -> bool {
    let c = fpu.difference(fpu.product(z, s), mu);
    &&& exact(FloatOp::Mul, z, s, fpu, value)
    &&& exact(FloatOp::Sub, fpu.product(z, s), mu, fpu, value)
    &&& exact(FloatOp::Div, c, s, fpu, value)
}

/// Residuals are folded without rounding.
pub open spec fn exact_folding<F: Fn(FloatOp, u64, u64) -> u64>(
    r: u64,
    x: u64,
    lower: u64,
    upper: u64,
    c_l: u64,
    c_u: u64,
    fpu: Fpu<F>,
    value: spec_fn(u64) -> real,
) -> bool {
    let a = negated(r);
    let q_l = fpu.quotient(c_l, slack(x, lower, fpu));
    let b = if finite(lower) {
        fpu.difference(a, q_l)
    } else {
        a
    };
    &&& finite(lower) ==> exact(FloatOp::Sub, a, q_l, fpu, value)
    &&& finite(upper) ==> exact(
        FloatOp::Add,
        b,
        fpu.quotient(c_u, slack(upper, x, fpu)),
        fpu,
        value,
    )
}

/// The right-hand side of a variable is computed without rounding.
pub open spec fn exact_dual<F: Fn(FloatOp, u64, u64) -> u64>(
    grad: u64,
    x: u64,
    lower: u64,
    upper: u64,
    mu: u64,
    kappa_d: u64,
    fpu: Fpu<F>,
    value: spec_fn(u64) -> real,
) -> bool {
    let a = negated(grad);
    let q_l = fpu.quotient(mu, fpu.difference(x, lower));
    let q_u = fpu.quotient(mu, fpu.difference(upper, x));
    let b = if finite(lower) {
        fpu.sum(a, q_l)
    } else {
        a
    };
    let c = if finite(upper) {
        fpu.difference(b, q_u)
    } else {
        b
    };
    &&& finite(lower) ==> {
        &&& exact(FloatOp::Div, mu, fpu.difference(x, lower), fpu, value)
        &&& exact(FloatOp::Add, a, q_l, fpu, value)
    }
    &&& finite(upper) ==> {
        &&& exact(FloatOp::Div, mu, fpu.difference(upper, x), fpu, value)
        &&& exact(FloatOp::Sub, b, q_u, fpu, value)
    }
    &&& exact_damping(c, lower, upper, mu, kappa_d, finite(lower), fpu, value)
}

/// Both ways to the right-hand side of variable `j` are computed without
/// rounding.
pub open spec fn exact_variable<F: Fn(FloatOp, u64, u64) -> u64>(
    it: Iterate,
    j_t_y: Seq<u64>,
    mu: u64,
    kappa_d: u64,
    j: int,
    fpu: Fpu<F>,
    value: spec_fn(u64) -> real,
) -> bool {
    let (x, l, u) = (it.x[j], it.x_l[j], it.x_u[j]);
    let (s_l, s_u) = (slack(x, l, fpu), slack(u, x, fpu));
    let r = fpu.sum(it.grad_f[j], j_t_y[j]);
    &&& finite(l) ==> is_inside(x, l, fpu, value) && exact_complementarity(
        it.z_l[j],
        s_l,
        mu,
        fpu,
        value,
    )
    &&& finite(u) ==> is_inside(u, x, fpu, value) && exact_complementarity(
        it.z_u[j],
        s_u,
        mu,
        fpu,
        value,
    )
    &&& exact(FloatOp::Add, it.grad_f[j], j_t_y[j], fpu, value)
    &&& exact_residual(r, l, u, it.z_l[j], it.z_u[j], mu, kappa_d, fpu, value)
    &&& exact_folding(
        lagrangian_entry(r, l, u, it.z_l[j], it.z_u[j], mu, kappa_d, fpu),
        x,
        l,
        u,
        complementarity(l, it.z_l[j], s_l, mu, fpu),
        complementarity(u, it.z_u[j], s_u, mu, fpu),
        fpu,
        value,
    )
    &&& exact_dual(it.grad_f[j], x, l, u, mu, kappa_d, fpu, value)
}

/// The multiplier is the sum of the folded complementarity and the centering
/// term.
proof fn lemma_centered(z: real, s: real, mu: real, q: real, c: real)
    requires
        s != (0 as real),
        q * s == z * s - mu,
        c * s == mu,
    ensures
        q == z - c,
{
    assert((q - (z - c)) * s == q * s - (z * s - c * s)) by (nonlinear_arith);
    let d = q - (z - c);
    assert(d == (0 as real)) by (nonlinear_arith)
        requires
            d * s == (0 as real),
            s != (0 as real),
    ;
}

/// Where nothing rounds and the variable is inside its bounds, the folded
/// residual of a variable is the right-hand side that the condensed system has
/// for it: minus the gradient, the centering terms, and the damping, less the
/// product of the transposed Jacobian and the multipliers.
pub proof fn folded_variables_are_centered<F: Fn(FloatOp, u64, u64) -> u64>(
    n: nat,
    p: PartitionModel,
    it: Iterate,
    j_t_y: Seq<u64>,
    mu: u64,
    kappa_d: u64,
    j: int,
    fpu: Fpu<F>,
    value: spec_fn(u64) -> real,
)
    requires
        reads_numbers(value),
        0 <= j < n,
        0 <= p.n_c,
        0 <= p.n_d,
        exact_variable(it, j_t_y, mu, kappa_d, j, fpu, value),
    ensures
        value(
            folded(
                n as int,
                p,
                outer_rhs(n, p, it, j_t_y, mu, kappa_d, fpu),
                it.x,
                it.x_l,
                it.x_u,
                it.s,
                it.g_l,
                it.g_u,
                fpu,
            )[j],
        ) == value(
            dual_entry(it.grad_f[j], it.x[j], it.x_l[j], it.x_u[j], mu, kappa_d, fpu),
        ) - value(j_t_y[j]),
{
    let (x, l, u) = (it.x[j], it.x_l[j], it.x_u[j]);
    let (s_l, s_u) = (slack(x, l, fpu), slack(u, x, fpu));
    let r = fpu.sum(it.grad_f[j], j_t_y[j]);
    let rhs = outer_rhs(n, p, it, j_t_y, mu, kappa_d, fpu);
    let lag = lagrangian_entry(r, l, u, it.z_l[j], it.z_u[j], mu, kappa_d, fpu);
    assert(rhs.x[j] == lag);
    let c_l = complementarity(l, it.z_l[j], s_l, mu, fpu);
    let c_u = complementarity(u, it.z_u[j], s_u, mu, fpu);
    assert(rhs.z_l[j] == c_l && rhs.z_u[j] == c_u);
    if finite(l) {
        lemma_centered(
            value(it.z_l[j]),
            value(s_l),
            value(mu),
            value(fpu.quotient(c_l, s_l)),
            value(fpu.quotient(mu, fpu.difference(x, l))),
        );
    }
    if finite(u) {
        lemma_centered(
            value(it.z_u[j]),
            value(s_u),
            value(mu),
            value(fpu.quotient(c_u, s_u)),
            value(fpu.quotient(mu, fpu.difference(u, x))),
        );
    }
    assert(value(negated(lag)) == -value(lag));
    assert(value(negated(it.grad_f[j])) == -value(it.grad_f[j]));
    assert(folded_entry(lag, x, l, u, c_l, c_u, fpu) == folded(
        n as int,
        p,
        rhs,
        it.x,
        it.x_l,
        it.x_u,
        it.s,
        it.g_l,
        it.g_u,
        fpu,
    )[j]);
}

} // verus!
