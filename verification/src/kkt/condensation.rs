//! Recovered steps of slacks meet the equations that were condensed out.

use crate::float::{negated, num_eq, FloatOp, Fpu, ONE, TEN_P20, ZERO};
use crate::kkt::assemble::{slack_row, SlackTerms};
use crate::kkt::barrier::slack_steps;
use crate::kkt::layout::is_equation;
use crate::linear_solver::real_matrix::{exact, reads_numbers};
use vstd::prelude::*;

verus! {

/// The row of an inequality with the terms `t` is computed without rounding, and
/// none of its bounds is violated.
pub open spec fn exact_slack_row<F: Fn(FloatOp, u64, u64) -> u64>(
    d_x: u64,
    s: u64,
    t: SlackTerms,
    fpu: Fpu<F>,
    value: spec_fn(u64) -> real,
) -> bool {
    let inverse = fpu.calc(FloatOp::Min, fpu.quotient(ONE, t.sigma), TEN_P20);
    let residual = negated(fpu.difference(d_x, s));
    let centered = fpu.product(inverse, t.correction);
    &&& value(t.violation) == (0 as real)
    &&& value(inverse) == value(fpu.quotient(ONE, t.sigma))
    &&& exact(FloatOp::Div, ONE, t.sigma, fpu, value)
    &&& exact(FloatOp::Mul, inverse, t.correction, fpu, value)
    &&& exact(FloatOp::Add, residual, centered, fpu, value)
    &&& exact(FloatOp::Add, fpu.sum(residual, centered), t.violation, fpu, value)
}

/// The step of a slack is computed without rounding, where no perturbation was
/// added to its row.
pub open spec fn exact_slack_step<F: Fn(FloatOp, u64, u64) -> u64>(
    jdx: u64,
    g: u64,
    s: u64,
    dy: u64,
    fpu: Fpu<F>,
    value: spec_fn(u64) -> real,
) -> bool {
    let gap = fpu.difference(g, s);
    let none = fpu.product(ZERO, dy);
    &&& exact(FloatOp::Mul, ZERO, dy, fpu, value)
    &&& exact(FloatOp::Sub, gap, none, fpu, value)
    &&& exact(FloatOp::Add, jdx, fpu.difference(gap, none), fpu, value)
}

/// Where nothing rounds, a step `dy` that meets the condensed row of an
/// inequality, and the step of the slack that is recovered from it, meet the row
/// of the slack in the full system: `sigma ds - dy` is the multiplier with the
/// centering terms.
pub proof fn slack_steps_meet_the_slack_row<F: Fn(FloatOp, u64, u64) -> u64>(
    m: nat,
    jdx: Seq<u64>,
    g: Seq<u64>,
    g_l: Seq<u64>,
    g_u: Seq<u64>,
    s: Seq<u64>,
    dy: Seq<u64>,
    t: SlackTerms,
    i: int,
    fpu: Fpu<F>,
    value: spec_fn(u64) -> real,
)
    requires
        reads_numbers(value),
        0 <= i < m,
        !is_equation(g_l[i], g_u[i], fpu),
        slack_row(g[i], s[i], t, fpu).0 is Some,
        exact_slack_row(g[i], s[i], t, fpu, value),
        exact_slack_step(jdx[i], g[i], s[i], dy[i], fpu, value),
        value(jdx[i]) + value(slack_row(g[i], s[i], t, fpu).0->0) * value(dy[i]) == value(
            slack_row(g[i], s[i], t, fpu).1,
        ),
    ensures
        value(t.sigma) * value(
            slack_steps(m, jdx, g, g_l, g_u, s, dy, Seq::empty(), fpu)[i],
        ) - value(dy[i]) == value(t.correction),
{
    let inverse = fpu.calc(FloatOp::Min, fpu.quotient(ONE, t.sigma), TEN_P20);
    let gap = fpu.difference(g[i], s[i]);
    let ds = value(slack_steps(m, jdx, g, g_l, g_u, s, dy, Seq::empty(), fpu)[i]);
    let (a, b, c, d) = (
        value(inverse),
        value(t.sigma),
        value(t.correction),
        value(dy[i]),
    );
    assert(num_eq(ZERO, ZERO));
    assert((0 as real) * d == (0 as real)) by (nonlinear_arith);
    assert(value(negated(gap)) == -value(gap));
    assert(value(negated(inverse)) == -a);
    assert((-a) * d == -(a * d)) by (nonlinear_arith);
    assert(ds == a * d + a * c);
    assert(b * (a * d + a * c) == (a * b) * d + (a * b) * c) by (nonlinear_arith);
    assert(a * b == (1 as real));
    assert((1 as real) * d == d && (1 as real) * c == c) by (nonlinear_arith);
}

} // verus!
