//! What the detection of linear constraints finds.

use crate::float::{
    absolute, finite, num_le, num_lt, FloatOp, Fpu, ONE, TENTH, TEN_M12, TEN_M20, TEN_M4,
};
use crate::linear_solver::real_matrix::{exact, picks_larger, picks_smaller};
use crate::linearity::{displaced, held, is_moved, linear_by, second_point};
use crate::preprocessing::feasibility::within;
use crate::preprocessing::points::differs;
use crate::problem::ProblemShape;
use vstd::prelude::*;

verus! {

/// The larger and the smaller of a number and the finite bounds are picked.
pub open spec fn picks_bounds<F: Fn(FloatOp, u64, u64) -> u64>(
    v: u64,
    l: u64,
    u: u64,
    fpu: Fpu<F>,
    value: spec_fn(u64) -> real,
) -> bool {
    let a = if finite(l) {
        fpu.calc(FloatOp::Max, v, l)
    } else {
        v
    };
    &&& finite(l) ==> picks_larger(v, l, fpu, value)
    &&& finite(u) ==> picks_smaller(a, u, fpu, value)
}

/// A number held within bounds lies between them, and is the number itself where that does.
pub proof fn held_numbers_lie_between<F: Fn(FloatOp, u64, u64) -> u64>(
    v: u64,
    l: u64,
    u: u64,
    fpu: Fpu<F>,
    value: spec_fn(u64) -> real,
)
    requires
        picks_bounds(v, l, u, fpu, value),
        finite(l) && finite(u) ==> value(l) <= value(u),
    ensures
        within(value(held(v, l, u, fpu)), l, u, value),
        within(value(v), l, u, value) ==> value(held(v, l, u, fpu)) == value(v),
        finite(l) && value(v) < value(l) ==> value(held(v, l, u, fpu)) == value(l),
        finite(u) && value(v) > value(u) ==> value(held(v, l, u, fpu)) == value(u),
{
}

/// The second point lies within the bounds. Where a variable is free to move up by one and a tenth of its size, it
/// does; where moving up gets it less than `1e-4` away, it moves down as far as the lower bound lets it.
pub proof fn second_points_lie_between<F: Fn(FloatOp, u64, u64) -> u64>(
    x: u64,
    l: u64,
    u: u64,
    fpu: Fpu<F>,
    value: spec_fn(u64) -> real,
)
    requires
        finite(l) && finite(u) ==> value(l) <= value(u),
        ({
            let size = absolute(x);
            let tenth = fpu.product(TENTH, size);
            let step = fpu.sum(ONE, tenth);
            let (up, down) = (fpu.sum(x, step), fpu.difference(x, step));
            let gap = fpu.difference(held(up, l, u, fpu), x);
            &&& value(ONE) == (1 as real)
            &&& exact(FloatOp::Mul, TENTH, size, fpu, value)
            &&& exact(FloatOp::Add, ONE, tenth, fpu, value)
            &&& exact(FloatOp::Add, x, step, fpu, value)
            &&& exact(FloatOp::Sub, x, step, fpu, value)
            &&& exact(FloatOp::Sub, held(up, l, u, fpu), x, fpu, value)
            &&& picks_bounds(up, l, u, fpu, value)
            &&& picks_bounds(down, l, u, fpu, value)
            &&& num_lt(absolute(gap), TEN_M4) <==> -value(TEN_M4) < value(gap) < value(TEN_M4)
        }),
    ensures
        ({
            let r = value(displaced(x, l, u, fpu));
            let step = (1 as real) + value(TENTH) * value(absolute(x));
            let (up, down) = (value(x) + step, value(x) - step);
            &&& within(r, l, u, value)
            &&& within(up, l, u, value) && step >= value(TEN_M4) ==> r == up
            &&& finite(u) && value(x) <= value(u) && value(u) - value(x) < value(TEN_M4) && up
                > value(u) && value(TEN_M4) > (0 as real) && within(down, l, u, value) ==> r == down
        }),
{
    let size = absolute(x);
    let step = fpu.sum(ONE, fpu.product(TENTH, size));
    let (up, down) = (fpu.sum(x, step), fpu.difference(x, step));
    held_numbers_lie_between(up, l, u, fpu, value);
    held_numbers_lie_between(down, l, u, fpu, value);
}

/// Entries of a Jacobian that are not told to differ are the same number.
pub open spec fn entries_told_apart<F: Fn(FloatOp, u64, u64) -> u64>(
    v0: Seq<u64>,
    v1: Seq<u64>,
    fpu: Fpu<F>,
    value: spec_fn(u64) -> real,
) -> bool {
    forall|k: int|
        0 <= k < v0.len() ==> value(#[trigger] v0[k]) != value(v1[k]) ==> differs(
            v0[k],
            v1[k],
            TEN_M12,
            fpu,
        )
}

/// A constraint that is taken for linear has the same Jacobian entries at both points, and each variable with an entry
/// that is not nearly zero was moved between them. Where one of the Jacobians is missing, none is taken.
pub proof fn linear_rows_are_constant<F: Fn(FloatOp, u64, u64) -> u64>(
    s: ProblemShape,
    x0: Seq<u64>,
    a: Option<Seq<u64>>,
    b: Option<Seq<u64>>,
    r: int,
    k: int,
    fpu: Fpu<F>,
    value: spec_fn(u64) -> real,
)
    requires
        s.well_formed(),
        0 <= r < s.m,
        0 <= k < s.jac_rows.len(),
        s.jac_rows[k] == r,
        a matches Some(v0) ==> v0.len() == s.jac_rows.len(),
        a is Some && b is Some ==> entries_told_apart(a->0, b->0, fpu, value),
        linear_by(s, x0, a, b, fpu)[r],
    ensures
        a is Some && b is Some,
        value(a->0[k]) == value(b->0[k]),
        num_lt(TEN_M20, absolute(a->0[k])) ==> ({
            let j = s.jac_cols[k] as int;
            num_le(
                TEN_M4,
                absolute(
                    fpu.difference(displaced(x0[j], s.x_l[j], s.x_u[j], fpu), x0[j]),
                ),
            )
        }),
{
    assert(a is Some && b is Some);
    let j = s.jac_cols[k] as int;
    assert(s.jac_cols[k] < s.n);
    assert(second_point(s, x0, fpu)[j] == displaced(x0[j], s.x_l[j], s.x_u[j], fpu));
}

/// A constraint with the same Jacobian entries at both points, between which all its variables were moved, is taken for
/// linear.
pub proof fn constant_rows_are_linear<F: Fn(FloatOp, u64, u64) -> u64>(
    s: ProblemShape,
    x0: Seq<u64>,
    v0: Seq<u64>,
    v1: Seq<u64>,
    r: int,
    fpu: Fpu<F>,
)
    requires
        s.well_formed(),
        0 <= r < s.m,
        forall|k: int|
            0 <= k < s.jac_rows.len() && #[trigger] s.jac_rows[k] == r ==> v0[k] == v1[k]
                && !differs(v0[k], v0[k], TEN_M12, fpu) && ({
                let j = s.jac_cols[k] as int;
                num_le(
                    TEN_M4,
                    absolute(
                        fpu.difference(displaced(x0[j], s.x_l[j], s.x_u[j], fpu), x0[j]),
                    ),
                )
            }),
    ensures
        linear_by(s, x0, Some(v0), Some(v1), fpu)[r],
{
    assert forall|k: int| 0 <= k < s.jac_rows.len() && #[trigger] s.jac_rows[k] == r implies is_moved(
        s,
        x0,
        s.jac_cols[k] as int,
        fpu,
    ) by {
        let j = s.jac_cols[k] as int;
        assert(s.jac_cols[k] < s.n);
        assert(second_point(s, x0, fpu)[j] == displaced(x0[j], s.x_l[j], s.x_u[j], fpu));
    }
}

} // verus!
