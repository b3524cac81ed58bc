//! What the second derivatives gathered from a tape mean.

use crate::float::{num_eq, FloatOp, Fpu, ZERO};
use crate::nl::autodiff::{ordered, reads, OpModel};
use crate::nl::derivative::{
    congruent, exact_modulo, lemma_back, lemma_chain, lemma_moved, lemma_plus, lemma_product_moved,
    lemma_same, lemma_times, moves_along, polynomial, times,
};
use crate::nl::expr::BinaryOp;
use crate::nl::meaning::run;
use crate::nl::sweeps::{
    applied, first_updates, float_algebra, gradient_of, hessian_state, reverse_state,
    on_tape, second_state, second_updates, slot, slots_below, tangents, variable_list,
    variables_below, ExternalArg, ExternalValue, Externals, UpdateModel,
};
use crate::sorted::increasing;
use std::collections::HashMap;
use vstd::prelude::*;

verus! {

/// What an operation with the adjoint `a` adds to that of its first operand.
spec fn to_left(op: OpModel, a: int, rv: int) -> int {
    match op {
        OpModel::Binary(BinaryOp::Mul, _, _) => a * rv,
        OpModel::Unary(_, _) => -a,
        _ => a,
    }
}

/// The same for the second operand.
spec fn to_right(op: OpModel, a: int, lv: int) -> int {
    match op {
        OpModel::Binary(BinaryOp::Mul, _, _) => a * lv,
        OpModel::Binary(BinaryOp::Sub, _, _) => -a,
        _ => a,
    }
}

/// What entry `k` gains if the first operand gains `left`, and the second one
/// `right`.
spec fn gain(op: OpModel, k: int, left: int, right: int) -> int {
    match op {
        OpModel::Binary(_, l, r) => (if k == l {
            left
        } else {
            0
        }) + (if k == r {
            right
        } else {
            0
        }),
        OpModel::Unary(_, j) => if k == j {
            left
        } else {
            0
        },
        _ => 0,
    }
}

/// What an update does to the value of entry `k`.
proof fn lemma_updated<F: Fn(FloatOp, u64, u64) -> u64>(
    a: Seq<u64>,
    u: UpdateModel,
    amount: int,
    k: int,
    fpu: Fpu<F>,
    value: spec_fn(u64) -> int,
    m: int,
)
    requires
        exact_modulo(fpu, value, m),
        0 <= u.target < a.len(),
        0 <= k < a.len(),
        congruent(
            value(u.amount),
            if u.subtract {
                -amount
            } else {
                amount
            },
            m,
        ),
    ensures
        ({
            let now = if u.subtract {
                fpu.difference(a[u.target], u.amount)
            } else {
                fpu.sum(a[u.target], u.amount)
            };
            congruent(
                value(a.update(u.target, now)[k]),
                value(a[k]) + (if k == u.target {
                    amount
                } else {
                    0
                }),
                m,
            )
        }),
{
    let was = value(a[k]);
    lemma_same(was, was, m);
    if k == u.target {
        let change = if u.subtract {
            -amount
        } else {
            amount
        };
        lemma_plus(was, was, value(u.amount), change, m);
        if u.subtract {
            lemma_chain(
                value(fpu.difference(a[k], u.amount)),
                was - value(u.amount),
                was + amount,
                m,
            );
        } else {
            lemma_chain(value(fpu.sum(a[k], u.amount)), was + value(u.amount), was + amount, m);
        }
    }
}

/// The value of entry `k` after one and two updates of `a`.
proof fn lemma_two_updates<F: Fn(FloatOp, u64, u64) -> u64>(
    op: OpModel,
    a: Seq<u64>,
    u: UpdateModel,
    v: UpdateModel,
    left: int,
    right: int,
    k: int,
    fpu: Fpu<F>,
    value: spec_fn(u64) -> int,
    m: int,
)
    requires
        exact_modulo(fpu, value, m),
        op is Binary,
        u.target == op->Binary_1,
        v.target == op->Binary_2,
        0 <= u.target < a.len(),
        0 <= v.target < a.len(),
        0 <= k < a.len(),
        !u.subtract,
        congruent(value(u.amount), left, m),
        congruent(
            value(v.amount),
            if v.subtract {
                -right
            } else {
                right
            },
            m,
        ),
    ensures
        ({
            let mid = a.update(u.target, fpu.sum(a[u.target], u.amount));
            let now = if v.subtract {
                fpu.difference(mid[v.target], v.amount)
            } else {
                fpu.sum(mid[v.target], v.amount)
            };
            congruent(
                value(mid.update(v.target, now)[k]),
                value(a[k]) + gain(op, k, left, right),
                m,
            )
        }),
{
    let mid = a.update(u.target, fpu.sum(a[u.target], u.amount));
    let now = if v.subtract {
        fpu.difference(mid[v.target], v.amount)
    } else {
        fpu.sum(mid[v.target], v.amount)
    };
    lemma_updated(a, u, left, k, fpu, value, m);
    lemma_updated(mid, v, right, k, fpu, value, m);
    let first = if k == u.target {
        left
    } else {
        0
    };
    let second = if k == v.target {
        right
    } else {
        0
    };
    lemma_same(second, second, m);
    lemma_plus(value(mid[k]), value(a[k]) + first, second, second, m);
    lemma_chain(
        value(mid.update(v.target, now)[k]),
        value(mid[k]) + second,
        value(a[k]) + first + second,
        m,
    );
}

/// The reverse sweep at an operation that is no variable.
proof fn lemma_first_effect<
    F: Fn(FloatOp, u64, u64) -> u64,
    E: Fn(usize, &String, &Vec<ExternalArg>, bool, bool) -> ExternalValue,
>(
    op: OpModel,
    i: int,
    adj: Seq<u64>,
    vals: Seq<u64>,
    k: int,
    fpu: Fpu<F>,
    ext: Externals<E>,
    value: spec_fn(u64) -> int,
    m: int,
)
    requires
        exact_modulo(fpu, value, m),
        polynomial(op),
        !(op is Var),
        0 <= i < adj.len(),
        0 <= k < adj.len(),
        forall|t: int| #[trigger] reads(op, t) ==> 0 <= t < i,
    ensures
        ({
            let ups = first_updates(op, i, adj[i], vals, fpu, ext);
            let after = if num_eq(adj[i], ZERO) {
                adj
            } else {
                applied(adj, ups, ups.len(), false, fpu)
            };
            let (lv, rv) = operands(op, vals, value);
            let a = value(adj[i]);
            &&& after.len() == adj.len()
            &&& congruent(
                value(after[k]),
                value(adj[k]) + gain(op, k, to_left(op, a, rv), to_right(op, a, lv)),
                m,
            )
        }),
{
    reveal_with_fuel(applied, 3);
    let w = adj[i];
    let a = value(w);
    let ups = first_updates(op, i, w, vals, fpu, ext);
    let (lv, rv) = operands(op, vals, value);
    let (left, right) = (to_left(op, a, rv), to_right(op, a, lv));
    lemma_same(a, a, m);
    lemma_same(value(adj[k]), value(adj[k]), m);
    if num_eq(w, ZERO) {
        assert(0 * lv == 0 && 0 * rv == 0) by (nonlinear_arith);
    } else {
        match op {
            OpModel::Binary(_, l, r) => {
                assert(reads(op, l) && reads(op, r));
                lemma_two_updates(op, adj, ups[0], ups[1], left, right, k, fpu, value, m);
            },
            OpModel::Unary(_, j) => {
                assert(reads(op, j));
                lemma_updated(adj, ups[0], left, k, fpu, value, m);
            },
            _ => {},
        }
    }
}

/// The values of the operands of an operation.
spec fn operands(op: OpModel, vals: Seq<u64>, value: spec_fn(u64) -> int) -> (int, int) {
    match op {
        OpModel::Binary(_, l, r) => (value(vals[l]), value(vals[r])),
        OpModel::Unary(_, j) => (value(vals[j]), 0),
        _ => (0, 0),
    }
}

/// What an operation adds to the derivative of the adjoint of its first
/// operand: `w` is its own adjoint, `wd` the derivative of that, `rv` and `dr`
/// are the value and the derivative of the second operand.
spec fn to_left_dot(op: OpModel, w: int, wd: int, rv: int, dr: int) -> int {
    match op {
        OpModel::Binary(BinaryOp::Mul, _, _) => wd * rv + w * dr,
        OpModel::Unary(_, _) => -wd,
        _ => wd,
    }
}

/// The same for the second operand.
spec fn to_right_dot(op: OpModel, w: int, wd: int, lv: int, dl: int) -> int {
    match op {
        OpModel::Binary(BinaryOp::Mul, _, _) => wd * lv + w * dl,
        OpModel::Binary(BinaryOp::Sub, _, _) => -wd,
        _ => wd,
    }
}

/// The second-order sweep at an operation that is no variable.
proof fn lemma_second_effect<
    F: Fn(FloatOp, u64, u64) -> u64,
    E: Fn(usize, &String, &Vec<ExternalArg>, bool, bool) -> ExternalValue,
>(
    op: OpModel,
    i: int,
    adj: Seq<u64>,
    adj_dot: Seq<u64>,
    vals: Seq<u64>,
    dot: Seq<u64>,
    k: int,
    fpu: Fpu<F>,
    ext: Externals<E>,
    value: spec_fn(u64) -> int,
    m: int,
)
    requires
        exact_modulo(fpu, value, m),
        polynomial(op),
        !(op is Var),
        adj_dot.len() == adj.len(),
        0 <= i < adj.len(),
        0 <= k < adj.len(),
        forall|t: int| #[trigger] reads(op, t) ==> 0 <= t < i,
    ensures
        ({
            let ups = second_updates(op, i, adj[i], adj_dot[i], vals, dot, fpu, ext);
            let skip = num_eq(adj[i], ZERO) && num_eq(adj_dot[i], ZERO);
            let after = if skip {
                adj
            } else {
                applied(adj, ups, ups.len(), false, fpu)
            };
            let after_dot = if skip {
                adj_dot
            } else {
                applied(adj_dot, ups, ups.len(), true, fpu)
            };
            let (lv, rv) = operands(op, vals, value);
            let (dl, dr) = operands(op, dot, value);
            let (w, wd) = (value(adj[i]), value(adj_dot[i]));
            &&& after.len() == adj.len()
            &&& after_dot.len() == adj.len()
            &&& congruent(
                value(after[k]),
                value(adj[k]) + gain(op, k, to_left(op, w, rv), to_right(op, w, lv)),
                m,
            )
            &&& congruent(
                value(after_dot[k]),
                value(adj_dot[k]) + gain(
                    op,
                    k,
                    to_left_dot(op, w, wd, rv, dr),
                    to_right_dot(op, w, wd, lv, dl),
                ),
                m,
            )
        }),
{
    reveal_with_fuel(applied, 5);
    let (wb, wdb) = (adj[i], adj_dot[i]);
    let (w, wd) = (value(wb), value(wdb));
    let ups = second_updates(op, i, wb, wdb, vals, dot, fpu, ext);
    let (lv, rv) = operands(op, vals, value);
    let (dl, dr) = operands(op, dot, value);
    let (left, right) = (to_left(op, w, rv), to_right(op, w, lv));
    let left_dot = to_left_dot(op, w, wd, rv, dr);
    let right_dot = to_right_dot(op, w, wd, lv, dl);
    lemma_same(w, w, m);
    lemma_same(wd, wd, m);
    lemma_same(value(adj[k]), value(adj[k]), m);
    lemma_same(value(adj_dot[k]), value(adj_dot[k]), m);
    if num_eq(wb, ZERO) && num_eq(wdb, ZERO) {
        assert(0 * lv == 0 && 0 * rv == 0 && 0 * dl == 0 && 0 * dr == 0) by (nonlinear_arith);
    } else {
        match op {
            OpModel::Binary(o, l, r) => {
                assert(reads(op, l) && reads(op, r));
                if o == BinaryOp::Mul {
                    let (p, q) = (fpu.product(wdb, vals[r]), fpu.product(wb, dot[r]));
                    lemma_plus(value(p), wd * rv, value(q), w * dr, m);
                    lemma_chain(value(ups[2].amount), value(p) + value(q), left_dot, m);
                    let (p, q) = (fpu.product(wdb, vals[l]), fpu.product(wb, dot[l]));
                    lemma_plus(value(p), wd * lv, value(q), w * dl, m);
                    lemma_chain(value(ups[3].amount), value(p) + value(q), right_dot, m);
                }
                lemma_two_updates(op, adj, ups[0], ups[1], left, right, k, fpu, value, m);
                lemma_two_updates(
                    op,
                    adj_dot,
                    ups[2],
                    ups[3],
                    left_dot,
                    right_dot,
                    k,
                    fpu,
                    value,
                    m,
                );
            },
            OpModel::Unary(_, j) => {
                assert(reads(op, j));
                lemma_updated(adj, ups[0], left, k, fpu, value, m);
                lemma_updated(adj_dot, ups[1], left_dot, k, fpu, value, m);
            },
            _ => {},
        }
    }
}

/// What an operation adds to the adjoints of its operands moves by `t` times
/// what it adds to their derivatives.
proof fn lemma_gain_moved(
    op: OpModel,
    k: int,
    a: int,
    w: int,
    wd: int,
    l: int,
    lv: int,
    dl: int,
    r: int,
    rv: int,
    dr: int,
    t: int,
)
    requires
        polynomial(op),
        congruent(a, w + t * wd, t * t),
        congruent(l, lv + t * dl, t * t),
        congruent(r, rv + t * dr, t * t),
    ensures
        congruent(
            gain(op, k, to_left(op, a, r), to_right(op, a, l)),
            gain(op, k, to_left(op, w, rv), to_right(op, w, lv)) + t * gain(
                op,
                k,
                to_left_dot(op, w, wd, rv, dr),
                to_right_dot(op, w, wd, lv, dl),
            ),
            t * t,
        ),
{
    let m = t * t;
    let (left, right) = (to_left(op, a, r), to_right(op, a, l));
    let (left_x, right_x) = (to_left(op, w, rv), to_right(op, w, lv));
    let left_dot = to_left_dot(op, w, wd, rv, dr);
    let right_dot = to_right_dot(op, w, wd, lv, dl);
    lemma_same(0, 0, m);
    assert(t * (-wd) == -(t * wd)) by (nonlinear_arith);
    assert(t * 0 == 0) by (nonlinear_arith);
    lemma_plus(0, 0, a, w + t * wd, m);
    assert(congruent(left, left_x + t * left_dot, m)) by {
        if op matches OpModel::Binary(BinaryOp::Mul, _, _) {
            lemma_times(a, w + t * wd, r, rv + t * dr, m);
            lemma_product_moved(w, wd, rv, dr, t);
            assert((w + t * wd) * (rv + t * dr) - (left_x + t * left_dot) == times(wd * dr, m));
            lemma_chain(left, (w + t * wd) * (rv + t * dr), left_x + t * left_dot, m);
        }
    }
    assert(congruent(right, right_x + t * right_dot, m)) by {
        if op matches OpModel::Binary(BinaryOp::Mul, _, _) {
            lemma_times(a, w + t * wd, l, lv + t * dl, m);
            lemma_product_moved(w, wd, lv, dl, t);
            assert((w + t * wd) * (lv + t * dl) - (right_x + t * right_dot) == times(wd * dl, m));
            lemma_chain(right, (w + t * wd) * (lv + t * dl), right_x + t * right_dot, m);
        }
    }
    lemma_plus(left, left_x + t * left_dot, right, right_x + t * right_dot, m);
    assert(t * (left_dot + right_dot) == t * left_dot + t * right_dot) by (nonlinear_arith);
}

/// Entry `q` of the adjoints `ax` at one point, `ay` at a point moved by `t`,
/// and `w` with the derivatives `wd`: `ax` is `w`, and `ay` is moved from it
/// by `t` times the derivative.
pub open spec fn in_step(
    ax: Seq<u64>,
    ay: Seq<u64>,
    w: Seq<u64>,
    wd: Seq<u64>,
    q: int,
    t: int,
    value: spec_fn(u64) -> int,
) -> bool {
    &&& congruent(value(ax[q]), value(w[q]), t * t)
    &&& congruent(value(ay[q]), value(w[q]) + t * value(wd[q]), t * t)
}

/// The adjoints after the reverse sweep has passed the operation at `i`.
pub open spec fn after_first<
    F: Fn(FloatOp, u64, u64) -> u64,
    E: Fn(usize, &String, &Vec<ExternalArg>, bool, bool) -> ExternalValue,
>(
    op: OpModel,
    i: int,
    adj: Seq<u64>,
    vals: Seq<u64>,
    fpu: Fpu<F>,
    ext: Externals<E>,
) -> Seq<u64> {
    let ups = first_updates(op, i, adj[i], vals, fpu, ext);
    if num_eq(adj[i], ZERO) {
        adj
    } else {
        applied(adj, ups, ups.len(), false, fpu)
    }
}

/// The adjoints, or their derivatives, after the second-order sweep has passed
/// the operation at `i`.
pub open spec fn after_second<
    F: Fn(FloatOp, u64, u64) -> u64,
    E: Fn(usize, &String, &Vec<ExternalArg>, bool, bool) -> ExternalValue,
>(
    op: OpModel,
    i: int,
    w: Seq<u64>,
    wd: Seq<u64>,
    vals: Seq<u64>,
    dot: Seq<u64>,
    second: bool,
    fpu: Fpu<F>,
    ext: Externals<E>,
) -> Seq<u64> {
    let ups = second_updates(op, i, w[i], wd[i], vals, dot, fpu, ext);
    let start = if second {
        wd
    } else {
        w
    };
    if num_eq(w[i], ZERO) && num_eq(wd[i], ZERO) {
        start
    } else {
        applied(start, ups, ups.len(), second, fpu)
    }
}

/// Over the operation at `i`, the second-order sweep gives the derivative of the
/// reverse sweep: from adjoints that are in step come adjoints in step.
pub open spec fn keeps_step<
    F: Fn(FloatOp, u64, u64) -> u64,
    E: Fn(usize, &String, &Vec<ExternalArg>, bool, bool) -> ExternalValue,
>(
    op: OpModel,
    i: int,
    vals: Seq<u64>,
    moved: Seq<u64>,
    dot: Seq<u64>,
    t: int,
    fpu: Fpu<F>,
    ext: Externals<E>,
    value: spec_fn(u64) -> int,
) -> bool {
    forall|ax: Seq<u64>, ay: Seq<u64>, w: Seq<u64>, wd: Seq<u64>, q: int|
        {
            &&& 0 <= i < w.len()
            &&& 0 <= q < w.len()
            &&& ax.len() == w.len()
            &&& ay.len() == w.len()
            &&& wd.len() == w.len()
            &&& in_step(ax, ay, w, wd, i, t, value)
            &&& #[trigger] in_step(ax, ay, w, wd, q, t, value)
        } ==> {
            let ax2 = after_first(op, i, ax, vals, fpu, ext);
            let ay2 = after_first(op, i, ay, moved, fpu, ext);
            let w2 = after_second(op, i, w, wd, vals, dot, false, fpu, ext);
            let wd2 = after_second(op, i, w, wd, vals, dot, true, fpu, ext);
            &&& ax2.len() == w.len()
            &&& ay2.len() == w.len()
            &&& w2.len() == w.len()
            &&& wd2.len() == w.len()
            &&& in_step(ax2, ay2, w2, wd2, q, t, value)
        }
}

/// The operation at `i` has the first and second derivatives of its kind. Of
/// constants, variables, sums, differences, products and changes of sign nothing
/// is asked. Any other operation has to move as its tangent says, and what it
/// hands on in the second-order sweep has to be the derivative of what it hands
/// on in the reverse sweep.
pub open spec fn twice_differentiable<
    F: Fn(FloatOp, u64, u64) -> u64,
    E: Fn(usize, &String, &Vec<ExternalArg>, bool, bool) -> ExternalValue,
>(
    op: OpModel,
    i: int,
    vals: Seq<u64>,
    moved: Seq<u64>,
    dot: Seq<u64>,
    t: int,
    fpu: Fpu<F>,
    ext: Externals<E>,
    value: spec_fn(u64) -> int,
) -> bool {
    polynomial(op) || (moves_along(op, i, vals, moved, dot, t, value) && keeps_step(
        op,
        i,
        vals,
        moved,
        dot,
        t,
        fpu,
        ext,
        value,
    ))
}

/// Every operation of a tape has its first and second derivatives, where variable
/// `j` moves by `t` from `x` to `y`.
pub open spec fn tape_is_twice_differentiable<
    F: Fn(FloatOp, u64, u64) -> u64,
    E: Fn(usize, &String, &Vec<ExternalArg>, bool, bool) -> ExternalValue,
>(
    ops: Seq<OpModel>,
    x: Seq<u64>,
    y: Seq<u64>,
    j: int,
    t: int,
    fpu: Fpu<F>,
    ext: Externals<E>,
    value: spec_fn(u64) -> int,
) -> bool {
    let vals = run(ops, float_algebra(x, fpu, ext));
    let moved = run(ops, float_algebra(y, fpu, ext));
    let dot = tangents(ops, j, vals, ops.len(), fpu, ext);
    forall|i: int|
        0 <= i < ops.len() ==> twice_differentiable(
            #[trigger] ops[i],
            i,
            vals,
            moved,
            dot,
            t,
            fpu,
            ext,
            value,
        )
}

/// The sweeps stay in step over an operation that is no variable.
proof fn lemma_stay_in_step<
    F: Fn(FloatOp, u64, u64) -> u64,
    E: Fn(usize, &String, &Vec<ExternalArg>, bool, bool) -> ExternalValue,
>(
    op: OpModel,
    i: int,
    ax: Seq<u64>,
    ay: Seq<u64>,
    w: Seq<u64>,
    wd: Seq<u64>,
    vals: Seq<u64>,
    vals_y: Seq<u64>,
    dot: Seq<u64>,
    q: int,
    t: int,
    fpu: Fpu<F>,
    ext: Externals<E>,
    value: spec_fn(u64) -> int,
)
    requires
        exact_modulo(fpu, value, t * t),
        polynomial(op),
        !(op is Var),
        0 <= i < w.len(),
        ax.len() == w.len(),
        ay.len() == w.len(),
        wd.len() == w.len(),
        0 <= q < w.len(),
        forall|p: int| #[trigger] reads(op, p) ==> 0 <= p < i,
        forall|p: int| #[trigger]
            reads(op, p) ==> congruent(
                value(vals_y[p]),
                value(vals[p]) + t * value(dot[p]),
                t * t,
            ),
        in_step(ax, ay, w, wd, i, t, value),
        in_step(ax, ay, w, wd, q, t, value),
    ensures
        ({
            let ups_x = first_updates(op, i, ax[i], vals, fpu, ext);
            let ups_y = first_updates(op, i, ay[i], vals_y, fpu, ext);
            let ups = second_updates(op, i, w[i], wd[i], vals, dot, fpu, ext);
            let skip = num_eq(w[i], ZERO) && num_eq(wd[i], ZERO);
            let ax2 = if num_eq(ax[i], ZERO) {
                ax
            } else {
                applied(ax, ups_x, ups_x.len(), false, fpu)
            };
            let ay2 = if num_eq(ay[i], ZERO) {
                ay
            } else {
                applied(ay, ups_y, ups_y.len(), false, fpu)
            };
            let w2 = if skip {
                w
            } else {
                applied(w, ups, ups.len(), false, fpu)
            };
            let wd2 = if skip {
                wd
            } else {
                applied(wd, ups, ups.len(), true, fpu)
            };
            &&& ax2.len() == w.len()
            &&& ay2.len() == w.len()
            &&& w2.len() == w.len()
            &&& wd2.len() == w.len()
            &&& in_step(ax2, ay2, w2, wd2, q, t, value)
        }),
{
    let m = t * t;
    lemma_first_effect(op, i, ax, vals, q, fpu, ext, value, m);
    lemma_first_effect(op, i, ay, vals_y, q, fpu, ext, value, m);
    lemma_second_effect(op, i, w, wd, vals, dot, q, fpu, ext, value, m);
    let ups_x = first_updates(op, i, ax[i], vals, fpu, ext);
    let ups_y = first_updates(op, i, ay[i], vals_y, fpu, ext);
    let ups = second_updates(op, i, w[i], wd[i], vals, dot, fpu, ext);
    let skip = num_eq(w[i], ZERO) && num_eq(wd[i], ZERO);
    let ax2 = if num_eq(ax[i], ZERO) {
        ax
    } else {
        applied(ax, ups_x, ups_x.len(), false, fpu)
    };
    let ay2 = if num_eq(ay[i], ZERO) {
        ay
    } else {
        applied(ay, ups_y, ups_y.len(), false, fpu)
    };
    let w2 = if skip {
        w
    } else {
        applied(w, ups, ups.len(), false, fpu)
    };
    let wd2 = if skip {
        wd
    } else {
        applied(wd, ups, ups.len(), true, fpu)
    };
    let (lv, rv) = operands(op, vals, value);
    let (l, r) = operands(op, vals_y, value);
    let (dl, dr) = operands(op, dot, value);
    let (a, b) = (value(ax[i]), value(ay[i]));
    let (u, ud) = (value(w[i]), value(wd[i]));
    let gx = gain(op, q, to_left(op, a, rv), to_right(op, a, lv));
    let gy = gain(op, q, to_left(op, b, r), to_right(op, b, l));
    let g = gain(op, q, to_left(op, u, rv), to_right(op, u, lv));
    let gd = gain(
        op,
        q,
        to_left_dot(op, u, ud, rv, dr),
        to_right_dot(op, u, ud, lv, dl),
    );
    assert(t * 0 == 0) by (nonlinear_arith);
    assert(congruent(l, lv + t * dl, m) && congruent(r, rv + t * dr, m)) by {
        lemma_same(0, 0, m);
        match op {
            OpModel::Binary(_, p, s) => {
                assert(reads(op, p) && reads(op, s));
            },
            OpModel::Unary(_, p) => {
                assert(reads(op, p));
            },
            _ => {},
        }
    }
    lemma_gain_moved(op, q, b, u, ud, l, lv, dl, r, rv, dr, t);
    assert(congruent(gx, g, m)) by {
        lemma_same(lv, lv, m);
        lemma_same(rv, rv, m);
        lemma_gain_moved(op, q, a, u, 0, lv, lv, 0, rv, rv, 0, t);
        assert(0 * rv + u * 0 == 0 && 0 * lv + u * 0 == 0) by (nonlinear_arith);
    }
    let (wq, dq) = (value(w[q]), value(wd[q]));
    // The sweep at the first point.
    lemma_plus(value(ax[q]), wq, gx, g, m);
    lemma_chain(value(ax2[q]), value(ax[q]) + gx, wq + g, m);
    lemma_back(value(w2[q]), wq + g, m);
    lemma_chain(value(ax2[q]), wq + g, value(w2[q]), m);
    // The sweep at the moved point.
    lemma_plus(value(ay[q]), wq + t * dq, gy, g + t * gd, m);
    lemma_chain(value(ay2[q]), value(ay[q]) + gy, wq + t * dq + (g + t * gd), m);
    lemma_same(t, t, m);
    lemma_times(t, t, value(wd2[q]), dq + gd, m);
    lemma_plus(value(w2[q]), wq + g, t * value(wd2[q]), t * (dq + gd), m);
    assert(t * (dq + gd) == t * dq + t * gd) by (nonlinear_arith);
    lemma_back(value(w2[q]) + t * value(wd2[q]), wq + g + t * (dq + gd), m);
    lemma_chain(
        value(ay2[q]),
        wq + g + t * (dq + gd),
        value(w2[q]) + t * value(wd2[q]),
        m,
    );
}

/// No two pairs of variables share a place.
pub open spec fn distinct_slots(map: Seq<HashMap<usize, usize>>) -> bool {
    forall|k: int, j: usize, k2: int, j2: usize|
        #![trigger slot(map, k, j as int), slot(map, k2, j2 as int)]
        j <= k && j2 <= k2 && slot(map, k, j as int) is Some && slot(map, k, j as int) == slot(
            map,
            k2,
            j2 as int,
        ) ==> k == k2 && j == j2
}

/// The second-order sweep in the direction of variable `j`, next to the reverse
/// sweeps at `x` and at `y`, which is `x` moved by `t` in that variable.
proof fn lemma_second_sweep<
    F: Fn(FloatOp, u64, u64) -> u64,
    E: Fn(usize, &String, &Vec<ExternalArg>, bool, bool) -> ExternalValue,
>(
    ops: Seq<OpModel>,
    x: Seq<u64>,
    y: Seq<u64>,
    j: usize,
    k: int,
    pos: usize,
    t: int,
    weight: u64,
    map: Seq<HashMap<usize, usize>>,
    out: Seq<u64>,
    i: int,
    fpu: Fpu<F>,
    ext: Externals<E>,
    value: spec_fn(u64) -> int,
)
    requires
        exact_modulo(fpu, value, t * t),
        ops.len() > 0,
        ordered(ops),
        tape_is_twice_differentiable(ops, x, y, j as int, t, fpu, ext, value),
        variables_below(ops, x.len() as int),
        y.len() == x.len(),
        forall|q: int|
            0 <= q < x.len() ==> value(#[trigger] y[q]) == value(x[q]) + (if q == j {
                t
            } else {
                0
            }),
        j <= k < x.len(),
        slot(map, k, j as int) == Some(pos),
        distinct_slots(map),
        slots_below(map, out.len() as int),
        0 <= i <= ops.len(),
    ensures
        ({
            let n = ops.len();
            let zeros = Seq::new(x.len(), |q: int| ZERO);
            let vals = run(ops, float_algebra(x, fpu, ext));
            let vals_y = run(ops, float_algebra(y, fpu, ext));
            let dot = tangents(ops, j as int, vals, n, fpu, ext);
            let st = second_state(ops, vals, dot, j as int, weight, map, out, i, fpu, ext);
            let rx = reverse_state(ops, vals, zeros, i, fpu, ext);
            let ry = reverse_state(ops, vals_y, zeros, i, fpu, ext);
            &&& st.adj.len() == n && st.adj_dot.len() == n && st.out.len() == out.len()
            &&& rx.adj.len() == n && rx.grad.len() == x.len()
            &&& ry.adj.len() == n && ry.grad.len() == x.len()
            &&& forall|q: int|
                0 <= q < n ==> #[trigger] in_step(
                    rx.adj,
                    ry.adj,
                    st.adj,
                    st.adj_dot,
                    q,
                    t,
                    value,
                )
            &&& congruent(
                t * value(st.out[pos as int]),
                t * value(out[pos as int]) + value(weight) * (value(ry.grad[k]) - value(
                    rx.grad[k],
                )),
                t * t,
            )
        }),
    decreases ops.len() - i,
{
    let m = t * t;
    let n = ops.len();
    let zeros = Seq::new(x.len(), |q: int| ZERO);
    let vals = run(ops, float_algebra(x, fpu, ext));
    let vals_y = run(ops, float_algebra(y, fpu, ext));
    let dot = tangents(ops, j as int, vals, n, fpu, ext);
    let st = second_state(ops, vals, dot, j as int, weight, map, out, i, fpu, ext);
    let rx = reverse_state(ops, vals, zeros, i, fpu, ext);
    let ry = reverse_state(ops, vals_y, zeros, i, fpu, ext);
    let wt = value(weight);
    assert(value(ZERO) == 0);
    assert(t * 0 == 0 && wt * 0 == 0) by (nonlinear_arith);
    assert(pos < out.len());
    if i == n {
        assert forall|q: int| 0 <= q < n implies #[trigger] in_step(
            rx.adj,
            ry.adj,
            st.adj,
            st.adj_dot,
            q,
            t,
            value,
        ) by {
            lemma_same(value(st.adj[q]), value(st.adj[q]), m);
        }
        lemma_same(t * value(out[pos as int]), t * value(out[pos as int]), m);
    } else {
        lemma_second_sweep(ops, x, y, j, k, pos, t, weight, map, out, i + 1, fpu, ext, value);
        let st1 = second_state(ops, vals, dot, j as int, weight, map, out, i + 1, fpu, ext);
        let rx1 = reverse_state(ops, vals, zeros, i + 1, fpu, ext);
        let ry1 = reverse_state(ops, vals_y, zeros, i + 1, fpu, ext);
        assert(twice_differentiable(ops[i], i, vals, vals_y, dot, t, fpu, ext, value));
        assert(in_step(rx1.adj, ry1.adj, st1.adj, st1.adj_dot, i, t, value));
        if ops[i] is Var {
            lemma_variable(
                ops[i]->Var_0,
                st1.out,
                value(st1.adj[i]),
                st1.adj_dot[i],
                rx1.grad,
                rx1.adj[i],
                ry1.grad,
                ry1.adj[i],
                j,
                k,
                pos,
                t,
                weight,
                map,
                t * value(out[pos as int]),
                fpu,
                value,
            );
        } else {
            assert(forall|p: int| #[trigger] reads(ops[i], p) ==> 0 <= p < i);
            assert forall|p: int| #[trigger] reads(ops[i], p) implies congruent(
                value(vals_y[p]),
                value(vals[p]) + t * value(dot[p]),
                m,
            ) by {
                lemma_moved(ops, x, y, j as int, t, p, fpu, ext, value);
            }
            assert forall|q: int| 0 <= q < n implies #[trigger] in_step(
                rx.adj,
                ry.adj,
                st.adj,
                st.adj_dot,
                q,
                t,
                value,
            ) by {
                assert(in_step(rx1.adj, ry1.adj, st1.adj, st1.adj_dot, q, t, value));
                if polynomial(ops[i]) {
                    lemma_stay_in_step(
                        ops[i],
                        i,
                        rx1.adj,
                        ry1.adj,
                        st1.adj,
                        st1.adj_dot,
                        vals,
                        vals_y,
                        dot,
                        q,
                        t,
                        fpu,
                        ext,
                        value,
                    );
                }
            }
            if polynomial(ops[i]) {
                lemma_stay_in_step(
                    ops[i],
                    i,
                    rx1.adj,
                    ry1.adj,
                    st1.adj,
                    st1.adj_dot,
                    vals,
                    vals_y,
                    dot,
                    i,
                    t,
                    fpu,
                    ext,
                    value,
                );
            }
        }
    }
}

/// A gradient after the reverse sweep has come to variable `v` with the
/// adjoint `a`.
spec fn collected<F: Fn(FloatOp, u64, u64) -> u64>(
    grad: Seq<u64>,
    v: int,
    a: u64,
    fpu: Fpu<F>,
) -> Seq<u64> {
    if num_eq(a, ZERO) || v >= grad.len() {
        grad
    } else {
        grad.update(v, fpu.sum(grad[v], a))
    }
}

proof fn lemma_collected<F: Fn(FloatOp, u64, u64) -> u64>(
    grad: Seq<u64>,
    v: int,
    a: u64,
    k: int,
    fpu: Fpu<F>,
    value: spec_fn(u64) -> int,
    m: int,
)
    requires
        exact_modulo(fpu, value, m),
        0 <= v < grad.len(),
        0 <= k < grad.len(),
    ensures
        congruent(
            value(collected(grad, v, a, fpu)[k]),
            value(grad[k]) + (if v == k {
                value(a)
            } else {
                0
            }),
            m,
        ),
{
    lemma_same(value(grad[k]), value(grad[k]), m);
}

/// What the sweeps gather at variable `v`.
proof fn lemma_variable<F: Fn(FloatOp, u64, u64) -> u64>(
    v: int,
    out: Seq<u64>,
    u: int,
    wd: u64,
    gx: Seq<u64>,
    a: u64,
    gy: Seq<u64>,
    b: u64,
    j: usize,
    k: int,
    pos: usize,
    t: int,
    weight: u64,
    map: Seq<HashMap<usize, usize>>,
    start: int,
    fpu: Fpu<F>,
    value: spec_fn(u64) -> int,
)
    requires
        exact_modulo(fpu, value, t * t),
        0 <= v < gx.len(),
        gy.len() == gx.len(),
        j <= k < gx.len(),
        slot(map, k, j as int) == Some(pos),
        distinct_slots(map),
        slots_below(map, out.len() as int),
        congruent(value(a), u, t * t),
        congruent(value(b), u + t * value(wd), t * t),
        congruent(
            t * value(out[pos as int]),
            start + value(weight) * (value(gy[k]) - value(gx[k])),
            t * t,
        ),
    ensures
        ({
            let now = if !num_eq(wd, ZERO) && v >= j {
                match slot(map, v, j as int) {
                    Some(p) => out.update(
                        p as int,
                        fpu.sum(out[p as int], fpu.product(weight, wd)),
                    ),
                    None => out,
                }
            } else {
                out
            };
            congruent(
                t * value(now[pos as int]),
                start + value(weight) * (value(collected(gy, v, b, fpu)[k]) - value(
                    collected(gx, v, a, fpu)[k],
                )),
                t * t,
            )
        }),
{
    let m = t * t;
    let wt = value(weight);
    let ud = value(wd);
    assert(map[k]@.contains_key(j));
    assert(pos < out.len());
    let o = value(out[pos as int]);
    let (px, py) = (value(gx[k]), value(gy[k]));
    let nx = value(collected(gx, v, a, fpu)[k]);
    let ny = value(collected(gy, v, b, fpu)[k]);
    lemma_collected(gx, v, a, k, fpu, value, m);
    lemma_collected(gy, v, b, k, fpu, value, m);
    lemma_same(wt, wt, m);
    lemma_same(t, t, m);
    lemma_same(start, start, m);
    if v == k {
        let now = if num_eq(wd, ZERO) {
            out
        } else {
            out.update(pos as int, fpu.sum(out[pos as int], fpu.product(weight, wd)))
        };
        let on = value(now[pos as int]);
        assert(congruent(on, o + wt * ud, m)) by {
            lemma_same(o, o, m);
            if num_eq(wd, ZERO) {
                assert(wt * 0 == 0) by (nonlinear_arith);
            } else {
                let p = fpu.product(weight, wd);
                lemma_plus(o, o, value(p), wt * ud, m);
                lemma_chain(on, o + value(p), o + wt * ud, m);
            }
        }
        lemma_same(px, px, m);
        lemma_same(py, py, m);
        lemma_plus(px, px, value(a), u, m);
        lemma_plus(py, py, value(b), u + t * ud, m);
        lemma_chain(nx, px + value(a), px + u, m);
        lemma_chain(ny, py + value(b), py + (u + t * ud), m);
        lemma_plus(ny, py + (u + t * ud), nx, px + u, m);
        lemma_times(wt, wt, ny - nx, py - px + t * ud, m);
        lemma_plus(start, start, wt * (ny - nx), wt * (py - px + t * ud), m);
        let goal = start + wt * (ny - nx);
        lemma_back(goal, start + wt * (py - px + t * ud), m);
        let step = t * (wt * ud);
        assert(wt * (py - px + t * ud) == wt * (py - px) + step) by (nonlinear_arith)
            requires
                step == t * (wt * ud),
        ;
        lemma_times(t, t, on, o + wt * ud, m);
        assert(t * (o + wt * ud) == t * o + step) by (nonlinear_arith)
            requires
                step == t * (wt * ud),
        ;
        lemma_same(step, step, m);
        lemma_plus(t * o, start + wt * (py - px), step, step, m);
        lemma_chain(t * on, t * o + step, start + wt * (py - px) + step, m);
        lemma_chain(t * on, start + wt * (py - px) + step, goal, m);
    } else {
        assert(nx == px && ny == py);
        if v >= j && slot(map, v, j as int) is Some {
            assert(slot(map, v, j as int) != slot(map, k, j as int));
            assert(map[v]@.contains_key(j));
            assert(map[v]@[j] < out.len());
        }
    }
}

/// A sweep in the direction of another variable leaves the place of a pair as
/// it was.
pub(crate) proof fn lemma_other_direction<
    F: Fn(FloatOp, u64, u64) -> u64,
    E: Fn(usize, &String, &Vec<ExternalArg>, bool, bool) -> ExternalValue,
>(
    ops: Seq<OpModel>,
    vals: Seq<u64>,
    dot: Seq<u64>,
    other: usize,
    j: usize,
    k: int,
    pos: usize,
    weight: u64,
    map: Seq<HashMap<usize, usize>>,
    out: Seq<u64>,
    i: int,
    fpu: Fpu<F>,
    ext: Externals<E>,
)
    requires
        other != j,
        j <= k,
        slot(map, k, j as int) == Some(pos),
        distinct_slots(map),
        slots_below(map, out.len() as int),
        0 <= i <= ops.len(),
    ensures
        ({
            let st = second_state(ops, vals, dot, other as int, weight, map, out, i, fpu, ext);
            &&& st.out.len() == out.len()
            &&& st.out[pos as int] == out[pos as int]
        }),
    decreases ops.len() - i,
{
    if i < ops.len() {
        lemma_other_direction(
            ops,
            vals,
            dot,
            other,
            j,
            k,
            pos,
            weight,
            map,
            out,
            i + 1,
            fpu,
            ext,
        );
        if ops[i] is Var {
            let v = ops[i]->Var_0;
            if v >= other && slot(map, v, other as int) is Some {
                assert(slot(map, v, other as int) != slot(map, k, j as int));
                assert(map[v]@.contains_key(other));
                assert(map[v]@[other] < out.len());
            }
        }
    }
}

/// The second derivative by the variables `k` and `j` is gathered by the sweep
/// in the direction of `j`, whose index among the directions is `at`.
proof fn lemma_directions<
    F: Fn(FloatOp, u64, u64) -> u64,
    E: Fn(usize, &String, &Vec<ExternalArg>, bool, bool) -> ExternalValue,
>(
    ops: Seq<OpModel>,
    x: Seq<u64>,
    y: Seq<u64>,
    vars: Seq<usize>,
    at: int,
    k: int,
    pos: usize,
    t: int,
    weight: u64,
    map: Seq<HashMap<usize, usize>>,
    out: Seq<u64>,
    count: nat,
    fpu: Fpu<F>,
    ext: Externals<E>,
    value: spec_fn(u64) -> int,
)
    requires
        exact_modulo(fpu, value, t * t),
        ops.len() > 0,
        ordered(ops),
        tape_is_twice_differentiable(ops, x, y, vars[at] as int, t, fpu, ext, value),
        variables_below(ops, x.len() as int),
        0 <= at < vars.len(),
        vars.no_duplicates(),
        y.len() == x.len(),
        forall|q: int|
            0 <= q < x.len() ==> value(#[trigger] y[q]) == value(x[q]) + (if q == vars[at] {
                t
            } else {
                0
            }),
        vars[at] <= k < x.len(),
        slot(map, k, vars[at] as int) == Some(pos),
        distinct_slots(map),
        slots_below(map, out.len() as int),
        count <= vars.len(),
    ensures
        ({
            let vals = run(ops, float_algebra(x, fpu, ext));
            let now = hessian_state(ops, vals, vars, weight, map, out, count, fpu, ext);
            let gx = gradient_of(ops, x, x.len(), fpu, ext);
            let gy = gradient_of(ops, y, x.len(), fpu, ext);
            &&& now.len() == out.len()
            &&& count <= at ==> now[pos as int] == out[pos as int]
            &&& count > at ==> congruent(
                t * value(now[pos as int]),
                t * value(out[pos as int]) + value(weight) * (value(gy[k]) - value(gx[k])),
                t * t,
            )
        }),
    decreases count,
{
    if count > 0 {
        let before = (count - 1) as nat;
        lemma_directions(
            ops,
            x,
            y,
            vars,
            at,
            k,
            pos,
            t,
            weight,
            map,
            out,
            before,
            fpu,
            ext,
            value,
        );
        let vals = run(ops, float_algebra(x, fpu, ext));
        let was = hessian_state(ops, vals, vars, weight, map, out, before, fpu, ext);
        let j = vars[count - 1];
        if count - 1 == at {
            lemma_second_sweep(ops, x, y, j, k, pos, t, weight, map, was, 0, fpu, ext, value);
        } else {
            let dot = tangents(ops, j as int, vals, ops.len(), fpu, ext);
            lemma_other_direction(
                ops,
                vals,
                dot,
                j,
                vars[at],
                k,
                pos,
                weight,
                map,
                was,
                0,
                fpu,
                ext,
            );
        }
    }
}

/// Finds where `x` belongs in an increasing list that lacks it.
proof fn lemma_place(v: Seq<usize>, x: usize) -> (p: int)
    requires
        increasing(v),
        !v.contains(x),
    ensures
        0 <= p <= v.len(),
        forall|i: int| 0 <= i < p ==> #[trigger] v[i] < x,
        forall|i: int| p <= i < v.len() ==> x < #[trigger] v[i],
    decreases v.len(),
{
    if v.len() == 0 || v.last() < x {
        v.len() as int
    } else {
        let front = v.drop_last();
        assert(!front.contains(x)) by {
            if front.contains(x) {
                let i = choose|i: int| 0 <= i < front.len() && front[i] == x;
                assert(v[i] == x);
            }
        }
        assert(v[v.len() - 1] != x);
        let p = lemma_place(front, x);
        assert forall|i: int| 0 <= i < p implies #[trigger] v[i] < x by {
            assert(front[i] < x);
        }
        assert forall|i: int| p <= i < v.len() implies x < #[trigger] v[i] by {
            if i < front.len() {
                assert(x < front[i]);
            }
        }
        p
    }
}

/// Some increasing list holds the variables on a tape.
pub(crate) proof fn lemma_variables_listed(ops: Seq<OpModel>) -> (v: Seq<usize>)
    ensures
        increasing(v),
        forall|j: usize| #[trigger] v.contains(j) <==> on_tape(ops, j),
    decreases ops.len(),
{
    if ops.len() == 0 {
        let v: Seq<usize> = Seq::empty();
        v
    } else {
        let front = ops.drop_last();
        let before = lemma_variables_listed(front);
        assert forall|j: usize| #[trigger] on_tape(ops, j) <==> on_tape(front, j) || ops.last()
            == OpModel::Var(j as int) by {
            if on_tape(ops, j) {
                let i = choose|i: int|
                    0 <= i < ops.len() && #[trigger] ops[i] == OpModel::Var(j as int);
                if i < front.len() {
                    assert(front[i] == OpModel::Var(j as int));
                }
            }
            if on_tape(front, j) {
                let i = choose|i: int|
                    0 <= i < front.len() && #[trigger] front[i] == OpModel::Var(j as int);
                assert(ops[i] == OpModel::Var(j as int));
            }
            assert(ops[ops.len() - 1] == ops.last());
        }
        if ops.last() is Var && 0 <= ops.last()->Var_0 <= usize::MAX && !before.contains(
            ops.last()->Var_0 as usize,
        ) {
            let x = ops.last()->Var_0 as usize;
            let p = lemma_place(before, x);
            let v = before.insert(p, x);
            assert forall|j: usize| #[trigger] v.contains(j) <==> before.contains(j) || j == x by {
                if before.contains(j) {
                    let i = choose|i: int| 0 <= i < before.len() && before[i] == j;
                    assert(v[if i < p {
                        i
                    } else {
                        i + 1
                    }] == j);
                }
                assert(v[p] == x);
                if v.contains(j) {
                    let i = choose|i: int| 0 <= i < v.len() && v[i] == j;
                    if i < p {
                        assert(before[i] == j);
                    } else if i > p {
                        assert(before[i - 1] == j);
                    }
                }
            }
            v
        } else {
            before
        }
    }
}

/// The second derivatives are the derivatives of the gradient: let variable `j`
/// move by `t`. Then `t` times what is gathered at the place of the variables `k`
/// and `j` is the weight times the change of entry `k` of the gradient, up to
/// multiples of the square of `t`. The arithmetic has to be exact up to such
/// multiples, and each pair of variables needs a place of its own. Operations
/// other than constants, variables, sums, differences, products and changes of
/// sign have to have the first and second derivatives of their kind.
pub proof fn hessian_is_the_derivative_of_the_gradient<
    F: Fn(FloatOp, u64, u64) -> u64,
    E: Fn(usize, &String, &Vec<ExternalArg>, bool, bool) -> ExternalValue,
>(
    ops: Seq<OpModel>,
    x: Seq<u64>,
    y: Seq<u64>,
    j: usize,
    k: int,
    pos: usize,
    t: int,
    weight: u64,
    map: Seq<HashMap<usize, usize>>,
    out: Seq<u64>,
    fpu: Fpu<F>,
    ext: Externals<E>,
    value: spec_fn(u64) -> int,
)
    requires
        exact_modulo(fpu, value, t * t),
        ops.len() > 0,
        ordered(ops),
        tape_is_twice_differentiable(ops, x, y, j as int, t, fpu, ext, value),
        variables_below(ops, x.len() as int),
        on_tape(ops, j),
        y.len() == x.len(),
        forall|q: int|
            0 <= q < x.len() ==> value(#[trigger] y[q]) == value(x[q]) + (if q == j {
                t
            } else {
                0
            }),
        j <= k < x.len(),
        slot(map, k, j as int) == Some(pos),
        distinct_slots(map),
        slots_below(map, out.len() as int),
    ensures
        ({
            let vals = run(ops, float_algebra(x, fpu, ext));
            let vars = variable_list(ops);
            let now = hessian_state(ops, vals, vars, weight, map, out, vars.len(), fpu, ext);
            let gx = gradient_of(ops, x, x.len(), fpu, ext);
            let gy = gradient_of(ops, y, x.len(), fpu, ext);
            congruent(
                t * value(now[pos as int]),
                t * value(out[pos as int]) + value(weight) * (value(gy[k]) - value(gx[k])),
                t * t,
            )
        }),
{
    let vars = variable_list(ops);
    let listed = lemma_variables_listed(ops);
    assert(increasing(listed) && forall|j: usize| #[trigger]
        listed.contains(j) <==> on_tape(ops, j));
    assert(vars.contains(j));
    let at = choose|at: int| 0 <= at < vars.len() && vars[at] == j;
    lemma_directions(
        ops,
        x,
        y,
        vars,
        at,
        k,
        pos,
        t,
        weight,
        map,
        out,
        vars.len(),
        fpu,
        ext,
        value,
    );
}

} // verus!
