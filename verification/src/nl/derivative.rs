//! What the gradient of a tape means.

use crate::float::{negated, num_eq, FloatOp, Fpu, ONE, ZERO};
use crate::nl::autodiff::{ordered, reads, OpModel};
use crate::nl::curvature::lemma_run_at;
use crate::nl::expr::{BinaryOp, UnaryOp};
use crate::nl::meaning::run;
use crate::nl::sweeps::{
    applied, first_updates, float_algebra, gradient_of, reverse_state, tangent, tangents,
    variables_below, ExternalArg, ExternalValue, Externals, UpdateModel,
};
use vstd::prelude::*;

verus! {

pub open spec fn times(q: int, m: int) -> int {
    q * m
}

/// `a` and `b` differ by a multiple of `m`.
pub open spec fn congruent(a: int, b: int, m: int) -> bool {
    exists|q: int| a - b == #[trigger] times(q, m)
}

/// Sums, differences, products and changes of sign of bit patterns are exact
/// up to multiples of `m`, if `value` says which integer a pattern stands for.
pub open spec fn exact_modulo<F: Fn(FloatOp, u64, u64) -> u64>(
    fpu: Fpu<F>,
    value: spec_fn(u64) -> int,
    m: int,
) -> bool {
    &&& value(ONE) == 1
    &&& forall|a: u64| num_eq(a, ZERO) ==> #[trigger] value(a) == 0
    &&& forall|a: u64, b: u64|
        congruent(value(#[trigger] fpu.sum(a, b)), value(a) + value(b), m)
    &&& forall|a: u64, b: u64|
        congruent(value(#[trigger] fpu.difference(a, b)), value(a) - value(b), m)
    &&& forall|a: u64, b: u64|
        congruent(value(#[trigger] fpu.product(a, b)), value(a) * value(b), m)
    &&& forall|a: u64| congruent(value(#[trigger] negated(a)), -value(a), m)
}

/// The operation is a constant, a variable, or one of the ring.
pub open spec fn polynomial(op: OpModel) -> bool {
    match op {
        OpModel::Const(_) => true,
        OpModel::Var(_) => true,
        OpModel::Binary(BinaryOp::Add, _, _) => true,
        OpModel::Binary(BinaryOp::Sub, _, _) => true,
        OpModel::Binary(BinaryOp::Mul, _, _) => true,
        OpModel::Unary(UnaryOp::Neg, _) => true,
        _ => false,
    }
}

pub(crate) proof fn lemma_same(a: int, b: int, m: int)
    requires
        a == b,
    ensures
        congruent(a, b, m),
{
    assert(a - b == times(0, m));
}

pub(crate) proof fn lemma_chain(a: int, b: int, c: int, m: int)
    requires
        congruent(a, b, m),
        congruent(b, c, m),
    ensures
        congruent(a, c, m),
{
    let p = choose|q: int| a - b == #[trigger] times(q, m);
    let r = choose|q: int| b - c == #[trigger] times(q, m);
    assert((p + r) * m == p * m + r * m) by (nonlinear_arith);
    assert(a - c == times(p + r, m));
}

pub(crate) proof fn lemma_back(a: int, b: int, m: int)
    requires
        congruent(a, b, m),
    ensures
        congruent(b, a, m),
{
    let p = choose|q: int| a - b == #[trigger] times(q, m);
    assert((-p) * m == -(p * m)) by (nonlinear_arith);
    assert(b - a == times(-p, m));
}

pub(crate) proof fn lemma_plus(a: int, b: int, c: int, d: int, m: int)
    requires
        congruent(a, b, m),
        congruent(c, d, m),
    ensures
        congruent(a + c, b + d, m),
        congruent(a - c, b - d, m),
{
    let p = choose|q: int| a - b == #[trigger] times(q, m);
    let r = choose|q: int| c - d == #[trigger] times(q, m);
    assert((p + r) * m == p * m + r * m) by (nonlinear_arith);
    assert((p - r) * m == p * m - r * m) by (nonlinear_arith);
    assert((a + c) - (b + d) == times(p + r, m));
    assert((a - c) - (b - d) == times(p - r, m));
}

pub(crate) proof fn lemma_times(a: int, b: int, c: int, d: int, m: int)
    requires
        congruent(a, b, m),
        congruent(c, d, m),
    ensures
        congruent(a * c, b * d, m),
{
    let p = choose|q: int| a - b == #[trigger] times(q, m);
    let r = choose|q: int| c - d == #[trigger] times(q, m);
    let q = p * c + b * r;
    assert(a * c - b * d == q * m) by (nonlinear_arith)
        requires
            a - b == p * m,
            c - d == r * m,
            q == p * c + b * r,
    {
        assert(a * c - b * d == (a - b) * c + b * (c - d));
        assert((p * m) * c + b * (r * m) == (p * c + b * r) * m);
    }
    assert(a * c - b * d == times(q, m));
}

/// The first `n` adjoints, each times the derivative of its operation.
spec fn weighted(adj: Seq<u64>, dot: Seq<u64>, n: nat, value: spec_fn(u64) -> int) -> int
    decreases n,
{
    if n == 0 {
        0
    } else {
        weighted(adj, dot, (n - 1) as nat, value) + value(adj[n - 1]) * value(dot[n - 1])
    }
}

proof fn lemma_weighted_update(
    adj: Seq<u64>,
    dot: Seq<u64>,
    n: nat,
    l: int,
    w: u64,
    value: spec_fn(u64) -> int,
)
    requires
        n <= adj.len(),
        0 <= l < adj.len(),
    ensures
        weighted(adj.update(l, w), dot, n, value) == weighted(adj, dot, n, value) + (if l < n {
            (value(w) - value(adj[l])) * value(dot[l])
        } else {
            0
        }),
    decreases n,
{
    if n > 0 {
        lemma_weighted_update(adj, dot, (n - 1) as nat, l, w, value);
        if l == n - 1 {
            let (a, b, d) = (value(w), value(adj[l]), value(dot[l]));
            assert((a - b) * d == a * d - b * d) by (nonlinear_arith);
        }
    }
}

/// One addition to an adjoint adds the amount times the derivative of the
/// operand.
proof fn lemma_added<F: Fn(FloatOp, u64, u64) -> u64>(
    adj: Seq<u64>,
    dot: Seq<u64>,
    n: nat,
    u: UpdateModel,
    amount: int,
    fpu: Fpu<F>,
    value: spec_fn(u64) -> int,
    m: int,
)
    requires
        exact_modulo(fpu, value, m),
        n <= adj.len(),
        0 <= u.target < n,
        congruent(value(u.amount), amount, m),
    ensures
        u.subtract ==> congruent(
            weighted(
                adj.update(u.target, fpu.difference(adj[u.target], u.amount)),
                dot,
                n,
                value,
            ),
            weighted(adj, dot, n, value) - amount * value(dot[u.target]),
            m,
        ),
        !u.subtract ==> congruent(
            weighted(adj.update(u.target, fpu.sum(adj[u.target], u.amount)), dot, n, value),
            weighted(adj, dot, n, value) + amount * value(dot[u.target]),
            m,
        ),
{
    let l = u.target;
    let before = weighted(adj, dot, n, value);
    let d = value(dot[l]);
    let old_value = value(adj[l]);
    lemma_same(before, before, m);
    lemma_same(old_value, old_value, m);
    lemma_same(d, d, m);
    if u.subtract {
        let w = fpu.difference(adj[l], u.amount);
        lemma_weighted_update(adj, dot, n, l, w, value);
        lemma_plus(old_value, old_value, value(u.amount), amount, m);
        lemma_chain(value(w), old_value - value(u.amount), old_value - amount, m);
        lemma_plus(value(w), old_value - amount, old_value, old_value, m);
        lemma_times(value(w) - old_value, -amount, d, d, m);
        assert((-amount) * d == -(amount * d)) by (nonlinear_arith);
        lemma_plus(before, before, (value(w) - old_value) * d, -(amount * d), m);
    } else {
        let w = fpu.sum(adj[l], u.amount);
        lemma_weighted_update(adj, dot, n, l, w, value);
        lemma_plus(old_value, old_value, value(u.amount), amount, m);
        lemma_chain(value(w), old_value + value(u.amount), old_value + amount, m);
        lemma_plus(value(w), old_value + amount, old_value, old_value, m);
        lemma_times(value(w) - old_value, amount, d, d, m);
        lemma_plus(before, before, (value(w) - old_value) * d, amount * d, m);
    }
}

pub(crate) proof fn lemma_tangent_at<
    F: Fn(FloatOp, u64, u64) -> u64,
    E: Fn(usize, &String, &Vec<ExternalArg>, bool, bool) -> ExternalValue,
>(
    ops: Seq<OpModel>,
    seed: int,
    vals: Seq<u64>,
    k: nat,
    i: int,
    fpu: Fpu<F>,
    ext: Externals<E>,
)
    requires
        ordered(ops),
        0 <= i < k <= ops.len(),
    ensures
        tangents(ops, seed, vals, k, fpu, ext).len() == k,
        polynomial(ops[i]) ==> tangents(ops, seed, vals, k, fpu, ext)[i] == tangent(
            ops[i],
            i,
            seed,
            vals,
            tangents(ops, seed, vals, k, fpu, ext),
            fpu,
            ext,
        ),
    decreases k,
{
    let before = tangents(ops, seed, vals, (k - 1) as nat, fpu, ext);
    if k > 1 {
        lemma_tangent_at(
            ops,
            seed,
            vals,
            (k - 1) as nat,
            if i < k - 1 {
                i
            } else {
                0
            },
            fpu,
            ext,
        );
    }
    assert(before.len() == k - 1);
    match ops[i] {
        OpModel::Binary(_, l, r) => {
            assert(reads(ops[i], l) && reads(ops[i], r));
        },
        OpModel::Unary(_, j) => {
            assert(reads(ops[i], j));
        },
        _ => {},
    }
}

/// What an operation adds to the adjoints of its operands stands for its own
/// adjoint times its derivative.
proof fn lemma_operation<
    F: Fn(FloatOp, u64, u64) -> u64,
    E: Fn(usize, &String, &Vec<ExternalArg>, bool, bool) -> ExternalValue,
>(
    op: OpModel,
    i: int,
    a: u64,
    adj: Seq<u64>,
    seed: int,
    vals: Seq<u64>,
    dot: Seq<u64>,
    fpu: Fpu<F>,
    ext: Externals<E>,
    value: spec_fn(u64) -> int,
    m: int,
)
    requires
        exact_modulo(fpu, value, m),
        polynomial(op),
        !(op is Var),
        0 <= i < adj.len(),
        forall|t: int| #[trigger] reads(op, t) ==> 0 <= t < i,
        dot[i] == tangent(op, i, seed, vals, dot, fpu, ext),
    ensures
        ({
            let ups = first_updates(op, i, a, vals, fpu, ext);
            let after = applied(adj, ups, ups.len(), false, fpu);
            &&& after.len() == adj.len()
            &&& congruent(
                weighted(after, dot, i as nat, value),
                weighted(adj, dot, i as nat, value) + value(a) * value(dot[i]),
                m,
            )
        }),
{
    reveal_with_fuel(applied, 3);
    let ups = first_updates(op, i, a, vals, fpu, ext);
    let n = i as nat;
    let before = weighted(adj, dot, n, value);
    let av = value(a);
    let d = value(dot[i]);
    lemma_same(av, av, m);
    lemma_same(before, before, m);
    match op {
        OpModel::Const(_) => {
            assert(value(ZERO) == 0);
            assert(av * 0 == 0) by (nonlinear_arith);
            lemma_same(before, before + av * d, m);
        },
        OpModel::Unary(_, j) => {
            assert(reads(op, j));
            let dj = value(dot[j]);
            lemma_added(adj, dot, n, ups[0], av, fpu, value, m);
            let after = applied(adj, ups, 1, false, fpu);
            lemma_times(av, av, d, -dj, m);
            assert(av * (-dj) == -(av * dj)) by (nonlinear_arith);
            lemma_plus(before, before, av * d, -(av * dj), m);
            lemma_back(before + av * d, before - av * dj, m);
            lemma_chain(
                weighted(after, dot, n, value),
                before - av * dj,
                before + av * d,
                m,
            );
        },
        OpModel::Binary(o, l, r) => {
            assert(reads(op, l) && reads(op, r));
            let (dl, dr) = (value(dot[l]), value(dot[r]));
            let (lv, rv) = (value(vals[l]), value(vals[r]));
            let mid = applied(adj, ups, 1, false, fpu);
            let after = applied(adj, ups, 2, false, fpu);
            assert(mid.len() == adj.len());
            let (cl, cr): (int, int) = match o {
                BinaryOp::Mul => (av * rv, av * lv),
                _ => (av, av),
            };
            let right = if o == BinaryOp::Sub {
                -(cr * dr)
            } else {
                cr * dr
            };
            lemma_added(adj, dot, n, ups[0], cl, fpu, value, m);
            lemma_added(mid, dot, n, ups[1], cr, fpu, value, m);
            lemma_same(right, right, m);
            lemma_plus(weighted(mid, dot, n, value), before + cl * dl, right, right, m);
            lemma_chain(
                weighted(after, dot, n, value),
                weighted(mid, dot, n, value) + right,
                before + cl * dl + right,
                m,
            );
            // The derivative of the operation, from those of its operands.
            let exact_d: int = match o {
                BinaryOp::Add => dl + dr,
                BinaryOp::Sub => dl - dr,
                _ => dl * rv + lv * dr,
            };
            if o == BinaryOp::Mul {
                let (p, q) = (fpu.product(dot[l], vals[r]), fpu.product(vals[l], dot[r]));
                lemma_plus(value(p), dl * rv, value(q), lv * dr, m);
                lemma_chain(d, value(p) + value(q), exact_d, m);
            }
            lemma_times(av, av, d, exact_d, m);
            assert(av * exact_d == cl * dl + right) by {
                assert(av * (dl + dr) == av * dl + av * dr) by (nonlinear_arith);
                assert(av * (dl - dr) == av * dl - av * dr) by (nonlinear_arith);
                assert(av * (dl * rv + lv * dr) == (av * rv) * dl + (av * lv) * dr)
                    by (nonlinear_arith);
            }
            lemma_plus(before, before, av * d, cl * dl + right, m);
            lemma_back(before + av * d, before + cl * dl + right, m);
            lemma_chain(
                weighted(after, dot, n, value),
                before + cl * dl + right,
                before + av * d,
                m,
            );
        },
        _ => {},
    }
}

/// At every point of the reverse sweep, the adjoints still to be passed on and
/// the gradient collected so far stand for the derivative of the tape.
proof fn lemma_sweep<
    F: Fn(FloatOp, u64, u64) -> u64,
    E: Fn(usize, &String, &Vec<ExternalArg>, bool, bool) -> ExternalValue,
>(
    ops: Seq<OpModel>,
    vals: Seq<u64>,
    grad: Seq<u64>,
    seed: int,
    i: int,
    fpu: Fpu<F>,
    ext: Externals<E>,
    value: spec_fn(u64) -> int,
    m: int,
)
    requires
        exact_modulo(fpu, value, m),
        ordered(ops),
        forall|i: int| 0 <= i < ops.len() ==> polynomial(#[trigger] ops[i]),
        variables_below(ops, grad.len() as int),
        0 <= seed < grad.len(),
        0 <= i <= ops.len(),
        ops.len() > 0,
    ensures
        ({
            let st = reverse_state(ops, vals, grad, i, fpu, ext);
            let dot = tangents(ops, seed, vals, ops.len(), fpu, ext);
            &&& st.adj.len() == ops.len()
            &&& st.grad.len() == grad.len()
            &&& congruent(
                weighted(st.adj, dot, i as nat, value) + value(st.grad[seed]),
                value(dot.last()) + value(grad[seed]),
                m,
            )
        }),
    decreases ops.len() - i,
{
    let st = reverse_state(ops, vals, grad, i, fpu, ext);
    let dot = tangents(ops, seed, vals, ops.len(), fpu, ext);
    let n = ops.len();
    assert(value(ZERO) == 0);
    if i == n {
        lemma_tangent_at(ops, seed, vals, n, n - 1, fpu, ext);
        let zeros = Seq::new(n, |k: int| ZERO);
        lemma_weighted_update(zeros, dot, n, n - 1, ONE, value);
        lemma_weighted_zeros(zeros, dot, n, value);
        let d = value(dot.last());
        assert(1 * d == d) by (nonlinear_arith);
        lemma_same(
            weighted(st.adj, dot, n, value) + value(grad[seed]),
            value(dot.last()) + value(grad[seed]),
            m,
        );
    } else {
        lemma_sweep(ops, vals, grad, seed, i + 1, fpu, ext, value, m);
        lemma_tangent_at(ops, seed, vals, n, i, fpu, ext);
        let prev = reverse_state(ops, vals, grad, i + 1, fpu, ext);
        let a = prev.adj[i];
        let (av, d) = (value(a), value(dot[i]));
        let whole = value(dot.last()) + value(grad[seed]);
        let (low, g) = (weighted(prev.adj, dot, i as nat, value), value(prev.grad[seed]));
        assert(congruent(low + av * d + g, whole, m));
        assert(polynomial(ops[i]));
        if num_eq(a, ZERO) {
            assert(0 * d == 0) by (nonlinear_arith);
        } else if ops[i] is Var {
            let j = ops[i]->Var_0;
            assert(0 <= j < grad.len());
            assert(av * 1 == av && av * 0 == 0) by (nonlinear_arith);
            lemma_same(low, low, m);
            if j == seed {
                let after = value(st.grad[seed]);
                lemma_plus(low, low, after, g + av, m);
                lemma_chain(low + after, low + av * d + g, whole, m);
            }
        } else {
            assert(forall|t: int| #[trigger] reads(ops[i], t) ==> 0 <= t < i);
            lemma_operation(ops[i], i, a, prev.adj, seed, vals, dot, fpu, ext, value, m);
            let after = weighted(st.adj, dot, i as nat, value);
            lemma_same(g, g, m);
            lemma_plus(after, low + av * d, g, g, m);
            lemma_chain(after + g, low + av * d + g, whole, m);
        }
    }
}

proof fn lemma_weighted_zeros(
    adj: Seq<u64>,
    dot: Seq<u64>,
    n: nat,
    value: spec_fn(u64) -> int,
)
    requires
        n <= adj.len(),
        value(ZERO) == 0,
        forall|k: int| 0 <= k < adj.len() ==> #[trigger] adj[k] == ZERO,
    ensures
        weighted(adj, dot, n, value) == 0,
    decreases n,
{
    if n > 0 {
        lemma_weighted_zeros(adj, dot, (n - 1) as nat, value);
        let d = value(dot[n - 1]);
        assert(0 * d == 0) by (nonlinear_arith);
    }
}

pub(crate) proof fn lemma_product_moved(lv: int, dl: int, rv: int, dr: int, t: int)
    ensures
        (lv + t * dl) * (rv + t * dr) == lv * rv + t * (dl * rv + lv * dr) + (dl * dr) * (t * t),
{
    let (a, b) = (t * dl, t * dr);
    assert((lv + a) * (rv + b) == lv * rv + lv * b + a * rv + a * b) by (nonlinear_arith);
    assert(t * (dl * rv + lv * dr) == t * (dl * rv) + t * (lv * dr)) by (nonlinear_arith);
    assert(t * (dl * rv) == (t * dl) * rv) by (nonlinear_arith);
    assert(t * (lv * dr) == lv * (t * dr)) by (nonlinear_arith);
    assert((t * dl) * (t * dr) == (dl * dr) * (t * t)) by (nonlinear_arith);
}

/// The value at `i` moves by `t` times its tangent, up to multiples of the square
/// of `t`.
pub open spec fn moves(
    i: int,
    vals: Seq<u64>,
    moved: Seq<u64>,
    dot: Seq<u64>,
    t: int,
    value: spec_fn(u64) -> int,
) -> bool {
    congruent(value(moved[i]), value(vals[i]) + t * value(dot[i]), t * t)
}

/// The operation at `i` moves as its tangent says, if its operands do.
pub open spec fn moves_along(
    op: OpModel,
    i: int,
    vals: Seq<u64>,
    moved: Seq<u64>,
    dot: Seq<u64>,
    t: int,
    value: spec_fn(u64) -> int,
) -> bool {
    (forall|q: int| #[trigger] reads(op, q) ==> moves(q, vals, moved, dot, t, value)) ==> moves(
        i,
        vals,
        moved,
        dot,
        t,
        value,
    )
}

/// A step `t` in one variable moves the value of every operation by `t` times
/// its derivative, up to multiples of the square of `t`.
pub(crate) proof fn lemma_moved<
    F: Fn(FloatOp, u64, u64) -> u64,
    E: Fn(usize, &String, &Vec<ExternalArg>, bool, bool) -> ExternalValue,
>(
    ops: Seq<OpModel>,
    x: Seq<u64>,
    y: Seq<u64>,
    seed: int,
    t: int,
    i: int,
    fpu: Fpu<F>,
    ext: Externals<E>,
    value: spec_fn(u64) -> int,
)
    requires
        exact_modulo(fpu, value, t * t),
        ordered(ops),
        ({
            let vals = run(ops, float_algebra(x, fpu, ext));
            let moved = run(ops, float_algebra(y, fpu, ext));
            let dot = tangents(ops, seed, vals, ops.len(), fpu, ext);
            forall|i: int|
                0 <= i < ops.len() ==> polynomial(#[trigger] ops[i]) || moves_along(
                    ops[i],
                    i,
                    vals,
                    moved,
                    dot,
                    t,
                    value,
                )
        }),
        variables_below(ops, x.len() as int),
        y.len() == x.len(),
        forall|k: int|
            0 <= k < x.len() ==> value(#[trigger] y[k]) == value(x[k]) + (if k == seed {
                t
            } else {
                0
            }),
        0 <= i < ops.len(),
    ensures
        ({
            let vals = run(ops, float_algebra(x, fpu, ext));
            let dot = tangents(ops, seed, vals, ops.len(), fpu, ext);
            congruent(
                value(run(ops, float_algebra(y, fpu, ext))[i]),
                value(vals[i]) + t * value(dot[i]),
                t * t,
            )
        }),
    decreases i,
{
    let m = t * t;
    let vals = run(ops, float_algebra(x, fpu, ext));
    let moved = run(ops, float_algebra(y, fpu, ext));
    let dot = tangents(ops, seed, vals, ops.len(), fpu, ext);
    lemma_run_at(ops, float_algebra(x, fpu, ext), i);
    lemma_run_at(ops, float_algebra(y, fpu, ext), i);
    lemma_tangent_at(ops, seed, vals, ops.len(), i, fpu, ext);
    assert(value(ZERO) == 0);
    assert(t * 1 == t && t * 0 == 0) by (nonlinear_arith);
    if !polynomial(ops[i]) {
        assert(moves_along(ops[i], i, vals, moved, dot, t, value));
        assert forall|q: int| #[trigger] reads(ops[i], q) implies moves(
            q,
            vals,
            moved,
            dot,
            t,
            value,
        ) by {
            lemma_moved(ops, x, y, seed, t, q, fpu, ext, value);
        }
        assert(moves(i, vals, moved, dot, t, value));
    }
    match ops[i] {
        OpModel::Const(_) => {
            lemma_same(value(moved[i]), value(vals[i]) + t * value(dot[i]), m);
        },
        OpModel::Var(k) => {
            assert(0 <= k < x.len());
            assert(value(y[k]) == value(x[k]) + (if k == seed {
                t
            } else {
                0
            }));
            lemma_same(value(moved[i]), value(vals[i]) + t * value(dot[i]), m);
        },
        OpModel::Unary(UnaryOp::Neg, j) => {
            assert(reads(ops[i], j));
            lemma_moved(ops, x, y, seed, t, j, fpu, ext, value);
            let (v, d) = (value(vals[j]), value(dot[j]));
            lemma_same(0, 0, m);
            lemma_same(t, t, m);
            lemma_plus(0, 0, value(moved[j]), v + t * d, m);
            lemma_chain(value(moved[i]), -value(moved[j]), -(v + t * d), m);
            lemma_times(t, t, value(dot[i]), -d, m);
            lemma_plus(value(vals[i]), -v, t * value(dot[i]), t * (-d), m);
            assert(t * (-d) == -(t * d)) by (nonlinear_arith);
            lemma_back(value(vals[i]) + t * value(dot[i]), -v + t * (-d), m);
            lemma_chain(
                value(moved[i]),
                -(v + t * d),
                value(vals[i]) + t * value(dot[i]),
                m,
            );
        },
        OpModel::Binary(o, l, r) if polynomial(ops[i]) => {
            assert(reads(ops[i], l) && reads(ops[i], r));
            lemma_moved(ops, x, y, seed, t, l, fpu, ext, value);
            lemma_moved(ops, x, y, seed, t, r, fpu, ext, value);
            let (lv, dl) = (value(vals[l]), value(dot[l]));
            let (rv, dr) = (value(vals[r]), value(dot[r]));
            let (lm, rm) = (value(moved[l]), value(moved[r]));
            lemma_plus(lm, lv + t * dl, rm, rv + t * dr, m);
            lemma_times(lm, lv + t * dl, rm, rv + t * dr, m);
            // The value before the step, its derivative, and the value after.
            let (base, slope, far): (int, int, int) = match o {
                BinaryOp::Add => (lv + rv, dl + dr, (lv + t * dl) + (rv + t * dr)),
                BinaryOp::Sub => (lv - rv, dl - dr, (lv + t * dl) - (rv + t * dr)),
                _ => (lv * rv, dl * rv + lv * dr, (lv + t * dl) * (rv + t * dr)),
            };
            let raw = match o {
                BinaryOp::Add => lm + rm,
                BinaryOp::Sub => lm - rm,
                _ => lm * rm,
            };
            lemma_chain(value(moved[i]), raw, far, m);
            if o == BinaryOp::Mul {
                let (p, q) = (fpu.product(dot[l], vals[r]), fpu.product(vals[l], dot[r]));
                lemma_plus(value(p), dl * rv, value(q), lv * dr, m);
                lemma_chain(value(dot[i]), value(p) + value(q), slope, m);
            }
            let q = if o == BinaryOp::Mul {
                dl * dr
            } else {
                0
            };
            assert(far - (base + t * slope) == times(q, m)) by {
                assert(t * (dl + dr) == t * dl + t * dr) by (nonlinear_arith);
                assert(t * (dl - dr) == t * dl - t * dr) by (nonlinear_arith);
                assert(0 * m == 0) by (nonlinear_arith);
                lemma_product_moved(lv, dl, rv, dr, t);
            }
            lemma_chain(value(moved[i]), far, base + t * slope, m);
            lemma_same(t, t, m);
            lemma_times(t, t, value(dot[i]), slope, m);
            lemma_plus(value(vals[i]), base, t * value(dot[i]), t * slope, m);
            lemma_back(value(vals[i]) + t * value(dot[i]), base + t * slope, m);
            lemma_chain(
                value(moved[i]),
                base + t * slope,
                value(vals[i]) + t * value(dot[i]),
                m,
            );
        },
        _ => {},
    }
}

/// The gradient is the derivative: on a tape of constants, variables, sums,
/// differences, products and changes of sign, a step `t` in one variable moves
/// the value by `t` times the entry of the gradient for that variable, up to
/// multiples of the square of `t`. The arithmetic has to be exact up to such
/// multiples.
pub proof fn gradient_is_the_derivative<
    F: Fn(FloatOp, u64, u64) -> u64,
    E: Fn(usize, &String, &Vec<ExternalArg>, bool, bool) -> ExternalValue,
>(
    ops: Seq<OpModel>,
    x: Seq<u64>,
    y: Seq<u64>,
    j: int,
    t: int,
    fpu: Fpu<F>,
    ext: Externals<E>,
    value: spec_fn(u64) -> int,
)
    requires
        exact_modulo(fpu, value, t * t),
        ops.len() > 0,
        ordered(ops),
        forall|i: int| 0 <= i < ops.len() ==> polynomial(#[trigger] ops[i]),
        variables_below(ops, x.len() as int),
        0 <= j < x.len(),
        y.len() == x.len(),
        forall|k: int|
            0 <= k < x.len() ==> value(#[trigger] y[k]) == value(x[k]) + (if k == j {
                t
            } else {
                0
            }),
    ensures
        congruent(
            value(run(ops, float_algebra(y, fpu, ext)).last()),
            value(run(ops, float_algebra(x, fpu, ext)).last()) + t * value(
                gradient_of(ops, x, x.len(), fpu, ext)[j],
            ),
            t * t,
        ),
{
    let m = t * t;
    let n = ops.len();
    let vals = run(ops, float_algebra(x, fpu, ext));
    let moved = run(ops, float_algebra(y, fpu, ext));
    let zeros = Seq::new(x.len(), |k: int| ZERO);
    let dot = tangents(ops, j, vals, n, fpu, ext);
    let g = value(gradient_of(ops, x, x.len(), fpu, ext)[j]);
    let v = value(vals.last());
    lemma_run_at(ops, float_algebra(x, fpu, ext), n - 1);
    lemma_run_at(ops, float_algebra(y, fpu, ext), n - 1);
    lemma_tangent_at(ops, j, vals, n, n - 1, fpu, ext);
    assert(value(ZERO) == 0);
    lemma_sweep(ops, vals, zeros, j, 0, fpu, ext, value, m);
    lemma_moved(ops, x, y, j, t, n - 1, fpu, ext, value);
    lemma_back(g, value(dot.last()), m);
    lemma_same(t, t, m);
    lemma_same(v, v, m);
    lemma_times(t, t, value(dot.last()), g, m);
    lemma_plus(v, v, t * value(dot.last()), t * g, m);
    lemma_chain(value(moved.last()), v + t * value(dot.last()), v + t * g, m);
}

} // verus!
