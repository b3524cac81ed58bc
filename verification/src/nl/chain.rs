//! The reverse sweep applies the chain rule.

use crate::float::{num_eq, FloatOp, Fpu, HALF, ONE, ZERO};
use crate::nl::autodiff::{ordered, reads, ArgModel, OpModel};
use crate::nl::derivative::{
    congruent, exact_modulo, lemma_back, lemma_chain, lemma_plus, lemma_same, lemma_times,
};
use crate::nl::completeness::lemma_targets_are_arguments;
use crate::nl::expr::{BinaryOp, UnaryOp};
use crate::nl::meaning::arg_values;
use crate::nl::sweeps::{
    applied, first_binary, first_unary, first_updates, real_targets, reverse_state, ExternalArg,
    ExternalValue, Externals, UpdateModel, LN_10,
};
use vstd::prelude::*;

verus! {

/// Exact up to multiples of `m`, where to divide is to multiply by the
/// reciprocal.
pub open spec fn exact_field<F: Fn(FloatOp, u64, u64) -> u64>(
    fpu: Fpu<F>,
    value: spec_fn(u64) -> int,
    m: int,
) -> bool {
    &&& exact_modulo(fpu, value, m)
    &&& forall|a: u64, b: u64|
        congruent(
            value(#[trigger] fpu.quotient(a, b)),
            value(a) * value(fpu.quotient(ONE, b)),
            m,
        )
}

/// What an update adds.
pub open spec fn signed(u: UpdateModel, value: spec_fn(u64) -> int) -> int {
    if u.subtract {
        -value(u.amount)
    } else {
        value(u.amount)
    }
}

/// The first `k` updates, each times the derivative of its operand.
pub open spec fn handed(
    ups: Seq<UpdateModel>,
    d: Seq<int>,
    k: nat,
    value: spec_fn(u64) -> int,
) -> int
    decreases k,
{
    if k == 0 {
        0
    } else {
        handed(ups, d, (k - 1) as nat, value) + signed(ups[k - 1], value) * d[ups[k - 1].target]
    }
}

/// The derivatives of the first `k` operations by variable `j`, by the chain
/// rule: each operation hands on what it adds to its operands for an adjoint of
/// one.
pub open spec fn chained<
    F: Fn(FloatOp, u64, u64) -> u64,
    E: Fn(usize, &String, &Vec<ExternalArg>, bool, bool) -> ExternalValue,
>(
    ops: Seq<OpModel>,
    j: int,
    vals: Seq<u64>,
    k: nat,
    fpu: Fpu<F>,
    ext: Externals<E>,
    value: spec_fn(u64) -> int,
) -> Seq<int>
    decreases k,
{
    if k == 0 {
        Seq::empty()
    } else {
        let d = chained(ops, j, vals, (k - 1) as nat, fpu, ext, value);
        let op = ops[k - 1];
        d.push(
            match op {
                OpModel::Var(v) => if v == j {
                    1
                } else {
                    0
                },
                _ => {
                    let ups = first_updates(op, k - 1, ONE, vals, fpu, ext);
                    handed(ups, d, ups.len(), value)
                },
            },
        )
    }
}

proof fn lemma_one_factor<F: Fn(FloatOp, u64, u64) -> u64>(
    a: u64,
    p: u64,
    fpu: Fpu<F>,
    value: spec_fn(u64) -> int,
    m: int,
)
    requires
        exact_field(fpu, value, m),
    ensures
        congruent(value(fpu.product(a, p)), value(a) * value(fpu.product(ONE, p)), m),
        congruent(value(fpu.quotient(a, p)), value(a) * value(fpu.quotient(ONE, p)), m),
        congruent(value(a), value(a) * value(ONE), m),
{
    let (av, pv) = (value(a), value(p));
    assert(1 * pv == pv && av * 1 == av) by (nonlinear_arith);
    lemma_same(av, av, m);
    lemma_back(value(fpu.product(ONE, p)), pv, m);
    lemma_times(av, av, pv, value(fpu.product(ONE, p)), m);
    lemma_chain(value(fpu.product(a, p)), av * pv, av * value(fpu.product(ONE, p)), m);
}

/// An amount that is the adjoint times `p`, then times or over `q`.
proof fn lemma_two_factors<F: Fn(FloatOp, u64, u64) -> u64>(
    a: u64,
    p: u64,
    q: u64,
    fpu: Fpu<F>,
    value: spec_fn(u64) -> int,
    m: int,
)
    requires
        exact_field(fpu, value, m),
    ensures
        congruent(
            value(fpu.product(fpu.product(a, p), q)),
            value(a) * value(fpu.product(fpu.product(ONE, p), q)),
            m,
        ),
        congruent(
            value(fpu.quotient(fpu.product(a, p), q)),
            value(a) * value(fpu.quotient(fpu.product(ONE, p), q)),
            m,
        ),
{
    let (ap, op) = (fpu.product(a, p), fpu.product(ONE, p));
    let (av, s) = (value(a), value(op));
    lemma_one_factor(a, p, fpu, value, m);
    lemma_scaled(value(ap), av, s, value(q), value(fpu.product(ap, q)), value(fpu.product(op, q)), m);
    let r = value(fpu.quotient(ONE, q));
    lemma_scaled(value(ap), av, s, r, value(fpu.quotient(ap, q)), value(fpu.quotient(op, q)), m);
}

proof fn lemma_scaled(x: int, a: int, s: int, f: int, y: int, z: int, m: int)
    requires
        congruent(x, a * s, m),
        congruent(y, x * f, m),
        congruent(z, s * f, m),
    ensures
        congruent(y, a * z, m),
{
    lemma_same(f, f, m);
    lemma_same(a, a, m);
    lemma_times(x, a * s, f, f, m);
    lemma_chain(y, x * f, (a * s) * f, m);
    lemma_back(z, s * f, m);
    lemma_times(a, a, s * f, z, m);
    assert((a * s) * f == a * (s * f)) by (nonlinear_arith);
    lemma_chain(y, a * (s * f), a * z, m);
}

/// The updates for an adjoint are those for an adjoint of one, times it.
pub(crate) open spec fn proportional(
    ups: Seq<UpdateModel>,
    unit: Seq<UpdateModel>,
    a: int,
    value: spec_fn(u64) -> int,
    m: int,
) -> bool {
    &&& ups.len() == unit.len()
    &&& forall|k: int|
        0 <= k < ups.len() ==> {
            &&& (#[trigger] ups[k]).target == unit[k].target
            &&& ups[k].subtract == unit[k].subtract
            &&& !ups[k].second
            &&& congruent(value(ups[k].amount), a * value(unit[k].amount), m)
        }
}

proof fn lemma_binary_proportional<F: Fn(FloatOp, u64, u64) -> u64>(
    op: BinaryOp,
    l: int,
    r: int,
    a: u64,
    y: u64,
    lv: u64,
    rv: u64,
    fpu: Fpu<F>,
    value: spec_fn(u64) -> int,
    m: int,
)
    requires
        exact_field(fpu, value, m),
    ensures
        proportional(
            first_binary(op, l, r, a, y, lv, rv, fpu),
            first_binary(op, l, r, ONE, y, lv, rv, fpu),
            value(a),
            value,
            m,
        ),
{
    lemma_one_factor(a, rv, fpu, value, m);
    match op {
        BinaryOp::Mul => {
            lemma_one_factor(a, lv, fpu, value, m);
        },
        BinaryOp::Div => {
            lemma_two_factors(a, lv, fpu.product(rv, rv), fpu, value, m);
        },
        BinaryOp::Pow => {
            lemma_two_factors(
                a,
                rv,
                fpu.calc(FloatOp::Pow, lv, fpu.difference(rv, ONE)),
                fpu,
                value,
                m,
            );
            lemma_two_factors(a, y, fpu.calc(FloatOp::Ln, lv, ZERO), fpu, value, m);
        },
        BinaryOp::Atan2 => {
            let d = fpu.sum(fpu.product(lv, lv), fpu.product(rv, rv));
            lemma_two_factors(a, rv, d, fpu, value, m);
            lemma_two_factors(a, lv, d, fpu, value, m);
        },
        _ => {},
    }
}

proof fn lemma_unary_proportional<F: Fn(FloatOp, u64, u64) -> u64>(
    op: UnaryOp,
    j: int,
    a: u64,
    y: u64,
    u: u64,
    fpu: Fpu<F>,
    value: spec_fn(u64) -> int,
    m: int,
)
    requires
        exact_field(fpu, value, m),
    ensures
        proportional(
            first_unary(op, j, a, y, u, fpu),
            first_unary(op, j, ONE, y, u, fpu),
            value(a),
            value,
            m,
        ),
{
    lemma_one_factor(a, a, fpu, value, m);
    let uu = fpu.product(u, u);
    match op {
        UnaryOp::Tanh => {
            lemma_one_factor(a, fpu.difference(ONE, fpu.product(y, y)), fpu, value, m);
        },
        UnaryOp::Tan => {
            let c = fpu.calc(FloatOp::Cos, u, ZERO);
            lemma_one_factor(a, fpu.product(c, c), fpu, value, m);
        },
        UnaryOp::Sqrt => {
            lemma_two_factors(a, HALF, y, fpu, value, m);
        },
        UnaryOp::Sinh => {
            lemma_one_factor(a, fpu.calc(FloatOp::Cosh, u, ZERO), fpu, value, m);
        },
        UnaryOp::Sin => {
            lemma_one_factor(a, fpu.calc(FloatOp::Cos, u, ZERO), fpu, value, m);
        },
        UnaryOp::Log10 => {
            lemma_one_factor(a, fpu.product(u, LN_10), fpu, value, m);
        },
        UnaryOp::Log => {
            lemma_one_factor(a, u, fpu, value, m);
        },
        UnaryOp::Exp => {
            lemma_one_factor(a, y, fpu, value, m);
        },
        UnaryOp::Cosh => {
            lemma_one_factor(a, fpu.calc(FloatOp::Sinh, u, ZERO), fpu, value, m);
        },
        UnaryOp::Cos => {
            lemma_one_factor(a, fpu.calc(FloatOp::Sin, u, ZERO), fpu, value, m);
        },
        UnaryOp::Atanh => {
            lemma_one_factor(a, fpu.difference(ONE, uu), fpu, value, m);
        },
        UnaryOp::Atan => {
            lemma_one_factor(a, fpu.sum(ONE, uu), fpu, value, m);
        },
        UnaryOp::Asinh => {
            lemma_one_factor(
                a,
                fpu.calc(FloatOp::Sqrt, fpu.sum(uu, ONE), ZERO),
                fpu,
                value,
                m,
            );
        },
        UnaryOp::Asin | UnaryOp::Acos => {
            lemma_one_factor(
                a,
                fpu.calc(FloatOp::Sqrt, fpu.difference(ONE, uu), ZERO),
                fpu,
                value,
                m,
            );
        },
        UnaryOp::Acosh => {
            lemma_one_factor(
                a,
                fpu.calc(FloatOp::Sqrt, fpu.difference(uu, ONE), ZERO),
                fpu,
                value,
                m,
            );
        },
        _ => {},
    }
}

/// The updates of any operation are in proportion to its adjoint, and go to its
/// operands.
pub(crate) proof fn lemma_proportional<
    F: Fn(FloatOp, u64, u64) -> u64,
    E: Fn(usize, &String, &Vec<ExternalArg>, bool, bool) -> ExternalValue,
>(
    op: OpModel,
    i: int,
    a: u64,
    vals: Seq<u64>,
    fpu: Fpu<F>,
    ext: Externals<E>,
    value: spec_fn(u64) -> int,
    m: int,
)
    requires
        exact_field(fpu, value, m),
    ensures
        proportional(
            first_updates(op, i, a, vals, fpu, ext),
            first_updates(op, i, ONE, vals, fpu, ext),
            value(a),
            value,
            m,
        ),
        forall|k: int|
            0 <= k < first_updates(op, i, a, vals, fpu, ext).len() ==> reads(
                op,
                (#[trigger] first_updates(op, i, a, vals, fpu, ext)[k]).target,
            ),
{
    let ups = first_updates(op, i, a, vals, fpu, ext);
    match op {
        OpModel::Binary(o, l, r) => {
            lemma_binary_proportional(o, l, r, a, vals[i], vals[l], vals[r], fpu, value, m);
            lemma_binary_first_targets(o, l, r, a, vals[i], vals[l], vals[r], fpu);
        },
        OpModel::Unary(o, p) => {
            lemma_unary_proportional(o, p, a, vals[i], vals[p], fpu, value, m);
            lemma_unary_first_targets(o, p, a, vals[i], vals[p], fpu);
        },
        OpModel::Call(lib, name, args) => {
            let targets = real_targets(args);
            let derivs = ext.result(
                lib as usize,
                name,
                arg_values(args, vals),
                true,
                false,
            ).derivs;
            lemma_targets_are_arguments(args);
            assert forall|k: int| 0 <= k < ups.len() implies congruent(
                value((#[trigger] ups[k]).amount),
                value(a) * value(first_updates(op, i, ONE, vals, fpu, ext)[k].amount),
                m,
            ) && reads(op, ups[k].target) by {
                lemma_one_factor(a, derivs[k], fpu, value, m);
                assert(args.contains(ArgModel::Tape(targets[k])));
            }
        },
        _ => {},
    }
}

proof fn lemma_binary_first_targets<F: Fn(FloatOp, u64, u64) -> u64>(
    op: BinaryOp,
    l: int,
    r: int,
    a: u64,
    y: u64,
    lv: u64,
    rv: u64,
    fpu: Fpu<F>,
)
    ensures
        forall|k: int|
            0 <= k < first_binary(op, l, r, a, y, lv, rv, fpu).len() ==> (#[trigger] first_binary(
                op,
                l,
                r,
                a,
                y,
                lv,
                rv,
                fpu,
            )[k]).target == l || first_binary(op, l, r, a, y, lv, rv, fpu)[k].target == r,
{
}

proof fn lemma_unary_first_targets<F: Fn(FloatOp, u64, u64) -> u64>(
    op: UnaryOp,
    j: int,
    a: u64,
    y: u64,
    u: u64,
    fpu: Fpu<F>,
)
    ensures
        forall|k: int|
            0 <= k < first_unary(op, j, a, y, u, fpu).len() ==> (#[trigger] first_unary(
                op,
                j,
                a,
                y,
                u,
                fpu,
            )[k]).target == j,
{
}

/// The first `n` adjoints, each times the derivative of its operation.
spec fn carried(adj: Seq<u64>, d: Seq<int>, n: nat, value: spec_fn(u64) -> int) -> int
    decreases n,
{
    if n == 0 {
        0
    } else {
        carried(adj, d, (n - 1) as nat, value) + value(adj[n - 1]) * d[n - 1]
    }
}

proof fn lemma_carried_update(
    adj: Seq<u64>,
    d: Seq<int>,
    n: nat,
    l: int,
    w: u64,
    value: spec_fn(u64) -> int,
)
    requires
        n <= adj.len(),
        0 <= l < adj.len(),
    ensures
        carried(adj.update(l, w), d, n, value) == carried(adj, d, n, value) + (if l < n {
            (value(w) - value(adj[l])) * d[l]
        } else {
            0
        }),
    decreases n,
{
    if n > 0 {
        lemma_carried_update(adj, d, (n - 1) as nat, l, w, value);
        if l == n - 1 {
            let (a, b, c) = (value(w), value(adj[l]), d[l]);
            assert((a - b) * c == a * c - b * c) by (nonlinear_arith);
        }
    }
}

/// Updates add the adjoint times what they hand on.
proof fn lemma_carried_applied<F: Fn(FloatOp, u64, u64) -> u64>(
    adj: Seq<u64>,
    ups: Seq<UpdateModel>,
    unit: Seq<UpdateModel>,
    a: int,
    d: Seq<int>,
    n: nat,
    k: nat,
    fpu: Fpu<F>,
    value: spec_fn(u64) -> int,
    m: int,
)
    requires
        exact_field(fpu, value, m),
        proportional(ups, unit, a, value, m),
        k <= ups.len(),
        n <= adj.len(),
        forall|q: int| 0 <= q < ups.len() ==> 0 <= (#[trigger] ups[q]).target < n,
    ensures
        applied(adj, ups, k, false, fpu).len() == adj.len(),
        congruent(
            carried(applied(adj, ups, k, false, fpu), d, n, value),
            carried(adj, d, n, value) + a * handed(unit, d, k, value),
            m,
        ),
    decreases k,
{
    if k == 0 {
        assert(a * 0 == 0) by (nonlinear_arith);
        lemma_same(carried(adj, d, n, value), carried(adj, d, n, value), m);
    } else {
        lemma_carried_applied(adj, ups, unit, a, d, n, (k - 1) as nat, fpu, value, m);
        let before = applied(adj, ups, (k - 1) as nat, false, fpu);
        let u = ups[k - 1];
        let l = u.target;
        assert(0 <= l < n);
        let w = if u.subtract {
            fpu.difference(before[l], u.amount)
        } else {
            fpu.sum(before[l], u.amount)
        };
        lemma_carried_update(before, d, n, l, w, value);
        let (old_value, amount, one) = (value(before[l]), value(u.amount), value(unit[k - 1].amount));
        let step = if u.subtract {
            -(a * one)
        } else {
            a * one
        };
        lemma_same(old_value, old_value, m);
        lemma_plus(old_value, old_value, amount, a * one, m);
        lemma_chain(
            value(w),
            if u.subtract {
                old_value - amount
            } else {
                old_value + amount
            },
            old_value + step,
            m,
        );
        lemma_plus(value(w), old_value + step, old_value, old_value, m);
        lemma_same(d[l], d[l], m);
        lemma_times(value(w) - old_value, step, d[l], d[l], m);
        let s = signed(unit[k - 1], value);
        let h = handed(unit, d, (k - 1) as nat, value);
        assert(step * d[l] == a * (s * d[l])) by {
            let e = d[l];
            assert((a * one) * e == a * (one * e)) by (nonlinear_arith);
            assert((-(a * one)) * e == a * ((-one) * e)) by (nonlinear_arith);
        }
        assert(a * (h + s * d[l]) == a * h + a * (s * d[l])) by {
            let f = s * d[l];
            assert(a * (h + f) == a * h + a * f) by (nonlinear_arith);
        }
        let start = carried(adj, d, n, value);
        lemma_plus(
            carried(before, d, n, value),
            start + a * h,
            (value(w) - old_value) * d[l],
            step * d[l],
            m,
        );
    }
}

pub(crate) proof fn lemma_chained_len<
    F: Fn(FloatOp, u64, u64) -> u64,
    E: Fn(usize, &String, &Vec<ExternalArg>, bool, bool) -> ExternalValue,
>(
    ops: Seq<OpModel>,
    j: int,
    vals: Seq<u64>,
    k: nat,
    n: nat,
    fpu: Fpu<F>,
    ext: Externals<E>,
    value: spec_fn(u64) -> int,
)
    requires
        k <= n,
    ensures
        chained(ops, j, vals, k, fpu, ext, value).len() == k,
        chained(ops, j, vals, n, fpu, ext, value).len() == n,
        forall|i: int|
            0 <= i < k ==> #[trigger] chained(ops, j, vals, n, fpu, ext, value)[i] == chained(
                ops,
                j,
                vals,
                k,
                fpu,
                ext,
                value,
            )[i],
    decreases n,
{
    if n > 0 {
        lemma_chained_len(
            ops,
            j,
            vals,
            if k < n {
                k
            } else {
                (n - 1) as nat
            },
            (n - 1) as nat,
            fpu,
            ext,
            value,
        );
    }
}

/// What is handed on depends on the operands only.
proof fn lemma_handed_same(
    ups: Seq<UpdateModel>,
    a: Seq<int>,
    b: Seq<int>,
    k: nat,
    value: spec_fn(u64) -> int,
)
    requires
        k <= ups.len(),
        forall|q: int| 0 <= q < ups.len() ==> a[(#[trigger] ups[q]).target] == b[ups[q].target],
    ensures
        handed(ups, a, k, value) == handed(ups, b, k, value),
    decreases k,
{
    if k > 0 {
        lemma_handed_same(ups, a, b, (k - 1) as nat, value);
        assert(a[ups[k - 1].target] == b[ups[k - 1].target]);
    }
}

/// The derivative of an operation, from all derivatives.
pub(crate) proof fn lemma_chained_at<
    F: Fn(FloatOp, u64, u64) -> u64,
    E: Fn(usize, &String, &Vec<ExternalArg>, bool, bool) -> ExternalValue,
>(
    ops: Seq<OpModel>,
    j: int,
    vals: Seq<u64>,
    i: int,
    fpu: Fpu<F>,
    ext: Externals<E>,
    value: spec_fn(u64) -> int,
    m: int,
)
    requires
        exact_field(fpu, value, m),
        ordered(ops),
        0 <= i < ops.len(),
    ensures
        ({
            let d = chained(ops, j, vals, ops.len(), fpu, ext, value);
            let ups = first_updates(ops[i], i, ONE, vals, fpu, ext);
            d[i] == match ops[i] {
                OpModel::Var(v) => if v == j {
                    1int
                } else {
                    0
                },
                _ => handed(ups, d, ups.len(), value),
            }
        }),
{
    let d = chained(ops, j, vals, ops.len(), fpu, ext, value);
    let ups = first_updates(ops[i], i, ONE, vals, fpu, ext);
    lemma_chained_len(ops, j, vals, (i + 1) as nat, ops.len(), fpu, ext, value);
    lemma_chained_len(ops, j, vals, i as nat, ops.len(), fpu, ext, value);
    let upto = chained(ops, j, vals, (i + 1) as nat, fpu, ext, value);
    let before = chained(ops, j, vals, i as nat, fpu, ext, value);
    assert(d[i] == upto[i]);
    lemma_proportional(ops[i], i, ONE, vals, fpu, ext, value, m);
    assert forall|q: int| 0 <= q < ups.len() implies before[(#[trigger] ups[q]).target]
        == d[ups[q].target] by {
        assert(reads(ops[i], ups[q].target));
    }
    lemma_handed_same(ups, before, d, ups.len(), value);
}

/// At every point of the reverse sweep, the adjoints still to be passed on and
/// the gradient collected so far stand for the derivative of the tape.
proof fn lemma_chain_sweep<
    F: Fn(FloatOp, u64, u64) -> u64,
    E: Fn(usize, &String, &Vec<ExternalArg>, bool, bool) -> ExternalValue,
>(
    ops: Seq<OpModel>,
    vals: Seq<u64>,
    grad: Seq<u64>,
    j: int,
    i: int,
    fpu: Fpu<F>,
    ext: Externals<E>,
    value: spec_fn(u64) -> int,
    m: int,
)
    requires
        exact_field(fpu, value, m),
        ordered(ops),
        forall|i: int|
            0 <= i < ops.len() ==> match #[trigger] ops[i] {
                OpModel::Var(v) => 0 <= v,
                _ => true,
            },
        0 <= j < grad.len(),
        0 <= i <= ops.len(),
        ops.len() > 0,
    ensures
        ({
            let st = reverse_state(ops, vals, grad, i, fpu, ext);
            let d = chained(ops, j, vals, ops.len(), fpu, ext, value);
            &&& st.adj.len() == ops.len()
            &&& st.grad.len() == grad.len()
            &&& congruent(
                carried(st.adj, d, i as nat, value) + value(st.grad[j]),
                d.last() + value(grad[j]),
                m,
            )
        }),
    decreases ops.len() - i,
{
    let st = reverse_state(ops, vals, grad, i, fpu, ext);
    let n = ops.len();
    let d = chained(ops, j, vals, n, fpu, ext, value);
    lemma_chained_len(ops, j, vals, n, n, fpu, ext, value);
    assert(value(ZERO) == 0);
    let whole = d.last() + value(grad[j]);
    if i == n {
        let zeros = Seq::new(n, |k: int| ZERO);
        lemma_carried_update(zeros, d, n, n - 1, ONE, value);
        lemma_carried_zeros(zeros, d, n, value);
        let e = d.last();
        assert(1 * e == e) by (nonlinear_arith);
        lemma_same(carried(st.adj, d, n, value) + value(grad[j]), whole, m);
    } else {
        lemma_chain_sweep(ops, vals, grad, j, i + 1, fpu, ext, value, m);
        lemma_chained_at(ops, j, vals, i, fpu, ext, value, m);
        let prev = reverse_state(ops, vals, grad, i + 1, fpu, ext);
        let a = prev.adj[i];
        let (av, e) = (value(a), d[i]);
        let (low, g) = (carried(prev.adj, d, i as nat, value), value(prev.grad[j]));
        assert(congruent(low + av * e + g, whole, m));
        lemma_same(low, low, m);
        lemma_same(g, g, m);
        if num_eq(a, ZERO) {
            assert(0 * e == 0) by (nonlinear_arith);
        } else if ops[i] is Var {
            let v = ops[i]->Var_0;
            assert(0 <= v);
            assert(av * 1 == av && av * 0 == 0) by (nonlinear_arith);
            if v == j {
                let after = value(st.grad[j]);
                lemma_plus(low, low, after, g + av, m);
                lemma_chain(low + after, low + av * e + g, whole, m);
            }
        } else {
            let ups = first_updates(ops[i], i, a, vals, fpu, ext);
            let unit = first_updates(ops[i], i, ONE, vals, fpu, ext);
            lemma_proportional(ops[i], i, a, vals, fpu, ext, value, m);
            assert forall|q: int| 0 <= q < ups.len() implies 0 <= (#[trigger] ups[q]).target
                < i as nat by {
                assert(reads(ops[i], ups[q].target));
            }
            lemma_carried_applied(
                prev.adj,
                ups,
                unit,
                av,
                d,
                i as nat,
                ups.len(),
                fpu,
                value,
                m,
            );
            let after = carried(st.adj, d, i as nat, value);
            lemma_plus(after, low + av * e, g, g, m);
            lemma_chain(after + g, low + av * e + g, whole, m);
        }
    }
}

proof fn lemma_carried_zeros(
    adj: Seq<u64>,
    d: Seq<int>,
    n: nat,
    value: spec_fn(u64) -> int,
)
    requires
        n <= adj.len(),
        value(ZERO) == 0,
        forall|k: int| 0 <= k < adj.len() ==> #[trigger] adj[k] == ZERO,
    ensures
        carried(adj, d, n, value) == 0,
    decreases n,
{
    if n > 0 {
        lemma_carried_zeros(adj, d, (n - 1) as nat, value);
        let e = d[n - 1];
        assert(0 * e == 0) by (nonlinear_arith);
    }
}

/// The reverse sweep applies the chain rule, on every tape: to what an entry of
/// the gradient held it adds the derivative of the tape by that variable, which
/// is composed of the derivatives that the operations hand on. The arithmetic
/// has to be exact up to multiples of `m`; variables beyond the gradient are
/// ignored.
pub proof fn reverse_adds_the_chained_derivative<
    F: Fn(FloatOp, u64, u64) -> u64,
    E: Fn(usize, &String, &Vec<ExternalArg>, bool, bool) -> ExternalValue,
>(
    ops: Seq<OpModel>,
    vals: Seq<u64>,
    grad: Seq<u64>,
    j: int,
    fpu: Fpu<F>,
    ext: Externals<E>,
    value: spec_fn(u64) -> int,
    m: int,
)
    requires
        exact_field(fpu, value, m),
        ops.len() > 0,
        ordered(ops),
        forall|i: int|
            0 <= i < ops.len() ==> match #[trigger] ops[i] {
                OpModel::Var(v) => 0 <= v,
                _ => true,
            },
        0 <= j < grad.len(),
    ensures
        congruent(
            value(reverse_state(ops, vals, grad, 0, fpu, ext).grad[j]),
            value(grad[j]) + chained(ops, j, vals, ops.len(), fpu, ext, value).last(),
            m,
        ),
{
    lemma_chain_sweep(ops, vals, grad, j, 0, fpu, ext, value, m);
}

/// The reverse sweep adds to what was there: from any gradient it comes to what
/// that held plus what it comes to from zeros.
pub proof fn reverse_accumulates<
    F: Fn(FloatOp, u64, u64) -> u64,
    E: Fn(usize, &String, &Vec<ExternalArg>, bool, bool) -> ExternalValue,
>(
    ops: Seq<OpModel>,
    vals: Seq<u64>,
    grad: Seq<u64>,
    j: int,
    fpu: Fpu<F>,
    ext: Externals<E>,
    value: spec_fn(u64) -> int,
    m: int,
)
    requires
        exact_field(fpu, value, m),
        ops.len() > 0,
        ordered(ops),
        forall|i: int|
            0 <= i < ops.len() ==> match #[trigger] ops[i] {
                OpModel::Var(v) => 0 <= v,
                _ => true,
            },
        0 <= j < grad.len(),
    ensures
        ({
            let zeros = Seq::new(grad.len(), |k: int| ZERO);
            congruent(
                value(reverse_state(ops, vals, grad, 0, fpu, ext).grad[j]),
                value(grad[j]) + value(reverse_state(ops, vals, zeros, 0, fpu, ext).grad[j]),
                m,
            )
        }),
{
    let zeros = Seq::new(grad.len(), |k: int| ZERO);
    let d = chained(ops, j, vals, ops.len(), fpu, ext, value).last();
    let z = value(reverse_state(ops, vals, zeros, 0, fpu, ext).grad[j]);
    let g = value(grad[j]);
    reverse_adds_the_chained_derivative(ops, vals, grad, j, fpu, ext, value, m);
    reverse_adds_the_chained_derivative(ops, vals, zeros, j, fpu, ext, value, m);
    assert(value(ZERO) == 0);
    assert(congruent(z, d, m));
    lemma_back(z, d, m);
    lemma_same(g, g, m);
    lemma_plus(g, g, d, z, m);
    lemma_chain(
        value(reverse_state(ops, vals, grad, 0, fpu, ext).grad[j]),
        g + d,
        g + z,
        m,
    );
}

} // verus!
