//! The gradient is the derivative, on tapes of any operations.

use crate::float::{FloatOp, Fpu, ONE, ZERO};
use crate::nl::autodiff::{ordered, reads, OpModel};
use crate::nl::chain::{
    chained, exact_field, handed, lemma_chained_at, lemma_chained_len,
    reverse_adds_the_chained_derivative, signed,
};
use crate::nl::curvature::lemma_run_at;
use crate::nl::derivative::{
    congruent, lemma_back, lemma_chain, lemma_plus, lemma_product_moved, lemma_same, lemma_times,
    times,
};
use crate::nl::expr::{BinaryOp, UnaryOp};
use crate::nl::meaning::run;
use crate::nl::sweeps::{
    first_updates, float_algebra, gradient_of, variables_below, ExternalArg, ExternalValue,
    Externals,
};
use vstd::prelude::*;

verus! {

/// `b` has a reciprocal.
pub open spec fn invertible<F: Fn(FloatOp, u64, u64) -> u64>(
    b: u64,
    fpu: Fpu<F>,
    value: spec_fn(u64) -> int,
    m: int,
) -> bool {
    congruent(value(b) * value(fpu.quotient(ONE, b)), 1, m)
}

/// The value at `i` moves by `t` times its derivative, up to multiples of the
/// square of `t`.
pub open spec fn follows(
    i: int,
    vals: Seq<u64>,
    moved: Seq<u64>,
    d: Seq<int>,
    t: int,
    value: spec_fn(u64) -> int,
) -> bool {
    congruent(value(moved[i]), value(vals[i]) + t * d[i], t * t)
}

/// The operation at `i` has the derivatives of its kind. Of constants,
/// variables, sums, differences, products and changes of sign nothing is asked,
/// of a quotient that its divisor has a reciprocal; any other function has to
/// follow its operands.
pub open spec fn differentiable<F: Fn(FloatOp, u64, u64) -> u64>(
    op: OpModel,
    i: int,
    vals: Seq<u64>,
    moved: Seq<u64>,
    d: Seq<int>,
    t: int,
    fpu: Fpu<F>,
    value: spec_fn(u64) -> int,
) -> bool {
    match op {
        OpModel::Const(_) => true,
        OpModel::Var(_) => true,
        OpModel::Binary(BinaryOp::Add, _, _) => true,
        OpModel::Binary(BinaryOp::Sub, _, _) => true,
        OpModel::Binary(BinaryOp::Mul, _, _) => true,
        OpModel::Unary(UnaryOp::Neg, _) => true,
        OpModel::Binary(BinaryOp::Div, _, r) => invertible(vals[r], fpu, value, t * t)
            && invertible(moved[r], fpu, value, t * t) && invertible(
            fpu.product(vals[r], vals[r]),
            fpu,
            value,
            t * t,
        ),
        _ => (forall|q: int| #[trigger] reads(op, q) ==> follows(q, vals, moved, d, t, value))
            ==> follows(i, vals, moved, d, t, value),
    }
}

/// Two updates.
proof fn lemma_handed_two(
    ups: Seq<crate::nl::sweeps::UpdateModel>,
    d: Seq<int>,
    value: spec_fn(u64) -> int,
)
    ensures
        handed(ups, d, 0, value) == 0,
        handed(ups, d, 1, value) == signed(ups[0], value) * d[ups[0].target],
        handed(ups, d, 2, value) == signed(ups[0], value) * d[ups[0].target] + signed(
            ups[1],
            value,
        ) * d[ups[1].target],
{
    reveal_with_fuel(handed, 3);
}

/// The reciprocal of what moves.
proof fn lemma_reciprocal_moved(r: int, e: int, r2: int, s: int, s2: int, t: int)
    requires
        congruent(r * s, 1, t * t),
        congruent(r2 * s2, 1, t * t),
        congruent(r2, r + t * e, t * t),
    ensures
        congruent(s2, s - t * (e * (s * s)), t * t),
{
    let m = t * t;
    // r s2 is 1 - t e s2.
    lemma_same(s2, s2, m);
    lemma_same(s, s, m);
    lemma_same(t, t, m);
    lemma_same(e, e, m);
    lemma_times(r2, r + t * e, s2, s2, m);
    lemma_back(r2 * s2, (r + t * e) * s2, m);
    lemma_chain((r + t * e) * s2, r2 * s2, 1, m);
    let te = t * e;
    assert((r + te) * s2 == r * s2 + te * s2) by (nonlinear_arith);
    lemma_same(te * s2, te * s2, m);
    lemma_plus((r + te) * s2, 1, te * s2, te * s2, m);
    assert(congruent(r * s2, 1 - te * s2, m));
    // s2 is s2 (r s), which is s (1 - t e s2).
    lemma_times(s2, s2, r * s, 1, m);
    assert(s2 * (r * s) == s * (r * s2) && s2 * 1 == s2) by (nonlinear_arith);
    lemma_back(s * (r * s2), s2, m);
    lemma_times(s, s, r * s2, 1 - te * s2, m);
    lemma_chain(s2, s * (r * s2), s * (1 - te * s2), m);
    let f = e * s;
    assert(s * (1 - te * s2) == s - t * (f * s2)) by (nonlinear_arith)
        requires
            te == t * e,
            f == e * s,
    ;
    assert(congruent(s2, s - t * (f * s2), m));
    // t s2 is t s.
    lemma_times(t, t, s2, s - t * (f * s2), m);
    let g = f * s2;
    assert(t * (s - t * g) - t * s == (-g) * m) by (nonlinear_arith)
        requires
            m == t * t,
    ;
    assert(t * (s - t * g) - t * s == times(-g, m));
    lemma_chain(t * s2, t * (s - t * g), t * s, m);
    lemma_same(f, f, m);
    lemma_times(f, f, t * s2, t * s, m);
    assert(f * (t * s2) == t * (f * s2)) by (nonlinear_arith);
    assert(f * (t * s) == t * (e * (s * s))) by (nonlinear_arith)
        requires
            f == e * s,
    ;
    lemma_plus(s, s, t * (f * s2), t * (e * (s * s)), m);
    lemma_chain(s2, s - t * (f * s2), s - t * (e * (s * s)), m);
}

/// The reciprocal of a square.
proof fn lemma_reciprocal_square(r: int, s: int, q: int, w: int, m: int)
    requires
        congruent(r * s, 1, m),
        congruent(q, r * r, m),
        congruent(q * w, 1, m),
    ensures
        congruent(w, s * s, m),
{
    lemma_same(w, w, m);
    lemma_same(s * s, s * s, m);
    lemma_times(r * s, 1, r * s, 1, m);
    lemma_times(w, w, (r * s) * (r * s), 1, m);
    assert(w * 1 == w) by (nonlinear_arith);
    lemma_back(w * ((r * s) * (r * s)), w, m);
    assert(w * ((r * s) * (r * s)) == ((r * r) * w) * (s * s)) by {
        assert((r * s) * (r * s) == (r * r) * (s * s)) by (nonlinear_arith);
        let (a, b) = (r * r, s * s);
        assert(w * (a * b) == (a * w) * b) by (nonlinear_arith);
    }
    lemma_back(q, r * r, m);
    lemma_times(r * r, q, w, w, m);
    lemma_chain((r * r) * w, q * w, 1, m);
    lemma_times((r * r) * w, 1, s * s, s * s, m);
    let b = s * s;
    assert(1 * b == b) by (nonlinear_arith);
    lemma_chain(w, ((r * r) * w) * (s * s), s * s, m);
}

/// A quotient moves by the derivatives of a quotient.
proof fn lemma_quotient_moved<F: Fn(FloatOp, u64, u64) -> u64>(
    lv: u64,
    rv: u64,
    lm: u64,
    rm: u64,
    f: int,
    e: int,
    t: int,
    fpu: Fpu<F>,
    value: spec_fn(u64) -> int,
)
    requires
        exact_field(fpu, value, t * t),
        invertible(rv, fpu, value, t * t),
        invertible(rm, fpu, value, t * t),
        invertible(fpu.product(rv, rv), fpu, value, t * t),
        congruent(value(lm), value(lv) + t * f, t * t),
        congruent(value(rm), value(rv) + t * e, t * t),
    ensures
        congruent(
            value(fpu.quotient(lm, rm)),
            value(fpu.quotient(lv, rv)) + t * (value(fpu.quotient(ONE, rv)) * f - value(
                fpu.quotient(fpu.product(ONE, lv), fpu.product(rv, rv)),
            ) * e),
            t * t,
        ),
{
    let m = t * t;
    let (l, r) = (value(lv), value(rv));
    let s = value(fpu.quotient(ONE, rv));
    let s2 = value(fpu.quotient(ONE, rm));
    let sq = fpu.product(rv, rv);
    let w = value(fpu.quotient(ONE, sq));
    let p = fpu.product(ONE, lv);
    let slope_r = value(fpu.quotient(p, sq));
    lemma_reciprocal_moved(r, e, value(rm), s, s2, t);
    lemma_reciprocal_square(r, s, value(sq), w, m);
    lemma_same(s, s, m);
    lemma_same(t, t, m);
    lemma_same(e, e, m);
    lemma_same(f, f, m);
    lemma_same(l, l, m);
    // The slope by the divisor is l s s.
    assert(1 * l == l) by (nonlinear_arith);
    lemma_times(value(p), l, w, s * s, m);
    lemma_chain(slope_r, value(p) * w, l * (s * s), m);
    // The moved quotient is (l + t f) (s - t e s s).
    let h = -(e * (s * s));
    assert(s - t * (e * (s * s)) == s + t * h) by (nonlinear_arith)
        requires
            h == -(e * (s * s)),
    ;
    lemma_times(value(lm), l + t * f, s2, s + t * h, m);
    lemma_chain(value(fpu.quotient(lm, rm)), value(lm) * s2, (l + t * f) * (s + t * h), m);
    lemma_product_moved(l, f, s, h, t);
    let far = l * s + t * (f * s + l * h);
    assert((l + t * f) * (s + t * h) - far == times(f * h, m));
    lemma_chain(value(fpu.quotient(lm, rm)), (l + t * f) * (s + t * h), far, m);
    // And that is the quotient with its slopes.
    lemma_times(slope_r, l * (s * s), e, e, m);
    lemma_same(s * f, s * f, m);
    lemma_plus(s * f, s * f, slope_r * e, (l * (s * s)) * e, m);
    assert(s * f - (l * (s * s)) * e == f * s + l * h) by {
        let b = s * s;
        assert((l * b) * e == l * (e * b)) by (nonlinear_arith);
        assert(l * (-(e * b)) == -(l * (e * b))) by (nonlinear_arith);
        assert(s * f == f * s) by (nonlinear_arith);
    }
    lemma_times(t, t, s * f - slope_r * e, f * s + l * h, m);
    lemma_plus(
        value(fpu.quotient(lv, rv)),
        l * s,
        t * (s * f - slope_r * e),
        t * (f * s + l * h),
        m,
    );
    lemma_back(value(fpu.quotient(lv, rv)) + t * (s * f - slope_r * e), far, m);
    lemma_chain(
        value(fpu.quotient(lm, rm)),
        far,
        value(fpu.quotient(lv, rv)) + t * (s * f - slope_r * e),
        m,
    );
}

/// An operation follows its operands.
proof fn lemma_follows<
    F: Fn(FloatOp, u64, u64) -> u64,
    E: Fn(usize, &String, &Vec<ExternalArg>, bool, bool) -> ExternalValue,
>(
    ops: Seq<OpModel>,
    x: Seq<u64>,
    y: Seq<u64>,
    j: int,
    t: int,
    i: int,
    fpu: Fpu<F>,
    ext: Externals<E>,
    value: spec_fn(u64) -> int,
)
    requires
        exact_field(fpu, value, t * t),
        ordered(ops),
        variables_below(ops, x.len() as int),
        y.len() == x.len(),
        forall|k: int|
            0 <= k < x.len() ==> value(#[trigger] y[k]) == value(x[k]) + (if k == j {
                t
            } else {
                0
            }),
        ({
            let vals = run(ops, float_algebra(x, fpu, ext));
            let moved = run(ops, float_algebra(y, fpu, ext));
            let d = chained(ops, j, vals, ops.len(), fpu, ext, value);
            forall|i: int|
                0 <= i < ops.len() ==> differentiable(
                    #[trigger] ops[i],
                    i,
                    vals,
                    moved,
                    d,
                    t,
                    fpu,
                    value,
                )
        }),
        0 <= i < ops.len(),
    ensures
        ({
            let vals = run(ops, float_algebra(x, fpu, ext));
            let moved = run(ops, float_algebra(y, fpu, ext));
            let d = chained(ops, j, vals, ops.len(), fpu, ext, value);
            follows(i, vals, moved, d, t, value)
        }),
    decreases i,
{
    let m = t * t;
    let vals = run(ops, float_algebra(x, fpu, ext));
    let moved = run(ops, float_algebra(y, fpu, ext));
    let d = chained(ops, j, vals, ops.len(), fpu, ext, value);
    let op = ops[i];
    let ups = first_updates(op, i, ONE, vals, fpu, ext);
    lemma_run_at(ops, float_algebra(x, fpu, ext), i);
    lemma_run_at(ops, float_algebra(y, fpu, ext), i);
    lemma_chained_at(ops, j, vals, i, fpu, ext, value, m);
    lemma_handed_two(ups, d, value);
    assert(differentiable(op, i, vals, moved, d, t, fpu, value));
    assert(value(ZERO) == 0);
    assert(t * 1 == t && t * 0 == 0) by (nonlinear_arith);
    assert forall|q: int| #[trigger] reads(op, q) implies follows(q, vals, moved, d, t, value) by {
        lemma_follows(ops, x, y, j, t, q, fpu, ext, value);
    }
    match op {
        OpModel::Const(_) => {
            lemma_same(value(moved[i]), value(vals[i]) + t * d[i], m);
        },
        OpModel::Var(k) => {
            assert(0 <= k < x.len());
            assert(value(y[k]) == value(x[k]) + (if k == j {
                t
            } else {
                0
            }));
            lemma_same(value(moved[i]), value(vals[i]) + t * d[i], m);
        },
        OpModel::Unary(UnaryOp::Neg, q) => {
            assert(reads(op, q));
            let (v, e) = (value(vals[q]), d[q]);
            lemma_same(0, 0, m);
            lemma_plus(0, 0, value(moved[q]), v + t * e, m);
            lemma_chain(value(moved[i]), -value(moved[q]), -(v + t * e), m);
            assert((-1) * e == -e) by (nonlinear_arith);
            assert(t * (-e) == -(t * e)) by (nonlinear_arith);
            lemma_same(t * d[i], t * d[i], m);
            lemma_plus(value(vals[i]), -v, t * d[i], t * d[i], m);
            lemma_back(value(vals[i]) + t * d[i], -v + t * d[i], m);
            lemma_chain(value(moved[i]), -(v + t * e), value(vals[i]) + t * d[i], m);
        },
        OpModel::Binary(BinaryOp::Div, l, r) => {
            assert(reads(op, l) && reads(op, r));
            lemma_quotient_moved(
                vals[l],
                vals[r],
                moved[l],
                moved[r],
                d[l],
                d[r],
                t,
                fpu,
                value,
            );
            let c = value(ups[1].amount);
            let e = d[r];
            assert((-c) * e == -(c * e)) by (nonlinear_arith);
        },
        OpModel::Binary(o, l, r) => {
            assert(reads(op, l) && reads(op, r));
            match o {
                BinaryOp::Add | BinaryOp::Sub | BinaryOp::Mul => {
                    lemma_ring_follows(
                        o,
                        vals[l],
                        vals[r],
                        moved[l],
                        moved[r],
                        d[l],
                        d[r],
                        t,
                        fpu,
                        value,
                    );
                    let (a, b) = (d[l], d[r]);
                    assert(1 * a == a && 1 * b == b && (-1) * b == -b) by (nonlinear_arith);
                },
                _ => {},
            }
        },
        _ => {},
    }
}

/// A sum, a difference or a product moves by its derivatives.
proof fn lemma_ring_follows<F: Fn(FloatOp, u64, u64) -> u64>(
    op: BinaryOp,
    lv: u64,
    rv: u64,
    lm: u64,
    rm: u64,
    f: int,
    e: int,
    t: int,
    fpu: Fpu<F>,
    value: spec_fn(u64) -> int,
)
    requires
        exact_field(fpu, value, t * t),
        op == BinaryOp::Add || op == BinaryOp::Sub || op == BinaryOp::Mul,
        congruent(value(lm), value(lv) + t * f, t * t),
        congruent(value(rm), value(rv) + t * e, t * t),
    ensures
        op == BinaryOp::Add ==> congruent(
            value(fpu.sum(lm, rm)),
            value(fpu.sum(lv, rv)) + t * (f + e),
            t * t,
        ),
        op == BinaryOp::Sub ==> congruent(
            value(fpu.difference(lm, rm)),
            value(fpu.difference(lv, rv)) + t * (f - e),
            t * t,
        ),
        op == BinaryOp::Mul ==> congruent(
            value(fpu.product(lm, rm)),
            value(fpu.product(lv, rv)) + t * (value(fpu.product(ONE, rv)) * f + value(
                fpu.product(ONE, lv),
            ) * e),
            t * t,
        ),
{
    let m = t * t;
    let (l, r) = (value(lv), value(rv));
    let (a, b) = (value(lm), value(rm));
    lemma_plus(a, l + t * f, b, r + t * e, m);
    assert(t * (f + e) == t * f + t * e && t * (f - e) == t * f - t * e) by (nonlinear_arith);
    lemma_same(t * (f + e), t * (f + e), m);
    lemma_same(t * (f - e), t * (f - e), m);
    match op {
        BinaryOp::Add => {
            lemma_chain(value(fpu.sum(lm, rm)), a + b, l + r + t * (f + e), m);
            lemma_plus(value(fpu.sum(lv, rv)), l + r, t * (f + e), t * (f + e), m);
            lemma_back(value(fpu.sum(lv, rv)) + t * (f + e), l + r + t * (f + e), m);
            lemma_chain(
                value(fpu.sum(lm, rm)),
                l + r + t * (f + e),
                value(fpu.sum(lv, rv)) + t * (f + e),
                m,
            );
        },
        BinaryOp::Sub => {
            lemma_chain(value(fpu.difference(lm, rm)), a - b, l - r + t * (f - e), m);
            lemma_plus(value(fpu.difference(lv, rv)), l - r, t * (f - e), t * (f - e), m);
            lemma_back(
                value(fpu.difference(lv, rv)) + t * (f - e),
                l - r + t * (f - e),
                m,
            );
            lemma_chain(
                value(fpu.difference(lm, rm)),
                l - r + t * (f - e),
                value(fpu.difference(lv, rv)) + t * (f - e),
                m,
            );
        },
        _ => {
            let (p, q) = (value(fpu.product(ONE, rv)), value(fpu.product(ONE, lv)));
            assert(1 * r == r && 1 * l == l) by (nonlinear_arith);
            lemma_times(a, l + t * f, b, r + t * e, m);
            lemma_chain(value(fpu.product(lm, rm)), a * b, (l + t * f) * (r + t * e), m);
            lemma_product_moved(l, f, r, e, t);
            let far = l * r + t * (f * r + l * e);
            assert((l + t * f) * (r + t * e) - far == times(f * e, m));
            lemma_chain(value(fpu.product(lm, rm)), (l + t * f) * (r + t * e), far, m);
            lemma_same(f, f, m);
            lemma_same(e, e, m);
            lemma_same(t, t, m);
            lemma_times(p, r, f, f, m);
            lemma_times(q, l, e, e, m);
            lemma_plus(p * f, r * f, q * e, l * e, m);
            assert(r * f == f * r) by (nonlinear_arith);
            lemma_times(t, t, p * f + q * e, f * r + l * e, m);
            lemma_plus(
                value(fpu.product(lv, rv)),
                l * r,
                t * (p * f + q * e),
                t * (f * r + l * e),
                m,
            );
            lemma_back(value(fpu.product(lv, rv)) + t * (p * f + q * e), far, m);
            lemma_chain(
                value(fpu.product(lm, rm)),
                far,
                value(fpu.product(lv, rv)) + t * (p * f + q * e),
                m,
            );
        },
    }
}

/// The gradient is the derivative, on a tape of any operations: a step `t` in
/// one variable moves the value of the tape by `t` times the entry of the
/// gradient for that variable, up to multiples of the square of `t`. The
/// arithmetic has to be exact up to such multiples, a divisor has to have a
/// reciprocal, and a function other than sums, differences, products, quotients
/// and changes of sign has to move with its operands as its derivatives say.
pub proof fn gradient_is_the_derivative_of_any_tape<
    F: Fn(FloatOp, u64, u64) -> u64,
    E: Fn(usize, &String, &Vec<ExternalArg>, bool, bool) -> ExternalValue,
>(
    ops: Seq<OpModel>,
    x: Seq<u64>,
    y: Seq<u64>,
    j: int,
    t: int,
    fpu: Fpu<F>,
    ext: Externals<E>,
    value: spec_fn(u64) -> int,
)
    requires
        exact_field(fpu, value, t * t),
        ops.len() > 0,
        ordered(ops),
        variables_below(ops, x.len() as int),
        0 <= j < x.len(),
        y.len() == x.len(),
        forall|k: int|
            0 <= k < x.len() ==> value(#[trigger] y[k]) == value(x[k]) + (if k == j {
                t
            } else {
                0
            }),
        ({
            let vals = run(ops, float_algebra(x, fpu, ext));
            let moved = run(ops, float_algebra(y, fpu, ext));
            let d = chained(ops, j, vals, ops.len(), fpu, ext, value);
            forall|i: int|
                0 <= i < ops.len() ==> differentiable(
                    #[trigger] ops[i],
                    i,
                    vals,
                    moved,
                    d,
                    t,
                    fpu,
                    value,
                )
        }),
    ensures
        congruent(
            value(run(ops, float_algebra(y, fpu, ext)).last()),
            value(run(ops, float_algebra(x, fpu, ext)).last()) + t * value(
                gradient_of(ops, x, x.len(), fpu, ext)[j],
            ),
            t * t,
        ),
{
    let m = t * t;
    let n = ops.len();
    let vals = run(ops, float_algebra(x, fpu, ext));
    let moved = run(ops, float_algebra(y, fpu, ext));
    let d = chained(ops, j, vals, n, fpu, ext, value);
    let zeros = Seq::new(x.len(), |k: int| ZERO);
    let g = value(gradient_of(ops, x, x.len(), fpu, ext)[j]);
    let v = value(vals.last());
    lemma_run_at(ops, float_algebra(x, fpu, ext), n - 1);
    lemma_run_at(ops, float_algebra(y, fpu, ext), n - 1);
    lemma_chained_len(ops, j, vals, n, n, fpu, ext, value);
    assert(value(ZERO) == 0);
    reverse_adds_the_chained_derivative(ops, vals, zeros, j, fpu, ext, value, m);
    lemma_follows(ops, x, y, j, t, n - 1, fpu, ext, value);
    let e = d.last();
    assert(congruent(g, e, m));
    lemma_back(g, e, m);
    lemma_same(t, t, m);
    lemma_same(v, v, m);
    lemma_times(t, t, e, g, m);
    lemma_plus(v, v, t * e, t * g, m);
    lemma_chain(value(moved.last()), v + t * e, v + t * g, m);
}

} // verus!
