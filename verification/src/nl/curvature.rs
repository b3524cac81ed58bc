//! What the sparsity of the second derivatives means.

use crate::nl::autodiff::{ordered, reads, ArgModel, OpModel};
use crate::nl::expr::{BinaryOp, UnaryOp};
use crate::nl::meaning::{arg_values, op_value, run, Algebra};
use crate::nl::sparsity::{coupled, couples, depends};
use vstd::prelude::*;

verus! {

/// An interpretation over the integers in which sums, differences, products and
/// changes of sign are those of the integers, and a quotient is a product with
/// some function of the divisor. All other operations may be any functions.
pub open spec fn exact(alg: Algebra<int>, inverse: spec_fn(int) -> int) -> bool {
    &&& forall|a: int, b: int| #[trigger] (alg.binary)(BinaryOp::Add, a, b) == a + b
    &&& forall|a: int, b: int| #[trigger] (alg.binary)(BinaryOp::Sub, a, b) == a - b
    &&& forall|a: int, b: int| #[trigger] (alg.binary)(BinaryOp::Mul, a, b) == a * b
    &&& forall|a: int, b: int| #[trigger]
        (alg.binary)(BinaryOp::Div, a, b) == a * inverse(b)
    &&& forall|a: int| #[trigger] (alg.unary)(UnaryOp::Neg, a) == -a
}

/// The operation is not one of those that are linear only piece by piece.
pub open spec fn smooth(op: OpModel) -> bool {
    match op {
        OpModel::Binary(BinaryOp::Mod, _, _) => false,
        OpModel::Binary(BinaryOp::Less, _, _) => false,
        OpModel::Binary(BinaryOp::IntDiv, _, _) => false,
        OpModel::Unary(UnaryOp::Abs, _) => false,
        OpModel::Unary(UnaryOp::Floor, _) => false,
        OpModel::Unary(UnaryOp::Ceil, _) => false,
        _ => true,
    }
}

/// The interpretation with `h` added to variable `u` and `k` to variable `v`.
pub open spec fn moved(alg: Algebra<int>, u: int, h: int, v: int, k: int) -> Algebra<int> {
    Algebra {
        variable: |i: int|
            (alg.variable)(i) + (if i == u {
                h
            } else {
                0
            }) + (if i == v {
                k
            } else {
                0
            }),
        ..alg
    }
}

/// Two interpretations give an operation one value if they differ in the
/// variables only, and its operands have the same values.
proof fn lemma_same_value<T>(
    op: OpModel,
    a: Seq<T>,
    b: Seq<T>,
    alg: Algebra<T>,
    alg2: Algebra<T>,
)
    requires
        !(op is Var) || alg == alg2,
        alg.constant == alg2.constant,
        alg.binary == alg2.binary,
        alg.unary == alg2.unary,
        alg.call == alg2.call,
        forall|t: int| #[trigger] reads(op, t) ==> a[t] == b[t],
    ensures
        op_value(op, a, alg) == op_value(op, b, alg2),
{
    match op {
        OpModel::Binary(_, x, y) => {
            assert(reads(op, x) && reads(op, y));
        },
        OpModel::Unary(_, x) => {
            assert(reads(op, x));
        },
        OpModel::Call(_, _, args) => {
            assert forall|i: int| 0 <= i < args.len() implies arg_values(args, a)[i] == arg_values(
                args,
                b,
            )[i] by {
                match args[i] {
                    ArgModel::Tape(t) => {
                        assert(args.contains(args[i]));
                        assert(reads(op, t));
                    },
                    ArgModel::Str(_) => {},
                }
            }
            assert(arg_values(args, a) =~= arg_values(args, b));
        },
        _ => {},
    }
}

/// Every value on a tape is that of its operation.
pub(crate) proof fn lemma_run_at<T>(ops: Seq<OpModel>, alg: Algebra<T>, i: int)
    requires
        ordered(ops),
        0 <= i < ops.len(),
    ensures
        run(ops, alg).len() == ops.len(),
        run(ops, alg)[i] == op_value(ops[i], run(ops, alg), alg),
    decreases ops.len(),
{
    let front = ops.drop_last();
    assert(ordered(front)) by {
        assert forall|i: int, t: int| 0 <= i < front.len() && #[trigger] reads(
            front[i],
            t,
        ) implies 0 <= t < i by {
            assert(reads(ops[i], t));
        }
    }
    if front.len() > 0 {
        lemma_run_at(front, alg, if i < front.len() {
            i
        } else {
            0
        });
    }
    let before = run(front, alg);
    let after = run(ops, alg);
    assert(before.len() == front.len());
    assert forall|t: int| #[trigger] reads(ops[i], t) implies before[t] == after[t] by {}
    lemma_same_value(ops[i], before, after, alg, alg);
}

/// The values at the four corners of a step in two variables.
struct Corners {
    base: Seq<int>,
    by_u: Seq<int>,
    by_v: Seq<int>,
    by_both: Seq<int>,
}

spec fn corners(
    ops: Seq<OpModel>,
    alg: Algebra<int>,
    u: usize,
    h: int,
    v: usize,
    k: int,
) -> Corners {
    Corners {
        base: run(ops, moved(alg, u as int, 0, v as int, 0)),
        by_u: run(ops, moved(alg, u as int, h, v as int, 0)),
        by_v: run(ops, moved(alg, u as int, 0, v as int, k)),
        by_both: run(ops, moved(alg, u as int, h, v as int, k)),
    }
}

/// Operation `i` does not change with a variable that it does not depend on, and
/// has no second difference.
spec fn flat_at(ops: Seq<OpModel>, c: Corners, u: usize, v: usize, i: int) -> bool {
    &&& !depends(ops, i, u) ==> c.by_u[i] == c.base[i] && c.by_both[i] == c.by_v[i]
    &&& !depends(ops, i, v) ==> c.by_v[i] == c.base[i] && c.by_both[i] == c.by_u[i]
    &&& c.by_both[i] - c.by_u[i] - c.by_v[i] + c.base[i] == 0
}

proof fn lemma_product(a: int, b: int, c: int, d: int, m: int)
    requires
        a - b - c + d == 0,
    ensures
        a * m - b * m - c * m + d * m == 0,
        m * a - m * b - m * c + m * d == 0,
{
    assert(a * m - b * m - c * m + d * m == (a - b - c + d) * m) by (nonlinear_arith);
    assert(m * a - m * b - m * c + m * d == m * (a - b - c + d)) by (nonlinear_arith);
    assert(0 * m == 0 && m * 0 == 0) by (nonlinear_arith);
}

#[verifier::rlimit(40)]
proof fn lemma_flat_at(
    ops: Seq<OpModel>,
    alg: Algebra<int>,
    inverse: spec_fn(int) -> int,
    u: usize,
    h: int,
    v: usize,
    k: int,
    i: int,
)
    requires
        exact(alg, inverse),
        ordered(ops),
        forall|t: int| 0 <= t < ops.len() ==> smooth(#[trigger] ops[t]),
        !coupled(ops, u, v),
        0 <= i < ops.len(),
    ensures
        flat_at(ops, corners(ops, alg, u, h, v, k), u, v, i),
    decreases i,
{
    let c = corners(ops, alg, u, h, v, k);
    let (a00, a10) = (moved(alg, u as int, 0, v as int, 0), moved(alg, u as int, h, v as int, 0));
    let (a01, a11) = (moved(alg, u as int, 0, v as int, k), moved(alg, u as int, h, v as int, k));
    lemma_run_at(ops, a00, i);
    lemma_run_at(ops, a10, i);
    lemma_run_at(ops, a01, i);
    lemma_run_at(ops, a11, i);
    let op = ops[i];
    assert(smooth(op));
    assert(!couples(ops, i, u, v));
    assert forall|t: int| #[trigger] reads(op, t) implies 0 <= t < i && flat_at(
        ops,
        c,
        u,
        v,
        t,
    ) by {
        lemma_flat_at(ops, alg, inverse, u, h, v, k, t);
    }
    if op is Var {
    } else {
        if !depends(ops, i, u) {
            assert forall|t: int| #[trigger] reads(op, t) implies c.by_u[t] == c.base[t]
                && c.by_both[t] == c.by_v[t] by {
                assert(!depends(ops, t, u));
            }
            lemma_same_value(op, c.by_u, c.base, a10, a00);
            lemma_same_value(op, c.by_both, c.by_v, a11, a01);
        }
        if !depends(ops, i, v) {
            assert forall|t: int| #[trigger] reads(op, t) implies c.by_v[t] == c.base[t]
                && c.by_both[t] == c.by_u[t] by {
                assert(!depends(ops, t, v));
            }
            lemma_same_value(op, c.by_v, c.base, a01, a00);
            lemma_same_value(op, c.by_both, c.by_u, a11, a10);
        }
        match op {
            OpModel::Binary(o, a, b) => {
                assert(reads(op, a) && reads(op, b));
                match o {
                    BinaryOp::Mul => {
                        if !depends(ops, a, u) && !depends(ops, a, v) {
                            lemma_product(
                                c.by_both[b],
                                c.by_u[b],
                                c.by_v[b],
                                c.base[b],
                                c.base[a],
                            );
                        } else if depends(ops, a, u) && depends(ops, a, v) {
                            lemma_product(
                                c.by_both[a],
                                c.by_u[a],
                                c.by_v[a],
                                c.base[a],
                                c.base[b],
                            );
                        }
                    },
                    BinaryOp::Div => {
                        if depends(ops, a, u) && depends(ops, a, v) {
                            lemma_product(
                                c.by_both[a],
                                c.by_u[a],
                                c.by_v[a],
                                c.base[a],
                                inverse(c.base[b]),
                            );
                        }
                    },
                    _ => {},
                }
            },
            OpModel::Unary(o, a) => {
                assert(reads(op, a));
            },
            _ => {},
        }
    }
}

/// Variables that no operation couples have no second difference: over exact
/// numbers, moving both of them changes the value of a tape by the changes that each
/// makes alone, added up. So the second derivative by the two is zero, and the
/// Hessian needs no entry for them. This holds of tapes without operations that are
/// linear piece by piece.
pub proof fn uncoupled_variables_add_up(
    ops: Seq<OpModel>,
    alg: Algebra<int>,
    inverse: spec_fn(int) -> int,
    u: usize,
    h: int,
    v: usize,
    k: int,
)
    requires
        exact(alg, inverse),
        ordered(ops),
        ops.len() > 0,
        forall|t: int| 0 <= t < ops.len() ==> smooth(#[trigger] ops[t]),
        !coupled(ops, u, v),
    ensures
        ({
            let base = run(ops, moved(alg, u as int, 0, v as int, 0)).last();
            let by_u = run(ops, moved(alg, u as int, h, v as int, 0)).last();
            let by_v = run(ops, moved(alg, u as int, 0, v as int, k)).last();
            let by_both = run(ops, moved(alg, u as int, h, v as int, k)).last();
            by_both - base == (by_u - base) + (by_v - base)
        }),
{
    let last = ops.len() - 1;
    lemma_flat_at(ops, alg, inverse, u, h, v, k, last);
    lemma_run_at(ops, moved(alg, u as int, 0, v as int, 0), last);
    lemma_run_at(ops, moved(alg, u as int, h, v as int, 0), last);
    lemma_run_at(ops, moved(alg, u as int, 0, v as int, k), last);
    lemma_run_at(ops, moved(alg, u as int, h, v as int, k), last);
}

/// Coupling has no order.
pub proof fn coupling_is_symmetric(ops: Seq<OpModel>, u: usize, v: usize)
    ensures
        coupled(ops, u, v) == coupled(ops, v, u),
{
    if coupled(ops, u, v) {
        let i = choose|i: int| 0 <= i < ops.len() && #[trigger] couples(ops, i, u, v);
        assert(couples(ops, i, v, u));
    }
    if coupled(ops, v, u) {
        let i = choose|i: int| 0 <= i < ops.len() && #[trigger] couples(ops, i, v, u);
        assert(couples(ops, i, u, v));
    }
}

} // verus!
