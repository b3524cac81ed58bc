//! Hessian sparsity of tapes.

use crate::nl::autodiff::{
    arg_models, op_model, ordered, reads, ArgModel, FuncallArg, OpModel, Tape, TapeOp,
};
use crate::nl::expr::{BinaryOp, UnaryOp};
use crate::sorted::{increasing, insert_pair, pairs_increasing, union};
use vstd::prelude::*;

verus! {

/// The value of the operation at `i` depends on the problem variable `v`.
/// Floor and ceiling are piecewise constant and count as independent of
/// everything.
pub open spec fn depends(ops: Seq<OpModel>, i: int, v: usize) -> bool
    decreases i,
{
    match ops[i] {
        OpModel::Const(_) => false,
        OpModel::Var(j) => j == v,
        OpModel::Binary(_, a, b) => (0 <= a < i && depends(ops, a, v)) || (0 <= b < i && depends(
            ops,
            b,
            v,
        )),
        OpModel::Unary(UnaryOp::Floor, _) => false,
        OpModel::Unary(UnaryOp::Ceil, _) => false,
        OpModel::Unary(_, a) => 0 <= a < i && depends(ops, a, v),
        OpModel::Call(_, _, args) => exists|t: int|
            0 <= t < i && #[trigger] args.contains(ArgModel::Tape(t)) && depends(ops, t, v),
    }
}

/// The operation at `i` is nonlinear in a way that couples the problem
/// variables `u` and `v`: a product couples the variables of one factor with
/// those of the other, a quotient also those of the divisor with one another,
/// and every other nonlinear operation all that it depends on. Operations that
/// are linear, or piecewise linear, couple nothing.
pub open spec fn couples(ops: Seq<OpModel>, i: int, u: usize, v: usize) -> bool {
    match ops[i] {
        OpModel::Const(_) => false,
        OpModel::Var(_) => false,
        OpModel::Binary(op, a, b) => match op {
            BinaryOp::Mul => crosses(ops, a, b, u, v),
            BinaryOp::Div => crosses(ops, a, b, u, v) || (depends(ops, b, u) && depends(ops, b, v)),
            BinaryOp::Pow | BinaryOp::Atan2 => depends(ops, i, u) && depends(ops, i, v),
            BinaryOp::Add | BinaryOp::Sub | BinaryOp::Mod | BinaryOp::Less
            | BinaryOp::IntDiv => false,
        },
        OpModel::Unary(op, a) => curved(op) && depends(ops, a, u) && depends(ops, a, v),
        OpModel::Call(_, _, _) => depends(ops, i, u) && depends(ops, i, v),
    }
}

/// One of the variables is under `a`, the other under `b`.
pub open spec fn crosses(ops: Seq<OpModel>, a: int, b: int, u: usize, v: usize) -> bool {
    (depends(ops, a, u) && depends(ops, b, v)) || (depends(ops, a, v) && depends(ops, b, u))
}

/// Operations of one operand that are neither linear nor piecewise so.
pub open spec fn curved(op: UnaryOp) -> bool {
    match op {
        UnaryOp::Neg | UnaryOp::Abs | UnaryOp::Floor | UnaryOp::Ceil => false,
        _ => true,
    }
}

/// Some operation on the tape couples `u` and `v`.
pub open spec fn coupled(ops: Seq<OpModel>, u: usize, v: usize) -> bool {
    exists|i: int| 0 <= i < ops.len() && #[trigger] couples(ops, i, u, v)
}

/// How an operation passes on the variables of its operands.
enum Flow<'a> {
    /// It depends on nothing.
    Nothing,
    Variable(usize),
    /// On its operands, which it does not couple.
    Linear1(usize),
    Linear2(usize, usize),
    /// On its operands, which it couples with one another.
    Product(usize, usize),
    Quotient(usize, usize),
    Curved1(usize),
    Curved2(usize, usize),
    Call(&'a Vec<FuncallArg>),
}

spec fn flow_of(f: Flow, op: OpModel) -> bool {
    match f {
        Flow::Nothing => match op {
            OpModel::Const(_) => true,
            OpModel::Unary(o, _) => o == UnaryOp::Floor || o == UnaryOp::Ceil,
            _ => false,
        },
        Flow::Variable(j) => op == OpModel::Var(j as int),
        Flow::Linear1(a) => op == OpModel::Unary(UnaryOp::Neg, a as int) || op == OpModel::Unary(
            UnaryOp::Abs,
            a as int,
        ),
        Flow::Linear2(a, b) => match op {
            OpModel::Binary(o, x, y) => x == a && y == b && (o == BinaryOp::Add || o
                == BinaryOp::Sub || o == BinaryOp::Mod || o == BinaryOp::IntDiv || o
                == BinaryOp::Less),
            _ => false,
        },
        Flow::Product(a, b) => op == OpModel::Binary(BinaryOp::Mul, a as int, b as int),
        Flow::Quotient(a, b) => op == OpModel::Binary(BinaryOp::Div, a as int, b as int),
        Flow::Curved1(a) => match op {
            OpModel::Unary(o, x) => x == a && curved(o),
            _ => false,
        },
        Flow::Curved2(a, b) => op == OpModel::Binary(BinaryOp::Pow, a as int, b as int) || op
            == OpModel::Binary(BinaryOp::Atan2, a as int, b as int),
        Flow::Call(args) => match op {
            OpModel::Call(_, _, list) => list == arg_models(args@),
            _ => false,
        },
    }
}

fn flow<'a>(op: &'a TapeOp) -> (f: Flow<'a>)
    ensures
        flow_of(f, op_model(*op)),
{
    match op {
        TapeOp::Const(_) | TapeOp::Floor(_) | TapeOp::Ceil(_) => Flow::Nothing,
        TapeOp::Var(j) => Flow::Variable(*j),
        TapeOp::Neg(a) | TapeOp::Abs(a) => Flow::Linear1(*a),
        TapeOp::Add(a, b) | TapeOp::Sub(a, b) | TapeOp::Mod(a, b) | TapeOp::IntDiv(a, b)
        | TapeOp::Less(a, b) => Flow::Linear2(*a, *b),
        TapeOp::Mul(a, b) => Flow::Product(*a, *b),
        TapeOp::Div(a, b) => Flow::Quotient(*a, *b),
        TapeOp::Pow(a, b) | TapeOp::Atan2(a, b) => Flow::Curved2(*a, *b),
        TapeOp::Sqrt(a) | TapeOp::Exp(a) | TapeOp::Log(a) | TapeOp::Log10(a) | TapeOp::Sin(a)
        | TapeOp::Cos(a) | TapeOp::Tan(a) | TapeOp::Asin(a) | TapeOp::Acos(a) | TapeOp::Atan(a)
        | TapeOp::Sinh(a) | TapeOp::Cosh(a) | TapeOp::Tanh(a) | TapeOp::Asinh(a)
        | TapeOp::Acosh(a) | TapeOp::Atanh(a) => Flow::Curved1(*a),
        TapeOp::Funcall { lib, name, args } => Flow::Call(args),
    }
}

/// An operation that couples variables reads the variables of its operands.
spec fn emits(op: OpModel) -> bool {
    match op {
        OpModel::Const(_) => false,
        OpModel::Var(_) => false,
        OpModel::Binary(o, _, _) => o == BinaryOp::Mul || o == BinaryOp::Div || o == BinaryOp::Pow
            || o == BinaryOp::Atan2,
        OpModel::Unary(o, _) => curved(o),
        OpModel::Call(_, _, _) => true,
    }
}

spec fn constant_like(op: OpModel) -> bool {
    match op {
        OpModel::Unary(o, _) => o == UnaryOp::Floor || o == UnaryOp::Ceil,
        _ => false,
    }
}

/// From `start` on, every operand whose variables are read is marked.
spec fn marked(ops: Seq<OpModel>, needed: Seq<bool>, start: int) -> bool {
    forall|i: int, t: int|
        start <= i < ops.len() && #[trigger] reads(ops[i], t) && (emits(ops[i]) || (needed[i]
            && !constant_like(ops[i]))) ==> needed[t]
}

/// The larger and the smaller of two variables.
pub open spec fn lower_pair(a: usize, b: usize) -> (usize, usize) {
    if a >= b {
        (a, b)
    } else {
        (b, a)
    }
}

spec fn cross_pair(s1: Seq<usize>, s2: Seq<usize>, rows: int, cols: int, y: (usize, usize)) -> bool {
    exists|p: int, q: int|
        0 <= p < s1.len() && 0 <= q < s2.len() && (p < rows || (p == rows && q < cols)) && y
            == #[trigger] lower_pair(s1[p], s2[q])
}

/// Adds the pairs of an element of `s1` and one of `s2`.
fn emit_cross(s1: &Vec<usize>, s2: &Vec<usize>, pairs: &mut Vec<(usize, usize)>)
    requires
        pairs_increasing(old(pairs)@),
    ensures
        pairs_increasing(final(pairs)@),
        forall|y: (usize, usize)| #[trigger]
            final(pairs)@.contains(y) <==> old(pairs)@.contains(y) || (y.0 >= y.1 && ((
            s1@.contains(y.0) && s2@.contains(y.1)) || (s1@.contains(y.1) && s2@.contains(y.0)))),
{
    let ghost before = pairs@;
    for i in 0..s1.len()
        invariant
            pairs_increasing(pairs@),
            forall|y: (usize, usize)| #[trigger]
                pairs@.contains(y) <==> before.contains(y) || cross_pair(
                    s1@,
                    s2@,
                    i as int,
                    0,
                    y,
                ),
    {
        for j in 0..s2.len()
            invariant
                i < s1@.len(),
                pairs_increasing(pairs@),
                forall|y: (usize, usize)| #[trigger]
                    pairs@.contains(y) <==> before.contains(y) || cross_pair(
                        s1@,
                        s2@,
                        i as int,
                        j as int,
                        y,
                    ),
        {
            let a: usize = s1[i];
            let b: usize = s2[j];
            let pair: (usize, usize) = if a >= b {
                (a, b)
            } else {
                (b, a)
            };
            let ghost now = pairs@;
            insert_pair(pairs, pair);
            assert forall|y: (usize, usize)| #[trigger]
                pairs@.contains(y) <==> before.contains(y) || cross_pair(
                    s1@,
                    s2@,
                    i as int,
                    j + 1,
                    y,
                ) by {
                assert(now.contains(y) <==> before.contains(y) || cross_pair(
                    s1@,
                    s2@,
                    i as int,
                    j as int,
                    y,
                ));
                if y == pair {
                    assert(y == lower_pair(s1@[i as int], s2@[j as int]));
                }
                if cross_pair(s1@, s2@, i as int, j as int, y) {
                    let (p, q) = choose|p: int, q: int|
                        0 <= p < s1@.len() && 0 <= q < s2@.len() && (p < i || (p == i && q < j)) && y
                            == #[trigger] lower_pair(s1@[p], s2@[q]);
                    assert(y == lower_pair(s1@[p], s2@[q]));
                }
            }
        }
        assert forall|y: (usize, usize)| #[trigger]
            pairs@.contains(y) <==> before.contains(y) || cross_pair(
                s1@,
                s2@,
                i + 1,
                0,
                y,
            ) by {
            if cross_pair(s1@, s2@, i as int, s2@.len() as int, y) {
                let (p, q) = choose|p: int, q: int|
                    0 <= p < s1@.len() && 0 <= q < s2@.len() && (p < i || (p == i && q
                        < s2@.len())) && y == #[trigger] lower_pair(s1@[p], s2@[q]);
                assert(y == lower_pair(s1@[p], s2@[q]));
            }
        }
    }
    proof {
        assert forall|y: (usize, usize)| #[trigger]
            pairs@.contains(y) <==> before.contains(y) || (y.0 >= y.1 && ((s1@.contains(y.0)
                && s2@.contains(y.1)) || (s1@.contains(y.1) && s2@.contains(y.0)))) by {
            let rows = s1@.len() as int;
            if cross_pair(s1@, s2@, rows, 0, y) {
                let (p, q) = choose|p: int, q: int|
                    0 <= p < s1@.len() && 0 <= q < s2@.len() && (p < rows || (p == rows && q < 0))
                        && y == #[trigger] lower_pair(s1@[p], s2@[q]);
                assert(s1@.contains(s1@[p]) && s2@.contains(s2@[q]));
            }
            if y.0 >= y.1 && s1@.contains(y.0) && s2@.contains(y.1) {
                let p = choose|p: int| 0 <= p < s1@.len() && s1@[p] == y.0;
                let q = choose|q: int| 0 <= q < s2@.len() && s2@[q] == y.1;
                assert(y == lower_pair(s1@[p], s2@[q]));
                assert(cross_pair(s1@, s2@, rows, 0, y));
            }
            if y.0 >= y.1 && s1@.contains(y.1) && s2@.contains(y.0) {
                let p = choose|p: int| 0 <= p < s1@.len() && s1@[p] == y.1;
                let q = choose|q: int| 0 <= q < s2@.len() && s2@[q] == y.0;
                assert(y == lower_pair(s1@[p], s2@[q]));
                assert(cross_pair(s1@, s2@, rows, 0, y));
            }
        }
    }
}

/// Adds the pairs of two elements of `s`.
fn emit_self(s: &Vec<usize>, pairs: &mut Vec<(usize, usize)>)
    requires
        pairs_increasing(old(pairs)@),
    ensures
        pairs_increasing(final(pairs)@),
        forall|y: (usize, usize)| #[trigger]
            final(pairs)@.contains(y) <==> old(pairs)@.contains(y) || (y.0 >= y.1 && s@.contains(
                y.0,
            ) && s@.contains(y.1)),
{
    emit_cross(s, s, pairs);
}

fn mark_args(args: &Vec<FuncallArg>, needed: &mut Vec<bool>, Ghost(i): Ghost<int>)
    requires
        i <= old(needed)@.len(),
        forall|k: int|
            0 <= k < args@.len() ==> match #[trigger] args@[k] {
                FuncallArg::Tape(t) => t < i,
                FuncallArg::Str(_) => true,
            },
    ensures
        final(needed)@.len() == old(needed)@.len(),
        forall|t: int| 0 <= t < old(needed)@.len() && old(needed)@[t] ==> #[trigger] final(needed)@[t],
        forall|t: int| i <= t < old(needed)@.len() ==> #[trigger] final(needed)@[t] == old(needed)@[t],
        forall|t: int| #[trigger] arg_models(args@).contains(ArgModel::Tape(t)) ==> final(needed)@[t],
{
    let ghost before = needed@;
    for k in 0..args.len()
        invariant
            i <= before.len(),
            needed@.len() == before.len(),
            forall|k: int|
                0 <= k < args@.len() ==> match #[trigger] args@[k] {
                    FuncallArg::Tape(t) => t < i,
                    FuncallArg::Str(_) => true,
                },
            forall|t: int| 0 <= t < before.len() && before[t] ==> #[trigger] needed@[t],
            forall|t: int| i <= t < before.len() ==> #[trigger] needed@[t] == before[t],
            forall|p: int|
                0 <= p < k ==> match #[trigger] args@[p] {
                    FuncallArg::Tape(t) => needed@[t as int],
                    FuncallArg::Str(_) => true,
                },
    {
        match &args[k] {
            FuncallArg::Tape(t) => {
                needed.set(*t, true);
            },
            FuncallArg::Str(_) => {},
        }
    }
    proof {
        assert forall|t: int| #[trigger] arg_models(args@).contains(ArgModel::Tape(t)) implies needed@[t] by {
            let list = arg_models(args@);
            let p = choose|p: int| 0 <= p < list.len() && list[p] == ArgModel::Tape(t);
            match args@[p] {
                FuncallArg::Tape(q) => {
                    assert(q == t);
                },
                FuncallArg::Str(_) => {},
            }
        }
    }
}

/// The variables of all real arguments.
fn args_union(args: &Vec<FuncallArg>, var_sets: &Vec<Vec<usize>>) -> (s: Vec<usize>)
    requires
        forall|k: int|
            0 <= k < args@.len() ==> match #[trigger] args@[k] {
                FuncallArg::Tape(t) => t < var_sets@.len(),
                FuncallArg::Str(_) => true,
            },
        forall|t: int| 0 <= t < var_sets@.len() ==> increasing((#[trigger] var_sets@[t])@),
    ensures
        increasing(s@),
        forall|v: usize| #[trigger]
            s@.contains(v) <==> exists|t: int|
                0 <= t < var_sets@.len() && #[trigger] arg_models(args@).contains(
                    ArgModel::Tape(t),
                ) && var_sets@[t]@.contains(v),
{
    let ghost list = arg_models(args@);
    let mut s: Vec<usize> = Vec::new();
    for k in 0..args.len()
        invariant
            list == arg_models(args@),
            forall|k: int|
                0 <= k < args@.len() ==> match #[trigger] args@[k] {
                    FuncallArg::Tape(t) => t < var_sets@.len(),
                    FuncallArg::Str(_) => true,
                },
            forall|t: int| 0 <= t < var_sets@.len() ==> increasing((#[trigger] var_sets@[t])@),
            increasing(s@),
            forall|v: usize| #[trigger]
                s@.contains(v) <==> exists|p: int|
                    0 <= p < k && match #[trigger] args@[p] {
                        FuncallArg::Tape(t) => var_sets@[t as int]@.contains(v),
                        FuncallArg::Str(_) => false,
                    },
    {
        let ghost before = s@;
        match &args[k] {
            FuncallArg::Tape(t) => {
                s = union(&s, &var_sets[*t]);
            },
            FuncallArg::Str(_) => {},
        }
        assert forall|v: usize| #[trigger] s@.contains(v) <==> exists|p: int|
            0 <= p < k + 1 && match #[trigger] args@[p] {
                FuncallArg::Tape(t) => var_sets@[t as int]@.contains(v),
                FuncallArg::Str(_) => false,
            } by {
            assert(before.contains(v) <==> exists|p: int|
                0 <= p < k && match #[trigger] args@[p] {
                    FuncallArg::Tape(t) => var_sets@[t as int]@.contains(v),
                    FuncallArg::Str(_) => false,
                });
            match args@[k as int] {
                FuncallArg::Tape(t) => {
                    assert(s@.contains(v) <==> before.contains(v) || var_sets@[t as int]@.contains(
                        v,
                    ));
                },
                FuncallArg::Str(_) => {},
            }
        }
    }
    proof {
        assert forall|v: usize| #[trigger] s@.contains(v) <==> exists|t: int|
            0 <= t < var_sets@.len() && #[trigger] arg_models(args@).contains(ArgModel::Tape(t))
                && var_sets@[t]@.contains(v) by {
            if s@.contains(v) {
                let p = choose|p: int|
                    0 <= p < args@.len() && match #[trigger] args@[p] {
                        FuncallArg::Tape(t) => var_sets@[t as int]@.contains(v),
                        FuncallArg::Str(_) => false,
                    };
                match args@[p] {
                    FuncallArg::Tape(t) => {
                        assert(list[p] == ArgModel::Tape(t as int));
                        assert(list.contains(ArgModel::Tape(t as int)));
                    },
                    FuncallArg::Str(_) => {},
                }
            }
            if exists|t: int|
                0 <= t < var_sets@.len() && #[trigger] arg_models(args@).contains(ArgModel::Tape(t))
                    && var_sets@[t]@.contains(v) {
                let t = choose|t: int|
                    0 <= t < var_sets@.len() && #[trigger] arg_models(args@).contains(
                        ArgModel::Tape(t),
                    ) && var_sets@[t]@.contains(v);
                let p = choose|p: int| 0 <= p < list.len() && list[p] == ArgModel::Tape(t);
                match args@[p] {
                    FuncallArg::Tape(q) => {
                        assert(q == t);
                    },
                    FuncallArg::Str(_) => {},
                }
            }
        }
    }
    s
}

proof fn lemma_args_below(op: OpModel, args: Seq<FuncallArg>, i: int)
    requires
        op matches OpModel::Call(_, _, list) && list == arg_models(args),
        forall|t: int| #[trigger] reads(op, t) ==> 0 <= t < i,
    ensures
        forall|k: int|
            0 <= k < args.len() ==> match #[trigger] args[k] {
                FuncallArg::Tape(t) => t < i,
                FuncallArg::Str(_) => true,
            },
{
    assert forall|k: int| 0 <= k < args.len() implies match #[trigger] args[k] {
        FuncallArg::Tape(t) => t < i,
        FuncallArg::Str(_) => true,
    } by {
        match args[k] {
            FuncallArg::Tape(t) => {
                assert(arg_models(args)[k] == ArgModel::Tape(t as int));
                assert(arg_models(args).contains(arg_models(args)[k]));
                assert(reads(op, t as int));
            },
            FuncallArg::Str(_) => {},
        }
    }
}

impl Tape {
    /// Marks the operations whose variables are read by one that couples
    /// them, directly or through operations that pass them on.
    fn needed_sets(&self) -> (needed: Vec<bool>)
        requires
            ordered(self.model()),
        ensures
            needed@.len() == self.ops@.len(),
            marked(self.model(), needed@, 0),
    {
        let ghost ops = self.model();
        let n: usize = self.ops.len();
        let mut needed: Vec<bool> = vec![false; n];
        let mut i: usize = n;
        while i > 0
            invariant
                i <= n,
                n == self.ops@.len() == ops.len(),
                ops == self.model(),
                ordered(ops),
                needed@.len() == n,
                marked(ops, needed@, i as int),
            decreases i,
        {
            i = i - 1;
            let ghost before = needed@;
            let ghost m = ops[i as int];
            let op: &TapeOp = &self.ops[i];
            assert(m == op_model(*op));
            assert forall|t: int| #[trigger] reads(m, t) implies 0 <= t < i by {
                assert(reads(ops[i as int], t));
            }
            let propagate: bool = needed[i];
            match flow(op) {
                Flow::Nothing => {},
                Flow::Variable(_) => {},
                Flow::Linear1(a) => {
                    assert(reads(m, a as int));
                    if propagate {
                        needed.set(a, true);
                    }
                },
                Flow::Linear2(a, b) => {
                    assert(reads(m, a as int) && reads(m, b as int));
                    if propagate {
                        needed.set(a, true);
                        needed.set(b, true);
                    }
                },
                Flow::Product(a, b) | Flow::Quotient(a, b) | Flow::Curved2(a, b) => {
                    assert(reads(m, a as int) && reads(m, b as int));
                    needed.set(a, true);
                    needed.set(b, true);
                },
                Flow::Curved1(a) => {
                    assert(reads(m, a as int));
                    needed.set(a, true);
                },
                Flow::Call(args) => {
                    proof {
                        lemma_args_below(m, args@, i as int);
                    }
                    mark_args(args, &mut needed, Ghost(i as int));
                },
            }
            proof {
                assert forall|k: int, t: int|
                    i <= k < ops.len() && #[trigger] reads(ops[k], t) && (emits(ops[k]) || (
                    needed@[k] && !constant_like(ops[k]))) implies needed@[t] by {
                    if k > i {
                        assert(needed@[k] == before[k]);
                        assert(0 <= t < k);
                        assert(before[t]);
                    } else {
                        assert(0 <= t < i);
                    }
                }
            }
        }
        needed
    }

    /// The pairs of problem variables that are coupled, the larger variable
    /// first, in increasing order.
    pub fn hessian_sparsity(&self) -> (pairs: Vec<(usize, usize)>)
        requires
            ordered(self.model()),
        ensures
            pairs_increasing(pairs@),
            forall|y: (usize, usize)| #[trigger]
                pairs@.contains(y) <==> y.0 >= y.1 && coupled(self.model(), y.0, y.1),
    {
        let ghost ops = self.model();
        let n: usize = self.ops.len();
        let needed: Vec<bool> = self.needed_sets();
        let mut pairs: Vec<(usize, usize)> = Vec::new();
        let mut var_sets: Vec<Vec<usize>> = Vec::new();
        for i in 0..n
            invariant
                n == self.ops@.len() == ops.len(),
                ops == self.model(),
                ordered(ops),
                needed@.len() == n,
                marked(ops, needed@, 0),
                var_sets@.len() == i,
                forall|t: int| 0 <= t < i ==> increasing((#[trigger] var_sets@[t])@),
                forall|t: int, v: usize|
                    0 <= t < i ==> (#[trigger] var_sets@[t]@.contains(v) <==> needed@[t] && depends(
                        ops,
                        t,
                        v,
                    )),
                pairs_increasing(pairs@),
                forall|y: (usize, usize)| #[trigger]
                    pairs@.contains(y) <==> y.0 >= y.1 && exists|k: int|
                        0 <= k < i && #[trigger] couples(ops, k, y.0, y.1),
        {
            let ghost m = ops[i as int];
            let ghost before = pairs@;
            let op: &TapeOp = &self.ops[i];
            assert(m == op_model(*op));
            assert forall|t: int| #[trigger] reads(m, t) implies 0 <= t < i && ((emits(m) || (
            needed@[i as int] && !constant_like(m))) ==> needed@[t]) by {
                assert(reads(ops[i as int], t));
            }
            let mut set: Vec<usize> = Vec::new();
            match flow(op) {
                Flow::Nothing => {},
                Flow::Variable(j) => {
                    if needed[i] {
                        set.push(j);
                    }
                    assert forall|v: usize| #[trigger] set@.contains(v) <==> needed@[i as int]
                        && depends(ops, i as int, v) by {
                        if needed@[i as int] && v == j {
                            assert(set@[0] == v);
                        }
                    }
                },
                Flow::Linear1(a) => {
                    assert(reads(m, a as int));
                    if needed[i] {
                        set = union(&set, &var_sets[a]);
                    }
                },
                Flow::Linear2(a, b) => {
                    assert(reads(m, a as int) && reads(m, b as int));
                    if needed[i] {
                        set = union(&var_sets[a], &var_sets[b]);
                    }
                },
                Flow::Product(a, b) => {
                    assert(reads(m, a as int) && reads(m, b as int));
                    emit_cross(&var_sets[a], &var_sets[b], &mut pairs);
                    if needed[i] {
                        set = union(&var_sets[a], &var_sets[b]);
                    }
                },
                Flow::Quotient(a, b) => {
                    assert(reads(m, a as int) && reads(m, b as int));
                    emit_cross(&var_sets[a], &var_sets[b], &mut pairs);
                    emit_self(&var_sets[b], &mut pairs);
                    if needed[i] {
                        set = union(&var_sets[a], &var_sets[b]);
                    }
                },
                Flow::Curved1(a) => {
                    assert(reads(m, a as int));
                    emit_self(&var_sets[a], &mut pairs);
                    if needed[i] {
                        set = union(&set, &var_sets[a]);
                    }
                },
                Flow::Curved2(a, b) => {
                    assert(reads(m, a as int) && reads(m, b as int));
                    let combined: Vec<usize> = union(&var_sets[a], &var_sets[b]);
                    emit_self(&combined, &mut pairs);
                    if needed[i] {
                        set = combined;
                    }
                },
                Flow::Call(args) => {
                    proof {
                        lemma_args_below(m, args@, i as int);
                    }
                    let combined: Vec<usize> = args_union(args, &var_sets);
                    proof {
                        assert forall|v: usize| #[trigger] combined@.contains(v) <==> depends(
                            ops,
                            i as int,
                            v,
                        ) by {
                            let list = arg_models(args@);
                            if combined@.contains(v) {
                                let t = choose|t: int|
                                    0 <= t < var_sets@.len() && #[trigger] list.contains(
                                        ArgModel::Tape(t),
                                    ) && var_sets@[t]@.contains(v);
                                assert(depends(ops, t, v));
                            }
                            if depends(ops, i as int, v) {
                                let t = choose|t: int|
                                    0 <= t < i && #[trigger] list.contains(ArgModel::Tape(t))
                                        && depends(ops, t, v);
                                assert(reads(m, t));
                                assert(var_sets@[t]@.contains(v));
                            }
                        }
                    }
                    emit_self(&combined, &mut pairs);
                    if needed[i] {
                        set = combined;
                    }
                },
            }
            proof {
                assert forall|v: usize| #[trigger] set@.contains(v) <==> needed@[i as int]
                    && depends(ops, i as int, v) by {
                }
                assert forall|y: (usize, usize)| #[trigger]
                    pairs@.contains(y) <==> y.0 >= y.1 && exists|k: int|
                        0 <= k < i + 1 && #[trigger] couples(ops, k, y.0, y.1) by {
                    assert(before.contains(y) <==> y.0 >= y.1 && exists|k: int|
                        0 <= k < i && #[trigger] couples(ops, k, y.0, y.1));
                    assert(pairs@.contains(y) <==> before.contains(y) || (y.0 >= y.1 && couples(
                        ops,
                        i as int,
                        y.0,
                        y.1,
                    )));
                }
            }
            let ghost sets = var_sets@;
            var_sets.push(set);
            proof {
                assert forall|t: int, v: usize| 0 <= t < i + 1 implies (
                #[trigger] var_sets@[t]@.contains(v) <==> needed@[t] && depends(ops, t, v)) by {
                    if t < i {
                        assert(var_sets@[t] == sets[t]);
                    }
                }
            }
        }
        pairs
    }
}

} // verus!
