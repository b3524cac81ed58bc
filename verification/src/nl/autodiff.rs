//! Flattened expression tapes.
//!
//! A tape lists operations in evaluation order: every operand of an operation
//! stands earlier on the tape, and the last operation gives the result.

use crate::nl::expr::{BinaryOp, ExprNode, NaryOp, UnaryOp};
use std::collections::HashMap;
use vstd::prelude::*;

verus! {

broadcast use vstd::std_specs::hash::group_hash_axioms;

/// One argument of an imported function call on the tape.
#[derive(Debug, Clone)]
pub enum FuncallArg {
    /// Index into the tape of a real-valued argument.
    Tape(usize),
    /// String literal handed on verbatim.
    Str(String),
}

/// Where the functions declared in an `.nl` file come from: the id of a
/// declaration maps to the index of a loaded library and the name under which
/// that library registered the function.
pub struct ExternalResolver {
    pub funcs_by_id: HashMap<usize, (usize, String)>,
}

impl ExternalResolver {
    pub fn is_empty(&self) -> (empty: bool)
        ensures
            empty == (self.funcs_by_id@.dom() =~= Set::empty()),
    {
        let empty: bool = self.funcs_by_id.is_empty();
        proof {
            let dom = self.funcs_by_id@.dom();
            if dom.len() == 0 {
                assert(dom =~= Set::empty());
            } else {
                assert(dom != Set::<usize>::empty());
            }
        }
        empty
    }
}

/// A resolver that knows no function.
impl Default for ExternalResolver {
    fn default() -> (resolver: Self)
        ensures
            resolver.funcs_by_id@ == Map::<usize, (usize, String)>::empty(),
    {
        ExternalResolver { funcs_by_id: HashMap::new() }
    }
}

/// A single operation of a tape. Operands are indices into the tape, except
/// that `Var` holds the index of a problem variable; `Const` holds the bit
/// pattern of a binary64 number.
#[derive(Debug, Clone)]
pub enum TapeOp {
    Const(u64),
    Var(usize),
    Add(usize, usize),
    Sub(usize, usize),
    Mul(usize, usize),
    Div(usize, usize),
    Pow(usize, usize),
    Mod(usize, usize),
    Atan2(usize, usize),
    Less(usize, usize),
    IntDiv(usize, usize),
    Neg(usize),
    Abs(usize),
    Floor(usize),
    Ceil(usize),
    Sqrt(usize),
    Exp(usize),
    Log(usize),
    Log10(usize),
    Sin(usize),
    Cos(usize),
    Tan(usize),
    Asin(usize),
    Acos(usize),
    Atan(usize),
    Sinh(usize),
    Cosh(usize),
    Tanh(usize),
    Asinh(usize),
    Acosh(usize),
    Atanh(usize),
    /// Call of an imported function of the library with index `lib`.
    Funcall { lib: usize, name: String, args: Vec<FuncallArg> },
}

/// Mathematical model of a call argument.
pub enum ArgModel {
    Tape(int),
    Str(Seq<char>),
}

/// Mathematical model of a tape operation.
pub enum OpModel {
    Const(u64),
    Var(int),
    Binary(BinaryOp, int, int),
    Unary(UnaryOp, int),
    Call(int, Seq<char>, Seq<ArgModel>),
}

pub open spec fn arg_model(a: FuncallArg) -> ArgModel {
    match a {
        FuncallArg::Tape(t) => ArgModel::Tape(t as int),
        FuncallArg::Str(s) => ArgModel::Str(s@),
    }
}

pub open spec fn arg_models(args: Seq<FuncallArg>) -> Seq<ArgModel> {
    args.map_values(|a: FuncallArg| arg_model(a))
}

pub open spec fn op_model(op: TapeOp) -> OpModel {
    match op {
        TapeOp::Const(c) => OpModel::Const(c),
        TapeOp::Var(i) => OpModel::Var(i as int),
        TapeOp::Add(a, b) => OpModel::Binary(BinaryOp::Add, a as int, b as int),
        TapeOp::Sub(a, b) => OpModel::Binary(BinaryOp::Sub, a as int, b as int),
        TapeOp::Mul(a, b) => OpModel::Binary(BinaryOp::Mul, a as int, b as int),
        TapeOp::Div(a, b) => OpModel::Binary(BinaryOp::Div, a as int, b as int),
        TapeOp::Pow(a, b) => OpModel::Binary(BinaryOp::Pow, a as int, b as int),
        TapeOp::Mod(a, b) => OpModel::Binary(BinaryOp::Mod, a as int, b as int),
        TapeOp::Atan2(a, b) => OpModel::Binary(BinaryOp::Atan2, a as int, b as int),
        TapeOp::Less(a, b) => OpModel::Binary(BinaryOp::Less, a as int, b as int),
        TapeOp::IntDiv(a, b) => OpModel::Binary(BinaryOp::IntDiv, a as int, b as int),
        TapeOp::Neg(a) => OpModel::Unary(UnaryOp::Neg, a as int),
        TapeOp::Abs(a) => OpModel::Unary(UnaryOp::Abs, a as int),
        TapeOp::Floor(a) => OpModel::Unary(UnaryOp::Floor, a as int),
        TapeOp::Ceil(a) => OpModel::Unary(UnaryOp::Ceil, a as int),
        TapeOp::Sqrt(a) => OpModel::Unary(UnaryOp::Sqrt, a as int),
        TapeOp::Exp(a) => OpModel::Unary(UnaryOp::Exp, a as int),
        TapeOp::Log(a) => OpModel::Unary(UnaryOp::Log, a as int),
        TapeOp::Log10(a) => OpModel::Unary(UnaryOp::Log10, a as int),
        TapeOp::Sin(a) => OpModel::Unary(UnaryOp::Sin, a as int),
        TapeOp::Cos(a) => OpModel::Unary(UnaryOp::Cos, a as int),
        TapeOp::Tan(a) => OpModel::Unary(UnaryOp::Tan, a as int),
        TapeOp::Asin(a) => OpModel::Unary(UnaryOp::Asin, a as int),
        TapeOp::Acos(a) => OpModel::Unary(UnaryOp::Acos, a as int),
        TapeOp::Atan(a) => OpModel::Unary(UnaryOp::Atan, a as int),
        TapeOp::Sinh(a) => OpModel::Unary(UnaryOp::Sinh, a as int),
        TapeOp::Cosh(a) => OpModel::Unary(UnaryOp::Cosh, a as int),
        TapeOp::Tanh(a) => OpModel::Unary(UnaryOp::Tanh, a as int),
        TapeOp::Asinh(a) => OpModel::Unary(UnaryOp::Asinh, a as int),
        TapeOp::Acosh(a) => OpModel::Unary(UnaryOp::Acosh, a as int),
        TapeOp::Atanh(a) => OpModel::Unary(UnaryOp::Atanh, a as int),
        TapeOp::Funcall { lib, name, args } => OpModel::Call(
            lib as int,
            name@,
            arg_models(args@),
        ),
    }
}

pub open spec fn op_models(ops: Seq<TapeOp>) -> Seq<OpModel> {
    ops.map_values(|op: TapeOp| op_model(op))
}

/// The tape indices that `op` reads.
pub open spec fn reads(op: OpModel, t: int) -> bool {
    match op {
        OpModel::Const(_) => false,
        OpModel::Var(_) => false,
        OpModel::Binary(_, a, b) => t == a || t == b,
        OpModel::Unary(_, a) => t == a,
        OpModel::Call(_, _, args) => args.contains(ArgModel::Tape(t)),
    }
}

/// Every operation reads only earlier ones.
pub open spec fn ordered(ops: Seq<OpModel>) -> bool {
    forall|i: int, t: int| 0 <= i < ops.len() && #[trigger] reads(ops[i], t) ==> 0 <= t < i
}

/// `op` with `d` added to every tape index.
pub open spec fn shift_op(op: OpModel, d: int) -> OpModel {
    match op {
        OpModel::Const(c) => OpModel::Const(c),
        OpModel::Var(i) => OpModel::Var(i),
        OpModel::Binary(o, a, b) => OpModel::Binary(o, a + d, b + d),
        OpModel::Unary(o, a) => OpModel::Unary(o, a + d),
        OpModel::Call(l, n, args) => OpModel::Call(l, n, args.map_values(|a: ArgModel| shift_arg(a, d))),
    }
}

pub open spec fn shift_arg(a: ArgModel, d: int) -> ArgModel {
    match a {
        ArgModel::Tape(t) => ArgModel::Tape(t + d),
        ArgModel::Str(s) => ArgModel::Str(s),
    }
}

/// The operations of `b` placed behind those of `a`.
pub open spec fn join(a: Seq<OpModel>, b: Seq<OpModel>) -> Seq<OpModel> {
    a + b.map_values(|op: OpModel| shift_op(op, a.len() as int))
}

/// Where a reference to a common expression is taken from.
pub enum CommonModel {
    /// The expressions themselves; `rank` decreases from an expression to the
    /// ones that it refers to.
    Inline { exprs: Seq<ExprNode>, rank: Seq<nat> },
    /// Tapes that were flattened before.
    Cached { tapes: Seq<Seq<OpModel>> },
}

/// What the flattening of an expression depends on.
pub struct FlattenContext {
    pub common: CommonModel,
    pub n_vars: int,
    pub funcs: Map<usize, (usize, String)>,
}

/// The value of an n-ary operator without operands, as bits: zero, plus
/// infinity or minus infinity.
pub open spec fn nary_identity(op: NaryOp) -> u64 {
    match op {
        NaryOp::Sum => 0u64,
        NaryOp::Min => 0x7ff0_0000_0000_0000u64,
        NaryOp::Max => 0xfff0_0000_0000_0000u64,
    }
}

/// `ops` followed by the operations that combine the values at `x` and `y`;
/// the larger of two values is the negated smaller one of their negations.
pub open spec fn combine(op: NaryOp, ops: Seq<OpModel>, x: int, y: int) -> Seq<OpModel> {
    let n = ops.len() as int;
    match op {
        NaryOp::Sum => ops.push(OpModel::Binary(BinaryOp::Add, x, y)),
        NaryOp::Min => ops.push(OpModel::Binary(BinaryOp::Less, x, y)),
        NaryOp::Max => ops.push(OpModel::Unary(UnaryOp::Neg, x)).push(
            OpModel::Unary(UnaryOp::Neg, y),
        ).push(OpModel::Binary(BinaryOp::Less, n, n + 1)).push(OpModel::Unary(UnaryOp::Neg, n + 2)),
    }
}

/// The tape of the expression `e`: its operands' tapes one behind the other,
/// then the operation itself. A reference to a common expression stands for
/// that expression's tape, and for zero where there is none. Of a conditional
/// all three parts are on the tape, the value where the condition holds last.
/// `level` bounds the rank of the common expressions that are inlined.
pub open spec fn flat(e: ExprNode, cx: FlattenContext, level: nat) -> Seq<OpModel>
    decreases level, e,
{
    match e {
        ExprNode::Const(c) => seq![OpModel::Const(c)],
        ExprNode::Var(i) => if i < cx.n_vars {
            seq![OpModel::Var(i as int)]
        } else {
            match cx.common {
                CommonModel::Inline { exprs, rank } => {
                    let k = i - cx.n_vars;
                    if k < exprs.len() && rank[k] < level {
                        flat(exprs[k], cx, rank[k])
                    } else {
                        seq![OpModel::Const(0)]
                    }
                },
                CommonModel::Cached { tapes } => {
                    let k = i - cx.n_vars;
                    if k < tapes.len() {
                        tapes[k]
                    } else {
                        seq![OpModel::Const(0)]
                    }
                },
            }
        },
        ExprNode::Binary(op, l, r) => {
            let a = flat(*l, cx, level);
            let ops = join(a, flat(*r, cx, level));
            ops.push(OpModel::Binary(op, a.len() - 1, ops.len() - 1))
        },
        ExprNode::Unary(op, arg) => {
            let ops = flat(*arg, cx, level);
            ops.push(OpModel::Unary(op, ops.len() - 1))
        },
        ExprNode::Nary(op, args) => if args@.len() == 0 {
            seq![OpModel::Const(nary_identity(op))]
        } else {
            flat_nary(op, args@, cx, level)
        },
        ExprNode::If(c, t, f) => join(
            join(flat(*c, cx, level), flat(*f, cx, level)),
            flat(*t, cx, level),
        ),
        ExprNode::StringLiteral(_) => seq![OpModel::Const(0)],
        ExprNode::Funcall { id, args } => flat_args(args@, cx, level).0.push(
            OpModel::Call(
                cx.funcs[id].0 as int,
                cx.funcs[id].1@,
                flat_args(args@, cx, level).1,
            ),
        ),
    }
}

/// The tape of an n-ary operator applied from left to right to `es`.
pub open spec fn flat_nary(op: NaryOp, es: Seq<ExprNode>, cx: FlattenContext, level: nat) -> Seq<
    OpModel,
>
    decreases level, es,
{
    if es.len() == 0 {
        Seq::empty()
    } else if es.len() == 1 {
        flat(es[0], cx, level)
    } else {
        let acc = flat_nary(op, es.drop_last(), cx, level);
        let ops = join(acc, flat(es.last(), cx, level));
        combine(op, ops, acc.len() - 1, ops.len() - 1)
    }
}

/// The tapes of call arguments one behind the other, and the argument list:
/// a string literal goes into the list itself and has no operation.
pub open spec fn flat_args(es: Seq<ExprNode>, cx: FlattenContext, level: nat) -> (
    Seq<OpModel>,
    Seq<ArgModel>,
)
    decreases level, es,
{
    if es.len() == 0 {
        (Seq::empty(), Seq::empty())
    } else {
        let (ops, args) = flat_args(es.drop_last(), cx, level);
        match es.last() {
            ExprNode::StringLiteral(s) => (ops, args.push(ArgModel::Str(s@))),
            _ => {
                let ops2 = join(ops, flat(es.last(), cx, level));
                (ops2, args.push(ArgModel::Tape(ops2.len() - 1)))
            },
        }
    }
}

/// Flattening `e` comes to an end and finds every imported function: inlined
/// common expressions have ranks below `level`, and every call has an entry in
/// the resolver.
pub open spec fn flattenable(e: ExprNode, cx: FlattenContext, level: nat) -> bool
    decreases level, e,
{
    match e {
        ExprNode::Const(_) => true,
        ExprNode::Var(i) => i >= cx.n_vars ==> match cx.common {
            CommonModel::Inline { exprs, rank } => {
                let k = i - cx.n_vars;
                k < exprs.len() ==> rank[k] < level && flattenable(exprs[k], cx, rank[k])
            },
            CommonModel::Cached { tapes } => true,
        },
        ExprNode::Binary(_, l, r) => flattenable(*l, cx, level) && flattenable(*r, cx, level),
        ExprNode::Unary(_, arg) => flattenable(*arg, cx, level),
        ExprNode::Nary(_, args) => all_flattenable(args@, cx, level),
        ExprNode::If(c, t, f) => flattenable(*c, cx, level) && flattenable(*t, cx, level)
            && flattenable(*f, cx, level),
        ExprNode::StringLiteral(_) => true,
        ExprNode::Funcall { id, args } => cx.funcs.dom().contains(id) && all_flattenable(
            args@,
            cx,
            level,
        ),
    }
}

pub open spec fn all_flattenable(es: Seq<ExprNode>, cx: FlattenContext, level: nat) -> bool
    decreases level, es,
{
    es.len() == 0 || (all_flattenable(es.drop_last(), cx, level) && flattenable(
        es.last(),
        cx,
        level,
    ))
}

/// The expression trees `exprs` and their flattened tapes can be used: no
/// cached tape is empty, and each is in evaluation order.
pub open spec fn context_ok(cx: FlattenContext) -> bool {
    match cx.common {
        CommonModel::Inline { exprs, rank } => true,
        CommonModel::Cached { tapes } => forall|k: int|
            0 <= k < tapes.len() ==> (#[trigger] tapes[k]).len() > 0 && ordered(tapes[k]),
    }
}

proof fn lemma_join_assoc(a: Seq<OpModel>, b: Seq<OpModel>, c: Seq<OpModel>)
    ensures
        join(join(a, b), c) == join(a, join(b, c)),
{
    assert forall|i: int| 0 <= i < c.len() implies shift_op(
        c[i],
        (a.len() + b.len()) as int,
    ) == shift_op(shift_op(c[i], b.len() as int), a.len() as int) by {
        lemma_shift_twice(c[i], b.len() as int, a.len() as int);
    }
    assert(join(join(a, b), c) =~= join(a, join(b, c)));
}

proof fn lemma_shift_twice(op: OpModel, x: int, y: int)
    ensures
        shift_op(shift_op(op, x), y) == shift_op(op, x + y),
{
    match op {
        OpModel::Call(l, n, args) => {
            let one = args.map_values(|a: ArgModel| shift_arg(a, x)).map_values(
                |a: ArgModel| shift_arg(a, y),
            );
            let two = args.map_values(|a: ArgModel| shift_arg(a, x + y));
            assert(one =~= two);
        },
        _ => {},
    }
}

proof fn lemma_join_push(a: Seq<OpModel>, b: Seq<OpModel>, op: OpModel)
    ensures
        join(a, b.push(op)) == join(a, b).push(shift_op(op, a.len() as int)),
{
    assert(join(a, b.push(op)) =~= join(a, b).push(shift_op(op, a.len() as int)));
}

proof fn lemma_models_push(ops: Seq<TapeOp>, op: TapeOp)
    ensures
        op_models(ops.push(op)) == op_models(ops).push(op_model(op)),
{
    assert(op_models(ops.push(op)) =~= op_models(ops).push(op_model(op)));
}

proof fn lemma_shift_ordered(op: OpModel, d: int, t: int)
    ensures
        reads(shift_op(op, d), t) <==> reads(op, t - d),
{
    match op {
        OpModel::Call(l, n, args) => {
            let shifted = args.map_values(|a: ArgModel| shift_arg(a, d));
            if shifted.contains(ArgModel::Tape(t)) {
                let i = choose|i: int|
                    0 <= i < shifted.len() && shifted[i] == ArgModel::Tape(t);
                assert(args[i] == ArgModel::Tape(t - d));
            }
            if args.contains(ArgModel::Tape(t - d)) {
                let i = choose|i: int|
                    0 <= i < args.len() && args[i] == ArgModel::Tape(t - d);
                assert(shifted[i] == ArgModel::Tape(t));
            }
        },
        _ => {},
    }
}

proof fn lemma_join_ordered(a: Seq<OpModel>, b: Seq<OpModel>)
    requires
        ordered(a),
        ordered(b),
    ensures
        ordered(join(a, b)),
{
    let j = join(a, b);
    assert forall|i: int, t: int| 0 <= i < j.len() && #[trigger] reads(j[i], t) implies 0 <= t
        < i by {
        if i < a.len() {
            assert(j[i] == a[i]);
        } else {
            assert(j[i] == shift_op(b[i - a.len()], a.len() as int));
            lemma_shift_ordered(b[i - a.len()], a.len() as int, t);
            assert(reads(b[i - a.len()], t - a.len()));
        }
    }
}

proof fn lemma_push_ordered(a: Seq<OpModel>, op: OpModel)
    requires
        ordered(a),
        forall|t: int| #[trigger] reads(op, t) ==> 0 <= t < a.len(),
    ensures
        ordered(a.push(op)),
{
    let j = a.push(op);
    assert forall|i: int, t: int| 0 <= i < j.len() && #[trigger] reads(j[i], t) implies 0 <= t
        < i by {
        if i < a.len() {
            assert(j[i] == a[i]);
        }
    }
}

/// A flattened expression is a nonempty tape in evaluation order.
pub proof fn lemma_flat_ordered(e: ExprNode, cx: FlattenContext, level: nat)
    requires
        context_ok(cx),
    ensures
        flat(e, cx, level).len() > 0,
        ordered(flat(e, cx, level)),
    decreases level, e,
{
    match e {
        ExprNode::Const(_) => {},
        ExprNode::Var(i) => {
            if i >= cx.n_vars {
                match cx.common {
                    CommonModel::Inline { exprs, rank } => {
                        let k = i - cx.n_vars;
                        if k < exprs.len() && rank[k] < level {
                            lemma_flat_ordered(exprs[k], cx, rank[k]);
                        }
                    },
                    CommonModel::Cached { tapes } => {},
                }
            }
        },
        ExprNode::Binary(op, l, r) => {
            lemma_flat_ordered(*l, cx, level);
            lemma_flat_ordered(*r, cx, level);
            let a = flat(*l, cx, level);
            let ops = join(a, flat(*r, cx, level));
            lemma_join_ordered(a, flat(*r, cx, level));
            lemma_push_ordered(ops, OpModel::Binary(op, a.len() - 1, ops.len() - 1));
        },
        ExprNode::Unary(op, arg) => {
            lemma_flat_ordered(*arg, cx, level);
            let ops = flat(*arg, cx, level);
            lemma_push_ordered(ops, OpModel::Unary(op, ops.len() - 1));
        },
        ExprNode::Nary(op, args) => {
            if args@.len() > 0 {
                lemma_flat_nary_ordered(op, args@, cx, level);
            }
        },
        ExprNode::If(c, t, f) => {
            lemma_flat_ordered(*c, cx, level);
            lemma_flat_ordered(*t, cx, level);
            lemma_flat_ordered(*f, cx, level);
            lemma_join_ordered(flat(*c, cx, level), flat(*f, cx, level));
            lemma_join_ordered(
                join(flat(*c, cx, level), flat(*f, cx, level)),
                flat(*t, cx, level),
            );
        },
        ExprNode::StringLiteral(_) => {},
        ExprNode::Funcall { id, args } => {
            lemma_flat_args_ordered(args@, cx, level);
            let (ops, list) = flat_args(args@, cx, level);
            let call = OpModel::Call(cx.funcs[id].0 as int, cx.funcs[id].1@, list);
            assert forall|t: int| #[trigger] reads(call, t) implies 0 <= t < ops.len() by {
                let i = choose|i: int| 0 <= i < list.len() && list[i] == ArgModel::Tape(t);
                assert(list[i] == ArgModel::Tape(t));
            }
            lemma_push_ordered(ops, call);
        },
    }
}

proof fn lemma_combine_ordered(op: NaryOp, ops: Seq<OpModel>, x: int, y: int)
    requires
        ordered(ops),
        0 <= x < ops.len(),
        0 <= y < ops.len(),
    ensures
        ordered(combine(op, ops, x, y)),
{
    match op {
        NaryOp::Sum => {
            lemma_push_ordered(ops, OpModel::Binary(BinaryOp::Add, x, y));
        },
        NaryOp::Min => {
            lemma_push_ordered(ops, OpModel::Binary(BinaryOp::Less, x, y));
        },
        NaryOp::Max => {
            let n = ops.len() as int;
            let o1 = ops.push(OpModel::Unary(UnaryOp::Neg, x));
            let o2 = o1.push(OpModel::Unary(UnaryOp::Neg, y));
            let o3 = o2.push(OpModel::Binary(BinaryOp::Less, n, n + 1));
            lemma_push_ordered(ops, OpModel::Unary(UnaryOp::Neg, x));
            lemma_push_ordered(o1, OpModel::Unary(UnaryOp::Neg, y));
            lemma_push_ordered(o2, OpModel::Binary(BinaryOp::Less, n, n + 1));
            lemma_push_ordered(o3, OpModel::Unary(UnaryOp::Neg, n + 2));
        },
    }
}

proof fn lemma_flat_nary_ordered(op: NaryOp, es: Seq<ExprNode>, cx: FlattenContext, level: nat)
    requires
        context_ok(cx),
        es.len() > 0,
    ensures
        flat_nary(op, es, cx, level).len() > 0,
        ordered(flat_nary(op, es, cx, level)),
    decreases level, es,
{
    if es.len() == 1 {
        lemma_flat_ordered(es[0], cx, level);
    } else {
        lemma_flat_nary_ordered(op, es.drop_last(), cx, level);
        lemma_flat_ordered(es.last(), cx, level);
        let acc = flat_nary(op, es.drop_last(), cx, level);
        let ops = join(acc, flat(es.last(), cx, level));
        lemma_join_ordered(acc, flat(es.last(), cx, level));
        lemma_combine_ordered(op, ops, acc.len() - 1, ops.len() - 1);
    }
}

proof fn lemma_flat_args_ordered(es: Seq<ExprNode>, cx: FlattenContext, level: nat)
    requires
        context_ok(cx),
    ensures
        ordered(flat_args(es, cx, level).0),
        forall|i: int|
            0 <= i < flat_args(es, cx, level).1.len() ==> match #[trigger] flat_args(
                es,
                cx,
                level,
            ).1[i] {
                ArgModel::Tape(t) => 0 <= t < flat_args(es, cx, level).0.len(),
                ArgModel::Str(_) => true,
            },
        flat_args(es, cx, level).1.len() == es.len(),
    decreases level, es,
{
    if es.len() > 0 {
        lemma_flat_args_ordered(es.drop_last(), cx, level);
        match es.last() {
            ExprNode::StringLiteral(s) => {},
            _ => {
                lemma_flat_ordered(es.last(), cx, level);
                lemma_join_ordered(
                    flat_args(es.drop_last(), cx, level).0,
                    flat(es.last(), cx, level),
                );
            },
        }
    }
}

fn binary_tape_op(op: BinaryOp, l: usize, r: usize) -> (t: TapeOp)
    ensures
        op_model(t) == OpModel::Binary(op, l as int, r as int),
{
    match op {
        BinaryOp::Add => TapeOp::Add(l, r),
        BinaryOp::Sub => TapeOp::Sub(l, r),
        BinaryOp::Mul => TapeOp::Mul(l, r),
        BinaryOp::Div => TapeOp::Div(l, r),
        BinaryOp::Mod => TapeOp::Mod(l, r),
        BinaryOp::Pow => TapeOp::Pow(l, r),
        BinaryOp::Atan2 => TapeOp::Atan2(l, r),
        BinaryOp::Less => TapeOp::Less(l, r),
        BinaryOp::IntDiv => TapeOp::IntDiv(l, r),
    }
}

fn unary_tape_op(op: UnaryOp, a: usize) -> (t: TapeOp)
    ensures
        op_model(t) == OpModel::Unary(op, a as int),
{
    match op {
        UnaryOp::Abs => TapeOp::Abs(a),
        UnaryOp::Neg => TapeOp::Neg(a),
        UnaryOp::Floor => TapeOp::Floor(a),
        UnaryOp::Ceil => TapeOp::Ceil(a),
        UnaryOp::Tanh => TapeOp::Tanh(a),
        UnaryOp::Tan => TapeOp::Tan(a),
        UnaryOp::Sqrt => TapeOp::Sqrt(a),
        UnaryOp::Sinh => TapeOp::Sinh(a),
        UnaryOp::Sin => TapeOp::Sin(a),
        UnaryOp::Log10 => TapeOp::Log10(a),
        UnaryOp::Log => TapeOp::Log(a),
        UnaryOp::Exp => TapeOp::Exp(a),
        UnaryOp::Cosh => TapeOp::Cosh(a),
        UnaryOp::Cos => TapeOp::Cos(a),
        UnaryOp::Atanh => TapeOp::Atanh(a),
        UnaryOp::Atan => TapeOp::Atan(a),
        UnaryOp::Asinh => TapeOp::Asinh(a),
        UnaryOp::Asin => TapeOp::Asin(a),
        UnaryOp::Acosh => TapeOp::Acosh(a),
        UnaryOp::Acos => TapeOp::Acos(a),
    }
}

/// A copy of `op` with `offset` added to every tape index.
fn remap_op(op: &TapeOp, offset: usize) -> (t: TapeOp)
    requires
        forall|t: int| #[trigger] reads(op_model(*op), t) ==> t + offset <= usize::MAX,
    ensures
        op_model(t) == shift_op(op_model(*op), offset as int),
{
    let ghost m = op_model(*op);
    proof {
        match m {
            OpModel::Binary(_, a, b) => {
                assert(reads(m, a) && reads(m, b));
            },
            OpModel::Unary(_, a) => {
                assert(reads(m, a));
            },
            _ => {},
        }
    }
    match op {
        TapeOp::Const(c) => TapeOp::Const(*c),
        TapeOp::Var(i) => TapeOp::Var(*i),
        TapeOp::Add(a, b) => TapeOp::Add(*a + offset, *b + offset),
        TapeOp::Sub(a, b) => TapeOp::Sub(*a + offset, *b + offset),
        TapeOp::Mul(a, b) => TapeOp::Mul(*a + offset, *b + offset),
        TapeOp::Div(a, b) => TapeOp::Div(*a + offset, *b + offset),
        TapeOp::Mod(a, b) => TapeOp::Mod(*a + offset, *b + offset),
        TapeOp::Pow(a, b) => TapeOp::Pow(*a + offset, *b + offset),
        TapeOp::Atan2(a, b) => TapeOp::Atan2(*a + offset, *b + offset),
        TapeOp::Less(a, b) => TapeOp::Less(*a + offset, *b + offset),
        TapeOp::IntDiv(a, b) => TapeOp::IntDiv(*a + offset, *b + offset),
        TapeOp::Abs(a) => TapeOp::Abs(*a + offset),
        TapeOp::Neg(a) => TapeOp::Neg(*a + offset),
        TapeOp::Floor(a) => TapeOp::Floor(*a + offset),
        TapeOp::Ceil(a) => TapeOp::Ceil(*a + offset),
        TapeOp::Tanh(a) => TapeOp::Tanh(*a + offset),
        TapeOp::Tan(a) => TapeOp::Tan(*a + offset),
        TapeOp::Sqrt(a) => TapeOp::Sqrt(*a + offset),
        TapeOp::Sinh(a) => TapeOp::Sinh(*a + offset),
        TapeOp::Sin(a) => TapeOp::Sin(*a + offset),
        TapeOp::Log10(a) => TapeOp::Log10(*a + offset),
        TapeOp::Log(a) => TapeOp::Log(*a + offset),
        TapeOp::Exp(a) => TapeOp::Exp(*a + offset),
        TapeOp::Cosh(a) => TapeOp::Cosh(*a + offset),
        TapeOp::Cos(a) => TapeOp::Cos(*a + offset),
        TapeOp::Atanh(a) => TapeOp::Atanh(*a + offset),
        TapeOp::Atan(a) => TapeOp::Atan(*a + offset),
        TapeOp::Asinh(a) => TapeOp::Asinh(*a + offset),
        TapeOp::Asin(a) => TapeOp::Asin(*a + offset),
        TapeOp::Acosh(a) => TapeOp::Acosh(*a + offset),
        TapeOp::Acos(a) => TapeOp::Acos(*a + offset),
        TapeOp::Funcall { lib, name, args } => {
            let mut out: Vec<FuncallArg> = Vec::new();
            let ghost list = arg_models(args@);
            for k in 0..args.len()
                invariant
                    list == arg_models(args@),
                    m == op_model(*op),
                    m == OpModel::Call(*lib as int, name@, list),
                    forall|t: int| #[trigger] reads(m, t) ==> t + offset <= usize::MAX,
                    arg_models(out@) == list.take(
                        k as int,
                    ).map_values(|a: ArgModel| shift_arg(a, offset as int)),
            {
                let ghost before = out@;
                assert(list[k as int] == arg_model(args@[k as int]));
                match &args[k] {
                    FuncallArg::Tape(t) => {
                        assert(list.contains(ArgModel::Tape(*t as int)));
                        assert(reads(m, *t as int));
                        out.push(FuncallArg::Tape(*t + offset));
                    },
                    FuncallArg::Str(s) => {
                        out.push(FuncallArg::Str(s.clone()));
                    },
                }
                assert(arg_models(out@) =~= arg_models(before).push(arg_model(out@[k as int])));
                assert(list.take(k + 1).map_values(|a: ArgModel| shift_arg(a, offset as int))
                    =~= list.take(k as int).map_values(
                    |a: ArgModel| shift_arg(a, offset as int),
                ).push(shift_arg(list[k as int], offset as int)));
            }
            assert(list.take(args@.len() as int) =~= list);
            TapeOp::Funcall { lib: *lib, name: name.clone(), args: out }
        },
    }
}

/// Tapes of the common expressions of a problem, built once and copied
/// wherever an expression refers to one of them.
pub struct CommonExprCache {
    entries: Vec<Vec<TapeOp>>,
}

impl CommonExprCache {
    /// The cached tapes, by the index of the common expression.
    pub closed spec fn tapes(&self) -> Seq<Seq<OpModel>> {
        self.entries@.map_values(|ops: Vec<TapeOp>| op_models(ops@))
    }

    /// No cached tape is empty, and each is in evaluation order.
    pub open spec fn well_formed(&self) -> bool {
        forall|k: int|
            0 <= k < self.tapes().len() ==> (#[trigger] self.tapes()[k]).len() > 0 && ordered(
                self.tapes()[k],
            )
    }
}

enum CommonSource<'a> {
    Inline(&'a [ExprNode]),
    Cached(&'a CommonExprCache),
}

spec fn source_model(source: CommonSource, common: CommonModel) -> bool {
    match (source, common) {
        (CommonSource::Inline(s), CommonModel::Inline { exprs, rank }) => s@ == exprs,
        (CommonSource::Cached(c), CommonModel::Cached { tapes }) => c.tapes() == tapes,
        _ => false,
    }
}

fn push_op(ops: &mut Vec<TapeOp>, op: TapeOp) -> (idx: usize)
    ensures
        final(ops)@ == old(ops)@.push(op),
        op_models(final(ops)@) == op_models(old(ops)@).push(op_model(op)),
        idx == old(ops)@.len(),
        final(ops)@.len() == idx + 1,
{
    let idx: usize = ops.len();
    proof {
        lemma_models_push(ops@, op);
    }
    ops.push(op);
    idx
}

/// Appends the tape of `expr` to `ops` and returns the index of its result,
/// which is the last operation.
fn build_recursive(
    expr: &ExprNode,
    source: &CommonSource,
    n_vars: usize,
    ops: &mut Vec<TapeOp>,
    resolver: &ExternalResolver,
    Ghost(cx): Ghost<FlattenContext>,
    Ghost(level): Ghost<nat>,
) -> (root: usize)
    requires
        cx.n_vars == n_vars,
        cx.funcs == resolver.funcs_by_id@,
        source_model(*source, cx.common),
        context_ok(cx),
        flattenable(*expr, cx, level),
    ensures
        op_models(final(ops)@) == join(op_models(old(ops)@), flat(*expr, cx, level)),
        flat(*expr, cx, level).len() > 0,
        final(ops)@.len() == old(ops)@.len() + flat(*expr, cx, level).len(),
        root + 1 == final(ops)@.len(),
    decreases level, expr,
{
    let ghost start = op_models(ops@);
    proof {
        lemma_flat_ordered(*expr, cx, level);
    }
    match expr {
        ExprNode::Const(c) => {
            let idx: usize = push_op(ops, TapeOp::Const(*c));
            proof {
                assert(op_models(ops@) =~= join(start, flat(*expr, cx, level)));
            }
            idx
        },
        ExprNode::Var(i) => {
            if *i < n_vars {
                let idx: usize = push_op(ops, TapeOp::Var(*i));
                proof {
                    assert(op_models(ops@) =~= join(start, flat(*expr, cx, level)));
                }
                idx
            } else {
                let k: usize = *i - n_vars;
                match source {
                    CommonSource::Inline(exprs) => {
                        if k < exprs.len() {
                            let ghost next = cx.common->rank[k as int];
                            build_recursive(
                                &exprs[k],
                                source,
                                n_vars,
                                ops,
                                resolver,
                                Ghost(cx),
                                Ghost(next),
                            )
                        } else {
                            let idx: usize = push_op(ops, TapeOp::Const(0));
                            proof {
                                assert(op_models(ops@) =~= join(start, flat(*expr, cx, level)));
                            }
                            idx
                        }
                    },
                    CommonSource::Cached(cache) => {
                        if k < cache.entries.len() {
                            append_cached(cache, k, ops);
                            ops.len() - 1
                        } else {
                            let idx: usize = push_op(ops, TapeOp::Const(0));
                            proof {
                                assert(op_models(ops@) =~= join(start, flat(*expr, cx, level)));
                            }
                            idx
                        }
                    },
                }
            }
        },
        ExprNode::Binary(op, left, right) => {
            let l: usize = build_recursive(
                left,
                source,
                n_vars,
                ops,
                resolver,
                Ghost(cx),
                Ghost(level),
            );
            let r: usize = build_recursive(
                right,
                source,
                n_vars,
                ops,
                resolver,
                Ghost(cx),
                Ghost(level),
            );
            let ghost a = flat(**left, cx, level);
            let ghost b = flat(**right, cx, level);
            proof {
                lemma_join_assoc(start, a, b);
                lemma_join_push(
                    start,
                    join(a, b),
                    OpModel::Binary(*op, a.len() - 1, join(a, b).len() - 1),
                );
            }
            push_op(ops, binary_tape_op(*op, l, r))
        },
        ExprNode::Unary(op, arg) => {
            let a: usize = build_recursive(
                arg,
                source,
                n_vars,
                ops,
                resolver,
                Ghost(cx),
                Ghost(level),
            );
            proof {
                let f = flat(**arg, cx, level);
                lemma_join_push(start, f, OpModel::Unary(*op, f.len() - 1));
            }
            push_op(ops, unary_tape_op(*op, a))
        },
        ExprNode::Nary(op, args) => {
            if args.len() == 0 {
                let bits: u64 = match op {
                    NaryOp::Sum => 0u64,
                    NaryOp::Min => 0x7ff0_0000_0000_0000u64,
                    NaryOp::Max => 0xfff0_0000_0000_0000u64,
                };
                let idx: usize = push_op(ops, TapeOp::Const(bits));
                proof {
                    assert(op_models(ops@) =~= join(start, flat(*expr, cx, level)));
                }
                return idx;
            }
            build_nary(*op, args, source, n_vars, ops, resolver, Ghost(cx), Ghost(level))
        },
        ExprNode::If(cond, then_expr, else_expr) => {
            build_recursive(cond, source, n_vars, ops, resolver, Ghost(cx), Ghost(level));
            build_recursive(else_expr, source, n_vars, ops, resolver, Ghost(cx), Ghost(level));
            let t: usize = build_recursive(
                then_expr,
                source,
                n_vars,
                ops,
                resolver,
                Ghost(cx),
                Ghost(level),
            );
            proof {
                let c = flat(**cond, cx, level);
                let f = flat(**else_expr, cx, level);
                lemma_join_assoc(start, c, f);
                lemma_join_assoc(start, join(c, f), flat(**then_expr, cx, level));
            }
            t
        },
        ExprNode::StringLiteral(_) => {
            let idx: usize = push_op(ops, TapeOp::Const(0));
            proof {
                assert(op_models(ops@) =~= join(start, flat(*expr, cx, level)));
            }
            idx
        },
        ExprNode::Funcall { id, args } => {
            let args_out: Vec<FuncallArg> = build_args(
                args,
                source,
                n_vars,
                ops,
                resolver,
                Ghost(cx),
                Ghost(level),
            );
            match resolver.funcs_by_id.get(id) {
                Some(entry) => {
                    let ghost parts = flat_args(args@, cx, level);
                    proof {
                        lemma_join_push(
                            start,
                            parts.0,
                            OpModel::Call(cx.funcs[*id].0 as int, cx.funcs[*id].1@, parts.1),
                        );
                    }
                    push_op(
                        ops,
                        TapeOp::Funcall { lib: entry.0, name: entry.1.clone(), args: args_out },
                    )
                },
                None => {
                    assert(false);
                    0
                },
            }
        },
    }
}

/// Appends a copy of a cached tape.
fn append_cached(cache: &CommonExprCache, k: usize, ops: &mut Vec<TapeOp>)
    requires
        k < cache.tapes().len(),
        ordered(cache.tapes()[k as int]),
    ensures
        op_models(final(ops)@) == join(op_models(old(ops)@), cache.tapes()[k as int]),
        final(ops)@.len() == old(ops)@.len() + cache.tapes()[k as int].len(),
{
    let offset: usize = ops.len();
    let entry: &Vec<TapeOp> = &cache.entries[k];
    let ghost start = op_models(ops@);
    let ghost tape = op_models(entry@);
    for j in 0..entry.len()
        invariant
            start.len() == offset,
            tape == op_models(entry@),
            ordered(tape),
            ops@.len() == offset + j,
            op_models(ops@) == join(start, tape.take(j as int)),
    {
        let here: usize = ops.len();
        proof {
            let m = op_model(entry@[j as int]);
            assert(m == tape[j as int]);
            assert forall|t: int| #[trigger] reads(m, t) implies t + offset <= usize::MAX by {
                assert(reads(tape[j as int], t));
                assert(t + offset < here);
            }
            lemma_join_push(start, tape.take(j as int), m);
            assert(tape.take(j + 1) =~= tape.take(j as int).push(m));
        }
        push_op(ops, remap_op(&entry[j], offset));
    }
    assert(tape.take(entry@.len() as int) =~= tape);
    assert(cache.tapes()[k as int] == tape);
}

fn build_nary(
    op: NaryOp,
    args: &Vec<ExprNode>,
    source: &CommonSource,
    n_vars: usize,
    ops: &mut Vec<TapeOp>,
    resolver: &ExternalResolver,
    Ghost(cx): Ghost<FlattenContext>,
    Ghost(level): Ghost<nat>,
) -> (root: usize)
    requires
        args@.len() > 0,
        cx.n_vars == n_vars,
        cx.funcs == resolver.funcs_by_id@,
        source_model(*source, cx.common),
        context_ok(cx),
        all_flattenable(args@, cx, level),
    ensures
        op_models(final(ops)@) == join(op_models(old(ops)@), flat_nary(op, args@, cx, level)),
        final(ops)@.len() == old(ops)@.len() + flat_nary(op, args@, cx, level).len(),
        root + 1 == final(ops)@.len(),
    decreases level, args,
{
    let ghost start = op_models(ops@);
    proof {
        lemma_all_flattenable(args@, cx, level, 0);
    }
    let mut acc: usize = build_recursive(
        &args[0],
        source,
        n_vars,
        ops,
        resolver,
        Ghost(cx),
        Ghost(level),
    );
    assert(args@.take(1)[0] == args@[0]);
    for i in 1..args.len()
        invariant
            args@.len() > 0,
            cx.n_vars == n_vars,
            cx.funcs == resolver.funcs_by_id@,
            source_model(*source, cx.common),
            context_ok(cx),
            all_flattenable(args@, cx, level),
            op_models(ops@) == join(start, flat_nary(op, args@.take(i as int), cx, level)),
            flat_nary(op, args@.take(i as int), cx, level).len() > 0,
            acc + 1 == ops@.len(),
    {
        let ghost done = flat_nary(op, args@.take(i as int), cx, level);
        let ghost tail = flat(args@[i as int], cx, level);
        let ghost both = join(done, tail);
        proof {
            lemma_all_flattenable(args@, cx, level, i as int);
            let more = args@.take(i + 1);
            assert(more.drop_last() =~= args@.take(i as int));
            assert(more.last() == args@[i as int]);
        }
        let next: usize = build_recursive(
            &args[i],
            source,
            n_vars,
            ops,
            resolver,
            Ghost(cx),
            Ghost(level),
        );
        proof {
            lemma_join_assoc(start, done, tail);
        }
        let ghost x = done.len() - 1;
        let ghost y = both.len() - 1;
        match op {
            NaryOp::Sum => {
                proof {
                    lemma_join_push(start, both, OpModel::Binary(BinaryOp::Add, x, y));
                }
                acc = push_op(ops, TapeOp::Add(acc, next));
            },
            NaryOp::Min => {
                proof {
                    lemma_join_push(start, both, OpModel::Binary(BinaryOp::Less, x, y));
                }
                acc = push_op(ops, TapeOp::Less(acc, next));
            },
            NaryOp::Max => {
                proof {
                    let n = both.len() as int;
                    let o1 = both.push(OpModel::Unary(UnaryOp::Neg, x));
                    let o2 = o1.push(OpModel::Unary(UnaryOp::Neg, y));
                    let o3 = o2.push(OpModel::Binary(BinaryOp::Less, n, n + 1));
                    lemma_join_push(start, both, OpModel::Unary(UnaryOp::Neg, x));
                    lemma_join_push(start, o1, OpModel::Unary(UnaryOp::Neg, y));
                    lemma_join_push(start, o2, OpModel::Binary(BinaryOp::Less, n, n + 1));
                    lemma_join_push(start, o3, OpModel::Unary(UnaryOp::Neg, n + 2));
                }
                let neg_acc: usize = push_op(ops, TapeOp::Neg(acc));
                let neg_next: usize = push_op(ops, TapeOp::Neg(next));
                let smaller: usize = push_op(ops, TapeOp::Less(neg_acc, neg_next));
                acc = push_op(ops, TapeOp::Neg(smaller));
            },
        }
    }
    assert(args@.take(args@.len() as int) =~= args@);
    acc
}

proof fn lemma_all_flattenable(es: Seq<ExprNode>, cx: FlattenContext, level: nat, i: int)
    requires
        all_flattenable(es, cx, level),
        0 <= i < es.len(),
    ensures
        flattenable(es[i], cx, level),
    decreases es.len(),
{
    if i < es.len() - 1 {
        lemma_all_flattenable(es.drop_last(), cx, level, i);
    }
}

fn build_args(
    args: &Vec<ExprNode>,
    source: &CommonSource,
    n_vars: usize,
    ops: &mut Vec<TapeOp>,
    resolver: &ExternalResolver,
    Ghost(cx): Ghost<FlattenContext>,
    Ghost(level): Ghost<nat>,
) -> (list: Vec<FuncallArg>)
    requires
        cx.n_vars == n_vars,
        cx.funcs == resolver.funcs_by_id@,
        source_model(*source, cx.common),
        context_ok(cx),
        all_flattenable(args@, cx, level),
    ensures
        op_models(final(ops)@) == join(op_models(old(ops)@), flat_args(args@, cx, level).0),
        final(ops)@.len() == old(ops)@.len() + flat_args(args@, cx, level).0.len(),
        arg_models(list@) == flat_args(args@, cx, level).1.map_values(
            |a: ArgModel| shift_arg(a, old(ops)@.len() as int),
        ),
    decreases level, args,
{
    let ghost start = op_models(ops@);
    let ghost base = ops@.len() as int;
    let mut list: Vec<FuncallArg> = Vec::new();
    proof {
        assert(args@.take(0) =~= Seq::<ExprNode>::empty());
        assert(op_models(ops@) =~= join(start, flat_args(args@.take(0), cx, level).0));
    }
    for i in 0..args.len()
        invariant
            cx.n_vars == n_vars,
            cx.funcs == resolver.funcs_by_id@,
            source_model(*source, cx.common),
            context_ok(cx),
            all_flattenable(args@, cx, level),
            start.len() == base,
            op_models(ops@) == join(start, flat_args(args@.take(i as int), cx, level).0),
            arg_models(list@) == flat_args(
                args@.take(i as int),
                cx,
                level,
            ).1.map_values(|a: ArgModel| shift_arg(a, base)),
    {
        let ghost done = flat_args(args@.take(i as int), cx, level);
        let ghost before = list@;
        proof {
            lemma_all_flattenable(args@, cx, level, i as int);
            let more = args@.take(i + 1);
            assert(more.drop_last() =~= args@.take(i as int));
            assert(more.last() == args@[i as int]);
        }
        match &args[i] {
            ExprNode::StringLiteral(s) => {
                list.push(FuncallArg::Str(s.clone()));
            },
            _ => {
                let t: usize = build_recursive(
                    &args[i],
                    source,
                    n_vars,
                    ops,
                    resolver,
                    Ghost(cx),
                    Ghost(level),
                );
                proof {
                    lemma_join_assoc(start, done.0, flat(args@[i as int], cx, level));
                }
                list.push(FuncallArg::Tape(t));
            },
        }
        proof {
            let last = list@[list@.len() - 1];
            assert(arg_models(list@) =~= arg_models(before).push(arg_model(last)));
            let now = flat_args(args@.take(i + 1), cx, level);
            assert(now.1.map_values(|a: ArgModel| shift_arg(a, base)) =~= done.1.map_values(
                |a: ArgModel| shift_arg(a, base),
            ).push(shift_arg(now.1.last(), base)));
        }
    }
    assert(args@.take(args@.len() as int) =~= args@);
    list
}

/// Tape of an expression, with the number of problem variables.
pub struct Tape {
    pub ops: Vec<TapeOp>,
    pub n_vars: usize,
}

/// The context in which common expressions are inlined.
pub open spec fn inline_context(
    exprs: Seq<ExprNode>,
    rank: Seq<nat>,
    n_vars: int,
    funcs: Map<usize, (usize, String)>,
) -> FlattenContext {
    FlattenContext { common: CommonModel::Inline { exprs, rank }, n_vars, funcs }
}

/// Inlining the common expressions that `e` refers to, directly or through
/// others, comes to an end, and every function that is called is resolved.
pub open spec fn inlinable(
    e: ExprNode,
    exprs: Seq<ExprNode>,
    n_vars: int,
    funcs: Map<usize, (usize, String)>,
) -> bool {
    exists|rank: Seq<nat>, level: nat| #[trigger]
        flattenable(e, inline_context(exprs, rank, n_vars, funcs), level)
}

/// The tape of `e` with every common expression inlined.
pub open spec fn inlined(
    e: ExprNode,
    exprs: Seq<ExprNode>,
    n_vars: int,
    funcs: Map<usize, (usize, String)>,
) -> Seq<OpModel> {
    let (rank, level) = choose|rank: Seq<nat>, level: nat| #[trigger]
        flattenable(e, inline_context(exprs, rank, n_vars, funcs), level);
    flat(e, inline_context(exprs, rank, n_vars, funcs), level)
}

/// The context in which common expressions are copied from cached tapes.
pub open spec fn cached_context(
    tapes: Seq<Seq<OpModel>>,
    n_vars: int,
    funcs: Map<usize, (usize, String)>,
) -> FlattenContext {
    FlattenContext { common: CommonModel::Cached { tapes }, n_vars, funcs }
}

/// Every function that `e` calls is resolved.
pub open spec fn calls_resolved(e: ExprNode, funcs: Map<usize, (usize, String)>) -> bool {
    flattenable(e, cached_context(Seq::empty(), 0, funcs), 0)
}

/// The tape of `e` with common expressions copied from `tapes`.
pub open spec fn flat_cached(
    e: ExprNode,
    tapes: Seq<Seq<OpModel>>,
    n_vars: int,
    funcs: Map<usize, (usize, String)>,
) -> Seq<OpModel> {
    flat(e, cached_context(tapes, n_vars, funcs), 0)
}

/// The tapes of the first `count` common expressions, each built from the
/// tapes of the earlier ones.
pub open spec fn cache_tapes(
    exprs: Seq<ExprNode>,
    n_vars: int,
    funcs: Map<usize, (usize, String)>,
    count: nat,
) -> Seq<Seq<OpModel>>
    decreases count,
{
    if count == 0 {
        Seq::empty()
    } else {
        let earlier = cache_tapes(exprs, n_vars, funcs, (count - 1) as nat);
        earlier.push(flat_cached(exprs[count - 1], earlier, n_vars, funcs))
    }
}

proof fn lemma_calls_resolved(e: ExprNode, cx: FlattenContext, level: nat)
    requires
        calls_resolved(e, cx.funcs),
        cx.common is Cached,
    ensures
        flattenable(e, cx, level),
    decreases e,
{
    match e {
        ExprNode::Binary(_, l, r) => {
            lemma_calls_resolved(*l, cx, level);
            lemma_calls_resolved(*r, cx, level);
        },
        ExprNode::Unary(_, arg) => {
            lemma_calls_resolved(*arg, cx, level);
        },
        ExprNode::Nary(_, args) => {
            lemma_all_calls_resolved(args@, cx, level);
        },
        ExprNode::If(c, t, f) => {
            lemma_calls_resolved(*c, cx, level);
            lemma_calls_resolved(*t, cx, level);
            lemma_calls_resolved(*f, cx, level);
        },
        ExprNode::Funcall { id, args } => {
            lemma_all_calls_resolved(args@, cx, level);
        },
        _ => {},
    }
}

proof fn lemma_all_calls_resolved(es: Seq<ExprNode>, cx: FlattenContext, level: nat)
    requires
        all_flattenable(es, cached_context(Seq::empty(), 0, cx.funcs), 0),
        cx.common is Cached,
    ensures
        all_flattenable(es, cx, level),
    decreases es,
{
    if es.len() > 0 {
        lemma_all_calls_resolved(es.drop_last(), cx, level);
        lemma_calls_resolved(es.last(), cx, level);
    }
}

impl CommonExprCache {
    /// Builds the tapes of all common expressions of a problem without
    /// imported functions.
    pub fn build(common_exprs: &[ExprNode], n_vars: usize) -> (cache: Self)
        requires
            forall|k: int|
                0 <= k < common_exprs@.len() ==> calls_resolved(
                    #[trigger] common_exprs@[k],
                    Map::empty(),
                ),
        ensures
            cache.well_formed(),
            cache.tapes() == cache_tapes(
                common_exprs@,
                n_vars as int,
                Map::empty(),
                common_exprs@.len(),
            ),
    {
        Self::build_with_externals(common_exprs, n_vars, &ExternalResolver::default())
    }

    /// Builds the tapes of all common expressions, in order. One that refers
    /// to itself or to a later one gets zero in that place.
    pub fn build_with_externals(
        common_exprs: &[ExprNode],
        n_vars: usize,
        resolver: &ExternalResolver,
    ) -> (cache: Self)
        requires
            forall|k: int|
                0 <= k < common_exprs@.len() ==> calls_resolved(
                    #[trigger] common_exprs@[k],
                    resolver.funcs_by_id@,
                ),
        ensures
            cache.well_formed(),
            cache.tapes() == cache_tapes(
                common_exprs@,
                n_vars as int,
                resolver.funcs_by_id@,
                common_exprs@.len(),
            ),
    {
        let mut cache: CommonExprCache = CommonExprCache { entries: Vec::new() };
        let ghost funcs = resolver.funcs_by_id@;
        assert(cache.tapes() =~= Seq::empty());
        for i in 0..common_exprs.len()
            invariant
                funcs == resolver.funcs_by_id@,
                forall|k: int|
                    0 <= k < common_exprs@.len() ==> calls_resolved(
                        #[trigger] common_exprs@[k],
                        funcs,
                    ),
                cache.well_formed(),
                cache.tapes() == cache_tapes(common_exprs@, n_vars as int, funcs, i as nat),
        {
            let ghost cx = cached_context(cache.tapes(), n_vars as int, funcs);
            let ghost earlier = cache.tapes();
            let mut ops: Vec<TapeOp> = Vec::new();
            proof {
                lemma_calls_resolved(common_exprs@[i as int], cx, 0);
                lemma_flat_ordered(common_exprs@[i as int], cx, 0);
            }
            let source: CommonSource = CommonSource::Cached(&cache);
            build_recursive(
                &common_exprs[i],
                &source,
                n_vars,
                &mut ops,
                resolver,
                Ghost(cx),
                Ghost(0),
            );
            proof {
                lemma_join_empty(flat(common_exprs@[i as int], cx, 0));
                assert(op_models(Seq::<TapeOp>::empty()) =~= Seq::empty());
            }
            let ghost tape = op_models(ops@);
            cache.entries.push(ops);
            assert(cache.tapes() =~= earlier.push(tape));
        }
        cache
    }
}

proof fn lemma_join_empty(b: Seq<OpModel>)
    ensures
        join(Seq::empty(), b) == b,
{
    assert forall|i: int| 0 <= i < b.len() implies shift_op(#[trigger] b[i], 0) == b[i] by {
        match b[i] {
            OpModel::Call(l, n, args) => {
                assert(args.map_values(|a: ArgModel| shift_arg(a, 0)) =~= args);
            },
            _ => {},
        }
    }
    assert(join(Seq::empty(), b) =~= b);
}

impl Tape {
    /// The operations.
    pub open spec fn model(&self) -> Seq<OpModel> {
        op_models(self.ops@)
    }

    /// Builds the tape of an expression without imported functions.
    pub fn build(expr: &ExprNode, common_exprs: &[ExprNode], n_vars: usize) -> (tape: Self)
        requires
            inlinable(*expr, common_exprs@, n_vars as int, Map::empty()),
        ensures
            tape.n_vars == n_vars,
            tape.model() == inlined(*expr, common_exprs@, n_vars as int, Map::empty()),
            ordered(tape.model()),
            tape.model().len() > 0,
    {
        Self::build_with_externals(expr, common_exprs, n_vars, &ExternalResolver::default())
    }

    /// Builds the tape of an expression, inlining common expressions.
    pub fn build_with_externals(
        expr: &ExprNode,
        common_exprs: &[ExprNode],
        n_vars: usize,
        resolver: &ExternalResolver,
    ) -> (tape: Self)
        requires
            inlinable(*expr, common_exprs@, n_vars as int, resolver.funcs_by_id@),
        ensures
            tape.n_vars == n_vars,
            tape.model() == inlined(
                *expr,
                common_exprs@,
                n_vars as int,
                resolver.funcs_by_id@,
            ),
            ordered(tape.model()),
            tape.model().len() > 0,
    {
        let ghost funcs = resolver.funcs_by_id@;
        let ghost pair = choose|rank: Seq<nat>, level: nat| #[trigger]
            flattenable(
                *expr,
                inline_context(common_exprs@, rank, n_vars as int, funcs),
                level,
            );
        let ghost cx = inline_context(common_exprs@, pair.0, n_vars as int, funcs);
        let mut ops: Vec<TapeOp> = Vec::new();
        let source: CommonSource = CommonSource::Inline(common_exprs);
        build_recursive(expr, &source, n_vars, &mut ops, resolver, Ghost(cx), Ghost(pair.1));
        proof {
            lemma_flat_ordered(*expr, cx, pair.1);
            lemma_join_empty(flat(*expr, cx, pair.1));
            assert(op_models(Seq::<TapeOp>::empty()) =~= Seq::empty());
        }
        Tape { ops, n_vars }
    }

    /// Builds the tape of an expression without imported functions, copying
    /// common expressions from `cache`.
    pub fn build_cached(
        expr: &ExprNode,
        common_exprs: &[ExprNode],
        n_vars: usize,
        cache: &CommonExprCache,
    ) -> (tape: Self)
        requires
            cache.well_formed(),
            calls_resolved(*expr, Map::empty()),
        ensures
            tape.n_vars == n_vars,
            tape.model() == flat_cached(*expr, cache.tapes(), n_vars as int, Map::empty()),
            ordered(tape.model()),
            tape.model().len() > 0,
    {
        Self::build_cached_with_externals(
            expr,
            common_exprs,
            n_vars,
            cache,
            &ExternalResolver::default(),
        )
    }

    /// Builds the tape of an expression, copying common expressions from
    /// `cache`. The common expressions themselves are not read.
    pub fn build_cached_with_externals(
        expr: &ExprNode,
        _common_exprs: &[ExprNode],
        n_vars: usize,
        cache: &CommonExprCache,
        resolver: &ExternalResolver,
    ) -> (tape: Self)
        requires
            cache.well_formed(),
            calls_resolved(*expr, resolver.funcs_by_id@),
        ensures
            tape.n_vars == n_vars,
            tape.model() == flat_cached(
                *expr,
                cache.tapes(),
                n_vars as int,
                resolver.funcs_by_id@,
            ),
            ordered(tape.model()),
            tape.model().len() > 0,
    {
        let ghost cx = cached_context(cache.tapes(), n_vars as int, resolver.funcs_by_id@);
        let mut ops: Vec<TapeOp> = Vec::new();
        proof {
            lemma_calls_resolved(*expr, cx, 0);
            lemma_flat_ordered(*expr, cx, 0);
            lemma_join_empty(flat(*expr, cx, 0));
            assert(op_models(Seq::<TapeOp>::empty()) =~= Seq::empty());
        }
        let source: CommonSource = CommonSource::Cached(cache);
        build_recursive(expr, &source, n_vars, &mut ops, resolver, Ghost(cx), Ghost(0));
        Tape { ops, n_vars }
    }
}

} // verus!
