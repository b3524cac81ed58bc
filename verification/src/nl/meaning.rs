//! What a tape computes.
//!
//! The laws here hold for every interpretation of the operators, so they hold
//! for binary64 arithmetic as well as for any other.

use crate::nl::autodiff::{
    combine, flat, flat_args, flat_nary, inline_context, join, lemma_flat_ordered, nary_identity,
    ordered, reads, shift_arg, shift_op, ArgModel, OpModel,
};
use crate::nl::expr::{BinaryOp, ExprNode, NaryOp, UnaryOp};
use vstd::prelude::*;

verus! {

/// The value of a call argument.
pub enum ArgValue<T> {
    Num(T),
    Str(Seq<char>),
}

/// An interpretation of the operators over the values `T`.
#[verifier::reject_recursive_types(T)]
pub struct Algebra<T> {
    pub constant: spec_fn(u64) -> T,
    pub variable: spec_fn(int) -> T,
    pub binary: spec_fn(BinaryOp, T, T) -> T,
    pub unary: spec_fn(UnaryOp, T) -> T,
    pub call: spec_fn(int, Seq<char>, Seq<ArgValue<T>>) -> T,
}

/// The value of one operation, given the values of the earlier ones.
pub open spec fn op_value<T>(op: OpModel, vals: Seq<T>, alg: Algebra<T>) -> T {
    match op {
        OpModel::Const(c) => (alg.constant)(c),
        OpModel::Var(i) => (alg.variable)(i),
        OpModel::Binary(o, a, b) => (alg.binary)(o, vals[a], vals[b]),
        OpModel::Unary(o, a) => (alg.unary)(o, vals[a]),
        OpModel::Call(l, n, args) => (alg.call)(l, n, arg_values(args, vals)),
    }
}

pub open spec fn arg_values<T>(args: Seq<ArgModel>, vals: Seq<T>) -> Seq<ArgValue<T>> {
    args.map_values(
        |a: ArgModel|
            match a {
                ArgModel::Tape(t) => ArgValue::Num(vals[t]),
                ArgModel::Str(s) => ArgValue::Str(s),
            },
    )
}

/// The values of all operations of a tape, in order.
pub open spec fn run<T>(ops: Seq<OpModel>, alg: Algebra<T>) -> Seq<T>
    decreases ops.len(),
{
    if ops.len() == 0 {
        Seq::empty()
    } else {
        let vals = run(ops.drop_last(), alg);
        vals.push(op_value(ops.last(), vals, alg))
    }
}

/// The value of two operands under an n-ary operator.
pub open spec fn fold_value<T>(op: NaryOp, x: T, y: T, alg: Algebra<T>) -> T {
    match op {
        NaryOp::Sum => (alg.binary)(BinaryOp::Add, x, y),
        NaryOp::Min => (alg.binary)(BinaryOp::Less, x, y),
        NaryOp::Max => (alg.unary)(
            UnaryOp::Neg,
            (alg.binary)(
                BinaryOp::Less,
                (alg.unary)(UnaryOp::Neg, x),
                (alg.unary)(UnaryOp::Neg, y),
            ),
        ),
    }
}

/// The value of an expression, read off the tree: a reference to a common
/// expression has that expression's value, a reference to a missing one is
/// zero, and a conditional has the value of its first branch.
pub open spec fn meaning<T>(
    e: ExprNode,
    exprs: Seq<ExprNode>,
    rank: Seq<nat>,
    n_vars: int,
    funcs: Map<usize, (usize, String)>,
    level: nat,
    alg: Algebra<T>,
) -> T
    decreases level, e,
{
    match e {
        ExprNode::Const(c) => (alg.constant)(c),
        ExprNode::Var(i) => if i < n_vars {
            (alg.variable)(i as int)
        } else {
            let k = i - n_vars;
            if k < exprs.len() && rank[k] < level {
                meaning(exprs[k], exprs, rank, n_vars, funcs, rank[k], alg)
            } else {
                (alg.constant)(0)
            }
        },
        ExprNode::Binary(op, l, r) => (alg.binary)(
            op,
            meaning(*l, exprs, rank, n_vars, funcs, level, alg),
            meaning(*r, exprs, rank, n_vars, funcs, level, alg),
        ),
        ExprNode::Unary(op, a) => (alg.unary)(
            op,
            meaning(*a, exprs, rank, n_vars, funcs, level, alg),
        ),
        ExprNode::Nary(op, args) => if args@.len() == 0 {
            (alg.constant)(nary_identity(op))
        } else {
            meaning_nary(op, args@, exprs, rank, n_vars, funcs, level, alg)
        },
        ExprNode::If(c, t, f) => meaning(*t, exprs, rank, n_vars, funcs, level, alg),
        ExprNode::StringLiteral(_) => (alg.constant)(0),
        ExprNode::Funcall { id, args } => (alg.call)(
            funcs[id].0 as int,
            funcs[id].1@,
            meaning_args(args@, exprs, rank, n_vars, funcs, level, alg),
        ),
    }
}

pub open spec fn meaning_nary<T>(
    op: NaryOp,
    es: Seq<ExprNode>,
    exprs: Seq<ExprNode>,
    rank: Seq<nat>,
    n_vars: int,
    funcs: Map<usize, (usize, String)>,
    level: nat,
    alg: Algebra<T>,
) -> T
    decreases level, es,
{
    if es.len() == 0 {
        (alg.constant)(nary_identity(op))
    } else if es.len() == 1 {
        meaning(es[0], exprs, rank, n_vars, funcs, level, alg)
    } else {
        fold_value(
            op,
            meaning_nary(op, es.drop_last(), exprs, rank, n_vars, funcs, level, alg),
            meaning(es.last(), exprs, rank, n_vars, funcs, level, alg),
            alg,
        )
    }
}

pub open spec fn meaning_args<T>(
    es: Seq<ExprNode>,
    exprs: Seq<ExprNode>,
    rank: Seq<nat>,
    n_vars: int,
    funcs: Map<usize, (usize, String)>,
    level: nat,
    alg: Algebra<T>,
) -> Seq<ArgValue<T>>
    decreases level, es,
{
    if es.len() == 0 {
        Seq::empty()
    } else {
        let earlier = meaning_args(es.drop_last(), exprs, rank, n_vars, funcs, level, alg);
        match es.last() {
            ExprNode::StringLiteral(s) => earlier.push(ArgValue::Str(s@)),
            _ => earlier.push(
                ArgValue::Num(meaning(es.last(), exprs, rank, n_vars, funcs, level, alg)),
            ),
        }
    }
}

proof fn lemma_run_len<T>(ops: Seq<OpModel>, alg: Algebra<T>)
    ensures
        run(ops, alg).len() == ops.len(),
    decreases ops.len(),
{
    if ops.len() > 0 {
        lemma_run_len(ops.drop_last(), alg);
    }
}

proof fn lemma_run_push<T>(ops: Seq<OpModel>, op: OpModel, alg: Algebra<T>)
    ensures
        run(ops.push(op), alg) == run(ops, alg).push(op_value(op, run(ops, alg), alg)),
        run(ops, alg).len() == ops.len(),
{
    assert(ops.push(op).drop_last() =~= ops);
    lemma_run_len(ops, alg);
}

/// An operation that is moved, with its operands, behind other operations
/// keeps its value.
proof fn lemma_shifted_value<T>(op: OpModel, front: Seq<T>, vals: Seq<T>, alg: Algebra<T>)
    requires
        forall|t: int| #[trigger] reads(op, t) ==> 0 <= t < vals.len(),
    ensures
        op_value(shift_op(op, front.len() as int), front + vals, alg) == op_value(op, vals, alg),
{
    let d = front.len() as int;
    match op {
        OpModel::Binary(_, a, b) => {
            assert(reads(op, a) && reads(op, b));
        },
        OpModel::Unary(_, a) => {
            assert(reads(op, a));
        },
        OpModel::Call(l, n, args) => {
            let moved = args.map_values(|a: ArgModel| shift_arg(a, d));
            assert forall|i: int| 0 <= i < args.len() implies arg_values(moved, front + vals)[i]
                == arg_values(args, vals)[i] by {
                match args[i] {
                    ArgModel::Tape(t) => {
                        assert(args.contains(args[i]));
                        assert(reads(op, t));
                    },
                    ArgModel::Str(_) => {},
                }
            }
            assert(arg_values(moved, front + vals) =~= arg_values(args, vals));
        },
        _ => {},
    }
}

proof fn lemma_ordered_drop_last(ops: Seq<OpModel>)
    requires
        ordered(ops),
        ops.len() > 0,
    ensures
        ordered(ops.drop_last()),
        forall|t: int| #[trigger] reads(ops.last(), t) ==> 0 <= t < ops.len() - 1,
{
    let front = ops.drop_last();
    assert forall|i: int, t: int| 0 <= i < front.len() && #[trigger] reads(front[i], t) implies 0
        <= t < i by {
        assert(reads(ops[i], t));
    }
    assert forall|t: int| #[trigger] reads(ops.last(), t) implies 0 <= t < ops.len() - 1 by {
        assert(reads(ops[ops.len() - 1], t));
    }
}

/// Two tapes one behind the other compute what each computes alone.
pub proof fn lemma_run_join<T>(a: Seq<OpModel>, b: Seq<OpModel>, alg: Algebra<T>)
    requires
        ordered(b),
    ensures
        run(join(a, b), alg) == run(a, alg) + run(b, alg),
    decreases b.len(),
{
    lemma_run_len(a, alg);
    if b.len() == 0 {
        assert(join(a, b) =~= a);
        assert(run(a, alg) + run(b, alg) =~= run(a, alg));
    } else {
        lemma_ordered_drop_last(b);
        lemma_run_join(a, b.drop_last(), alg);
        lemma_run_len(b.drop_last(), alg);
        let moved = shift_op(b.last(), a.len() as int);
        assert(join(a, b) =~= join(a, b.drop_last()).push(moved));
        lemma_run_push(join(a, b.drop_last()), moved, alg);
        lemma_shifted_value(b.last(), run(a, alg), run(b.drop_last(), alg), alg);
        assert(run(a, alg) + run(b, alg) =~= (run(a, alg) + run(b.drop_last(), alg)).push(
            run(b, alg).last(),
        ));
    }
}

proof fn lemma_run_combine<T>(
    op: NaryOp,
    ops: Seq<OpModel>,
    x: int,
    y: int,
    alg: Algebra<T>,
)
    requires
        0 <= x < ops.len(),
        0 <= y < ops.len(),
    ensures
        run(combine(op, ops, x, y), alg).len() > 0,
        run(combine(op, ops, x, y), alg).last() == fold_value(
            op,
            run(ops, alg)[x],
            run(ops, alg)[y],
            alg,
        ),
{
    match op {
        NaryOp::Sum => {
            lemma_run_push(ops, OpModel::Binary(BinaryOp::Add, x, y), alg);
        },
        NaryOp::Min => {
            lemma_run_push(ops, OpModel::Binary(BinaryOp::Less, x, y), alg);
        },
        NaryOp::Max => {
            let n = ops.len() as int;
            let o1 = ops.push(OpModel::Unary(UnaryOp::Neg, x));
            let o2 = o1.push(OpModel::Unary(UnaryOp::Neg, y));
            let o3 = o2.push(OpModel::Binary(BinaryOp::Less, n, n + 1));
            lemma_run_push(ops, OpModel::Unary(UnaryOp::Neg, x), alg);
            lemma_run_push(o1, OpModel::Unary(UnaryOp::Neg, y), alg);
            lemma_run_push(o2, OpModel::Binary(BinaryOp::Less, n, n + 1), alg);
            lemma_run_push(o3, OpModel::Unary(UnaryOp::Neg, n + 2), alg);
        },
    }
}

/// The last operation of a flattened expression has the expression's value,
/// whatever the operators mean.
pub proof fn lemma_flat_meaning<T>(
    e: ExprNode,
    exprs: Seq<ExprNode>,
    rank: Seq<nat>,
    n_vars: int,
    funcs: Map<usize, (usize, String)>,
    level: nat,
    alg: Algebra<T>,
)
    ensures
        run(flat(e, inline_context(exprs, rank, n_vars, funcs), level), alg).len() > 0,
        run(flat(e, inline_context(exprs, rank, n_vars, funcs), level), alg).last() == meaning(
            e,
            exprs,
            rank,
            n_vars,
            funcs,
            level,
            alg,
        ),
    decreases level, e,
{
    let cx = inline_context(exprs, rank, n_vars, funcs);
    lemma_flat_ordered(e, cx, level);
    lemma_run_len(flat(e, cx, level), alg);
    match e {
        ExprNode::Const(_) | ExprNode::StringLiteral(_) => {
            lemma_run_push(Seq::empty(), flat(e, cx, level)[0], alg);
            assert(flat(e, cx, level) =~= Seq::empty().push(flat(e, cx, level)[0]));
        },
        ExprNode::Var(i) => {
            if i >= n_vars && i - n_vars < exprs.len() && rank[i - n_vars] < level {
                lemma_flat_meaning(
                    exprs[i - n_vars],
                    exprs,
                    rank,
                    n_vars,
                    funcs,
                    rank[i - n_vars],
                    alg,
                );
            } else {
                lemma_run_push(Seq::empty(), flat(e, cx, level)[0], alg);
                assert(flat(e, cx, level) =~= Seq::empty().push(flat(e, cx, level)[0]));
            }
        },
        ExprNode::Binary(op, l, r) => {
            lemma_flat_meaning(*l, exprs, rank, n_vars, funcs, level, alg);
            lemma_flat_meaning(*r, exprs, rank, n_vars, funcs, level, alg);
            lemma_flat_ordered(*r, cx, level);
            let a = flat(*l, cx, level);
            let b = flat(*r, cx, level);
            lemma_run_len(a, alg);
            lemma_run_len(b, alg);
            lemma_run_join(a, b, alg);
            lemma_run_push(
                join(a, b),
                OpModel::Binary(op, a.len() - 1, join(a, b).len() - 1),
                alg,
            );
        },
        ExprNode::Unary(op, arg) => {
            lemma_flat_meaning(*arg, exprs, rank, n_vars, funcs, level, alg);
            let a = flat(*arg, cx, level);
            lemma_run_len(a, alg);
            lemma_run_push(a, OpModel::Unary(op, a.len() - 1), alg);
        },
        ExprNode::Nary(op, args) => {
            if args@.len() == 0 {
                lemma_run_push(Seq::empty(), flat(e, cx, level)[0], alg);
                assert(flat(e, cx, level) =~= Seq::empty().push(flat(e, cx, level)[0]));
            } else {
                lemma_nary_meaning(op, args@, exprs, rank, n_vars, funcs, level, alg);
            }
        },
        ExprNode::If(c, t, f) => {
            lemma_flat_meaning(*t, exprs, rank, n_vars, funcs, level, alg);
            lemma_flat_ordered(*t, cx, level);
            lemma_run_len(flat(*t, cx, level), alg);
            lemma_run_join(
                join(flat(*c, cx, level), flat(*f, cx, level)),
                flat(*t, cx, level),
                alg,
            );
        },
        ExprNode::Funcall { id, args } => {
            lemma_args_meaning(args@, exprs, rank, n_vars, funcs, level, alg);
            let (ops, list) = flat_args(args@, cx, level);
            lemma_run_push(ops, OpModel::Call(funcs[id].0 as int, funcs[id].1@, list), alg);
        },
    }
}

proof fn lemma_nary_meaning<T>(
    op: NaryOp,
    es: Seq<ExprNode>,
    exprs: Seq<ExprNode>,
    rank: Seq<nat>,
    n_vars: int,
    funcs: Map<usize, (usize, String)>,
    level: nat,
    alg: Algebra<T>,
)
    requires
        es.len() > 0,
    ensures
        flat_nary(op, es, inline_context(exprs, rank, n_vars, funcs), level).len() > 0,
        run(flat_nary(op, es, inline_context(exprs, rank, n_vars, funcs), level), alg).len() > 0,
        run(flat_nary(op, es, inline_context(exprs, rank, n_vars, funcs), level), alg).last()
            == meaning_nary(op, es, exprs, rank, n_vars, funcs, level, alg),
    decreases level, es,
{
    let cx = inline_context(exprs, rank, n_vars, funcs);
    if es.len() == 1 {
        lemma_flat_meaning(es[0], exprs, rank, n_vars, funcs, level, alg);
        lemma_flat_ordered(es[0], cx, level);
    } else {
        lemma_nary_meaning(op, es.drop_last(), exprs, rank, n_vars, funcs, level, alg);
        lemma_flat_meaning(es.last(), exprs, rank, n_vars, funcs, level, alg);
        lemma_flat_ordered(es.last(), cx, level);
        let acc = flat_nary(op, es.drop_last(), cx, level);
        let tail = flat(es.last(), cx, level);
        lemma_run_len(acc, alg);
        lemma_run_len(tail, alg);
        lemma_run_join(acc, tail, alg);
        lemma_run_combine(op, join(acc, tail), acc.len() - 1, join(acc, tail).len() - 1, alg);
    }
}

proof fn lemma_args_meaning<T>(
    es: Seq<ExprNode>,
    exprs: Seq<ExprNode>,
    rank: Seq<nat>,
    n_vars: int,
    funcs: Map<usize, (usize, String)>,
    level: nat,
    alg: Algebra<T>,
)
    ensures
        ({
            let (ops, list) = flat_args(es, inline_context(exprs, rank, n_vars, funcs), level);
            &&& list.len() == es.len()
            &&& forall|i: int|
                0 <= i < list.len() ==> match #[trigger] list[i] {
                    ArgModel::Tape(t) => 0 <= t < ops.len(),
                    ArgModel::Str(_) => true,
                }
            &&& arg_values(list, run(ops, alg)) == meaning_args(
                es,
                exprs,
                rank,
                n_vars,
                funcs,
                level,
                alg,
            )
        }),
    decreases level, es,
{
    let cx = inline_context(exprs, rank, n_vars, funcs);
    let (ops, list) = flat_args(es, cx, level);
    if es.len() == 0 {
        assert(arg_values(list, run(ops, alg)) =~= Seq::empty());
    } else {
        lemma_args_meaning(es.drop_last(), exprs, rank, n_vars, funcs, level, alg);
        let (ops0, list0) = flat_args(es.drop_last(), cx, level);
        lemma_run_len(ops0, alg);
        lemma_run_len(ops, alg);
        match es.last() {
            ExprNode::StringLiteral(s) => {
                assert(arg_values(list, run(ops, alg)) =~= arg_values(
                    list0,
                    run(ops0, alg),
                ).push(ArgValue::Str(s@)));
            },
            _ => {
                lemma_flat_meaning(es.last(), exprs, rank, n_vars, funcs, level, alg);
                lemma_flat_ordered(es.last(), cx, level);
                let tail = flat(es.last(), cx, level);
                lemma_run_len(tail, alg);
                lemma_run_join(ops0, tail, alg);
                assert forall|i: int| 0 <= i < list0.len() implies arg_values(
                    list,
                    run(ops, alg),
                )[i] == arg_values(list0, run(ops0, alg))[i] by {
                    assert(list[i] == list0[i]);
                }
                assert(arg_values(list, run(ops, alg)) =~= arg_values(
                    list0,
                    run(ops0, alg),
                ).push(
                    ArgValue::Num(
                        meaning(es.last(), exprs, rank, n_vars, funcs, level, alg),
                    ),
                ));
            },
        }
    }
}

} // verus!
