//! Tapes that are built from cached common expressions.

use crate::nl::autodiff::{
    all_flattenable, cache_tapes, cached_context, flat, flat_args, flat_cached, flat_nary,
    flattenable, inline_context, inlined, CommonModel, FlattenContext,
};
use crate::nl::expr::{ExprNode, NaryOp};
use vstd::prelude::*;

verus! {

/// Whatever ranks bound the inlining, the tape is the same.
proof fn lemma_rank_free(
    e: ExprNode,
    cx: FlattenContext,
    level: nat,
    cx2: FlattenContext,
    level2: nat,
)
    requires
        cx.common matches CommonModel::Inline { exprs, rank } && cx2.common
            matches CommonModel::Inline { exprs: exprs2, rank: rank2 } && exprs == exprs2,
        cx.n_vars == cx2.n_vars,
        cx.funcs == cx2.funcs,
        flattenable(e, cx, level),
        flattenable(e, cx2, level2),
    ensures
        flat(e, cx, level) == flat(e, cx2, level2),
    decreases level, e,
{
    match e {
        ExprNode::Var(i) => {
            if i >= cx.n_vars {
                match (cx.common, cx2.common) {
                    (
                        CommonModel::Inline { exprs, rank },
                        CommonModel::Inline { exprs: exprs2, rank: rank2 },
                    ) => {
                        let k = i - cx.n_vars;
                        if k < exprs.len() {
                            lemma_rank_free(exprs[k], cx, rank[k], cx2, rank2[k]);
                        }
                    },
                    _ => {},
                }
            }
        },
        ExprNode::Binary(_, l, r) => {
            lemma_rank_free(*l, cx, level, cx2, level2);
            lemma_rank_free(*r, cx, level, cx2, level2);
        },
        ExprNode::Unary(_, arg) => {
            lemma_rank_free(*arg, cx, level, cx2, level2);
        },
        ExprNode::Nary(op, args) => {
            lemma_nary_rank_free(op, args@, cx, level, cx2, level2);
        },
        ExprNode::If(c, t, f) => {
            lemma_rank_free(*c, cx, level, cx2, level2);
            lemma_rank_free(*t, cx, level, cx2, level2);
            lemma_rank_free(*f, cx, level, cx2, level2);
        },
        ExprNode::Funcall { id, args } => {
            lemma_args_rank_free(args@, cx, level, cx2, level2);
        },
        _ => {},
    }
}

proof fn lemma_nary_rank_free(
    op: NaryOp,
    es: Seq<ExprNode>,
    cx: FlattenContext,
    level: nat,
    cx2: FlattenContext,
    level2: nat,
)
    requires
        cx.common matches CommonModel::Inline { exprs, rank } && cx2.common
            matches CommonModel::Inline { exprs: exprs2, rank: rank2 } && exprs == exprs2,
        cx.n_vars == cx2.n_vars,
        cx.funcs == cx2.funcs,
        all_flattenable(es, cx, level),
        all_flattenable(es, cx2, level2),
    ensures
        flat_nary(op, es, cx, level) == flat_nary(op, es, cx2, level2),
    decreases level, es,
{
    if es.len() > 0 {
        lemma_rank_free(es.last(), cx, level, cx2, level2);
        if es.len() > 1 {
            lemma_nary_rank_free(op, es.drop_last(), cx, level, cx2, level2);
        }
    }
}

proof fn lemma_args_rank_free(
    es: Seq<ExprNode>,
    cx: FlattenContext,
    level: nat,
    cx2: FlattenContext,
    level2: nat,
)
    requires
        cx.common matches CommonModel::Inline { exprs, rank } && cx2.common
            matches CommonModel::Inline { exprs: exprs2, rank: rank2 } && exprs == exprs2,
        cx.n_vars == cx2.n_vars,
        cx.funcs == cx2.funcs,
        all_flattenable(es, cx, level),
        all_flattenable(es, cx2, level2),
    ensures
        flat_args(es, cx, level) == flat_args(es, cx2, level2),
    decreases level, es,
{
    if es.len() > 0 {
        lemma_rank_free(es.last(), cx, level, cx2, level2);
        lemma_args_rank_free(es.drop_last(), cx, level, cx2, level2);
    }
}

/// The place of each common expression in their list.
pub open spec fn list_order(exprs: Seq<ExprNode>) -> Seq<nat> {
    Seq::new(exprs.len(), |k: int| k as nat)
}

/// `e` refers to the first `level` common expressions only, each of these to
/// earlier ones only, and every function that is called is resolved.
pub open spec fn refers_back(
    e: ExprNode,
    exprs: Seq<ExprNode>,
    n_vars: int,
    funcs: Map<usize, (usize, String)>,
    level: nat,
) -> bool {
    flattenable(e, inline_context(exprs, list_order(exprs), n_vars, funcs), level)
}

proof fn lemma_cache_entry(
    exprs: Seq<ExprNode>,
    n_vars: int,
    funcs: Map<usize, (usize, String)>,
    count: nat,
    k: nat,
)
    requires
        k < count,
    ensures
        cache_tapes(exprs, n_vars, funcs, count).len() == count,
        cache_tapes(exprs, n_vars, funcs, count)[k as int] == flat_cached(
            exprs[k as int],
            cache_tapes(exprs, n_vars, funcs, k),
            n_vars,
            funcs,
        ),
    decreases count,
{
    lemma_cache_len(exprs, n_vars, funcs, (count - 1) as nat);
    if k + 1 < count {
        lemma_cache_entry(exprs, n_vars, funcs, (count - 1) as nat, k);
    }
}

proof fn lemma_cache_len(
    exprs: Seq<ExprNode>,
    n_vars: int,
    funcs: Map<usize, (usize, String)>,
    count: nat,
)
    ensures
        cache_tapes(exprs, n_vars, funcs, count).len() == count,
    decreases count,
{
    if count > 0 {
        lemma_cache_len(exprs, n_vars, funcs, (count - 1) as nat);
    }
}

proof fn lemma_cached(
    e: ExprNode,
    exprs: Seq<ExprNode>,
    n_vars: int,
    funcs: Map<usize, (usize, String)>,
    level: nat,
    count: nat,
)
    requires
        refers_back(e, exprs, n_vars, funcs, level),
        level <= count <= exprs.len(),
    ensures
        flat(e, inline_context(exprs, list_order(exprs), n_vars, funcs), level) == flat(
            e,
            cached_context(cache_tapes(exprs, n_vars, funcs, count), n_vars, funcs),
            0,
        ),
    decreases level, e,
{
    match e {
        ExprNode::Var(i) => {
            lemma_cache_len(exprs, n_vars, funcs, count);
            let k = i - n_vars;
            if 0 <= k < exprs.len() {
                assert(list_order(exprs)[k] == k as nat);
                lemma_cached(exprs[k], exprs, n_vars, funcs, k as nat, k as nat);
                lemma_cache_entry(exprs, n_vars, funcs, count, k as nat);
            }
        },
        ExprNode::Binary(_, l, r) => {
            lemma_cached(*l, exprs, n_vars, funcs, level, count);
            lemma_cached(*r, exprs, n_vars, funcs, level, count);
        },
        ExprNode::Unary(_, arg) => {
            lemma_cached(*arg, exprs, n_vars, funcs, level, count);
        },
        ExprNode::Nary(op, args) => {
            lemma_nary_cached(op, args@, exprs, n_vars, funcs, level, count);
        },
        ExprNode::If(c, t, f) => {
            lemma_cached(*c, exprs, n_vars, funcs, level, count);
            lemma_cached(*t, exprs, n_vars, funcs, level, count);
            lemma_cached(*f, exprs, n_vars, funcs, level, count);
        },
        ExprNode::Funcall { id, args } => {
            lemma_args_cached(args@, exprs, n_vars, funcs, level, count);
        },
        _ => {},
    }
}

proof fn lemma_nary_cached(
    op: NaryOp,
    es: Seq<ExprNode>,
    exprs: Seq<ExprNode>,
    n_vars: int,
    funcs: Map<usize, (usize, String)>,
    level: nat,
    count: nat,
)
    requires
        all_flattenable(es, inline_context(exprs, list_order(exprs), n_vars, funcs), level),
        level <= count <= exprs.len(),
    ensures
        flat_nary(op, es, inline_context(exprs, list_order(exprs), n_vars, funcs), level)
            == flat_nary(
            op,
            es,
            cached_context(cache_tapes(exprs, n_vars, funcs, count), n_vars, funcs),
            0,
        ),
    decreases level, es,
{
    if es.len() > 0 {
        lemma_cached(es.last(), exprs, n_vars, funcs, level, count);
        if es.len() > 1 {
            lemma_nary_cached(op, es.drop_last(), exprs, n_vars, funcs, level, count);
        }
    }
}

proof fn lemma_args_cached(
    es: Seq<ExprNode>,
    exprs: Seq<ExprNode>,
    n_vars: int,
    funcs: Map<usize, (usize, String)>,
    level: nat,
    count: nat,
)
    requires
        all_flattenable(es, inline_context(exprs, list_order(exprs), n_vars, funcs), level),
        level <= count <= exprs.len(),
    ensures
        flat_args(es, inline_context(exprs, list_order(exprs), n_vars, funcs), level)
            == flat_args(
            es,
            cached_context(cache_tapes(exprs, n_vars, funcs, count), n_vars, funcs),
            0,
        ),
    decreases level, es,
{
    if es.len() > 0 {
        lemma_cached(es.last(), exprs, n_vars, funcs, level, count);
        lemma_args_cached(es.drop_last(), exprs, n_vars, funcs, level, count);
    }
}

/// The tape with cached common expressions is the one with inlined ones, as long as
/// common expressions refer to earlier ones only.
pub proof fn caching_changes_nothing(
    e: ExprNode,
    exprs: Seq<ExprNode>,
    n_vars: int,
    funcs: Map<usize, (usize, String)>,
)
    requires
        refers_back(e, exprs, n_vars, funcs, exprs.len()),
    ensures
        flat_cached(e, cache_tapes(exprs, n_vars, funcs, exprs.len()), n_vars, funcs) == inlined(
            e,
            exprs,
            n_vars,
            funcs,
        ),
{
    let ordered = inline_context(exprs, list_order(exprs), n_vars, funcs);
    let (rank, level) = choose|rank: Seq<nat>, level: nat| #[trigger]
        flattenable(e, inline_context(exprs, rank, n_vars, funcs), level);
    assert(flattenable(e, ordered, exprs.len()));
    lemma_rank_free(
        e,
        inline_context(exprs, rank, n_vars, funcs),
        level,
        ordered,
        exprs.len(),
    );
    lemma_cached(e, exprs, n_vars, funcs, exprs.len(), exprs.len());
}

} // verus!
