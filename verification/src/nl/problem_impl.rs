//! The problem that an `.nl` file states.

use crate::float::{eq, neg, negated, num_eq, FloatOp, Fpu, ZERO};
use crate::kkt::barrier::zeros;
use crate::linear_solver::{copy_indices, copy_numbers};
use crate::nl::autodiff::{
    cache_tapes, cached_context, calls_resolved, flat, flat_args, flat_cached, flat_nary, join,
    op_model, ordered, shift_op, CommonExprCache, CommonModel, ExternalResolver, FlattenContext,
    OpModel, Tape, TapeOp,
};
use crate::nl::expr::{ExprNode, NaryOp};
use crate::nl::externals::{
    calls, lemma_known_calls, registered, resolution_error, resolve_externals, resolves,
    string_texts, uses,
};
use crate::nl::meaning::run;
use crate::nl::parser::{func_models, lists, NlFileData};
use crate::nl::sparsity::coupled;
use crate::nl::sweeps::{
    float_algebra, gradient_of, hessian_state, slot, slots_below, variable_list, variables_below,
    ExternalArg, ExternalValue, Externals,
};
use crate::problem::{NlpProblem, ProblemShape};
use crate::sorted::{increasing, insert_pair, pairs_increasing};
use std::collections::HashMap;
use vstd::prelude::*;

verus! {

broadcast use vstd::std_specs::hash::group_hash_axioms;

proof fn lemma_join_variables(a: Seq<OpModel>, b: Seq<OpModel>, n: int)
    requires
        variables_below(a, n),
        variables_below(b, n),
    ensures
        variables_below(join(a, b), n),
{
    let j = join(a, b);
    assert forall|i: int| 0 <= i < j.len() implies match #[trigger] j[i] {
        OpModel::Var(v) => 0 <= v < n,
        _ => true,
    } by {
        if i < a.len() {
            assert(j[i] == a[i]);
        } else {
            assert(j[i] == shift_op(b[i - a.len()], a.len() as int));
            assert(match b[i - a.len()] {
                OpModel::Var(v) => 0 <= v < n,
                _ => true,
            });
        }
    }
}

/// The variables on all cached tapes are below the number of variables.
spec fn cache_below(cx: FlattenContext) -> bool {
    match cx.common {
        CommonModel::Inline { exprs, rank } => true,
        CommonModel::Cached { tapes } => forall|k: int|
            0 <= k < tapes.len() ==> variables_below(#[trigger] tapes[k], cx.n_vars),
    }
}

proof fn lemma_flat_variables(e: ExprNode, cx: FlattenContext, level: nat)
    requires
        cache_below(cx),
    ensures
        variables_below(flat(e, cx, level), cx.n_vars),
    decreases level, e,
{
    match e {
        ExprNode::Var(i) => {
            if i >= cx.n_vars {
                match cx.common {
                    CommonModel::Inline { exprs, rank } => {
                        let k = i - cx.n_vars;
                        if k < exprs.len() && rank[k] < level {
                            lemma_flat_variables(exprs[k], cx, rank[k]);
                        }
                    },
                    CommonModel::Cached { tapes } => {},
                }
            }
        },
        ExprNode::Binary(op, l, r) => {
            lemma_flat_variables(*l, cx, level);
            lemma_flat_variables(*r, cx, level);
            lemma_join_variables(flat(*l, cx, level), flat(*r, cx, level), cx.n_vars);
        },
        ExprNode::Unary(op, arg) => {
            lemma_flat_variables(*arg, cx, level);
        },
        ExprNode::Nary(op, args) => {
            if args@.len() > 0 {
                lemma_nary_variables(op, args@, cx, level);
            }
        },
        ExprNode::If(c, t, f) => {
            lemma_flat_variables(*c, cx, level);
            lemma_flat_variables(*t, cx, level);
            lemma_flat_variables(*f, cx, level);
            lemma_join_variables(flat(*c, cx, level), flat(*f, cx, level), cx.n_vars);
            lemma_join_variables(
                join(flat(*c, cx, level), flat(*f, cx, level)),
                flat(*t, cx, level),
                cx.n_vars,
            );
        },
        ExprNode::Funcall { id, args } => {
            lemma_args_variables(args@, cx, level);
        },
        _ => {},
    }
}

proof fn lemma_nary_variables(op: NaryOp, es: Seq<ExprNode>, cx: FlattenContext, level: nat)
    requires
        cache_below(cx),
        es.len() > 0,
    ensures
        variables_below(flat_nary(op, es, cx, level), cx.n_vars),
    decreases level, es,
{
    if es.len() == 1 {
        lemma_flat_variables(es[0], cx, level);
    } else {
        lemma_nary_variables(op, es.drop_last(), cx, level);
        lemma_flat_variables(es.last(), cx, level);
        lemma_join_variables(
            flat_nary(op, es.drop_last(), cx, level),
            flat(es.last(), cx, level),
            cx.n_vars,
        );
    }
}

proof fn lemma_args_variables(es: Seq<ExprNode>, cx: FlattenContext, level: nat)
    requires
        cache_below(cx),
    ensures
        variables_below(flat_args(es, cx, level).0, cx.n_vars),
    decreases level, es,
{
    if es.len() > 0 {
        lemma_args_variables(es.drop_last(), cx, level);
        match es.last() {
            ExprNode::StringLiteral(s) => {},
            _ => {
                lemma_flat_variables(es.last(), cx, level);
                lemma_join_variables(
                    flat_args(es.drop_last(), cx, level).0,
                    flat(es.last(), cx, level),
                    cx.n_vars,
                );
            },
        }
    }
}

proof fn lemma_cache_variables(
    exprs: Seq<ExprNode>,
    n_vars: int,
    funcs: Map<usize, (usize, String)>,
    count: nat,
)
    ensures
        forall|k: int|
            0 <= k < cache_tapes(exprs, n_vars, funcs, count).len() ==> variables_below(
                #[trigger] cache_tapes(exprs, n_vars, funcs, count)[k],
                n_vars,
            ),
    decreases count,
{
    if count > 0 {
        lemma_cache_variables(exprs, n_vars, funcs, (count - 1) as nat);
        let earlier = cache_tapes(exprs, n_vars, funcs, (count - 1) as nat);
        lemma_flat_variables(exprs[count - 1], cached_context(earlier, n_vars, funcs), 0);
    }
}

/// The list with the key at its end, unless it is already there.
pub open spec fn with_key(list: Seq<(usize, usize)>, key: (usize, usize)) -> Seq<(usize, usize)> {
    if list.contains(key) {
        list
    } else {
        list.push(key)
    }
}

/// The list with the variables of the first `k` linear terms of row `i`.
pub open spec fn with_terms(
    list: Seq<(usize, usize)>,
    i: usize,
    terms: Seq<(usize, u64)>,
    k: nat,
) -> Seq<(usize, usize)>
    decreases k,
{
    if k == 0 {
        list
    } else {
        with_key(with_terms(list, i, terms, (k - 1) as nat), (i, terms[k - 1].0))
    }
}

/// The variables of the linear terms of the first `i` rows.
pub open spec fn linear_entries(rows: Seq<Seq<(usize, u64)>>, i: nat) -> Seq<(usize, usize)>
    decreases i,
{
    if i == 0 {
        Seq::empty()
    } else {
        with_terms(
            linear_entries(rows, (i - 1) as nat),
            (i - 1) as usize,
            rows[i - 1],
            rows[i - 1].len(),
        )
    }
}

/// The list with the variables among the first `k` operations of row `i`.
pub open spec fn with_operations(
    list: Seq<(usize, usize)>,
    i: usize,
    ops: Seq<OpModel>,
    k: nat,
) -> Seq<(usize, usize)>
    decreases k,
{
    if k == 0 {
        list
    } else {
        let before = with_operations(list, i, ops, (k - 1) as nat);
        match ops[k - 1] {
            OpModel::Var(j) => with_key(before, (i, j as usize)),
            _ => before,
        }
    }
}

/// The list with the variables on the tapes of the first `i` rows.
pub open spec fn with_tapes(
    list: Seq<(usize, usize)>,
    tapes: Seq<Option<Seq<OpModel>>>,
    i: nat,
) -> Seq<(usize, usize)>
    decreases i,
{
    if i == 0 {
        list
    } else {
        let before = with_tapes(list, tapes, (i - 1) as nat);
        match tapes[i - 1] {
            Some(ops) => with_operations(before, (i - 1) as usize, ops, ops.len()),
            None => before,
        }
    }
}

/// The entries of the Jacobian: for each constraint the variables of its linear
/// terms, then those on the tapes that are not among them.
pub open spec fn jacobian_entries(
    rows: Seq<Seq<(usize, u64)>>,
    tapes: Seq<Option<Seq<OpModel>>>,
) -> Seq<(usize, usize)> {
    with_tapes(linear_entries(rows, rows.len()), tapes, tapes.len())
}

/// The tables tell the place of each entry of the list.
pub open spec fn indexes(map: Seq<HashMap<usize, usize>>, list: Seq<(usize, usize)>) -> bool {
    &&& forall|k: int| 0 <= k < list.len() ==> (#[trigger] list[k]).0 < map.len()
    &&& forall|k: int|
        0 <= k < list.len() ==> slot(map, (#[trigger] list[k]).0 as int, list[k].1 as int) == Some(
            k as usize,
        )
    &&& forall|i: int, j: usize|
        0 <= i < map.len() && #[trigger] map[i]@.contains_key(j) ==> map[i]@[j] < list.len()
            && list[map[i]@[j] as int] == (i as usize, j)
}

proof fn lemma_indexed(
    map: Seq<HashMap<usize, usize>>,
    list: Seq<(usize, usize)>,
    i: usize,
    j: usize,
)
    requires
        indexes(map, list),
        i < map.len(),
        list.len() <= usize::MAX,
    ensures
        map[i as int]@.contains_key(j) <==> list.contains((i, j)),
{
    if list.contains((i, j)) {
        let k = choose|k: int| 0 <= k < list.len() && list[k] == (i, j);
        assert(slot(map, list[k].0 as int, list[k].1 as int) == Some(k as usize));
    }
    if map[i as int]@.contains_key(j) {
        assert(list[map[i as int]@[j] as int] == (i, j));
    }
}

/// Adds an entry to the list and its tables, unless it is already there.
fn add_key(
    list: &mut Vec<(usize, usize)>,
    map: &mut Vec<HashMap<usize, usize>>,
    i: usize,
    j: usize,
)
    requires
        indexes(old(map)@, old(list)@),
        i < old(map)@.len(),
    ensures
        indexes(final(map)@, final(list)@),
        final(map)@.len() == old(map)@.len(),
        final(list)@ == with_key(old(list)@, (i, j)),
{
    let pos: usize = list.len();
    proof {
        lemma_indexed(map@, list@, i, j);
    }
    if !map[i].contains_key(&j) {
        let ghost was = map@;
        let ghost before = list@;
        map[i].insert(j, pos);
        list.push((i, j));
        proof {
            assert forall|q: int| 0 <= q < map@.len() && q != i implies map@[q] == was[q] by {}
            assert(map@[i as int]@ == was[i as int]@.insert(j, pos));
            assert forall|k: int| 0 <= k < list@.len() implies slot(
                map@,
                (#[trigger] list@[k]).0 as int,
                list@[k].1 as int,
            ) == Some(k as usize) by {
                if k < before.len() {
                    assert(list@[k] == before[k]);
                    assert(slot(was, before[k].0 as int, before[k].1 as int) == Some(k as usize));
                    assert(before[k] != (i, j)) by {
                        if before[k] == (i, j) {
                            assert(before.contains((i, j)));
                        }
                    }
                }
            }
            assert forall|r: int, c: usize|
                0 <= r < map@.len() && #[trigger] map@[r]@.contains_key(c) implies map@[r]@[c]
                < list@.len() && list@[map@[r]@[c] as int] == (r as usize, c) by {
                if r == i && c == j {
                } else {
                    assert(was[r]@.contains_key(c));
                    assert(before[was[r]@[c] as int] == (r as usize, c));
                }
            }
        }
    }
}

fn empty_tables(n: usize) -> (map: Vec<HashMap<usize, usize>>)
    ensures
        map@.len() == n,
        indexes(map@, Seq::empty()),
{
    let mut map: Vec<HashMap<usize, usize>> = Vec::with_capacity(n);
    for i in 0..n
        invariant
            map@.len() == i,
            forall|k: int|
                0 <= k < i ==> (#[trigger] map@[k])@ == Map::<usize, usize>::empty(),
    {
        let table: HashMap<usize, usize> = HashMap::new();
        map.push(table);
    }
    map
}

pub open spec fn tape_model(t: Option<Tape>) -> Option<Seq<OpModel>> {
    match t {
        Some(t) => Some(t.model()),
        None => None,
    }
}

pub open spec fn tape_models(t: Seq<Option<Tape>>) -> Seq<Option<Seq<OpModel>>> {
    Seq::new(t.len(), |i: int| tape_model(t[i]))
}

/// The tape can be evaluated with `n` variables.
pub open spec fn tape_fits(t: Option<Seq<OpModel>>, n: int) -> bool {
    t matches Some(ops) ==> ordered(ops) && ops.len() > 0 && variables_below(ops, n)
}

/// `start` plus the first `k` linear terms.
pub open spec fn terms_added<F: Fn(FloatOp, u64, u64) -> u64>(
    start: u64,
    terms: Seq<(usize, u64)>,
    x: Seq<u64>,
    k: nat,
    fpu: Fpu<F>,
) -> u64
    decreases k,
{
    if k == 0 {
        start
    } else {
        fpu.sum(
            terms_added(start, terms, x, (k - 1) as nat, fpu),
            fpu.product(terms[k - 1].1, x[terms[k - 1].0 as int]),
        )
    }
}

/// The gradient with the coefficients of the first `k` linear terms.
pub open spec fn coefficients_added<F: Fn(FloatOp, u64, u64) -> u64>(
    grad: Seq<u64>,
    terms: Seq<(usize, u64)>,
    k: nat,
    fpu: Fpu<F>,
) -> Seq<u64>
    decreases k,
{
    if k == 0 {
        grad
    } else {
        let before = coefficients_added(grad, terms, (k - 1) as nat, fpu);
        let j = terms[k - 1].0 as int;
        if j < before.len() {
            before.update(j, fpu.sum(before[j], terms[k - 1].1))
        } else {
            before
        }
    }
}

/// Value of a tape plus linear terms.
pub open spec fn row_value<
    F: Fn(FloatOp, u64, u64) -> u64,
    E: Fn(usize, &String, &Vec<ExternalArg>, bool, bool) -> ExternalValue,
>(
    t: Option<Seq<OpModel>>,
    terms: Seq<(usize, u64)>,
    x: Seq<u64>,
    fpu: Fpu<F>,
    ext: Externals<E>,
) -> u64 {
    let start = match t {
        Some(ops) => fpu.sum(ZERO, run(ops, float_algebra(x, fpu, ext)).last()),
        None => ZERO,
    };
    terms_added(start, terms, x, terms.len(), fpu)
}

/// Gradient of a tape plus linear terms.
pub open spec fn row_gradient<
    F: Fn(FloatOp, u64, u64) -> u64,
    E: Fn(usize, &String, &Vec<ExternalArg>, bool, bool) -> ExternalValue,
>(
    t: Option<Seq<OpModel>>,
    terms: Seq<(usize, u64)>,
    x: Seq<u64>,
    n: nat,
    fpu: Fpu<F>,
    ext: Externals<E>,
) -> Seq<u64> {
    let start = match t {
        Some(ops) => gradient_of(ops, x, n, fpu, ext),
        None => zeros(n),
    };
    coefficients_added(start, terms, terms.len(), fpu)
}

/// `out` with the weighted second derivatives of a tape.
pub open spec fn curvature_added<
    F: Fn(FloatOp, u64, u64) -> u64,
    E: Fn(usize, &String, &Vec<ExternalArg>, bool, bool) -> ExternalValue,
>(
    t: Option<Seq<OpModel>>,
    x: Seq<u64>,
    weight: u64,
    map: Seq<HashMap<usize, usize>>,
    out: Seq<u64>,
    fpu: Fpu<F>,
    ext: Externals<E>,
) -> Seq<u64> {
    match t {
        None => out,
        Some(ops) => if ops.len() == 0 || num_eq(weight, ZERO) {
            out
        } else {
            hessian_state(
                ops,
                run(ops, float_algebra(x, fpu, ext)),
                variable_list(ops),
                weight,
                map,
                out,
                variable_list(ops).len(),
                fpu,
                ext,
            )
        },
    }
}

/// `out` with the second derivatives of the first `k` constraints.
pub open spec fn curvatures_added<
    F: Fn(FloatOp, u64, u64) -> u64,
    E: Fn(usize, &String, &Vec<ExternalArg>, bool, bool) -> ExternalValue,
>(
    tapes: Seq<Option<Seq<OpModel>>>,
    x: Seq<u64>,
    lambda: Seq<u64>,
    map: Seq<HashMap<usize, usize>>,
    out: Seq<u64>,
    k: nat,
    fpu: Fpu<F>,
    ext: Externals<E>,
) -> Seq<u64>
    decreases k,
{
    if k == 0 {
        out
    } else {
        curvature_added(
            tapes[k - 1],
            x,
            lambda[k - 1],
            map,
            curvatures_added(tapes, x, lambda, map, out, (k - 1) as nat, fpu, ext),
            fpu,
            ext,
        )
    }
}

/// A tape of the problem couples the two variables.
pub open spec fn problem_couples(
    obj: Option<Seq<OpModel>>,
    cons: Seq<Option<Seq<OpModel>>>,
    u: usize,
    v: usize,
) -> bool {
    ||| obj matches Some(ops) && coupled(ops, u, v)
    ||| exists|i: int|
        0 <= i < cons.len() && (#[trigger] cons[i] matches Some(ops) && coupled(ops, u, v))
}

/// A problem from an `.nl` file.
pub struct NlProblem<F, E> {
    pub n: usize,
    pub m: usize,
    pub x_l: Vec<u64>,
    pub x_u: Vec<u64>,
    pub g_l: Vec<u64>,
    pub g_u: Vec<u64>,
    pub x0: Vec<u64>,
    pub maximize: bool,
    /// Nonlinear part of the objective.
    pub obj_tape: Option<Tape>,
    /// Linear terms of the objective.
    pub obj_linear: Vec<(usize, u64)>,
    /// Nonlinear part of each constraint.
    pub con_tapes: Vec<Option<Tape>>,
    /// Linear terms of each constraint.
    pub con_linear: Vec<Vec<(usize, u64)>>,
    pub jac_rows: Vec<usize>,
    pub jac_cols: Vec<usize>,
    /// The place of each entry of the Jacobian, one table per row.
    pub jac_map: Vec<HashMap<usize, usize>>,
    pub hess_rows: Vec<usize>,
    pub hess_cols: Vec<usize>,
    /// The place of each entry of the Hessian, one table per row.
    pub hess_map: Vec<HashMap<usize, usize>>,
    pub fpu: Fpu<F>,
    pub ext: Externals<E>,
}

/// Rows and columns of a list of entries.
pub open spec fn zipped(rows: Seq<usize>, cols: Seq<usize>) -> Seq<(usize, usize)> {
    Seq::new(rows.len(), |k: int| (rows[k], cols[k]))
}

/// All variables in the terms are below `n`.
pub open spec fn terms_below(terms: Seq<(usize, u64)>, n: nat) -> bool {
    forall|k: int| 0 <= k < terms.len() ==> (#[trigger] terms[k]).0 < n
}

impl<
    F: Fn(FloatOp, u64, u64) -> u64,
    E: Fn(usize, &String, &Vec<ExternalArg>, bool, bool) -> ExternalValue,
> NlProblem<F, E> {
    pub open spec fn obj_model(&self) -> Option<Seq<OpModel>> {
        tape_model(self.obj_tape)
    }

    pub open spec fn con_models(&self) -> Seq<Option<Seq<OpModel>>> {
        tape_models(self.con_tapes@)
    }

    /// The tapes and their derivatives are those of the tables.
    pub open spec fn tables_fit(&self) -> bool {
        &&& tape_fits(self.obj_model(), self.n as int)
        &&& forall|i: int|
            0 <= i < self.con_tapes@.len() ==> tape_fits(
                tape_model(#[trigger] self.con_tapes@[i]),
                self.n as int,
            )
        &&& self.jac_rows@.len() == self.jac_cols@.len()
        &&& zipped(self.jac_rows@, self.jac_cols@) == jacobian_entries(
            lists(self.con_linear@),
            self.con_models(),
        )
        &&& indexes(self.jac_map@, zipped(self.jac_rows@, self.jac_cols@))
        &&& self.jac_map@.len() >= self.con_tapes@.len()
        &&& self.hess_rows@.len() == self.hess_cols@.len()
        &&& pairs_increasing(zipped(self.hess_rows@, self.hess_cols@))
        &&& forall|y: (usize, usize)| #[trigger]
            zipped(self.hess_rows@, self.hess_cols@).contains(y) <==> y.0 >= y.1
                && problem_couples(self.obj_model(), self.con_models(), y.0, y.1)
        &&& indexes(self.hess_map@, zipped(self.hess_rows@, self.hess_cols@))
    }

    /// The problem can be evaluated.
    pub open spec fn well_formed(&self) -> bool {
        &&& self.fpu.sound()
        &&& self.ext.sound()
        &&& self.x_l@.len() == self.n
        &&& self.x_u@.len() == self.n
        &&& self.x0@.len() == self.n
        &&& self.g_l@.len() == self.m
        &&& self.g_u@.len() == self.m
        &&& self.con_tapes@.len() == self.m
        &&& self.con_linear@.len() == self.m
        &&& terms_below(self.obj_linear@, self.n as nat)
        &&& forall|i: int|
            0 <= i < self.m ==> terms_below((#[trigger] self.con_linear@[i])@, self.n as nat)
        &&& self.tables_fit()
    }

    pub open spec fn objective_value(&self, x: Seq<u64>) -> u64 {
        let v = row_value(self.obj_model(), self.obj_linear@, x, self.fpu, self.ext);
        if self.maximize {
            negated(v)
        } else {
            v
        }
    }

    pub open spec fn objective_gradient(&self, x: Seq<u64>) -> Seq<u64> {
        let g = row_gradient(
            self.obj_model(),
            self.obj_linear@,
            x,
            self.n as nat,
            self.fpu,
            self.ext,
        );
        if self.maximize {
            g.map_values(|v: u64| negated(v))
        } else {
            g
        }
    }

    pub open spec fn constraint_value(&self, i: int, x: Seq<u64>) -> u64 {
        row_value(
            self.con_models()[i],
            self.con_linear@[i]@,
            x,
            self.fpu,
            self.ext,
        )
    }

    pub open spec fn constraint_gradient(&self, i: int, x: Seq<u64>) -> Seq<u64> {
        row_gradient(
            self.con_models()[i],
            self.con_linear@[i]@,
            x,
            self.n as nat,
            self.fpu,
            self.ext,
        )
    }

    /// The entries of the Jacobian; one that is zero counts as plus zero.
    pub open spec fn jacobian_at(&self, x: Seq<u64>) -> Seq<u64> {
        Seq::new(
            self.jac_rows@.len(),
            |k: int|
                {
                    let v = self.constraint_gradient(
                        self.jac_rows@[k] as int,
                        x,
                    )[self.jac_cols@[k] as int];
                    if num_eq(v, ZERO) {
                        ZERO
                    } else {
                        v
                    }
                },
        )
    }

    pub open spec fn hessian_at(&self, x: Seq<u64>, obj_factor: u64, lambda: Seq<u64>) -> Seq<
        u64,
    > {
        let weight = if self.maximize {
            negated(obj_factor)
        } else {
            obj_factor
        };
        curvatures_added(
            self.con_models(),
            x,
            lambda,
            self.hess_map@,
            curvature_added(
                self.obj_model(),
                x,
                weight,
                self.hess_map@,
                zeros(self.hess_rows@.len()),
                self.fpu,
                self.ext,
            ),
            self.con_models().len(),
            self.fpu,
            self.ext,
        )
    }
}

/// The parts of the data have the sizes of the header, and no linear term lies
/// beyond the variables.
pub open spec fn data_fits(data: NlFileData) -> bool {
    let n = data.header.n_vars as nat;
    let m = data.header.n_constrs;
    &&& data.x_l@.len() == n
    &&& data.x_u@.len() == n
    &&& data.x0@.len() == n
    &&& data.g_l@.len() == m
    &&& data.g_u@.len() == m
    &&& data.con_exprs@.len() == m
    &&& data.con_linear@.len() == m
    &&& forall|i: int| 0 <= i < m ==> terms_below((#[trigger] data.con_linear@[i])@, n)
    &&& terms_below(objective_terms(data), n)
}

/// The first objective: its index, whether it is maximized, its nonlinear part.
pub open spec fn first_objective(data: NlFileData) -> (usize, bool, Option<ExprNode>) {
    if data.obj_exprs@.len() > 0 {
        data.obj_exprs@[0]
    } else {
        (0, false, None)
    }
}

/// The linear terms of the first objective.
pub open spec fn objective_terms(data: NlFileData) -> Seq<(usize, u64)> {
    let i = first_objective(data).0 as int;
    if i < data.obj_linear@.len() {
        data.obj_linear@[i]@
    } else {
        Seq::empty()
    }
}

/// The tape of an optional expression.
pub open spec fn expected_tape(
    e: Option<ExprNode>,
    data: NlFileData,
    funcs: Map<usize, (usize, String)>,
) -> Option<Seq<OpModel>> {
    match e {
        Some(e) => Some(
            flat_cached(
                e,
                cache_tapes(
                    data.common_exprs@,
                    data.header.n_vars as int,
                    funcs,
                    data.common_exprs@.len(),
                ),
                data.header.n_vars as int,
                funcs,
            ),
        ),
        None => None,
    }
}

/// The problem is the one that the data state.
pub open spec fn states<
    F: Fn(FloatOp, u64, u64) -> u64,
    E: Fn(usize, &String, &Vec<ExternalArg>, bool, bool) -> ExternalValue,
>(data: NlFileData, p: NlProblem<F, E>, funcs: Map<usize, (usize, String)>) -> bool {
    &&& p.n == data.header.n_vars
    &&& p.m == data.header.n_constrs
    &&& p.x_l@ == data.x_l@
    &&& p.x_u@ == data.x_u@
    &&& p.g_l@ == data.g_l@
    &&& p.g_u@ == data.g_u@
    &&& p.x0@ == data.x0@
    &&& p.maximize == first_objective(data).1
    &&& p.obj_linear@ == objective_terms(data)
    &&& lists(p.con_linear@) == lists(data.con_linear@)
    &&& p.obj_model() == expected_tape(first_objective(data).2, data, funcs)
    &&& p.con_models() == Seq::new(
        data.con_exprs@.len(),
        |i: int| expected_tape(data.con_exprs@[i], data, funcs),
    )
    &&& p.tables_fit()
}

/// The functions that the data call, in increasing order.
pub open spec fn lists_uses(ids: Seq<usize>, data: NlFileData) -> bool {
    increasing(ids) && forall|id: usize| #[trigger] ids.contains(id) <==> uses(data, id)
}

fn build_tape(
    e: &Option<ExprNode>,
    common: &Vec<ExprNode>,
    n: usize,
    cache: &CommonExprCache,
    resolver: &ExternalResolver,
    Ghost(data): Ghost<NlFileData>,
) -> (t: Option<Tape>)
    requires
        cache.well_formed(),
        common@ == data.common_exprs@,
        n == data.header.n_vars,
        cache.tapes() == cache_tapes(
            data.common_exprs@,
            n as int,
            resolver.funcs_by_id@,
            data.common_exprs@.len(),
        ),
        *e matches Some(x) ==> calls_resolved(x, resolver.funcs_by_id@),
    ensures
        tape_model(t) == expected_tape(*e, data, resolver.funcs_by_id@),
        tape_fits(tape_model(t), n as int),
{
    match e {
        None => None,
        Some(x) => {
            proof {
                lemma_cache_variables(
                    data.common_exprs@,
                    n as int,
                    resolver.funcs_by_id@,
                    data.common_exprs@.len(),
                );
                lemma_flat_variables(
                    *x,
                    cached_context(cache.tapes(), n as int, resolver.funcs_by_id@),
                    0,
                );
            }
            Some(Tape::build_cached_with_externals(x, common, n, cache, resolver))
        },
    }
}

/// The entries of the Jacobian, and where each of them is.
fn build_jacobian(con_linear: &Vec<Vec<(usize, u64)>>, con_tapes: &Vec<Option<Tape>>) -> (r: (
    Vec<(usize, usize)>,
    Vec<HashMap<usize, usize>>,
))
    ensures
        r.0@ == jacobian_entries(lists(con_linear@), tape_models(con_tapes@)),
        indexes(r.1@, r.0@),
        r.1@.len() >= con_tapes@.len(),
{
    let rows: usize = if con_linear.len() >= con_tapes.len() {
        con_linear.len()
    } else {
        con_tapes.len()
    };
    let ghost terms = lists(con_linear@);
    let ghost tapes = tape_models(con_tapes@);
    let mut list: Vec<(usize, usize)> = Vec::new();
    let mut map: Vec<HashMap<usize, usize>> = empty_tables(rows);
    assert(list@ =~= Seq::empty());
    for i in 0..con_linear.len()
        invariant
            con_linear@.len() <= rows,
            map@.len() == rows,
            terms == lists(con_linear@),
            indexes(map@, list@),
            list@ == linear_entries(terms, i as nat),
    {
        let row: &Vec<(usize, u64)> = &con_linear[i];
        let ghost before = list@;
        for k in 0..row.len()
            invariant
                i < rows,
                map@.len() == rows,
                indexes(map@, list@),
                list@ == with_terms(before, i, row@, k as nat),
        {
            add_key(&mut list, &mut map, i, row[k].0);
        }
        assert(terms[i as int] == row@);
    }
    let ghost linear = list@;
    for i in 0..con_tapes.len()
        invariant
            con_tapes@.len() <= rows,
            map@.len() == rows,
            tapes == tape_models(con_tapes@),
            indexes(map@, list@),
            list@ == with_tapes(linear, tapes, i as nat),
    {
        assert(tapes[i as int] == tape_model(con_tapes@[i as int]));
        match &con_tapes[i] {
            None => {},
            Some(t) => {
                let ghost before = list@;
                for k in 0..t.ops.len()
                    invariant
                        i < rows,
                        map@.len() == rows,
                        indexes(map@, list@),
                        list@ == with_operations(before, i, t.model(), k as nat),
                {
                    assert(t.model()[k as int] == op_model(t.ops@[k as int]));
                    match &t.ops[k] {
                        TapeOp::Var(j) => {
                            add_key(&mut list, &mut map, i, *j);
                        },
                        _ => {},
                    }
                }
            },
        }
    }
    (list, map)
}

/// Adds the pairs that a tape couples.
fn add_pairs(pairs: &mut Vec<(usize, usize)>, t: &Option<Tape>)
    requires
        pairs_increasing(old(pairs)@),
        tape_model(*t) matches Some(ops) ==> ordered(ops),
    ensures
        pairs_increasing(final(pairs)@),
        forall|y: (usize, usize)| #[trigger]
            final(pairs)@.contains(y) <==> old(pairs)@.contains(y) || (y.0 >= y.1 && (tape_model(
                *t,
            ) matches Some(ops) && coupled(ops, y.0, y.1))),
{
    match t {
        None => {},
        Some(t) => {
            let more: Vec<(usize, usize)> = t.hessian_sparsity();
            let ghost before = pairs@;
            for k in 0..more.len()
                invariant
                    pairs_increasing(pairs@),
                    forall|y: (usize, usize)| #[trigger]
                        pairs@.contains(y) <==> before.contains(y) || more@.take(
                            k as int,
                        ).contains(y),
            {
                let ghost was = pairs@;
                insert_pair(pairs, more[k]);
                proof {
                    let a = more@.take(k as int);
                    let b = more@.take(k + 1);
                    assert(b =~= a.push(more@[k as int]));
                    assert forall|y: (usize, usize)| #[trigger]
                        pairs@.contains(y) <==> before.contains(y) || b.contains(y) by {
                        assert(was.contains(y) <==> before.contains(y) || a.contains(y));
                        if a.contains(y) {
                            let i = choose|i: int| 0 <= i < a.len() && a[i] == y;
                            assert(b[i] == y);
                        }
                        if b.contains(y) && y != more@[k as int] {
                            let i = choose|i: int| 0 <= i < b.len() && b[i] == y;
                            assert(a[i] == y);
                        }
                        assert(b[k as int] == more@[k as int]);
                    }
                }
            }
            assert(more@.take(more@.len() as int) =~= more@);
        },
    }
}

proof fn lemma_depends_on_tape(ops: Seq<OpModel>, i: int, v: usize, n: int)
    requires
        ordered(ops),
        variables_below(ops, n),
        0 <= i < ops.len(),
        crate::nl::sparsity::depends(ops, i, v),
    ensures
        v < n,
    decreases i,
{
    match ops[i] {
        OpModel::Const(_) => {},
        OpModel::Var(j) => {},
        OpModel::Binary(_, a, b) => {
            assert(crate::nl::autodiff::reads(ops[i], a));
            assert(crate::nl::autodiff::reads(ops[i], b));
            if crate::nl::sparsity::depends(ops, a, v) {
                lemma_depends_on_tape(ops, a, v, n);
            } else {
                lemma_depends_on_tape(ops, b, v, n);
            }
        },
        OpModel::Unary(_, a) => {
            assert(crate::nl::autodiff::reads(ops[i], a));
            lemma_depends_on_tape(ops, a, v, n);
        },
        OpModel::Call(_, _, list) => {
            let t = choose|t: int|
                0 <= t < i && #[trigger] list.contains(crate::nl::autodiff::ArgModel::Tape(t))
                    && crate::nl::sparsity::depends(ops, t, v);
            lemma_depends_on_tape(ops, t, v, n);
        },
    }
}

proof fn lemma_coupled_below(ops: Seq<OpModel>, u: usize, v: usize, n: int)
    requires
        ordered(ops),
        variables_below(ops, n),
        coupled(ops, u, v),
    ensures
        u < n,
        v < n,
{
    let i = choose|i: int| 0 <= i < ops.len() && #[trigger] crate::nl::sparsity::couples(
        ops,
        i,
        u,
        v,
    );
    match ops[i] {
        OpModel::Binary(op, a, b) => {
            assert(crate::nl::autodiff::reads(ops[i], a));
            assert(crate::nl::autodiff::reads(ops[i], b));
            if crate::nl::sparsity::depends(ops, a, u) {
                lemma_depends_on_tape(ops, a, u, n);
            }
            if crate::nl::sparsity::depends(ops, b, u) {
                lemma_depends_on_tape(ops, b, u, n);
            }
            if crate::nl::sparsity::depends(ops, a, v) {
                lemma_depends_on_tape(ops, a, v, n);
            }
            if crate::nl::sparsity::depends(ops, b, v) {
                lemma_depends_on_tape(ops, b, v, n);
            }
        },
        OpModel::Unary(op, a) => {
            assert(crate::nl::autodiff::reads(ops[i], a));
            lemma_depends_on_tape(ops, a, u, n);
            lemma_depends_on_tape(ops, a, v, n);
        },
        OpModel::Call(_, _, _) => {
            lemma_depends_on_tape(ops, i, u, n);
            lemma_depends_on_tape(ops, i, v, n);
        },
        _ => {},
    }
}

/// The entries of the Hessian, and where each of them is.
fn build_hessian(obj_tape: &Option<Tape>, con_tapes: &Vec<Option<Tape>>, n: usize) -> (r: (
    Vec<(usize, usize)>,
    Vec<HashMap<usize, usize>>,
))
    requires
        tape_fits(tape_model(*obj_tape), n as int),
        forall|i: int|
            0 <= i < con_tapes@.len() ==> tape_fits(
                tape_model(#[trigger] con_tapes@[i]),
                n as int,
            ),
    ensures
        pairs_increasing(r.0@),
        forall|y: (usize, usize)| #[trigger]
            r.0@.contains(y) <==> y.0 >= y.1 && problem_couples(
                tape_model(*obj_tape),
                tape_models(con_tapes@),
                y.0,
                y.1,
            ),
        indexes(r.1@, r.0@),
{
    let ghost obj = tape_model(*obj_tape);
    let ghost cons = tape_models(con_tapes@);
    let mut pairs: Vec<(usize, usize)> = Vec::new();
    add_pairs(&mut pairs, obj_tape);
    for i in 0..con_tapes.len()
        invariant
            cons == tape_models(con_tapes@),
            forall|i: int|
                0 <= i < con_tapes@.len() ==> tape_fits(
                    tape_model(#[trigger] con_tapes@[i]),
                    n as int,
                ),
            pairs_increasing(pairs@),
            forall|y: (usize, usize)| #[trigger]
                pairs@.contains(y) <==> y.0 >= y.1 && problem_couples(
                    obj,
                    cons.take(i as int),
                    y.0,
                    y.1,
                ),
    {
        let ghost was = pairs@;
        assert(tape_fits(tape_model(con_tapes@[i as int]), n as int));
        add_pairs(&mut pairs, &con_tapes[i]);
        proof {
            let a = cons.take(i as int);
            let b = cons.take(i + 1);
            assert(b[i as int] == tape_model(con_tapes@[i as int]));
            assert forall|y: (usize, usize)| #[trigger]
                pairs@.contains(y) <==> y.0 >= y.1 && problem_couples(obj, b, y.0, y.1) by {
                assert(was.contains(y) <==> y.0 >= y.1 && problem_couples(obj, a, y.0, y.1));
                if problem_couples(obj, a, y.0, y.1) && !(obj matches Some(ops) && coupled(
                    ops,
                    y.0,
                    y.1,
                )) {
                    let k = choose|k: int|
                        0 <= k < a.len() && (#[trigger] a[k] matches Some(ops) && coupled(
                            ops,
                            y.0,
                            y.1,
                        ));
                    assert(b[k] == a[k]);
                }
                if problem_couples(obj, b, y.0, y.1) && !(obj matches Some(ops) && coupled(
                    ops,
                    y.0,
                    y.1,
                )) {
                    let k = choose|k: int|
                        0 <= k < b.len() && (#[trigger] b[k] matches Some(ops) && coupled(
                            ops,
                            y.0,
                            y.1,
                        ));
                    if k < i {
                        assert(a[k] == b[k]);
                    }
                }
            }
        }
    }
    assert(cons.take(con_tapes@.len() as int) =~= cons);
    let mut list: Vec<(usize, usize)> = Vec::new();
    let mut map: Vec<HashMap<usize, usize>> = empty_tables(n);
    assert(list@ =~= Seq::empty());
    for k in 0..pairs.len()
        invariant
            obj == tape_model(*obj_tape),
            cons == tape_models(con_tapes@),
            tape_fits(obj, n as int),
            forall|i: int|
                0 <= i < con_tapes@.len() ==> tape_fits(
                    tape_model(#[trigger] con_tapes@[i]),
                    n as int,
                ),
            pairs_increasing(pairs@),
            forall|y: (usize, usize)| #[trigger]
                pairs@.contains(y) <==> y.0 >= y.1 && problem_couples(obj, cons, y.0, y.1),
            map@.len() == n,
            indexes(map@, list@),
            list@ == pairs@.take(k as int),
    {
        let (r, c): (usize, usize) = pairs[k];
        proof {
            assert(pairs@.contains(pairs@[k as int]));
            if obj matches Some(ops) && coupled(ops, r, c) {
                lemma_coupled_below(obj->Some_0, r, c, n as int);
            } else {
                let i = choose|i: int|
                    0 <= i < cons.len() && (#[trigger] cons[i] matches Some(ops) && coupled(
                        ops,
                        r,
                        c,
                    ));
                assert(tape_fits(tape_model(con_tapes@[i]), n as int));
                lemma_coupled_below(cons[i]->Some_0, r, c, n as int);
            }
            assert(!list@.contains((r, c))) by {
                if list@.contains((r, c)) {
                    let i = choose|i: int| 0 <= i < list@.len() && list@[i] == (r, c);
                    assert(pairs@[i] == pairs@[k as int]);
                }
            }
        }
        add_key(&mut list, &mut map, r, c);
        assert(list@ =~= pairs@.take(k + 1));
    }
    assert(pairs@.take(pairs@.len() as int) =~= pairs@);
    (pairs, map)
}

fn unzip(list: &Vec<(usize, usize)>) -> (r: (Vec<usize>, Vec<usize>))
    ensures
        r.0@.len() == list@.len(),
        r.1@.len() == list@.len(),
        zipped(r.0@, r.1@) == list@,
{
    let mut rows: Vec<usize> = Vec::with_capacity(list.len());
    let mut cols: Vec<usize> = Vec::with_capacity(list.len());
    for k in 0..list.len()
        invariant
            rows@.len() == k,
            cols@.len() == k,
            forall|i: int| 0 <= i < k ==> #[trigger] rows@[i] == list@[i].0,
            forall|i: int| 0 <= i < k ==> #[trigger] cols@[i] == list@[i].1,
    {
        rows.push(list[k].0);
        cols.push(list[k].1);
    }
    assert(zipped(rows@, cols@) =~= list@);
    (rows, cols)
}

fn copy_terms(terms: &Vec<(usize, u64)>) -> (r: Vec<(usize, u64)>)
    ensures
        r@ == terms@,
{
    let mut r: Vec<(usize, u64)> = Vec::with_capacity(terms.len());
    for k in 0..terms.len()
        invariant
            r@ == terms@.take(k as int),
    {
        r.push(terms[k]);
        assert(r@ =~= terms@.take(k + 1));
    }
    assert(r@ =~= terms@);
    r
}

impl<
    F: Fn(FloatOp, u64, u64) -> u64,
    E: Fn(usize, &String, &Vec<ExternalArg>, bool, bool) -> ExternalValue,
> NlProblem<F, E> {
    /// Builds the problem that the data of a file state. Imported functions are
    /// looked up in the libraries at `paths`, which registered `names`.
    pub fn from_nl_data(
        data: NlFileData,
        paths: &Vec<String>,
        names: &Vec<Vec<String>>,
        fpu: Fpu<F>,
        ext: Externals<E>,
    ) -> (r: Result<Self, String>)
        ensures
            exists|ids: Seq<usize>| #[trigger]
                lists_uses(ids, data) && match r {
                    Err(e) => resolution_error(
                        ids,
                        func_models(data.imported_funcs@),
                        string_texts(paths@),
                        registered(names@),
                    ) == Some(e@),
                    Ok(p) => resolution_error(
                        ids,
                        func_models(data.imported_funcs@),
                        string_texts(paths@),
                        registered(names@),
                    ) is None && (exists|resolver: ExternalResolver| #[trigger]
                        resolves(
                            resolver,
                            ids,
                            func_models(data.imported_funcs@),
                            string_texts(paths@),
                            registered(names@),
                        ) && states(data, p, resolver.funcs_by_id@)),
                },
            r matches Ok(p) ==> p.fpu == fpu && p.ext == ext && (data_fits(data) && fpu.sound()
                && ext.sound() ==> p.well_formed()),
    {
        let ghost whole = data;
        let found: Result<ExternalResolver, String> = resolve_externals(&data, paths, names);
        let ghost ids = choose|ids: Seq<usize>| #[trigger]
            increasing(ids) && (forall|id: usize| #[trigger]
                ids.contains(id) <==> uses(data, id)) && match found {
                Ok(resolver) => resolution_error(
                    ids,
                    func_models(data.imported_funcs@),
                    string_texts(paths@),
                    registered(names@),
                ) is None && resolves(
                    resolver,
                    ids,
                    func_models(data.imported_funcs@),
                    string_texts(paths@),
                    registered(names@),
                ),
                Err(e) => resolution_error(
                    ids,
                    func_models(data.imported_funcs@),
                    string_texts(paths@),
                    registered(names@),
                ) == Some(e@),
            };
        assert(lists_uses(ids, data));
        let resolver: ExternalResolver = match found {
            Err(e) => {
                return Err(e);
            },
            Ok(resolver) => resolver,
        };
        let ghost funcs = resolver.funcs_by_id@;
        let n: usize = data.header.n_vars;
        let m: usize = data.header.n_constrs;
        proof {
            assert forall|k: int| 0 <= k < data.common_exprs@.len() implies calls_resolved(
                #[trigger] data.common_exprs@[k],
                funcs,
            ) by {
                assert forall|id: usize| #[trigger]
                    calls(data.common_exprs@[k], id) implies funcs.dom().contains(id) by {
                    assert(uses(data, id));
                }
                lemma_known_calls(data.common_exprs@[k], funcs);
            }
        }
        let cache: CommonExprCache = CommonExprCache::build_with_externals(
            &data.common_exprs,
            n,
            &resolver,
        );
        let mut maximize: bool = false;
        let mut obj_index: usize = 0;
        let mut obj_tape: Option<Tape> = None;
        if data.obj_exprs.len() > 0 {
            maximize = data.obj_exprs[0].1;
            obj_index = data.obj_exprs[0].0;
            proof {
                if data.obj_exprs@[0].2 is Some {
                    let e = data.obj_exprs@[0].2->Some_0;
                    assert forall|id: usize| #[trigger] calls(
                        e,
                        id,
                    ) implies funcs.dom().contains(id) by {
                        assert(uses(data, id));
                    }
                    lemma_known_calls(e, funcs);
                }
            }
            obj_tape = build_tape(
                &data.obj_exprs[0].2,
                &data.common_exprs,
                n,
                &cache,
                &resolver,
                Ghost(whole),
            );
        }
        let obj_linear: Vec<(usize, u64)> = if obj_index < data.obj_linear.len() {
            copy_terms(&data.obj_linear[obj_index])
        } else {
            Vec::new()
        };
        assert(obj_linear@ =~= objective_terms(whole));
        let mut con_tapes: Vec<Option<Tape>> = Vec::with_capacity(data.con_exprs.len());
        for i in 0..data.con_exprs.len()
            invariant
                whole == data,
                funcs == resolver.funcs_by_id@,
                n == data.header.n_vars,
                cache.well_formed(),
                cache.tapes() == cache_tapes(
                    data.common_exprs@,
                    n as int,
                    funcs,
                    data.common_exprs@.len(),
                ),
                forall|id: usize| #[trigger] uses(data, id) ==> funcs.dom().contains(id),
                con_tapes@.len() == i,
                forall|k: int|
                    0 <= k < i ==> tape_model(#[trigger] con_tapes@[k]) == expected_tape(
                        data.con_exprs@[k],
                        data,
                        funcs,
                    ),
                forall|k: int|
                    0 <= k < i ==> tape_fits(tape_model(#[trigger] con_tapes@[k]), n as int),
        {
            proof {
                if data.con_exprs@[i as int] is Some {
                    let e = data.con_exprs@[i as int]->Some_0;
                    assert forall|id: usize| #[trigger] calls(
                        e,
                        id,
                    ) implies funcs.dom().contains(id) by {
                        assert(data.con_exprs@[i as int] matches Some(x) && calls(x, id));
                        assert(uses(data, id));
                    }
                    lemma_known_calls(e, funcs);
                }
            }
            con_tapes.push(
                build_tape(
                    &data.con_exprs[i],
                    &data.common_exprs,
                    n,
                    &cache,
                    &resolver,
                    Ghost(whole),
                ),
            );
        }
        let (jac_list, jac_map): (Vec<(usize, usize)>, Vec<HashMap<usize, usize>>) =
            build_jacobian(&data.con_linear, &con_tapes);
        let (jac_rows, jac_cols): (Vec<usize>, Vec<usize>) = unzip(&jac_list);
        let (hess_list, hess_map): (Vec<(usize, usize)>, Vec<HashMap<usize, usize>>) =
            build_hessian(&obj_tape, &con_tapes, n);
        let (hess_rows, hess_cols): (Vec<usize>, Vec<usize>) = unzip(&hess_list);
        proof {
            assert(tape_models(con_tapes@) =~= Seq::new(
                whole.con_exprs@.len(),
                |i: int| expected_tape(whole.con_exprs@[i], whole, funcs),
            ));
        }
        let p = NlProblem {
            n,
            m,
            x_l: data.x_l,
            x_u: data.x_u,
            g_l: data.g_l,
            g_u: data.g_u,
            x0: data.x0,
            maximize,
            obj_tape,
            obj_linear,
            con_tapes,
            con_linear: data.con_linear,
            jac_rows,
            jac_cols,
            jac_map,
            hess_rows,
            hess_cols,
            hess_map,
            fpu,
            ext,
        };
        proof {
            assert(p.tables_fit());
            assert(states(whole, p, funcs));
        }
        Ok(p)
    }

    /// Value of a tape plus linear terms.
    fn row_value_at(&self, t: &Option<Tape>, terms: &Vec<(usize, u64)>, x: &[u64]) -> (v: u64)
        requires
            self.fpu.sound(),
            self.ext.sound(),
            x@.len() == self.n,
            tape_fits(tape_model(*t), self.n as int),
            terms_below(terms@, self.n as nat),
        ensures
            v == row_value(tape_model(*t), terms@, x@, self.fpu, self.ext),
    {
        let mut v: u64 = ZERO;
        match t {
            Some(tape) => {
                v = self.fpu.add(v, tape.eval(x, &self.fpu, &self.ext));
            },
            None => {},
        }
        let ghost start = v;
        for k in 0..terms.len()
            invariant
                self.fpu.sound(),
                x@.len() == self.n,
                terms_below(terms@, self.n as nat),
                v == terms_added(start, terms@, x@, k as nat, self.fpu),
        {
            let (idx, coeff): (usize, u64) = terms[k];
            assert(terms@[k as int].0 < self.n);
            v = self.fpu.add(v, self.fpu.mul(coeff, x[idx]));
        }
        v
    }

    /// Gradient of a tape plus linear terms.
    fn row_gradient_at(
        &self,
        t: &Option<Tape>,
        terms: &Vec<(usize, u64)>,
        x: &[u64],
        grad: &mut Vec<u64>,
    )
        requires
            self.fpu.sound(),
            self.ext.sound(),
            x@.len() == self.n,
            old(grad)@.len() == self.n,
            tape_fits(tape_model(*t), self.n as int),
        ensures
            final(grad)@.len() == self.n,
            final(grad)@ == row_gradient(
                tape_model(*t),
                terms@,
                x@,
                self.n as nat,
                self.fpu,
                self.ext,
            ),
    {
        let len: usize = grad.len();
        for k in 0..len
            invariant
                grad@.len() == len,
                forall|p: int| 0 <= p < k ==> #[trigger] grad@[p] == ZERO,
        {
            grad.set(k, ZERO);
        }
        assert(grad@ =~= zeros(len as nat));
        match t {
            Some(tape) => {
                tape.gradient(x, grad, &self.fpu, &self.ext);
            },
            None => {},
        }
        let ghost start = grad@;
        for k in 0..terms.len()
            invariant
                self.fpu.sound(),
                grad@.len() == len,
                grad@ == coefficients_added(start, terms@, k as nat, self.fpu),
        {
            let (idx, coeff): (usize, u64) = terms[k];
            if idx < grad.len() {
                let now: u64 = grad[idx];
                grad.set(idx, self.fpu.add(now, coeff));
            }
        }
    }

    /// The gradient of the objective.
    fn obj_gradient(&self, x: &[u64], grad: &mut Vec<u64>)
        requires
            self.well_formed(),
            x@.len() == self.n,
            old(grad)@.len() == self.n,
        ensures
            final(grad)@ == self.objective_gradient(x@),
            final(grad)@.len() == self.n,
    {
        self.row_gradient_at(&self.obj_tape, &self.obj_linear, x, grad);
        if self.maximize {
            let ghost plain = grad@;
            let len: usize = grad.len();
            for k in 0..len
                invariant
                    grad@.len() == len,
                    plain.len() == len,
                    forall|p: int| 0 <= p < k ==> #[trigger] grad@[p] == negated(plain[p]),
                    forall|p: int| k <= p < len ==> #[trigger] grad@[p] == plain[p],
            {
                let v: u64 = grad[k];
                grad.set(k, neg(v));
            }
            assert(grad@ =~= plain.map_values(|v: u64| negated(v)));
        }
    }

    /// The gradient of a constraint.
    fn con_gradient(&self, i: usize, x: &[u64], grad: &mut Vec<u64>)
        requires
            self.well_formed(),
            i < self.m,
            x@.len() == self.n,
            old(grad)@.len() == self.n,
        ensures
            final(grad)@ == self.constraint_gradient(i as int, x@),
            final(grad)@.len() == self.n,
    {
        assert(tape_fits(tape_model(self.con_tapes@[i as int]), self.n as int));
        self.row_gradient_at(&self.con_tapes[i], &self.con_linear[i], x, grad);
    }
}

/// The entries lie in a table of `m` rows and `n` columns.
spec fn entries_within(list: Seq<(usize, usize)>, m: nat, n: nat) -> bool {
    forall|k: int| 0 <= k < list.len() ==> (#[trigger] list[k]).0 < m && list[k].1 < n
}

proof fn lemma_terms_within(
    list: Seq<(usize, usize)>,
    i: usize,
    terms: Seq<(usize, u64)>,
    k: nat,
    m: nat,
    n: nat,
)
    requires
        entries_within(list, m, n),
        i < m,
        k <= terms.len(),
        terms_below(terms, n),
    ensures
        entries_within(with_terms(list, i, terms, k), m, n),
    decreases k,
{
    if k > 0 {
        lemma_terms_within(list, i, terms, (k - 1) as nat, m, n);
        assert(terms[k - 1].0 < n);
    }
}

proof fn lemma_linear_within(rows: Seq<Seq<(usize, u64)>>, i: nat, n: nat)
    requires
        i <= rows.len(),
        rows.len() <= usize::MAX,
        forall|q: int| 0 <= q < rows.len() ==> terms_below(#[trigger] rows[q], n),
    ensures
        entries_within(linear_entries(rows, i), rows.len(), n),
    decreases i,
{
    if i > 0 {
        lemma_linear_within(rows, (i - 1) as nat, n);
        assert(terms_below(rows[i - 1], n));
        lemma_terms_within(
            linear_entries(rows, (i - 1) as nat),
            (i - 1) as usize,
            rows[i - 1],
            rows[i - 1].len(),
            rows.len(),
            n,
        );
    }
}

proof fn lemma_operations_within(
    list: Seq<(usize, usize)>,
    i: usize,
    ops: Seq<OpModel>,
    k: nat,
    m: nat,
    n: nat,
)
    requires
        entries_within(list, m, n),
        i < m,
        k <= ops.len(),
        n <= usize::MAX,
        variables_below(ops, n as int),
    ensures
        entries_within(with_operations(list, i, ops, k), m, n),
    decreases k,
{
    if k > 0 {
        lemma_operations_within(list, i, ops, (k - 1) as nat, m, n);
        assert(match ops[k - 1] {
            OpModel::Var(v) => 0 <= v < n,
            _ => true,
        });
    }
}

proof fn lemma_tapes_within(
    list: Seq<(usize, usize)>,
    tapes: Seq<Option<Seq<OpModel>>>,
    i: nat,
    n: nat,
)
    requires
        entries_within(list, tapes.len(), n),
        i <= tapes.len(),
        tapes.len() <= usize::MAX,
        n <= usize::MAX,
        forall|q: int| 0 <= q < tapes.len() ==> tape_fits(#[trigger] tapes[q], n as int),
    ensures
        entries_within(with_tapes(list, tapes, i), tapes.len(), n),
    decreases i,
{
    if i > 0 {
        lemma_tapes_within(list, tapes, (i - 1) as nat, n);
        assert(tape_fits(tapes[i - 1], n as int));
        match tapes[i - 1] {
            Some(ops) => {
                lemma_operations_within(
                    with_tapes(list, tapes, (i - 1) as nat),
                    (i - 1) as usize,
                    ops,
                    ops.len(),
                    tapes.len(),
                    n,
                );
            },
            None => {},
        }
    }
}

/// The lists that a problem is described by fit together: the entries of the
/// Jacobian and of the Hessian lie within their matrices.
pub proof fn nl_shape_fits<
    F: Fn(FloatOp, u64, u64) -> u64,
    E: Fn(usize, &String, &Vec<ExternalArg>, bool, bool) -> ExternalValue,
>(p: NlProblem<F, E>)
    requires
        p.well_formed(),
    ensures
        p.shape().well_formed(),
{
    let n = p.n as nat;
    let m = p.m as nat;
    let rows = lists(p.con_linear@);
    let tapes = p.con_models();
    let jac = zipped(p.jac_rows@, p.jac_cols@);
    assert forall|q: int| 0 <= q < rows.len() implies terms_below(#[trigger] rows[q], n) by {
        assert(terms_below(p.con_linear@[q]@, n));
    }
    assert forall|q: int| 0 <= q < tapes.len() implies tape_fits(
        #[trigger] tapes[q],
        n as int,
    ) by {
        assert(tape_fits(tape_model(p.con_tapes@[q]), n as int));
    }
    lemma_linear_within(rows, rows.len(), n);
    lemma_tapes_within(linear_entries(rows, rows.len()), tapes, tapes.len(), n);
    assert forall|k: int| 0 <= k < p.jac_rows@.len() implies (#[trigger] p.jac_rows@[k])
        < m by {
        assert(jac[k].0 < m);
    }
    assert forall|k: int| 0 <= k < p.jac_cols@.len() implies (#[trigger] p.jac_cols@[k])
        < n by {
        assert(jac[k].1 < n);
    }
    let hess = zipped(p.hess_rows@, p.hess_cols@);
    assert forall|k: int| 0 <= k < hess.len() implies (#[trigger] hess[k]).0 < n && hess[k].1
        < n by {
        assert(hess.contains(hess[k]));
        let r = hess[k].0;
        let c = hess[k].1;
        if p.obj_model() matches Some(ops) && coupled(ops, r, c) {
            lemma_coupled_below(p.obj_model()->Some_0, r, c, n as int);
        } else {
            let i = choose|i: int|
                0 <= i < tapes.len() && (#[trigger] tapes[i] matches Some(ops) && coupled(
                    ops,
                    r,
                    c,
                ));
            lemma_coupled_below(tapes[i]->Some_0, r, c, n as int);
        }
    }
    assert forall|k: int| 0 <= k < p.hess_rows@.len() implies (#[trigger] p.hess_rows@[k])
        < n by {
        assert(hess[k].0 < n);
    }
    assert forall|k: int| 0 <= k < p.hess_cols@.len() implies (#[trigger] p.hess_cols@[k])
        < n by {
        assert(hess[k].1 < n);
    }
    assert(p.jac_rows.len() == p.jac_rows@.len());
    assert(p.hess_rows.len() == p.hess_rows@.len());
}

/// The entries of the Jacobian in the first `i` rows, and in row `i` in the first
/// `j` columns, are those at `x`; the others are zero.
spec fn jacobian_filled<
    F: Fn(FloatOp, u64, u64) -> u64,
    E: Fn(usize, &String, &Vec<ExternalArg>, bool, bool) -> ExternalValue,
>(p: NlProblem<F, E>, x: Seq<u64>, vals: Seq<u64>, i: int, j: int) -> bool {
    forall|k: int|
        0 <= k < vals.len() ==> #[trigger] vals[k] == if p.jac_rows@[k] < i || p.jac_rows@[k] == i
            && p.jac_cols@[k] < j {
            p.jacobian_at(x)[k]
        } else {
            ZERO
        }
}

impl<
    F: Fn(FloatOp, u64, u64) -> u64,
    E: Fn(usize, &String, &Vec<ExternalArg>, bool, bool) -> ExternalValue,
> NlProblem<F, E> {
    /// Puts the gradient of constraint `i` into its places of the Jacobian.
    fn scatter_row(&self, i: usize, Ghost(x): Ghost<Seq<u64>>, grad: &Vec<u64>, vals: &mut Vec<u64>)
        requires
            self.well_formed(),
            i < self.m,
            grad@ == self.constraint_gradient(i as int, x),
            grad@.len() == self.n,
            old(vals)@.len() == self.jac_rows@.len(),
            jacobian_filled(*self, x, old(vals)@, i as int, 0),
        ensures
            final(vals)@.len() == self.jac_rows@.len(),
            jacobian_filled(*self, x, final(vals)@, i + 1, 0),
    {
        let ghost list = zipped(self.jac_rows@, self.jac_cols@);
        for j in 0..self.n
            invariant
                self.well_formed(),
                i < self.m,
                grad@ == self.constraint_gradient(i as int, x),
                grad@.len() == self.n,
                vals@.len() == self.jac_rows@.len(),
                list == zipped(self.jac_rows@, self.jac_cols@),
                jacobian_filled(*self, x, vals@, i as int, j as int),
        {
            let ghost before = vals@;
            proof {
                assert(self.jac_rows.len() == self.jac_rows@.len());
                lemma_indexed(self.jac_map@, list, i, j);
                assert forall|k: int|
                    0 <= k < before.len() && self.jac_rows@[k] == i && self.jac_cols@[k]
                        == j implies self.jac_map@[i as int]@.contains_key(j) && k
                    == self.jac_map@[i as int]@[j] by {
                    assert(list[k] == (i, j));
                    assert(slot(self.jac_map@, list[k].0 as int, list[k].1 as int) == Some(
                        k as usize,
                    ));
                }
            }
            if !eq(grad[j], ZERO) {
                if let Some(pos) = self.jac_map[i].get(&j) {
                    assert(list[*pos as int] == (i, j));
                    vals.set(*pos, grad[j]);
                }
            }
            assert forall|k: int| 0 <= k < vals@.len() implies #[trigger] vals@[k] == if (
            self.jac_rows@[k] < i || self.jac_rows@[k] == i && self.jac_cols@[k] < j + 1) {
                self.jacobian_at(x)[k]
            } else {
                ZERO
            } by {
                assert(before[k] == before[k]);
                assert(list[k] == (self.jac_rows@[k], self.jac_cols@[k]));
            }
        }
        proof {
            nl_shape_fits(*self);
            assert forall|k: int| 0 <= k < vals@.len() implies #[trigger] vals@[k] == if (
            self.jac_rows@[k] < i + 1 || self.jac_rows@[k] == i + 1 && self.jac_cols@[k] < 0) {
                self.jacobian_at(x)[k]
            } else {
                ZERO
            } by {
                assert(self.shape().jac_cols[k] < self.n);
            }
        }
    }
}

fn clear(vals: &mut Vec<u64>)
    ensures
        final(vals)@ == zeros(old(vals)@.len()),
{
    let len: usize = vals.len();
    for k in 0..len
        invariant
            vals@.len() == len,
            forall|p: int| 0 <= p < k ==> #[trigger] vals@[p] == ZERO,
    {
        vals.set(k, ZERO);
    }
    assert(vals@ =~= zeros(len as nat));
}

impl<
    F: Fn(FloatOp, u64, u64) -> u64,
    E: Fn(usize, &String, &Vec<ExternalArg>, bool, bool) -> ExternalValue,
> NlpProblem for NlProblem<F, E> {
    open spec fn posed(&self) -> bool {
        self.well_formed()
    }

    open spec fn shape(&self) -> ProblemShape {
        ProblemShape {
            n: self.n as nat,
            m: self.m as nat,
            x_l: self.x_l@,
            x_u: self.x_u@,
            g_l: self.g_l@,
            g_u: self.g_u@,
            x0: self.x0@,
            jac_rows: self.jac_rows@,
            jac_cols: self.jac_cols@,
            hess_rows: self.hess_rows@,
            hess_cols: self.hess_cols@,
        }
    }

    open spec fn objective_gives(&self, x: Seq<u64>, v: Option<u64>) -> bool {
        v == Some(self.objective_value(x))
    }

    open spec fn gradient_gives(&self, x: Seq<u64>, v: Option<Seq<u64>>) -> bool {
        v == Some(self.objective_gradient(x))
    }

    open spec fn constraints_give(&self, x: Seq<u64>, v: Option<Seq<u64>>) -> bool {
        v == Some(Seq::new(self.m as nat, |i: int| self.constraint_value(i, x)))
    }

    open spec fn jacobian_gives(&self, x: Seq<u64>, v: Option<Seq<u64>>) -> bool {
        v == Some(self.jacobian_at(x))
    }

    open spec fn hessian_gives(
        &self,
        x: Seq<u64>,
        obj_factor: u64,
        lambda: Seq<u64>,
        v: Option<Seq<u64>>,
    ) -> bool {
        v == Some(self.hessian_at(x, obj_factor, lambda))
    }

    fn num_variables(&self) -> (n: usize) {
        self.n
    }

    fn num_constraints(&self) -> (m: usize) {
        self.m
    }

    fn bounds(&self, x_l: &mut Vec<u64>, x_u: &mut Vec<u64>) {
        *x_l = copy_numbers(&self.x_l);
        *x_u = copy_numbers(&self.x_u);
    }

    fn constraint_bounds(&self, g_l: &mut Vec<u64>, g_u: &mut Vec<u64>) {
        *g_l = copy_numbers(&self.g_l);
        *g_u = copy_numbers(&self.g_u);
    }

    fn initial_point(&self, x0: &mut Vec<u64>) {
        *x0 = copy_numbers(&self.x0);
    }

    fn objective(&self, x: &[u64], new_x: bool, obj: &mut u64) -> (ok: bool) {
        let val: u64 = self.row_value_at(&self.obj_tape, &self.obj_linear, x);
        *obj = if self.maximize {
            neg(val)
        } else {
            val
        };
        true
    }

    fn gradient(&self, x: &[u64], new_x: bool, grad: &mut Vec<u64>) -> (ok: bool) {
        self.obj_gradient(x, grad);
        true
    }

    fn constraints(&self, x: &[u64], new_x: bool, g: &mut Vec<u64>) -> (ok: bool) {
        for i in 0..self.m
            invariant
                self.well_formed(),
                x@.len() == self.n,
                g@.len() == self.m,
                forall|k: int| 0 <= k < i ==> #[trigger] g@[k] == self.constraint_value(k, x@),
        {
            assert(tape_fits(tape_model(self.con_tapes@[i as int]), self.n as int));
            let val: u64 = self.row_value_at(&self.con_tapes[i], &self.con_linear[i], x);
            g.set(i, val);
        }
        assert(g@ =~= Seq::new(self.m as nat, |i: int| self.constraint_value(i, x@)));
        true
    }

    fn jacobian_structure(&self) -> (pattern: (Vec<usize>, Vec<usize>)) {
        (copy_indices(&self.jac_rows), copy_indices(&self.jac_cols))
    }

    fn jacobian_values(&self, x: &[u64], new_x: bool, vals: &mut Vec<u64>) -> (ok: bool) {
        clear(vals);
        let mut grad: Vec<u64> = vec![ZERO; self.n];
        for i in 0..self.m
            invariant
                self.well_formed(),
                x@.len() == self.n,
                grad@.len() == self.n,
                vals@.len() == self.jac_rows@.len(),
                jacobian_filled(*self, x@, vals@, i as int, 0),
        {
            self.con_gradient(i, x, &mut grad);
            self.scatter_row(i, Ghost(x@), &grad, vals);
        }
        proof {
            nl_shape_fits(*self);
            assert forall|k: int| 0 <= k < vals@.len() implies #[trigger] vals@[k]
                == self.jacobian_at(x@)[k] by {
                assert(self.shape().jac_rows[k] < self.m);
            }
            assert(vals@ =~= self.jacobian_at(x@));
        }
        true
    }

    fn hessian_structure(&self) -> (pattern: (Vec<usize>, Vec<usize>)) {
        (copy_indices(&self.hess_rows), copy_indices(&self.hess_cols))
    }

    fn hessian_values(
        &self,
        x: &[u64],
        new_x: bool,
        obj_factor: u64,
        lambda: &[u64],
        vals: &mut Vec<u64>,
    ) -> (ok: bool) {
        clear(vals);
        let nnz: usize = vals.len();
        assert(slots_below(self.hess_map@, nnz as int));
        if let Some(tape) = &self.obj_tape {
            let weight: u64 = if self.maximize {
                neg(obj_factor)
            } else {
                obj_factor
            };
            tape.hessian_accumulate(x, weight, &self.hess_map, vals, &self.fpu, &self.ext);
        }
        let ghost start = vals@;
        for i in 0..self.con_tapes.len()
            invariant
                self.well_formed(),
                x@.len() == self.n,
                lambda@.len() == self.m,
                vals@.len() == nnz,
                slots_below(self.hess_map@, nnz as int),
                vals@ == curvatures_added(
                    self.con_models(),
                    x@,
                    lambda@,
                    self.hess_map@,
                    start,
                    i as nat,
                    self.fpu,
                    self.ext,
                ),
        {
            assert(tape_fits(tape_model(self.con_tapes@[i as int]), self.n as int));
            assert(self.con_models()[i as int] == tape_model(self.con_tapes@[i as int]));
            if let Some(tape) = &self.con_tapes[i] {
                tape.hessian_accumulate(x, lambda[i], &self.hess_map, vals, &self.fpu, &self.ext);
            }
        }
        true
    }
}

} // verus!
