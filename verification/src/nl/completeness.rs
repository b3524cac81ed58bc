//! The sparsity of the second derivatives is complete.

use crate::float::{negated, num_eq, FloatOp, Fpu, ZERO};
use crate::nl::autodiff::{ordered, reads, ArgModel, OpModel};
use crate::nl::expr::{BinaryOp, UnaryOp};
use crate::nl::meaning::{arg_values, run};
use crate::nl::second_derivative::{distinct_slots, lemma_other_direction};
use crate::nl::sparsity::{coupled, couples, depends};
use crate::nl::sweeps::{
    applied, float_algebra, hessian_state, on_tape, packed_upper, real_targets, second_binary,
    second_call, second_state, second_unary, second_updates, slot, slots_below, tangent_binary,
    tangent_unary, tangents, target_dot, variable_list, ExternalArg, ExternalValue, Externals,
    UpdateModel,
};
use std::collections::HashMap;
use vstd::prelude::*;

verus! {

/// The pattern is that of a zero, with either sign.
#[verifier::opaque]
pub open spec fn is_zero(a: u64) -> bool {
    num_eq(a, ZERO)
}

/// Zeros add up to zero, and zero times or divided by a number is zero. This
/// is so in an arithmetic without infinities and NaNs.
pub open spec fn zero_annihilates<F: Fn(FloatOp, u64, u64) -> u64>(fpu: Fpu<F>) -> bool {
    &&& forall|a: u64, b: u64|
        is_zero(a) && is_zero(b) ==> is_zero(#[trigger] fpu.sum(a, b))
    &&& forall|a: u64, b: u64|
        is_zero(a) && is_zero(b) ==> is_zero(#[trigger] fpu.difference(a, b))
    &&& forall|a: u64, b: u64|
        is_zero(a) || is_zero(b) ==> is_zero(#[trigger] fpu.product(a, b))
    &&& forall|a: u64, b: u64| is_zero(a) ==> is_zero(#[trigger] fpu.quotient(a, b))
}

proof fn lemma_negated_zero(a: u64)
    requires
        is_zero(a),
    ensures
        is_zero(negated(a)),
{
    reveal(is_zero);
}

proof fn lemma_zero_is_zero()
    ensures
        is_zero(ZERO),
{
    reveal(is_zero);
}

proof fn lemma_target_dot_zero<F: Fn(FloatOp, u64, u64) -> u64>(
    coeffs: spec_fn(int) -> u64,
    targets: Seq<int>,
    dot: Seq<u64>,
    k: nat,
    fpu: Fpu<F>,
)
    requires
        zero_annihilates(fpu),
        forall|l: int| 0 <= l < k ==> is_zero(dot[#[trigger] targets[l]]),
    ensures
        is_zero(target_dot(coeffs, targets, dot, k, fpu)),
    decreases k,
{
    lemma_zero_is_zero();
    if k > 0 {
        lemma_target_dot_zero(coeffs, targets, dot, (k - 1) as nat, fpu);
        assert(is_zero(dot[targets[k - 1]]));
    }
}

/// The real arguments of a call are among its arguments.
pub(crate) proof fn lemma_targets_are_arguments(args: Seq<ArgModel>)
    ensures
        forall|k: int|
            0 <= k < real_targets(args).len() ==> args.contains(
                ArgModel::Tape(#[trigger] real_targets(args)[k]),
            ),
    decreases args.len(),
{
    if args.len() > 0 {
        let front = args.drop_last();
        lemma_targets_are_arguments(front);
        assert forall|k: int| 0 <= k < real_targets(args).len() implies args.contains(
            ArgModel::Tape(#[trigger] real_targets(args)[k]),
        ) by {
            if k < real_targets(front).len() {
                let t = ArgModel::Tape(real_targets(front)[k]);
                assert(real_targets(args)[k] == real_targets(front)[k]);
                let p = choose|p: int| 0 <= p < front.len() && front[p] == t;
                assert(args[p] == t);
            } else {
                assert(args[args.len() - 1] == ArgModel::Tape(real_targets(args)[k]));
            }
        }
    }
}

proof fn lemma_tangent_unary_zero<F: Fn(FloatOp, u64, u64) -> u64>(
    op: UnaryOp,
    y: u64,
    u: u64,
    du: u64,
    fpu: Fpu<F>,
)
    requires
        zero_annihilates(fpu),
        is_zero(du),
    ensures
        is_zero(tangent_unary(op, y, u, du, fpu)),
{
    lemma_zero_is_zero();
    lemma_negated_zero(du);
}

proof fn lemma_tangent_binary_zero<F: Fn(FloatOp, u64, u64) -> u64>(
    op: BinaryOp,
    y: u64,
    lv: u64,
    rv: u64,
    dl: u64,
    dr: u64,
    fpu: Fpu<F>,
)
    requires
        zero_annihilates(fpu),
        is_zero(dl),
        is_zero(dr),
    ensures
        is_zero(tangent_binary(op, y, lv, rv, dl, dr, fpu)),
{
    lemma_zero_is_zero();
}

/// An operation that does not depend on a variable does not move with it.
proof fn lemma_tangents_zero<
    F: Fn(FloatOp, u64, u64) -> u64,
    E: Fn(usize, &String, &Vec<ExternalArg>, bool, bool) -> ExternalValue,
>(ops: Seq<OpModel>, j: usize, vals: Seq<u64>, k: nat, fpu: Fpu<F>, ext: Externals<E>)
    requires
        zero_annihilates(fpu),
        ordered(ops),
        k <= ops.len(),
    ensures
        tangents(ops, j as int, vals, k, fpu, ext).len() == k,
        forall|i: int|
            0 <= i < k && !depends(ops, i, j) ==> is_zero(
                #[trigger] tangents(ops, j as int, vals, k, fpu, ext)[i],
            ),
    decreases k,
{
    if k > 0 {
        lemma_tangents_zero(ops, j, vals, (k - 1) as nat, fpu, ext);
        let dot = tangents(ops, j as int, vals, (k - 1) as nat, fpu, ext);
        let i = k - 1;
        let op = ops[i];
        if !depends(ops, i, j) {
            match op {
                OpModel::Binary(o, l, r) => {
                    assert(reads(op, l) && reads(op, r));
                    lemma_tangent_binary_zero(o, vals[i], vals[l], vals[r], dot[l], dot[r], fpu);
                },
                OpModel::Unary(o, t) => {
                    assert(reads(op, t));
                    match o {
                        UnaryOp::Floor | UnaryOp::Ceil => {},
                        _ => {
                            lemma_tangent_unary_zero(o, vals[i], vals[t], dot[t], fpu);
                        },
                    }
                },
                OpModel::Call(lib, n, args) => {
                    let targets = real_targets(args);
                    lemma_targets_are_arguments(args);
                    assert forall|l: int| 0 <= l < targets.len() implies is_zero(
                        dot[#[trigger] targets[l]],
                    ) by {
                        assert(args.contains(ArgModel::Tape(targets[l])));
                        assert(reads(op, targets[l]));
                        assert(!depends(ops, targets[l], j));
                    }
                    let derivs = ext.result(
                        lib as usize,
                        n,
                        arg_values(args, vals),
                        true,
                        false,
                    ).derivs;
                    lemma_target_dot_zero(
                        |k: int| derivs[k],
                        targets,
                        dot,
                        targets.len(),
                        fpu,
                    );
                },
                _ => {},
            }
        }
        lemma_zero_is_zero();
    }
}

/// All updates of a second-order kind that go to `t` are zero.
spec fn hands_zero(ups: Seq<UpdateModel>, t: int) -> bool {
    forall|k: int|
        0 <= k < ups.len() && (#[trigger] ups[k]).second && ups[k].target == t ==> is_zero(
            ups[k].amount,
        )
}

/// All updates go to entries below `n`.
spec fn targets_below(ups: Seq<UpdateModel>, n: int) -> bool {
    forall|k: int| 0 <= k < ups.len() ==> 0 <= (#[trigger] ups[k]).target < n
}

proof fn lemma_unary_hands_zero<F: Fn(FloatOp, u64, u64) -> u64>(
    op: UnaryOp,
    j: int,
    w: u64,
    wd: u64,
    y: u64,
    u: u64,
    du: u64,
    fpu: Fpu<F>,
)
    requires
        zero_annihilates(fpu),
        is_zero(wd),
        crate::nl::sparsity::curved(op) ==> is_zero(du),
    ensures
        hands_zero(second_unary(op, j, w, wd, y, u, du, fpu), j),
{
    let ups = second_unary(op, j, w, wd, y, u, du, fpu);
    assert(ups.len() <= 2);
    assert(ups.len() == 2 ==> ups[0].target == j && ups[1].target == j && !ups[0].second);
    assert(ups.len() == 2 ==> is_zero(ups[1].amount)) by {
        match op {
            UnaryOp::Abs => {},
            UnaryOp::Neg => {},
            UnaryOp::Tanh | UnaryOp::Tan => {},
            UnaryOp::Sqrt => {},
            UnaryOp::Sinh | UnaryOp::Cosh => {},
            UnaryOp::Sin | UnaryOp::Cos => {},
            UnaryOp::Log10 | UnaryOp::Log => {},
            UnaryOp::Exp => {},
            UnaryOp::Atanh | UnaryOp::Atan => {},
            UnaryOp::Asinh | UnaryOp::Acosh => {},
            UnaryOp::Asin | UnaryOp::Acos => {},
            _ => {},
        }
    }
}

proof fn lemma_binary_hands_zero<F: Fn(FloatOp, u64, u64) -> u64>(
    op: BinaryOp,
    l: int,
    r: int,
    w: u64,
    wd: u64,
    y: u64,
    lv: u64,
    rv: u64,
    dl: u64,
    dr: u64,
    t: int,
    fpu: Fpu<F>,
)
    requires
        zero_annihilates(fpu),
        is_zero(wd),
        t == l && op == BinaryOp::Mul ==> is_zero(dr),
        t == r && op == BinaryOp::Mul ==> is_zero(dl),
        t == l && op == BinaryOp::Div ==> is_zero(dr),
        t == r && op == BinaryOp::Div ==> is_zero(dl) && is_zero(dr),
        (t == l || t == r) && (op == BinaryOp::Pow || op == BinaryOp::Atan2) ==> is_zero(dl)
            && is_zero(dr),
    ensures
        hands_zero(second_binary(op, l, r, w, wd, y, lv, rv, dl, dr, fpu), t),
{
    lemma_zero_is_zero();
    if is_zero(dl) {
        lemma_negated_zero(dl);
    }
    if is_zero(dr) {
        lemma_negated_zero(dr);
    }
}

proof fn lemma_call_hands_zero<F: Fn(FloatOp, u64, u64) -> u64>(
    targets: Seq<int>,
    derivs: Seq<u64>,
    hessian: Seq<u64>,
    w: u64,
    wd: u64,
    dot: Seq<u64>,
    k: nat,
    t: int,
    fpu: Fpu<F>,
)
    requires
        zero_annihilates(fpu),
        is_zero(wd),
        k <= targets.len(),
        forall|l: int| 0 <= l < targets.len() ==> is_zero(dot[#[trigger] targets[l]]),
    ensures
        hands_zero(second_call(targets, derivs, hessian, w, wd, dot, k, fpu), t),
    decreases k,
{
    if k > 0 {
        lemma_call_hands_zero(targets, derivs, hessian, w, wd, dot, (k - 1) as nat, t, fpu);
        lemma_target_dot_zero(
            |l: int| hessian[packed_upper(k - 1, l)],
            targets,
            dot,
            targets.len(),
            fpu,
        );
    }
}

/// Updates that hand on zeros keep a zero.
proof fn lemma_applied_zero<F: Fn(FloatOp, u64, u64) -> u64>(
    a: Seq<u64>,
    ups: Seq<UpdateModel>,
    k: nat,
    t: int,
    fpu: Fpu<F>,
)
    requires
        zero_annihilates(fpu),
        k <= ups.len(),
        hands_zero(ups, t),
        targets_below(ups, a.len() as int),
        0 <= t < a.len(),
        is_zero(a[t]),
    ensures
        applied(a, ups, k, true, fpu).len() == a.len(),
        is_zero(applied(a, ups, k, true, fpu)[t]),
    decreases k,
{
    if k > 0 {
        lemma_applied_zero(a, ups, (k - 1) as nat, t, fpu);
        let u = ups[k - 1];
        assert(0 <= u.target < a.len());
    }
}

/// What an operation hands on to `t`, which leads to variable `k`, if the
/// operation couples no variable under it with `j`.
proof fn lemma_hands_zero<
    F: Fn(FloatOp, u64, u64) -> u64,
    E: Fn(usize, &String, &Vec<ExternalArg>, bool, bool) -> ExternalValue,
>(
    ops: Seq<OpModel>,
    i: int,
    w: u64,
    wd: u64,
    vals: Seq<u64>,
    dot: Seq<u64>,
    j: usize,
    k: usize,
    t: int,
    fpu: Fpu<F>,
    ext: Externals<E>,
)
    requires
        zero_annihilates(fpu),
        ordered(ops),
        0 <= i < ops.len(),
        !couples(ops, i, k, j),
        forall|p: int| 0 <= p < ops.len() && !depends(ops, p, j) ==> is_zero(#[trigger] dot[p]),
        depends(ops, i, k) ==> is_zero(wd),
        depends(ops, t, k),
    ensures
        hands_zero(second_updates(ops[i], i, w, wd, vals, dot, fpu, ext), t),
{
    let op = ops[i];
    lemma_second_targets(op, i, w, wd, vals, dot, fpu, ext);
    match op {
        OpModel::Binary(o, l, r) => {
            assert(reads(op, l) && reads(op, r));
            if t == l || t == r {
                assert(depends(ops, i, k));
                lemma_binary_hands_zero(
                    o,
                    l,
                    r,
                    w,
                    wd,
                    vals[i],
                    vals[l],
                    vals[r],
                    dot[l],
                    dot[r],
                    t,
                    fpu,
                );
            }
        },
        OpModel::Unary(o, p) => {
            assert(reads(op, p));
            match o {
                UnaryOp::Floor | UnaryOp::Ceil => {},
                _ => {
                    if t == p {
                        lemma_unary_hands_zero(o, p, w, wd, vals[i], vals[p], dot[p], fpu);
                    }
                },
            }
        },
        OpModel::Call(lib, name, args) => {
            let targets = real_targets(args);
            let res = ext.result(
                lib as usize,
                name,
                arg_values(args, vals),
                true,
                true,
            );
            lemma_targets_are_arguments(args);
            if args.contains(ArgModel::Tape(t)) {
                assert(reads(op, t));
                assert(depends(ops, i, k));
                assert forall|l: int| 0 <= l < targets.len() implies is_zero(
                    dot[#[trigger] targets[l]],
                ) by {
                    assert(args.contains(ArgModel::Tape(targets[l])));
                    assert(reads(op, targets[l]));
                    assert(!depends(ops, i, j));
                    assert(!depends(ops, targets[l], j));
                }
                lemma_call_hands_zero(
                    targets,
                    res.derivs,
                    res.hessian,
                    w,
                    wd,
                    dot,
                    targets.len(),
                    t,
                    fpu,
                );
            }
        },
        _ => {},
    }
}

proof fn lemma_binary_targets<F: Fn(FloatOp, u64, u64) -> u64>(
    op: BinaryOp,
    l: int,
    r: int,
    w: u64,
    wd: u64,
    y: u64,
    lv: u64,
    rv: u64,
    dl: u64,
    dr: u64,
    fpu: Fpu<F>,
)
    ensures
        forall|k: int|
            0 <= k < second_binary(op, l, r, w, wd, y, lv, rv, dl, dr, fpu).len() ==> (
            #[trigger] second_binary(op, l, r, w, wd, y, lv, rv, dl, dr, fpu)[k]).target == l
                || second_binary(op, l, r, w, wd, y, lv, rv, dl, dr, fpu)[k].target == r,
{
}

proof fn lemma_unary_targets<F: Fn(FloatOp, u64, u64) -> u64>(
    op: UnaryOp,
    j: int,
    w: u64,
    wd: u64,
    y: u64,
    u: u64,
    du: u64,
    fpu: Fpu<F>,
)
    ensures
        forall|k: int|
            0 <= k < second_unary(op, j, w, wd, y, u, du, fpu).len() ==> (#[trigger] second_unary(
                op,
                j,
                w,
                wd,
                y,
                u,
                du,
                fpu,
            )[k]).target == j,
{
}

proof fn lemma_call_targets<F: Fn(FloatOp, u64, u64) -> u64>(
    targets: Seq<int>,
    derivs: Seq<u64>,
    hessian: Seq<u64>,
    w: u64,
    wd: u64,
    dot: Seq<u64>,
    k: nat,
    fpu: Fpu<F>,
)
    requires
        k <= targets.len(),
    ensures
        forall|q: int|
            0 <= q < second_call(targets, derivs, hessian, w, wd, dot, k, fpu).len()
                ==> targets.contains(
                (#[trigger] second_call(targets, derivs, hessian, w, wd, dot, k, fpu)[q]).target,
            ),
    decreases k,
{
    if k > 0 {
        lemma_call_targets(targets, derivs, hessian, w, wd, dot, (k - 1) as nat, fpu);
        let before = second_call(targets, derivs, hessian, w, wd, dot, (k - 1) as nat, fpu);
        let now = second_call(targets, derivs, hessian, w, wd, dot, k, fpu);
        assert(targets.contains(targets[k - 1]));
        assert forall|q: int| 0 <= q < now.len() implies targets.contains(
            (#[trigger] now[q]).target,
        ) by {
            if q < before.len() {
                assert(now[q] == before[q]);
            }
        }
    }
}

/// In the direction of variable `j`, the sweep gathers nothing for a variable
/// `k` that is not coupled with it.
proof fn lemma_sweep_gathers_nothing<
    F: Fn(FloatOp, u64, u64) -> u64,
    E: Fn(usize, &String, &Vec<ExternalArg>, bool, bool) -> ExternalValue,
>(
    ops: Seq<OpModel>,
    vals: Seq<u64>,
    j: usize,
    k: usize,
    pos: usize,
    weight: u64,
    map: Seq<HashMap<usize, usize>>,
    out: Seq<u64>,
    i: int,
    fpu: Fpu<F>,
    ext: Externals<E>,
)
    requires
        zero_annihilates(fpu),
        ordered(ops),
        !coupled(ops, k, j),
        j <= k,
        slot(map, k as int, j as int) == Some(pos),
        distinct_slots(map),
        slots_below(map, out.len() as int),
        0 <= i <= ops.len(),
    ensures
        ({
            let dot = tangents(ops, j as int, vals, ops.len(), fpu, ext);
            let st = second_state(ops, vals, dot, j as int, weight, map, out, i, fpu, ext);
            &&& st.adj_dot.len() == ops.len()
            &&& st.out.len() == out.len()
            &&& st.out[pos as int] == out[pos as int]
            &&& forall|t: int|
                0 <= t < ops.len() && #[trigger] depends(ops, t, k) ==> is_zero(st.adj_dot[t])
        }),
    decreases ops.len() - i,
{
    lemma_zero_is_zero();
    let n = ops.len();
    let dot = tangents(ops, j as int, vals, n, fpu, ext);
    let st = second_state(ops, vals, dot, j as int, weight, map, out, i, fpu, ext);
    if i < n {
        lemma_sweep_gathers_nothing(ops, vals, j, k, pos, weight, map, out, i + 1, fpu, ext);
        lemma_tangents_zero(ops, j, vals, n, fpu, ext);
        let was = second_state(ops, vals, dot, j as int, weight, map, out, i + 1, fpu, ext);
        let (w, wd) = (was.adj[i], was.adj_dot[i]);
        if ops[i] is Var {
            let v = ops[i]->Var_0;
            if v == k {
                assert(depends(ops, i, k));
                reveal(is_zero);
            } else if v >= j && slot(map, v, j as int) is Some {
                assert(slot(map, v, j as int) != slot(map, k as int, j as int));
                assert(map[v]@.contains_key(j));
                assert(map[v]@[j] < out.len());
            }
        } else if !(num_eq(w, ZERO) && num_eq(wd, ZERO)) {
            let ups = second_updates(ops[i], i, w, wd, vals, dot, fpu, ext);
            assert(!couples(ops, i, k, j));
            lemma_second_targets(ops[i], i, w, wd, vals, dot, fpu, ext);
            assert(targets_below(ups, n as int));
            assert forall|t: int| 0 <= t < n && #[trigger] depends(ops, t, k) implies is_zero(
                st.adj_dot[t],
            ) by {
                lemma_hands_zero(ops, i, w, wd, vals, dot, j, k, t, fpu, ext);
                lemma_applied_zero(was.adj_dot, ups, ups.len(), t, fpu);
            }
            lemma_applied_len(was.adj_dot, ups, ups.len(), fpu);
        }
    }
}

/// An operation hands on to its operands only.
proof fn lemma_second_targets<
    F: Fn(FloatOp, u64, u64) -> u64,
    E: Fn(usize, &String, &Vec<ExternalArg>, bool, bool) -> ExternalValue,
>(
    op: OpModel,
    i: int,
    w: u64,
    wd: u64,
    vals: Seq<u64>,
    dot: Seq<u64>,
    fpu: Fpu<F>,
    ext: Externals<E>,
)
    ensures
        forall|q: int|
            0 <= q < second_updates(op, i, w, wd, vals, dot, fpu, ext).len() ==> reads(
                op,
                (#[trigger] second_updates(op, i, w, wd, vals, dot, fpu, ext)[q]).target,
            ),
{
    let ups = second_updates(op, i, w, wd, vals, dot, fpu, ext);
    match op {
        OpModel::Binary(o, l, r) => {
            lemma_binary_targets(
                o,
                l,
                r,
                w,
                wd,
                vals[i],
                vals[l],
                vals[r],
                dot[l],
                dot[r],
                fpu,
            );
        },
        OpModel::Unary(o, p) => {
            lemma_unary_targets(o, p, w, wd, vals[i], vals[p], dot[p], fpu);
        },
        OpModel::Call(lib, name, args) => {
            let targets = real_targets(args);
            let res = ext.result(
                lib as usize,
                name,
                arg_values(args, vals),
                true,
                true,
            );
            lemma_targets_are_arguments(args);
            lemma_call_targets(
                targets,
                res.derivs,
                res.hessian,
                w,
                wd,
                dot,
                targets.len(),
                fpu,
            );
            assert forall|q: int| 0 <= q < ups.len() implies reads(
                op,
                (#[trigger] ups[q]).target,
            ) by {
                assert(targets.contains(ups[q].target));
                let l = choose|l: int| 0 <= l < targets.len() && targets[l] == ups[q].target;
                assert(args.contains(ArgModel::Tape(targets[l])));
            }
        },
        _ => {},
    }
}

proof fn lemma_applied_len<F: Fn(FloatOp, u64, u64) -> u64>(
    a: Seq<u64>,
    ups: Seq<UpdateModel>,
    k: nat,
    fpu: Fpu<F>,
)
    requires
        k <= ups.len(),
        targets_below(ups, a.len() as int),
    ensures
        applied(a, ups, k, true, fpu).len() == a.len(),
    decreases k,
{
    if k > 0 {
        lemma_applied_len(a, ups, (k - 1) as nat, fpu);
        assert(0 <= ups[k - 1].target < a.len());
    }
}

/// The gathering in the directions of the first `count` variables leaves the
/// place of an uncoupled pair as it was.
proof fn lemma_directions_gather_nothing<
    F: Fn(FloatOp, u64, u64) -> u64,
    E: Fn(usize, &String, &Vec<ExternalArg>, bool, bool) -> ExternalValue,
>(
    ops: Seq<OpModel>,
    vals: Seq<u64>,
    vars: Seq<usize>,
    j: usize,
    k: usize,
    pos: usize,
    weight: u64,
    map: Seq<HashMap<usize, usize>>,
    out: Seq<u64>,
    count: nat,
    fpu: Fpu<F>,
    ext: Externals<E>,
)
    requires
        zero_annihilates(fpu),
        ordered(ops),
        !coupled(ops, k, j),
        j <= k,
        slot(map, k as int, j as int) == Some(pos),
        distinct_slots(map),
        slots_below(map, out.len() as int),
        count <= vars.len(),
    ensures
        ({
            let now = hessian_state(ops, vals, vars, weight, map, out, count, fpu, ext);
            now.len() == out.len() && now[pos as int] == out[pos as int]
        }),
    decreases count,
{
    if count > 0 {
        let before = (count - 1) as nat;
        lemma_directions_gather_nothing(
            ops,
            vals,
            vars,
            j,
            k,
            pos,
            weight,
            map,
            out,
            before,
            fpu,
            ext,
        );
        let was = hessian_state(ops, vals, vars, weight, map, out, before, fpu, ext);
        let d = vars[count - 1];
        if d == j {
            lemma_sweep_gathers_nothing(
                ops,
                vals,
                j,
                k,
                pos,
                weight,
                map,
                was,
                0,
                fpu,
                ext,
            );
        } else {
            let dot = tangents(ops, d as int, vals, ops.len(), fpu, ext);
            lemma_other_direction(
                ops,
                vals,
                dot,
                d,
                j,
                k as int,
                pos,
                weight,
                map,
                was,
                0,
                fpu,
                ext,
            );
        }
    }
}

/// The sparsity is complete: where two variables are not coupled, the second
/// derivatives leave the place of the pair as it was, whatever the point and
/// the weight. Zero has to annihilate in the arithmetic, and each pair needs a
/// place of its own.
pub proof fn sparsity_is_complete<
    F: Fn(FloatOp, u64, u64) -> u64,
    E: Fn(usize, &String, &Vec<ExternalArg>, bool, bool) -> ExternalValue,
>(
    ops: Seq<OpModel>,
    x: Seq<u64>,
    j: usize,
    k: usize,
    pos: usize,
    weight: u64,
    map: Seq<HashMap<usize, usize>>,
    out: Seq<u64>,
    fpu: Fpu<F>,
    ext: Externals<E>,
)
    requires
        zero_annihilates(fpu),
        ordered(ops),
        j <= k,
        slot(map, k as int, j as int) == Some(pos),
        distinct_slots(map),
        slots_below(map, out.len() as int),
    ensures
        ({
            let vals = run(ops, float_algebra(x, fpu, ext));
            let vars = variable_list(ops);
            let now = hessian_state(ops, vals, vars, weight, map, out, vars.len(), fpu, ext);
            now[pos as int] != out[pos as int] ==> coupled(ops, k, j)
        }),
{
    if !coupled(ops, k, j) {
        let vals = run(ops, float_algebra(x, fpu, ext));
        let vars = variable_list(ops);
        lemma_directions_gather_nothing(
            ops,
            vals,
            vars,
            j,
            k,
            pos,
            weight,
            map,
            out,
            vars.len(),
            fpu,
            ext,
        );
    }
}

/// What an operation depends on is on the tape.
proof fn lemma_depends_on_tape(ops: Seq<OpModel>, i: int, v: usize)
    requires
        0 <= i < ops.len(),
        depends(ops, i, v),
    ensures
        on_tape(ops, v),
    decreases i,
{
    match ops[i] {
        OpModel::Var(j) => {
            assert(ops[i] == OpModel::Var(v as int));
        },
        OpModel::Binary(_, a, b) => {
            if 0 <= a < i && depends(ops, a, v) {
                lemma_depends_on_tape(ops, a, v);
            } else {
                lemma_depends_on_tape(ops, b, v);
            }
        },
        OpModel::Unary(_, a) => {
            lemma_depends_on_tape(ops, a, v);
        },
        OpModel::Call(_, _, args) => {
            let t = choose|t: int|
                0 <= t < i && #[trigger] args.contains(ArgModel::Tape(t)) && depends(ops, t, v);
            lemma_depends_on_tape(ops, t, v);
        },
        _ => {},
    }
}

/// Coupled variables are on the tape, and on a tape of constants, variables,
/// sums, differences and changes of sign no variables are coupled.
pub proof fn coupled_variables_are_on_the_tape(ops: Seq<OpModel>, u: usize, v: usize)
    requires
        ordered(ops),
        coupled(ops, u, v),
    ensures
        on_tape(ops, u),
        on_tape(ops, v),
        exists|i: int| 0 <= i < ops.len() && !#[trigger] is_linear(ops[i]),
{
    let i = choose|i: int| 0 <= i < ops.len() && #[trigger] couples(ops, i, u, v);
    assert(!is_linear(ops[i]));
    match ops[i] {
        OpModel::Binary(_, a, b) => {
            assert(reads(ops[i], a) && reads(ops[i], b));
            assert(depends(ops, i, u) && depends(ops, i, v));
        },
        OpModel::Unary(_, a) => {
            assert(reads(ops[i], a));
            assert(depends(ops, i, u) && depends(ops, i, v));
        },
        _ => {},
    }
    lemma_depends_on_tape(ops, i, u);
    lemma_depends_on_tape(ops, i, v);
}

/// A constant, a variable, a sum, a difference, or a change of sign.
pub open spec fn is_linear(op: OpModel) -> bool {
    match op {
        OpModel::Const(_) => true,
        OpModel::Var(_) => true,
        OpModel::Binary(BinaryOp::Add, _, _) => true,
        OpModel::Binary(BinaryOp::Sub, _, _) => true,
        OpModel::Unary(UnaryOp::Neg, _) => true,
        _ => false,
    }
}

} // verus!
