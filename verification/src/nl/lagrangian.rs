//! The derivatives of a problem are those of its functions.

use crate::float::{negated, num_eq, FloatOp, Fpu, ZERO};
use crate::kkt::barrier::zeros;
use crate::nl::autodiff::OpModel;
use crate::nl::derivative::{
    congruent, exact_modulo, lemma_back, lemma_chain, lemma_plus, lemma_same, lemma_times,
};
use crate::nl::meaning::run;
use crate::nl::problem_impl::{
    coefficients_added, curvature_added, curvatures_added, indexes, nl_shape_fits, row_gradient,
    tape_fits, tape_model, zipped, NlProblem,
};
use crate::nl::second_derivative::{
    distinct_slots, hessian_is_the_derivative_of_the_gradient, lemma_other_direction,
    lemma_variables_listed, tape_is_twice_differentiable,
};
use crate::nl::sweeps::{
    float_algebra, gradient_of, hessian_state, on_tape, reverse_state, second_state, slot,
    slots_below, tangents, variable_list, variables_below, ExternalArg, ExternalValue, Externals,
};
use crate::sorted::increasing;
use std::collections::HashMap;
use crate::problem::NlpProblem;
use vstd::prelude::*;

verus! {

/// Variable `j` moves by `t` from `x` to `y`.
pub open spec fn moved_by(
    x: Seq<u64>,
    y: Seq<u64>,
    j: int,
    t: int,
    value: spec_fn(u64) -> int,
) -> bool {
    &&& 0 <= j < x.len()
    &&& y.len() == x.len()
    &&& forall|q: int| 0 <= q < x.len() && q != j ==> #[trigger] y[q] == x[q]
    &&& value(y[j]) == value(x[j]) + t
}

/// The first `c` coefficients of variable `j`.
pub(crate) open spec fn coefficients_of(
    terms: Seq<(usize, u64)>,
    j: int,
    c: nat,
    value: spec_fn(u64) -> int,
) -> int
    decreases c,
{
    if c == 0 {
        0
    } else {
        coefficients_of(terms, j, (c - 1) as nat, value) + (if terms[c - 1].0 == j {
            value(terms[c - 1].1)
        } else {
            0
        })
    }
}

/// A tape without a variable does not change with it.
proof fn lemma_run_same<
    F: Fn(FloatOp, u64, u64) -> u64,
    E: Fn(usize, &String, &Vec<ExternalArg>, bool, bool) -> ExternalValue,
>(ops: Seq<OpModel>, x: Seq<u64>, y: Seq<u64>, fpu: Fpu<F>, ext: Externals<E>)
    requires
        forall|i: int|
            0 <= i < ops.len() ==> match #[trigger] ops[i] {
                OpModel::Var(v) => x[v] == y[v],
                _ => true,
            },
    ensures
        run(ops, float_algebra(x, fpu, ext)) == run(ops, float_algebra(y, fpu, ext)),
    decreases ops.len(),
{
    if ops.len() > 0 {
        let front = ops.drop_last();
        assert forall|i: int| 0 <= i < front.len() implies match #[trigger] front[i] {
            OpModel::Var(v) => x[v] == y[v],
            _ => true,
        } by {
            assert(front[i] == ops[i]);
        }
        lemma_run_same(front, x, y, fpu, ext);
        assert(ops[ops.len() - 1] == ops.last());
    }
}

pub(crate) proof fn lemma_absent_same<
    F: Fn(FloatOp, u64, u64) -> u64,
    E: Fn(usize, &String, &Vec<ExternalArg>, bool, bool) -> ExternalValue,
>(
    ops: Seq<OpModel>,
    x: Seq<u64>,
    y: Seq<u64>,
    j: usize,
    t: int,
    fpu: Fpu<F>,
    ext: Externals<E>,
    value: spec_fn(u64) -> int,
)
    requires
        moved_by(x, y, j as int, t, value),
        variables_below(ops, x.len() as int),
        !on_tape(ops, j),
    ensures
        run(ops, float_algebra(x, fpu, ext)) == run(ops, float_algebra(y, fpu, ext)),
{
    assert forall|i: int| 0 <= i < ops.len() implies match #[trigger] ops[i] {
        OpModel::Var(v) => x[v] == y[v],
        _ => true,
    } by {
        assert(ops[i] != OpModel::Var(j as int));
    }
    lemma_run_same(ops, x, y, fpu, ext);
}

proof fn lemma_second_len<
    F: Fn(FloatOp, u64, u64) -> u64,
    E: Fn(usize, &String, &Vec<ExternalArg>, bool, bool) -> ExternalValue,
>(
    ops: Seq<OpModel>,
    vals: Seq<u64>,
    dot: Seq<u64>,
    j: int,
    weight: u64,
    map: Seq<HashMap<usize, usize>>,
    out: Seq<u64>,
    i: int,
    fpu: Fpu<F>,
    ext: Externals<E>,
)
    requires
        slots_below(map, out.len() as int),
    ensures
        second_state(ops, vals, dot, j, weight, map, out, i, fpu, ext).out.len() == out.len(),
    decreases ops.len() - i,
{
    if i < ops.len() {
        lemma_second_len(ops, vals, dot, j, weight, map, out, i + 1, fpu, ext);
        if ops[i] is Var {
            let k = ops[i]->Var_0;
            if slot(map, k, j) is Some {
                assert(map[k]@.contains_key(j as usize));
            }
        }
    }
}

proof fn lemma_hessian_len<
    F: Fn(FloatOp, u64, u64) -> u64,
    E: Fn(usize, &String, &Vec<ExternalArg>, bool, bool) -> ExternalValue,
>(
    ops: Seq<OpModel>,
    vals: Seq<u64>,
    vars: Seq<usize>,
    weight: u64,
    map: Seq<HashMap<usize, usize>>,
    out: Seq<u64>,
    count: nat,
    fpu: Fpu<F>,
    ext: Externals<E>,
)
    requires
        slots_below(map, out.len() as int),
    ensures
        hessian_state(ops, vals, vars, weight, map, out, count, fpu, ext).len() == out.len(),
    decreases count,
{
    if count > 0 {
        let c = (count - 1) as nat;
        lemma_hessian_len(ops, vals, vars, weight, map, out, c, fpu, ext);
        let before = hessian_state(ops, vals, vars, weight, map, out, c, fpu, ext);
        let j = vars[count - 1] as int;
        let dot = tangents(ops, j, vals, ops.len(), fpu, ext);
        lemma_second_len(ops, vals, dot, j, weight, map, before, 0, fpu, ext);
    }
}

proof fn lemma_absent_directions<
    F: Fn(FloatOp, u64, u64) -> u64,
    E: Fn(usize, &String, &Vec<ExternalArg>, bool, bool) -> ExternalValue,
>(
    ops: Seq<OpModel>,
    vals: Seq<u64>,
    vars: Seq<usize>,
    j: usize,
    k: int,
    pos: usize,
    weight: u64,
    map: Seq<HashMap<usize, usize>>,
    out: Seq<u64>,
    count: nat,
    fpu: Fpu<F>,
    ext: Externals<E>,
)
    requires
        count <= vars.len(),
        !vars.contains(j),
        j <= k,
        slot(map, k, j as int) == Some(pos),
        distinct_slots(map),
        slots_below(map, out.len() as int),
    ensures
        hessian_state(ops, vals, vars, weight, map, out, count, fpu, ext).len() == out.len(),
        hessian_state(ops, vals, vars, weight, map, out, count, fpu, ext)[pos as int]
            == out[pos as int],
    decreases count,
{
    if count > 0 {
        let c = (count - 1) as nat;
        lemma_absent_directions(
            ops,
            vals,
            vars,
            j,
            k,
            pos,
            weight,
            map,
            out,
            c,
            fpu,
            ext,
        );
        let before = hessian_state(ops, vals, vars, weight, map, out, c, fpu, ext);
        let other = vars[count - 1];
        assert(vars.contains(other));
        let dot = tangents(ops, other as int, vals, ops.len(), fpu, ext);
        lemma_other_direction(
            ops,
            vals,
            dot,
            other,
            j,
            k,
            pos,
            weight,
            map,
            before,
            0,
            fpu,
            ext,
        );
    }
}

/// The gradient of the nonlinear part of a function.
pub open spec fn tape_gradient<
    F: Fn(FloatOp, u64, u64) -> u64,
    E: Fn(usize, &String, &Vec<ExternalArg>, bool, bool) -> ExternalValue,
>(
    t: Option<Seq<OpModel>>,
    x: Seq<u64>,
    fpu: Fpu<F>,
    ext: Externals<E>,
) -> Seq<u64> {
    match t {
        Some(ops) => gradient_of(ops, x, x.len(), fpu, ext),
        None => zeros(x.len()),
    }
}

/// A function has its second derivatives, where variable `j` moves by `t`.
pub open spec fn curves<
    F: Fn(FloatOp, u64, u64) -> u64,
    E: Fn(usize, &String, &Vec<ExternalArg>, bool, bool) -> ExternalValue,
>(
    tape: Option<Seq<OpModel>>,
    x: Seq<u64>,
    y: Seq<u64>,
    j: int,
    t: int,
    fpu: Fpu<F>,
    ext: Externals<E>,
    value: spec_fn(u64) -> int,
) -> bool {
    tape matches Some(ops) ==> tape_is_twice_differentiable(ops, x, y, j, t, fpu, ext, value)
}

/// What one function adds to the place of two variables: its weight times the
/// change of its gradient.
proof fn lemma_one_curvature<
    F: Fn(FloatOp, u64, u64) -> u64,
    E: Fn(usize, &String, &Vec<ExternalArg>, bool, bool) -> ExternalValue,
>(
    tape: Option<Seq<OpModel>>,
    x: Seq<u64>,
    y: Seq<u64>,
    j: usize,
    k: int,
    pos: usize,
    t: int,
    weight: u64,
    map: Seq<HashMap<usize, usize>>,
    out: Seq<u64>,
    fpu: Fpu<F>,
    ext: Externals<E>,
    value: spec_fn(u64) -> int,
)
    requires
        exact_modulo(fpu, value, t * t),
        tape_fits(tape, x.len() as int),
        moved_by(x, y, j as int, t, value),
        curves(tape, x, y, j as int, t, fpu, ext, value),
        j <= k < x.len(),
        slot(map, k, j as int) == Some(pos),
        distinct_slots(map),
        slots_below(map, out.len() as int),
    ensures
        ({
            let now = curvature_added(tape, x, weight, map, out, fpu, ext);
            let gx = tape_gradient(tape, x, fpu, ext);
            let gy = tape_gradient(tape, y, fpu, ext);
            &&& now.len() == out.len()
            &&& congruent(
                t * value(now[pos as int]),
                t * value(out[pos as int]) + value(weight) * (value(gy[k]) - value(gx[k])),
                t * t,
            )
        }),
{
    let m = t * t;
    let gx = tape_gradient(tape, x, fpu, ext);
    let gy = tape_gradient(tape, y, fpu, ext);
    let w = value(weight);
    match tape {
        None => {
            assert(w * 0 == 0) by (nonlinear_arith);
            lemma_same(t * value(out[pos as int]), t * value(out[pos as int]), m);
        },
        Some(ops) => {
            let vals = run(ops, float_algebra(x, fpu, ext));
            let vars = variable_list(ops);
            let listed = lemma_variables_listed(ops);
            assert(increasing(listed) && forall|q: usize| #[trigger]
                listed.contains(q) <==> on_tape(ops, q));
            lemma_hessian_len(ops, vals, vars, weight, map, out, vars.len(), fpu, ext);
            if num_eq(weight, ZERO) {
                let change = value(gy[k]) - value(gx[k]);
                assert(0 * change == 0) by (nonlinear_arith);
                lemma_same(t * value(out[pos as int]), t * value(out[pos as int]), m);
            } else if on_tape(ops, j) {
                assert forall|q: int| 0 <= q < x.len() implies value(#[trigger] y[q]) == value(x[q])
                    + (if q == j {
                    t
                } else {
                    0
                }) by {}
                hessian_is_the_derivative_of_the_gradient(
                    ops,
                    x,
                    y,
                    j,
                    k,
                    pos,
                    t,
                    weight,
                    map,
                    out,
                    fpu,
                    ext,
                    value,
                );
            } else {
                lemma_absent_same(ops, x, y, j, t, fpu, ext, value);
                lemma_absent_directions(
                    ops,
                    vals,
                    vars,
                    j,
                    k,
                    pos,
                    weight,
                    map,
                    out,
                    vars.len(),
                    fpu,
                    ext,
                );
                assert(w * 0 == 0) by (nonlinear_arith);
                lemma_same(t * value(out[pos as int]), t * value(out[pos as int]), m);
            }
        },
    }
}

/// The linear terms add their coefficients to a gradient.
pub(crate) proof fn lemma_coefficients<F: Fn(FloatOp, u64, u64) -> u64>(
    grad: Seq<u64>,
    terms: Seq<(usize, u64)>,
    k: int,
    c: nat,
    fpu: Fpu<F>,
    value: spec_fn(u64) -> int,
    m: int,
)
    requires
        exact_modulo(fpu, value, m),
        0 <= k < grad.len(),
        c <= terms.len(),
    ensures
        coefficients_added(grad, terms, c, fpu).len() == grad.len(),
        congruent(
            value(coefficients_added(grad, terms, c, fpu)[k]),
            value(grad[k]) + coefficients_of(terms, k, c, value),
            m,
        ),
    decreases c,
{
    if c == 0 {
        lemma_same(value(grad[k]), value(grad[k]), m);
    } else {
        let b = (c - 1) as nat;
        lemma_coefficients(grad, terms, k, b, fpu, value, m);
        let before = coefficients_added(grad, terms, b, fpu);
        let (j, v) = terms[c - 1];
        if j == k {
            lemma_same(value(v), value(v), m);
            let so_far = value(grad[k]) + coefficients_of(terms, k, b, value);
            lemma_plus(value(before[k]), so_far, value(v), value(v), m);
            lemma_chain(
                value(fpu.sum(before[k], v)),
                value(before[k]) + value(v),
                so_far + value(v),
                m,
            );
        }
    }
}

/// The gradient of a function changes as that of its nonlinear part does.
proof fn lemma_gradient_change<
    F: Fn(FloatOp, u64, u64) -> u64,
    E: Fn(usize, &String, &Vec<ExternalArg>, bool, bool) -> ExternalValue,
>(
    tape: Option<Seq<OpModel>>,
    terms: Seq<(usize, u64)>,
    x: Seq<u64>,
    y: Seq<u64>,
    k: int,
    fpu: Fpu<F>,
    ext: Externals<E>,
    value: spec_fn(u64) -> int,
    m: int,
)
    requires
        exact_modulo(fpu, value, m),
        y.len() == x.len(),
        0 <= k < x.len(),
        tape_gradient(tape, x, fpu, ext).len() == x.len(),
        tape_gradient(tape, y, fpu, ext).len() == x.len(),
    ensures
        row_gradient(tape, terms, x, x.len(), fpu, ext).len() == x.len(),
        row_gradient(tape, terms, y, x.len(), fpu, ext).len() == x.len(),
        congruent(
            value(tape_gradient(tape, y, fpu, ext)[k]) - value(tape_gradient(tape, x, fpu, ext)[k]),
            value(row_gradient(tape, terms, y, x.len(), fpu, ext)[k]) - value(
                row_gradient(tape, terms, x, x.len(), fpu, ext)[k],
            ),
            m,
        ),
{
    let gx = tape_gradient(tape, x, fpu, ext);
    let gy = tape_gradient(tape, y, fpu, ext);
    let n = terms.len();
    let c = coefficients_of(terms, k, n, value);
    lemma_coefficients(gx, terms, k, n, fpu, value, m);
    lemma_coefficients(gy, terms, k, n, fpu, value, m);
    let rx = value(row_gradient(tape, terms, x, x.len(), fpu, ext)[k]);
    let ry = value(row_gradient(tape, terms, y, x.len(), fpu, ext)[k]);
    lemma_plus(ry, value(gy[k]) + c, rx, value(gx[k]) + c, m);
    lemma_back(ry - rx, (value(gy[k]) + c) - (value(gx[k]) + c), m);
}

proof fn lemma_gradient_len<
    F: Fn(FloatOp, u64, u64) -> u64,
    E: Fn(usize, &String, &Vec<ExternalArg>, bool, bool) -> ExternalValue,
>(
    ops: Seq<OpModel>,
    vals: Seq<u64>,
    grad: Seq<u64>,
    i: int,
    fpu: Fpu<F>,
    ext: Externals<E>,
)
    requires
        0 <= i,
        variables_below(ops, grad.len() as int),
    ensures
        reverse_state(ops, vals, grad, i, fpu, ext).grad.len() == grad.len(),
    decreases ops.len() - i,
{
    if i < ops.len() {
        lemma_gradient_len(ops, vals, grad, i + 1, fpu, ext);
        assert(match ops[i] {
            OpModel::Var(v) => 0 <= v < grad.len(),
            _ => true,
        });
    }
}

pub(crate) proof fn lemma_tape_gradient_len<
    F: Fn(FloatOp, u64, u64) -> u64,
    E: Fn(usize, &String, &Vec<ExternalArg>, bool, bool) -> ExternalValue,
>(tape: Option<Seq<OpModel>>, x: Seq<u64>, fpu: Fpu<F>, ext: Externals<E>)
    requires
        tape_fits(tape, x.len() as int),
    ensures
        tape_gradient(tape, x, fpu, ext).len() == x.len(),
{
    match tape {
        Some(ops) => {
            lemma_gradient_len(
                ops,
                run(ops, float_algebra(x, fpu, ext)),
                Seq::new(x.len(), |k: int| ZERO),
                0,
                fpu,
                ext,
            );
        },
        None => {},
    }
}

/// Entry `k` of the sum of the gradients of the first `c` constraints, each times
/// its multiplier.
pub open spec fn constraints_pull<
    F: Fn(FloatOp, u64, u64) -> u64,
    E: Fn(usize, &String, &Vec<ExternalArg>, bool, bool) -> ExternalValue,
>(
    p: NlProblem<F, E>,
    x: Seq<u64>,
    lambda: Seq<u64>,
    k: int,
    c: nat,
    value: spec_fn(u64) -> int,
) -> int
    decreases c,
{
    if c == 0 {
        0
    } else {
        constraints_pull(p, x, lambda, k, (c - 1) as nat, value) + value(lambda[c - 1]) * value(
            p.constraint_gradient(c - 1, x)[k],
        )
    }
}

/// Entry `k` of the gradient of the Lagrangian: that of the objective times its
/// factor, plus those of the constraints times their multipliers.
pub open spec fn lagrangian_gradient<
    F: Fn(FloatOp, u64, u64) -> u64,
    E: Fn(usize, &String, &Vec<ExternalArg>, bool, bool) -> ExternalValue,
>(
    p: NlProblem<F, E>,
    x: Seq<u64>,
    obj_factor: u64,
    lambda: Seq<u64>,
    k: int,
    value: spec_fn(u64) -> int,
) -> int {
    value(obj_factor) * value(p.objective_gradient(x)[k]) + constraints_pull(
        p,
        x,
        lambda,
        k,
        p.m as nat,
        value,
    )
}

/// The objective and all constraints have their second derivatives.
pub open spec fn functions_curve<
    F: Fn(FloatOp, u64, u64) -> u64,
    E: Fn(usize, &String, &Vec<ExternalArg>, bool, bool) -> ExternalValue,
>(
    p: NlProblem<F, E>,
    x: Seq<u64>,
    y: Seq<u64>,
    j: int,
    t: int,
    value: spec_fn(u64) -> int,
) -> bool {
    &&& curves(p.obj_model(), x, y, j, t, p.fpu, p.ext, value)
    &&& forall|i: int|
        0 <= i < p.m ==> curves(
            #[trigger] p.con_models()[i],
            x,
            y,
            j,
            t,
            p.fpu,
            p.ext,
            value,
        )
}

proof fn lemma_all_curvatures<
    F: Fn(FloatOp, u64, u64) -> u64,
    E: Fn(usize, &String, &Vec<ExternalArg>, bool, bool) -> ExternalValue,
>(
    p: NlProblem<F, E>,
    x: Seq<u64>,
    y: Seq<u64>,
    lambda: Seq<u64>,
    j: usize,
    k: int,
    pos: usize,
    t: int,
    out: Seq<u64>,
    c: nat,
    value: spec_fn(u64) -> int,
)
    requires
        p.well_formed(),
        x.len() == p.n,
        exact_modulo(p.fpu, value, t * t),
        moved_by(x, y, j as int, t, value),
        functions_curve(p, x, y, j as int, t, value),
        j <= k < x.len(),
        slot(p.hess_map@, k, j as int) == Some(pos),
        distinct_slots(p.hess_map@),
        slots_below(p.hess_map@, out.len() as int),
        c <= p.m,
    ensures
        ({
            let now = curvatures_added(
                p.con_models(),
                x,
                lambda,
                p.hess_map@,
                out,
                c,
                p.fpu,
                p.ext,
            );
            &&& now.len() == out.len()
            &&& congruent(
                t * value(now[pos as int]),
                t * value(out[pos as int]) + constraints_pull(p, y, lambda, k, c, value)
                    - constraints_pull(p, x, lambda, k, c, value),
                t * t,
            )
        }),
    decreases c,
{
    let m = t * t;
    if c == 0 {
        lemma_same(t * value(out[pos as int]), t * value(out[pos as int]), m);
    } else {
        let b = (c - 1) as nat;
        let i = c - 1;
        lemma_all_curvatures(p, x, y, lambda, j, k, pos, t, out, b, value);
        let before = curvatures_added(
            p.con_models(),
            x,
            lambda,
            p.hess_map@,
            out,
            b,
            p.fpu,
            p.ext,
        );
        let tape = p.con_models()[i];
        assert(tape_fits(tape_model(p.con_tapes@[i]), p.n as int));
        assert(curves(tape, x, y, j as int, t, p.fpu, p.ext, value));
        lemma_one_curvature(
            tape,
            x,
            y,
            j,
            k,
            pos,
            t,
            lambda[i],
            p.hess_map@,
            before,
            p.fpu,
            p.ext,
            value,
        );
        lemma_tape_gradient_len(tape, x, p.fpu, p.ext);
        lemma_tape_gradient_len(tape, y, p.fpu, p.ext);
        lemma_gradient_change(tape, p.con_linear@[i]@, x, y, k, p.fpu, p.ext, value, m);
        let now = curvature_added(tape, x, lambda[i], p.hess_map@, before, p.fpu, p.ext);
        let w = value(lambda[i]);
        let tape_change = value(tape_gradient(tape, y, p.fpu, p.ext)[k]) - value(
            tape_gradient(tape, x, p.fpu, p.ext)[k],
        );
        let gy = value(p.constraint_gradient(i, y)[k]);
        let gx = value(p.constraint_gradient(i, x)[k]);
        lemma_same(w, w, m);
        lemma_times(w, w, tape_change, gy - gx, m);
        let was = t * value(before[pos as int]);
        let goal = t * value(out[pos as int]) + constraints_pull(p, y, lambda, k, b, value)
            - constraints_pull(p, x, lambda, k, b, value);
        lemma_plus(was, goal, w * tape_change, w * (gy - gx), m);
        lemma_chain(
            t * value(now[pos as int]),
            was + w * tape_change,
            goal + w * (gy - gx),
            m,
        );
        assert(w * (gy - gx) == w * gy - w * gx) by (nonlinear_arith);
    }
}

/// The Hessian is the second derivative of the Lagrangian: if variable `j` moves
/// by `t`, then `t` times the entry for the variables `k` and `j` is the change
/// of entry `k` of the gradient of the Lagrangian, up to multiples of the square
/// of `t`. So each entry is the factor of the objective times the second
/// derivative of the objective, plus each multiplier times that of its
/// constraint. The arithmetic has to be exact up to such multiples.
pub proof fn hessian_is_that_of_the_lagrangian<
    F: Fn(FloatOp, u64, u64) -> u64,
    E: Fn(usize, &String, &Vec<ExternalArg>, bool, bool) -> ExternalValue,
>(
    p: NlProblem<F, E>,
    x: Seq<u64>,
    y: Seq<u64>,
    obj_factor: u64,
    lambda: Seq<u64>,
    pos: usize,
    t: int,
    value: spec_fn(u64) -> int,
)
    requires
        p.well_formed(),
        x.len() == p.n,
        pos < p.hess_rows@.len(),
        exact_modulo(p.fpu, value, t * t),
        moved_by(x, y, p.hess_cols@[pos as int] as int, t, value),
        functions_curve(p, x, y, p.hess_cols@[pos as int] as int, t, value),
    ensures
        congruent(
            t * value(p.hessian_at(x, obj_factor, lambda)[pos as int]),
            lagrangian_gradient(p, y, obj_factor, lambda, p.hess_rows@[pos as int] as int, value)
                - lagrangian_gradient(
                p,
                x,
                obj_factor,
                lambda,
                p.hess_rows@[pos as int] as int,
                value,
            ),
            t * t,
        ),
{
    let m = t * t;
    let k = p.hess_rows@[pos as int] as int;
    let j = p.hess_cols@[pos as int];
    let list = zipped(p.hess_rows@, p.hess_cols@);
    nl_shape_fits(p);
    assert(list[pos as int] == (k as usize, j));
    assert(list.contains(list[pos as int]));
    assert(slot(p.hess_map@, list[pos as int].0 as int, list[pos as int].1 as int) == Some(pos));
    assert(p.hess_map@.len() == p.hess_map.len());
    lemma_slots(p.hess_map@, list);
    assert(p.shape().hess_rows[pos as int] < p.n);
    let start = zeros(p.hess_rows@.len());
    let weight = if p.maximize {
        negated(obj_factor)
    } else {
        obj_factor
    };
    let obj = p.obj_model();
    lemma_one_curvature(
        obj,
        x,
        y,
        j,
        k,
        pos,
        t,
        weight,
        p.hess_map@,
        start,
        p.fpu,
        p.ext,
        value,
    );
    let out = curvature_added(obj, x, weight, p.hess_map@, start, p.fpu, p.ext);
    lemma_all_curvatures(p, x, y, lambda, j, k, pos, t, out, p.m as nat, value);
    lemma_tape_gradient_len(obj, x, p.fpu, p.ext);
    lemma_tape_gradient_len(obj, y, p.fpu, p.ext);
    lemma_gradient_change(obj, p.obj_linear@, x, y, k, p.fpu, p.ext, value, m);
    let tape_change = value(tape_gradient(obj, y, p.fpu, p.ext)[k]) - value(
        tape_gradient(obj, x, p.fpu, p.ext)[k],
    );
    let rx = row_gradient(obj, p.obj_linear@, x, x.len(), p.fpu, p.ext)[k];
    let ry = row_gradient(obj, p.obj_linear@, y, x.len(), p.fpu, p.ext)[k];
    let f = value(obj_factor);
    let w = value(weight);
    let gx = value(p.objective_gradient(x)[k]);
    let gy = value(p.objective_gradient(y)[k]);
    lemma_same(w, w, m);
    lemma_times(w, w, tape_change, value(ry) - value(rx), m);
    lemma_same(f, f, m);
    assert(congruent(w * (value(ry) - value(rx)), f * (gy - gx), m)) by {
        if p.maximize {
            lemma_plus(gy, -value(ry), gx, -value(rx), m);
            lemma_back(gy - gx, -value(ry) - (-value(rx)), m);
            let d = value(ry) - value(rx);
            lemma_same(d, d, m);
            lemma_times(w, -f, d, d, m);
            assert((-f) * d == f * (-d)) by (nonlinear_arith);
            lemma_times(f, f, -d, gy - gx, m);
            lemma_chain(w * d, f * (-d), f * (gy - gx), m);
        } else {
            lemma_same(w * (value(ry) - value(rx)), f * (gy - gx), m);
        }
    }
    lemma_chain(w * tape_change, w * (value(ry) - value(rx)), f * (gy - gx), m);
    let at = pos as int;
    assert(value(start[at]) == 0);
    assert(t * 0 == 0) by (nonlinear_arith);
    assert(congruent(t * value(out[at]), w * tape_change, m));
    lemma_chain(t * value(out[at]), w * tape_change, f * (gy - gx), m);
    let pulled = constraints_pull(p, y, lambda, k, p.m as nat, value) - constraints_pull(
        p,
        x,
        lambda,
        k,
        p.m as nat,
        value,
    );
    lemma_same(pulled, pulled, m);
    lemma_plus(t * value(out[at]), f * (gy - gx), pulled, pulled, m);
    lemma_chain(
        t * value(p.hessian_at(x, obj_factor, lambda)[at]),
        t * value(out[at]) + pulled,
        f * (gy - gx) + pulled,
        m,
    );
    assert(f * (gy - gx) == f * gy - f * gx) by (nonlinear_arith);
}

/// The places of an index are distinct and within its list.
proof fn lemma_slots(map: Seq<HashMap<usize, usize>>, list: Seq<(usize, usize)>)
    requires
        indexes(map, list),
        map.len() <= usize::MAX,
    ensures
        distinct_slots(map),
        slots_below(map, list.len() as int),
{
    assert forall|k: int, j: usize, k2: int, j2: usize|
        #![trigger slot(map, k, j as int), slot(map, k2, j2 as int)]
        j <= k && j2 <= k2 && slot(map, k, j as int) is Some && slot(map, k, j as int) == slot(
            map,
            k2,
            j2 as int,
        ) implies k == k2 && j == j2 by {
        assert(map[k]@.contains_key(j));
        assert(map[k2]@.contains_key(j2));
        assert(list[map[k]@[j] as int] == (k as usize, j));
        assert(list[map[k2]@[j2] as int] == (k2 as usize, j2));
    }
}

} // verus!
