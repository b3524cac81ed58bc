//! The gradients of a problem are those of its functions.

use crate::float::{negated, num_eq, FloatOp, Fpu, ZERO};
use crate::nl::autodiff::OpModel;
use crate::nl::chain::{chained, exact_field};
use crate::nl::derivative::{
    congruent, exact_modulo, lemma_back, lemma_chain, lemma_plus, lemma_same, lemma_times,
};
use crate::nl::differentials::{differentiable, gradient_is_the_derivative_of_any_tape};
use crate::nl::lagrangian::{
    coefficients_of, lemma_absent_same, lemma_coefficients, lemma_tape_gradient_len, moved_by,
    tape_gradient,
};
use crate::nl::meaning::run;
use crate::nl::parser::lists;
use crate::nl::problem_impl::{
    jacobian_entries, linear_entries, nl_shape_fits, row_gradient, row_value, tape_fits, tape_model,
    terms_added, terms_below, with_key, with_operations, with_tapes, with_terms, zipped, NlProblem,
};
use crate::nl::sweeps::{float_algebra, on_tape, ExternalArg, ExternalValue, Externals};
use vstd::prelude::*;

verus! {

/// The first `c` linear terms.
spec fn linear_part(
    terms: Seq<(usize, u64)>,
    x: Seq<u64>,
    c: nat,
    value: spec_fn(u64) -> int,
) -> int
    decreases c,
{
    if c == 0 {
        0
    } else {
        linear_part(terms, x, (c - 1) as nat, value) + value(terms[c - 1].1) * value(
            x[terms[c - 1].0 as int],
        )
    }
}

proof fn lemma_linear_moves(
    terms: Seq<(usize, u64)>,
    x: Seq<u64>,
    y: Seq<u64>,
    j: int,
    t: int,
    c: nat,
    value: spec_fn(u64) -> int,
)
    requires
        moved_by(x, y, j, t, value),
        terms_below(terms, x.len()),
        c <= terms.len(),
    ensures
        linear_part(terms, y, c, value) == linear_part(terms, x, c, value) + t * coefficients_of(
            terms,
            j,
            c,
            value,
        ),
    decreases c,
{
    if c == 0 {
        assert(t * 0 == 0) by (nonlinear_arith);
    } else {
        let b = (c - 1) as nat;
        lemma_linear_moves(terms, x, y, j, t, b, value);
        let v = terms[c - 1].0 as int;
        assert(terms[c - 1].0 < x.len());
        let a = value(terms[c - 1].1);
        let s = coefficients_of(terms, j, b, value);
        if v == j {
            let xv = value(x[j]);
            assert(a * (xv + t) == a * xv + t * a) by (nonlinear_arith);
            assert(t * (s + a) == t * s + t * a) by (nonlinear_arith);
        }
    }
}

proof fn lemma_terms<F: Fn(FloatOp, u64, u64) -> u64>(
    start: u64,
    terms: Seq<(usize, u64)>,
    x: Seq<u64>,
    c: nat,
    fpu: Fpu<F>,
    value: spec_fn(u64) -> int,
    m: int,
)
    requires
        exact_modulo(fpu, value, m),
        c <= terms.len(),
    ensures
        congruent(
            value(terms_added(start, terms, x, c, fpu)),
            value(start) + linear_part(terms, x, c, value),
            m,
        ),
    decreases c,
{
    if c == 0 {
        lemma_same(value(start), value(start), m);
    } else {
        let b = (c - 1) as nat;
        lemma_terms(start, terms, x, b, fpu, value, m);
        let before = terms_added(start, terms, x, b, fpu);
        let (v, a) = terms[c - 1];
        let p = fpu.product(a, x[v as int]);
        let goal = value(start) + linear_part(terms, x, b, value);
        lemma_plus(value(before), goal, value(p), value(a) * value(x[v as int]), m);
        lemma_chain(
            value(fpu.sum(before, p)),
            value(before) + value(p),
            goal + value(a) * value(x[v as int]),
            m,
        );
    }
}

/// A function has its derivative by variable `j`, which moves by `t`.
pub open spec fn slopes<
    F: Fn(FloatOp, u64, u64) -> u64,
    E: Fn(usize, &String, &Vec<ExternalArg>, bool, bool) -> ExternalValue,
>(
    tape: Option<Seq<OpModel>>,
    x: Seq<u64>,
    y: Seq<u64>,
    j: int,
    t: int,
    fpu: Fpu<F>,
    ext: Externals<E>,
    value: spec_fn(u64) -> int,
) -> bool {
    tape matches Some(ops) ==> {
        let vals = run(ops, float_algebra(x, fpu, ext));
        let moved = run(ops, float_algebra(y, fpu, ext));
        let d = chained(ops, j, vals, ops.len(), fpu, ext, value);
        forall|i: int|
            0 <= i < ops.len() ==> differentiable(
                #[trigger] ops[i],
                i,
                vals,
                moved,
                d,
                t,
                fpu,
                value,
            )
    }
}

/// The value of the nonlinear part of a function.
spec fn tape_value<
    F: Fn(FloatOp, u64, u64) -> u64,
    E: Fn(usize, &String, &Vec<ExternalArg>, bool, bool) -> ExternalValue,
>(
    tape: Option<Seq<OpModel>>,
    x: Seq<u64>,
    fpu: Fpu<F>,
    ext: Externals<E>,
    value: spec_fn(u64) -> int,
) -> int {
    match tape {
        Some(ops) => value(run(ops, float_algebra(x, fpu, ext)).last()),
        None => 0,
    }
}

proof fn lemma_row_value<
    F: Fn(FloatOp, u64, u64) -> u64,
    E: Fn(usize, &String, &Vec<ExternalArg>, bool, bool) -> ExternalValue,
>(
    tape: Option<Seq<OpModel>>,
    terms: Seq<(usize, u64)>,
    x: Seq<u64>,
    fpu: Fpu<F>,
    ext: Externals<E>,
    value: spec_fn(u64) -> int,
    m: int,
)
    requires
        exact_modulo(fpu, value, m),
    ensures
        congruent(
            value(row_value(tape, terms, x, fpu, ext)),
            tape_value(tape, x, fpu, ext, value) + linear_part(terms, x, terms.len(), value),
            m,
        ),
{
    assert(num_eq(ZERO, ZERO));
    let start = match tape {
        Some(ops) => fpu.sum(ZERO, run(ops, float_algebra(x, fpu, ext)).last()),
        None => ZERO,
    };
    let n = terms.len();
    let l = linear_part(terms, x, n, value);
    let v = tape_value(tape, x, fpu, ext, value);
    lemma_terms(start, terms, x, n, fpu, value, m);
    lemma_same(v, v, m);
    lemma_same(l, l, m);
    assert(congruent(value(start), v, m)) by {
        match tape {
            Some(ops) => {},
            None => {
                lemma_same(value(start), v, m);
            },
        }
    }
    lemma_plus(value(start), v, l, l, m);
    lemma_chain(value(row_value(tape, terms, x, fpu, ext)), value(start) + l, v + l, m);
}

/// A function moves by `t` times its gradient.
proof fn lemma_row_slope<
    F: Fn(FloatOp, u64, u64) -> u64,
    E: Fn(usize, &String, &Vec<ExternalArg>, bool, bool) -> ExternalValue,
>(
    tape: Option<Seq<OpModel>>,
    terms: Seq<(usize, u64)>,
    x: Seq<u64>,
    y: Seq<u64>,
    j: int,
    t: int,
    fpu: Fpu<F>,
    ext: Externals<E>,
    value: spec_fn(u64) -> int,
)
    requires
        exact_field(fpu, value, t * t),
        tape_fits(tape, x.len() as int),
        terms_below(terms, x.len()),
        moved_by(x, y, j, t, value),
        slopes(tape, x, y, j, t, fpu, ext, value),
    ensures
        congruent(
            value(row_value(tape, terms, y, fpu, ext)),
            value(row_value(tape, terms, x, fpu, ext)) + t * value(
                row_gradient(tape, terms, x, x.len(), fpu, ext)[j],
            ),
            t * t,
        ),
{
    let m = t * t;
    let n = terms.len();
    assert(num_eq(ZERO, ZERO));
    lemma_row_value(tape, terms, x, fpu, ext, value, m);
    lemma_row_value(tape, terms, y, fpu, ext, value, m);
    lemma_linear_moves(terms, x, y, j, t, n, value);
    lemma_tape_gradient_len(tape, x, fpu, ext);
    let g = tape_gradient(tape, x, fpu, ext);
    lemma_coefficients(g, terms, j, n, fpu, value, m);
    let (vx, vy) = (tape_value(tape, x, fpu, ext, value), tape_value(tape, y, fpu, ext, value));
    let (lx, ly) = (linear_part(terms, x, n, value), linear_part(terms, y, n, value));
    let c = coefficients_of(terms, j, n, value);
    let gj = value(g[j]);
    assert(congruent(vy, vx + t * gj, m)) by {
        match tape {
            None => {
                assert(t * 0 == 0) by (nonlinear_arith);
                lemma_same(0, 0, m);
            },
            Some(ops) => {
                assert forall|q: int| 0 <= q < x.len() implies value(#[trigger] y[q]) == value(x[q])
                    + (if q == j {
                    t
                } else {
                    0
                }) by {}
                gradient_is_the_derivative_of_any_tape(ops, x, y, j, t, fpu, ext, value);
            },
        }
    }
    lemma_same(ly, ly, m);
    lemma_plus(vy, vx + t * gj, ly, ly, m);
    let ry = value(row_value(tape, terms, y, fpu, ext));
    let rx = value(row_value(tape, terms, x, fpu, ext));
    let step = t * gj + t * c;
    lemma_chain(ry, vy + ly, vx + lx + step, m);
    let full = value(row_gradient(tape, terms, x, x.len(), fpu, ext)[j]);
    assert(t * (gj + c) == step) by (nonlinear_arith)
        requires
            step == t * gj + t * c,
    ;
    lemma_same(t, t, m);
    lemma_times(t, t, full, gj + c, m);
    lemma_plus(rx, vx + lx, t * full, step, m);
    lemma_back(rx + t * full, vx + lx + step, m);
    lemma_chain(ry, vx + lx + step, rx + t * full, m);
}

/// The gradient of the objective is its derivative: if variable `j` moves by `t`,
/// the objective moves by `t` times entry `j`, up to multiples of the square of
/// `t`. This holds of what is minimized, which for an objective that is maximized
/// is its opposite.
pub proof fn objective_gradient_is_the_derivative<
    F: Fn(FloatOp, u64, u64) -> u64,
    E: Fn(usize, &String, &Vec<ExternalArg>, bool, bool) -> ExternalValue,
>(
    p: NlProblem<F, E>,
    x: Seq<u64>,
    y: Seq<u64>,
    j: int,
    t: int,
    value: spec_fn(u64) -> int,
)
    requires
        p.well_formed(),
        x.len() == p.n,
        exact_field(p.fpu, value, t * t),
        moved_by(x, y, j, t, value),
        slopes(p.obj_model(), x, y, j, t, p.fpu, p.ext, value),
    ensures
        congruent(
            value(p.objective_value(y)),
            value(p.objective_value(x)) + t * value(p.objective_gradient(x)[j]),
            t * t,
        ),
{
    let m = t * t;
    let (tape, terms) = (p.obj_model(), p.obj_linear@);
    lemma_row_slope(tape, terms, x, y, j, t, p.fpu, p.ext, value);
    if p.maximize {
        let vy = row_value(tape, terms, y, p.fpu, p.ext);
        let vx = row_value(tape, terms, x, p.fpu, p.ext);
        lemma_tape_gradient_len(tape, x, p.fpu, p.ext);
        lemma_coefficients(
            tape_gradient(tape, x, p.fpu, p.ext),
            terms,
            j,
            terms.len(),
            p.fpu,
            value,
            m,
        );
        let g = row_gradient(tape, terms, x, x.len(), p.fpu, p.ext)[j];
        let (a, b, c) = (value(vy), value(vx), value(g));
        assert(p.objective_gradient(x)[j] == negated(g));
        lemma_same(0, 0, m);
        lemma_plus(0, 0, a, b + t * c, m);
        lemma_chain(value(negated(vy)), 0 - a, 0 - (b + t * c), m);
        lemma_same(t, t, m);
        lemma_times(t, t, value(negated(g)), -c, m);
        lemma_plus(value(negated(vx)), -b, t * value(negated(g)), t * (-c), m);
        assert(t * (-c) == -(t * c)) by (nonlinear_arith);
        lemma_back(value(negated(vx)) + t * value(negated(g)), -b + t * (-c), m);
        lemma_chain(
            value(negated(vy)),
            -b + t * (-c),
            value(negated(vx)) + t * value(negated(g)),
            m,
        );
    }
}

/// What is maximized is presented with its sign changed: the value and the
/// gradient are the opposite of those of the same problem that is minimized.
pub proof fn maximizing_is_minimizing_the_opposite<
    F: Fn(FloatOp, u64, u64) -> u64,
    E: Fn(usize, &String, &Vec<ExternalArg>, bool, bool) -> ExternalValue,
>(p: NlProblem<F, E>, q: NlProblem<F, E>, x: Seq<u64>, k: int)
    requires
        p.well_formed(),
        x.len() == p.n,
        0 <= k < p.n,
        p.maximize,
        q == (NlProblem { maximize: false, ..p }),
    ensures
        p.objective_value(x) == negated(q.objective_value(x)),
        p.objective_gradient(x)[k] == negated(q.objective_gradient(x)[k]),
        forall|i: int| #[trigger] p.constraint_value(i, x) == q.constraint_value(i, x),
{
    let g = row_gradient(p.obj_model(), p.obj_linear@, x, x.len(), p.fpu, p.ext);
    lemma_tape_gradient_len(p.obj_model(), x, p.fpu, p.ext);
    lemma_coefficients_len(
        tape_gradient(p.obj_model(), x, p.fpu, p.ext),
        p.obj_linear@,
        p.obj_linear@.len(),
        p.fpu,
    );
    assert(q.obj_model() == p.obj_model());
    assert(q.con_models() == p.con_models());
}

proof fn lemma_coefficients_len<F: Fn(FloatOp, u64, u64) -> u64>(
    grad: Seq<u64>,
    terms: Seq<(usize, u64)>,
    c: nat,
    fpu: Fpu<F>,
)
    requires
        c <= terms.len(),
    ensures
        crate::nl::problem_impl::coefficients_added(grad, terms, c, fpu).len() == grad.len(),
    decreases c,
{
    if c > 0 {
        lemma_coefficients_len(grad, terms, (c - 1) as nat, fpu);
    }
}

proof fn lemma_terms_listed(
    list: Seq<(usize, usize)>,
    i: usize,
    terms: Seq<(usize, u64)>,
    k: nat,
)
    requires
        k <= terms.len(),
    ensures
        forall|key: (usize, usize)| #[trigger] list.contains(key) ==> with_terms(
            list,
            i,
            terms,
            k,
        ).contains(key),
        forall|c: int|
            0 <= c < k ==> with_terms(list, i, terms, k).contains((i, (#[trigger] terms[c]).0)),
    decreases k,
{
    if k > 0 {
        lemma_terms_listed(list, i, terms, (k - 1) as nat);
        lemma_key_listed(with_terms(list, i, terms, (k - 1) as nat), (i, terms[k - 1].0));
    }
}

proof fn lemma_key_listed(list: Seq<(usize, usize)>, key: (usize, usize))
    ensures
        forall|other: (usize, usize)| #[trigger] list.contains(other) ==> with_key(
            list,
            key,
        ).contains(other),
        with_key(list, key).contains(key),
{
    let now = with_key(list, key);
    assert forall|other: (usize, usize)| #[trigger] list.contains(other) implies now.contains(
        other,
    ) by {
        let p = choose|p: int| 0 <= p < list.len() && list[p] == other;
        assert(now[p] == other);
    }
    if !list.contains(key) {
        assert(now[list.len() as int] == key);
    }
}

proof fn lemma_linear_listed(rows: Seq<Seq<(usize, u64)>>, i: nat, r: int)
    requires
        i <= rows.len() <= usize::MAX,
        0 <= r < i,
    ensures
        forall|c: int|
            0 <= c < rows[r].len() ==> linear_entries(rows, i).contains(
                (r as usize, (#[trigger] rows[r][c]).0),
            ),
    decreases i,
{
    let before = linear_entries(rows, (i - 1) as nat);
    lemma_terms_listed(before, (i - 1) as usize, rows[i - 1], rows[i - 1].len());
    if r < i - 1 {
        lemma_linear_listed(rows, (i - 1) as nat, r);
    }
}

proof fn lemma_operations_listed(
    list: Seq<(usize, usize)>,
    i: usize,
    ops: Seq<OpModel>,
    k: nat,
)
    requires
        k <= ops.len(),
    ensures
        forall|key: (usize, usize)| #[trigger] list.contains(key) ==> with_operations(
            list,
            i,
            ops,
            k,
        ).contains(key),
        forall|c: int|
            0 <= c < k ==> match #[trigger] ops[c] {
                OpModel::Var(j) => with_operations(list, i, ops, k).contains((i, j as usize)),
                _ => true,
            },
    decreases k,
{
    if k > 0 {
        lemma_operations_listed(list, i, ops, (k - 1) as nat);
        let before = with_operations(list, i, ops, (k - 1) as nat);
        match ops[k - 1] {
            OpModel::Var(j) => {
                lemma_key_listed(before, (i, j as usize));
            },
            _ => {},
        }
    }
}

spec fn has_variable(tape: Option<Seq<OpModel>>, j: usize) -> bool {
    tape matches Some(ops) && on_tape(ops, j)
}

proof fn lemma_tapes_listed(
    list: Seq<(usize, usize)>,
    tapes: Seq<Option<Seq<OpModel>>>,
    i: nat,
)
    requires
        i <= tapes.len() <= usize::MAX,
    ensures
        forall|key: (usize, usize)| #[trigger] list.contains(key) ==> with_tapes(
            list,
            tapes,
            i,
        ).contains(key),
        forall|r: usize, j: usize|
            r < i && #[trigger] has_variable(tapes[r as int], j) ==> with_tapes(
                list,
                tapes,
                i,
            ).contains((r, j)),
    decreases i,
{
    if i > 0 {
        lemma_tapes_listed(list, tapes, (i - 1) as nat);
        let before = with_tapes(list, tapes, (i - 1) as nat);
        let now = with_tapes(list, tapes, i);
        match tapes[i - 1] {
            Some(ops) => {
                lemma_operations_listed(before, (i - 1) as usize, ops, ops.len());
            },
            None => {},
        }
        assert forall|r: usize, j: usize|
            r < i && #[trigger] has_variable(tapes[r as int], j) implies now.contains((r, j)) by {
            let ops = tapes[r as int]->Some_0;
            if r < i - 1 {
                assert(before.contains((r, j)));
            } else {
                let c = choose|c: int|
                    0 <= c < ops.len() && #[trigger] ops[c] == OpModel::Var(j as int);
                assert(ops[c] is Var);
            }
        }
    }
}

/// Variable `j` has an entry in row `i` of the Jacobian.
pub open spec fn has_entry<
    F: Fn(FloatOp, u64, u64) -> u64,
    E: Fn(usize, &String, &Vec<ExternalArg>, bool, bool) -> ExternalValue,
>(p: NlProblem<F, E>, i: int, j: int) -> bool {
    exists|k: int|
        0 <= k < p.jac_rows@.len() && #[trigger] p.jac_rows@[k] == i && p.jac_cols@[k] == j
}

/// The Jacobian is the derivative of the constraints: if variable `j` moves by `t`,
/// constraint `i` moves by `t` times the entry of the Jacobian in its row and the
/// column of the variable, up to multiples of the square of `t`.
pub proof fn jacobian_is_the_derivative_of_the_constraints<
    F: Fn(FloatOp, u64, u64) -> u64,
    E: Fn(usize, &String, &Vec<ExternalArg>, bool, bool) -> ExternalValue,
>(
    p: NlProblem<F, E>,
    x: Seq<u64>,
    y: Seq<u64>,
    k: int,
    t: int,
    value: spec_fn(u64) -> int,
)
    requires
        p.well_formed(),
        x.len() == p.n,
        0 <= k < p.jac_rows@.len(),
        exact_field(p.fpu, value, t * t),
        moved_by(x, y, p.jac_cols@[k] as int, t, value),
        slopes(
            p.con_models()[p.jac_rows@[k] as int],
            x,
            y,
            p.jac_cols@[k] as int,
            t,
            p.fpu,
            p.ext,
            value,
        ),
    ensures
        p.jac_rows@[k] < p.m,
        congruent(
            value(p.constraint_value(p.jac_rows@[k] as int, y)),
            value(p.constraint_value(p.jac_rows@[k] as int, x)) + t * value(p.jacobian_at(x)[k]),
            t * t,
        ),
{
    let m = t * t;
    nl_shape_fits(p);
    let i = p.jac_rows@[k] as int;
    let j = p.jac_cols@[k] as int;
    assert(crate::problem::NlpProblem::shape(&p).jac_rows[k] < p.m);
    assert(tape_fits(tape_model(p.con_tapes@[i]), p.n as int));
    assert(terms_below(p.con_linear@[i]@, p.n as nat));
    lemma_row_slope(p.con_models()[i], p.con_linear@[i]@, x, y, j, t, p.fpu, p.ext, value);
    let g = p.constraint_gradient(i, x)[j];
    assert(num_eq(ZERO, ZERO));
    assert(value(p.jacobian_at(x)[k]) == value(g));
}

/// The pattern of the Jacobian is complete: a constraint does not change with a
/// variable that has no entry in its row.
pub proof fn jacobian_pattern_is_complete<
    F: Fn(FloatOp, u64, u64) -> u64,
    E: Fn(usize, &String, &Vec<ExternalArg>, bool, bool) -> ExternalValue,
>(p: NlProblem<F, E>, x: Seq<u64>, y: Seq<u64>, i: int, j: usize)
    requires
        p.well_formed(),
        x.len() == p.n,
        0 <= i < p.m,
        j < p.n,
        y.len() == x.len(),
        forall|q: int| 0 <= q < x.len() && q != j ==> #[trigger] y[q] == x[q],
        !has_entry(p, i, j as int),
    ensures
        p.constraint_value(i, y) == p.constraint_value(i, x),
{
    let rows = lists(p.con_linear@);
    let tapes = p.con_models();
    let list = jacobian_entries(rows, tapes);
    let zip = zipped(p.jac_rows@, p.jac_cols@);
    let linear = linear_entries(rows, rows.len());
    assert(p.con_linear@.len() == p.con_linear.len());
    assert(p.con_tapes@.len() == p.con_tapes.len());
    assert(!list.contains((i as usize, j))) by {
        if list.contains((i as usize, j)) {
            let k = choose|k: int| 0 <= k < zip.len() && zip[k] == (i as usize, j);
            assert(p.jac_rows@[k] == i && p.jac_cols@[k] == j);
        }
    }
    lemma_linear_listed(rows, rows.len(), i);
    lemma_tapes_listed(linear, tapes, tapes.len());
    let terms = p.con_linear@[i]@;
    assert(rows[i] == terms);
    assert forall|c: int| 0 <= c < terms.len() implies (#[trigger] terms[c]).0 != j by {
        assert(linear.contains((i as usize, rows[i][c].0)));
    }
    assert(tape_fits(tape_model(p.con_tapes@[i]), p.n as int));
    assert(terms_below(p.con_linear@[i]@, p.n as nat));
    let start = match tapes[i] {
        Some(ops) => {
            assert(!on_tape(ops, j)) by {
                if on_tape(ops, j) {
                    assert(has_variable(tapes[(i as usize) as int], j));
                    assert(list.contains((i as usize, j)));
                }
            }
            let none = |v: u64| 0int;
            lemma_absent_same(ops, x, y, j, 0, p.fpu, p.ext, none);
            p.fpu.sum(ZERO, run(ops, float_algebra(x, p.fpu, p.ext)).last())
        },
        None => ZERO,
    };
    lemma_terms_same(start, terms, x, y, j, terms.len(), p.fpu);
}

proof fn lemma_terms_same<F: Fn(FloatOp, u64, u64) -> u64>(
    start: u64,
    terms: Seq<(usize, u64)>,
    x: Seq<u64>,
    y: Seq<u64>,
    j: usize,
    k: nat,
    fpu: Fpu<F>,
)
    requires
        k <= terms.len(),
        terms_below(terms, x.len()),
        forall|c: int| 0 <= c < terms.len() ==> (#[trigger] terms[c]).0 != j,
        forall|q: int| 0 <= q < x.len() && q != j ==> #[trigger] y[q] == x[q],
    ensures
        terms_added(start, terms, x, k, fpu) == terms_added(start, terms, y, k, fpu),
    decreases k,
{
    if k > 0 {
        lemma_terms_same(start, terms, x, y, j, (k - 1) as nat, fpu);
        assert(terms[k - 1].0 != j && terms[k - 1].0 < x.len());
    }
}

} // verus!
