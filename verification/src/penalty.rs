//! What the exact penalty reformulation means: the penalty weighs the slacks, and the derivatives are those of
//! the reformulated problem.

use crate::float::{negated, FloatOp, Fpu, INFINITY, MINUS_ONE, ONE, ZERO};
use crate::l1_penalty_barrier_nlp::{
    counting, is_equality, lemma_equalities, lemma_listed, lemma_with_slacks, repeated,
    with_penalty, with_slacks, L1PenaltyBarrierNlp,
};
use crate::linear_solver::real_matrix::{exact, exact_term, reads_numbers};
use crate::problem::NlpProblem;
use vstd::prelude::*;

verus! {

/// The sum of the first `k` numbers.
pub open spec fn total(v: Seq<u64>, k: nat, value: spec_fn(u64) -> real) -> real
    decreases k,
{
    if k == 0 {
        0 as real
    } else {
        total(v, (k - 1) as nat, value) + value(v[k - 1])
    }
}

/// No step of the penalty rounds.
pub open spec fn exact_penalty<F: Fn(FloatOp, u64, u64) -> u64>(
    start: u64,
    rho: u64,
    slacks: Seq<u64>,
    fpu: Fpu<F>,
    value: spec_fn(u64) -> real,
) -> bool {
    forall|k: int|
        0 <= k < slacks.len() ==> exact_term(
            with_penalty(start, rho, slacks, k as nat, fpu),
            rho,
            #[trigger] slacks[k],
            false,
            fpu,
            value,
        )
}

proof fn lemma_penalty<F: Fn(FloatOp, u64, u64) -> u64>(
    start: u64,
    rho: u64,
    slacks: Seq<u64>,
    k: nat,
    fpu: Fpu<F>,
    value: spec_fn(u64) -> real,
)
    requires
        exact_penalty(start, rho, slacks, fpu, value),
        k <= slacks.len(),
    ensures
        value(with_penalty(start, rho, slacks, k, fpu)) == value(start) + value(rho) * total(
            slacks,
            k,
            value,
        ),
    decreases k,
{
    let (r, s) = (value(rho), total(slacks, k, value));
    if k > 0 {
        lemma_penalty(start, rho, slacks, (k - 1) as nat, fpu, value);
        let before = total(slacks, (k - 1) as nat, value);
        let last = slacks[k - 1];
        let v = value(last);
        assert(exact_term(
            with_penalty(start, rho, slacks, (k - 1) as nat, fpu),
            rho,
            last,
            false,
            fpu,
            value,
        ));
        assert(r * (before + v) == r * before + r * v) by (nonlinear_arith);
    } else {
        assert(r * s == 0 as real) by (nonlinear_arith)
            requires
                s == 0 as real,
        ;
    }
}

/// The objective is that of the inner problem at the inner variables, raised by the weight times the sum of all
/// slacks. It is missing only where the inner one is. No step of the penalty may round.
pub proof fn penalty_weighs_the_slacks<P: NlpProblem + ?Sized, F: Fn(FloatOp, u64, u64) -> u64>(
    p: L1PenaltyBarrierNlp<'_, P, F>,
    x: Seq<u64>,
    v: Option<u64>,
    value: spec_fn(u64) -> real,
)
    requires
        p.well_formed(),
        x.len() == p.shape().n,
        p.objective_gives(x, v),
        forall|f: u64| #[trigger]
            p.inner.objective_gives(x.take(p.n_orig as int), Some(f)) ==> exact_penalty(
                f,
                p.rho,
                x.skip(p.n_orig as int),
                *p.fpu,
                value,
            ),
    ensures
        exists|w: Option<u64>| #[trigger]
            p.inner.objective_gives(x.take(p.n_orig as int), w) && (v is Some <==> w is Some) && (v
                is Some ==> value(v->0) == value(w->0) + value(p.rho) * total(
                x.skip(p.n_orig as int),
                (x.len() - p.n_orig) as nat,
                value,
            )),
{
    let n = p.n_orig as int;
    assert(p.inner_point(x) =~= x.take(n));
    let w = choose|w: Option<u64>| #[trigger]
        p.inner.objective_gives(p.inner_point(x), w) && v == (match w {
            Some(f) => Some(
                with_penalty(f, p.rho, p.slacks_in(x), 2 * p.m_eq as nat, *p.fpu),
            ),
            None => None,
        });
    assert(p.inner.objective_gives(x.take(n), w));
    if w is Some {
        lemma_penalty(w->0, p.rho, x.skip(n), (x.len() - n) as nat, *p.fpu, value);
    }
}

/// The sum of what the first `k` entries of a gradient make of the step between two points.
pub open spec fn slope_total(
    grad: Seq<u64>,
    from: Seq<u64>,
    to: Seq<u64>,
    k: nat,
    value: spec_fn(u64) -> real,
) -> real
    decreases k,
{
    if k == 0 {
        0 as real
    } else {
        slope_total(grad, from, to, (k - 1) as nat, value) + value(grad[k - 1]) * (value(to[k - 1])
            - value(from[k - 1]))
    }
}

proof fn lemma_slope_total(
    grad: Seq<u64>,
    from: Seq<u64>,
    to: Seq<u64>,
    rho: u64,
    k: nat,
    value: spec_fn(u64) -> real,
)
    requires
        forall|i: int| 0 <= i < k ==> #[trigger] grad[i] == rho,
    ensures
        slope_total(grad, from, to, k, value) == value(rho) * (total(to, k, value) - total(
            from,
            k,
            value,
        )),
    decreases k,
{
    let r = value(rho);
    let (t, f) = (total(to, k, value), total(from, k, value));
    if k > 0 {
        lemma_slope_total(grad, from, to, rho, (k - 1) as nat, value);
        assert(grad[k - 1] == rho);
        let (t1, f1) = (total(to, (k - 1) as nat, value), total(from, (k - 1) as nat, value));
        let (a, b) = (value(to[k - 1]), value(from[k - 1]));
        assert(r * (t1 - f1) + r * (a - b) == r * ((t1 + a) - (f1 + b))) by (nonlinear_arith);
    } else {
        assert(r * (t - f) == 0 as real) by (nonlinear_arith)
            requires
                t == 0 as real,
                f == 0 as real,
        ;
    }
}

/// The gradient is that of the raised objective: its first entries are those of the inner gradient, and between two
/// points with the same inner variables the objective changes by its other entries times the changes of the slacks.
pub proof fn penalty_gradients_are_those_of_the_penalty<
    P: NlpProblem + ?Sized,
    F: Fn(FloatOp, u64, u64) -> u64,
>(
    p: L1PenaltyBarrierNlp<'_, P, F>,
    x: Seq<u64>,
    grad: Seq<u64>,
    f: u64,
    from: Seq<u64>,
    to: Seq<u64>,
    value: spec_fn(u64) -> real,
)
    requires
        p.well_formed(),
        p.gradient_gives(x, Some(grad)),
        grad.len() == p.shape().n,
        from.len() == 2 * p.m_eq,
        to.len() == 2 * p.m_eq,
        exact_penalty(f, p.rho, from, *p.fpu, value),
        exact_penalty(f, p.rho, to, *p.fpu, value),
    ensures
        p.inner.gradient_gives(p.inner_point(x), Some(grad.take(p.n_orig as int))),
        value(with_penalty(f, p.rho, to, to.len(), *p.fpu)) - value(
            with_penalty(f, p.rho, from, from.len(), *p.fpu),
        ) == slope_total(grad.skip(p.n_orig as int), from, to, to.len(), value),
{
    let n = p.n_orig as int;
    let w = choose|w: Option<Seq<u64>>| #[trigger]
        p.inner.gradient_gives(p.inner_point(x), w) && Some(grad) == (match w {
            Some(f) => Some(
                f + repeated(p.rho, 2 * p.m_eq as nat),
            ),
            None => None,
        });
    assert(w is Some);
    assert(w->0.len() == n);
    assert(grad.take(n) =~= w->0);
    let tail = grad.skip(n);
    assert forall|i: int| 0 <= i < to.len() implies #[trigger] tail[i] == p.rho by {}
    lemma_slope_total(tail, from, to, p.rho, to.len(), value);
    lemma_penalty(f, p.rho, from, from.len(), *p.fpu, value);
    lemma_penalty(f, p.rho, to, to.len(), *p.fpu, value);
    let (r, a, b) = (
        value(p.rho),
        total(to, to.len(), value),
        total(from, from.len(), value),
    );
    assert(r * a - r * b == r * (a - b)) by (nonlinear_arith);
}

/// Each equality has the value of the inner constraint, less its first slack and plus its second one; every other
/// constraint is that of the inner problem. No sum may round.
pub proof fn slacks_relax_the_equalities<P: NlpProblem + ?Sized, F: Fn(FloatOp, u64, u64) -> u64>(
    p: L1PenaltyBarrierNlp<'_, P, F>,
    x: Seq<u64>,
    v: Option<Seq<u64>>,
    i: int,
    value: spec_fn(u64) -> real,
)
    requires
        p.well_formed(),
        x.len() == p.shape().n,
        0 <= i < p.m,
        p.constraints_give(x, v),
        forall|g: Seq<u64>| #[trigger]
            p.inner.constraints_give(x.take(p.n_orig as int), Some(g)) ==> g.len() == p.m
                && exact_relaxation(p, x, g, value),
    ensures
        exists|w: Option<Seq<u64>>| #[trigger]
            p.inner.constraints_give(x.take(p.n_orig as int), w) && (v is Some <==> w is Some) && (v
                is Some ==> relaxes(p, x, w->0, v->0, i, value)),
{
    let n = p.n_orig as int;
    let m_eq = p.m_eq as int;
    let s = p.inner.shape();
    assert(p.inner_point(x) =~= x.take(n));
    let sl = p.slacks_in(x);
    let w = choose|w: Option<Seq<u64>>| #[trigger]
        p.inner.constraints_give(p.inner_point(x), w) && v == (match w {
            Some(g) => Some(
                with_slacks(g, p.eq_rows@, sl.take(m_eq), sl.skip(m_eq), p.m_eq as nat, *p.fpu),
            ),
            None => None,
        });
    assert(p.inner.constraints_give(x.take(n), w));
    if w is Some {
        let g = w->0;
        let rows = p.eq_rows@;
        lemma_equalities(s.g_l, s.g_u, s.m);
        lemma_listed(s.g_l, s.g_u, s.m, i);
        lemma_with_slacks(g, rows, sl.take(m_eq), sl.skip(m_eq), p.m_eq as nat, i, *p.fpu);
        if is_equality(s.g_l[i], s.g_u[i]) {
            let k = choose|k: int| 0 <= k < rows.len() && #[trigger] rows[k] == i;
            assert(sl.take(m_eq)[k] == x[n + k]);
            assert(sl.skip(m_eq)[k] == x[n + m_eq + k]);
            assert(exact(FloatOp::Sub, g[rows[k] as int], x[n + k], *p.fpu, value));
        }
    }
}

/// No equality rounds when its slacks come in.
pub open spec fn exact_relaxation<P: NlpProblem + ?Sized, F: Fn(FloatOp, u64, u64) -> u64>(
    p: L1PenaltyBarrierNlp<'_, P, F>,
    x: Seq<u64>,
    g: Seq<u64>,
    value: spec_fn(u64) -> real,
) -> bool {
    forall|k: int|
        0 <= k < p.m_eq ==> {
            let v = g[#[trigger] p.eq_rows@[k] as int];
            let q = x[p.n_orig + k];
            &&& exact(FloatOp::Sub, v, q, *p.fpu, value)
            &&& exact(
                FloatOp::Add,
                p.fpu.difference(v, q),
                x[p.n_orig + p.m_eq + k],
                *p.fpu,
                value,
            )
        }
}

/// Row `i` has the value in `h` that it has in `g`, less and plus its slacks.
pub open spec fn relaxes<P: NlpProblem + ?Sized, F: Fn(FloatOp, u64, u64) -> u64>(
    p: L1PenaltyBarrierNlp<'_, P, F>,
    x: Seq<u64>,
    g: Seq<u64>,
    h: Seq<u64>,
    i: int,
    value: spec_fn(u64) -> real,
) -> bool {
    let s = p.inner.shape();
    if is_equality(s.g_l[i], s.g_u[i]) {
        exists|k: int|
            0 <= k < p.m_eq && #[trigger] p.eq_rows@[k] == i && value(h[i]) == value(g[i]) - value(
                x[p.n_orig + k],
            ) + value(x[p.n_orig + p.m_eq + k])
    } else {
        h[i] == g[i]
    }
}

/// The Jacobian is that of the relaxed constraints: its first entries are those of the inner problem, in their places,
/// and what the two entries of an equality make of a change of its slacks is what the equality changes: less the
/// first one and plus the second one.
pub proof fn penalty_jacobians_are_those_of_the_relaxed_rows<
    P: NlpProblem + ?Sized,
    F: Fn(FloatOp, u64, u64) -> u64,
>(
    p: L1PenaltyBarrierNlp<'_, P, F>,
    x: Seq<u64>,
    jac: Seq<u64>,
    k: int,
    dp: real,
    dn: real,
    value: spec_fn(u64) -> real,
)
    requires
        p.well_formed(),
        p.jacobian_gives(x, Some(jac)),
        jac.len() == p.shape().jac_rows.len(),
        0 <= k < p.m_eq,
        reads_numbers(value),
    ensures
        ({
            let s = p.inner.shape();
            let t = p.shape();
            let nnz = s.jac_rows.len() as int;
            let (a, b) = (nnz + k, nnz + p.m_eq + k);
            &&& p.inner.jacobian_gives(x.subrange(0, p.n_orig as int), Some(jac.take(nnz)))
            &&& t.jac_rows.take(nnz) == s.jac_rows && t.jac_cols.take(nnz) == s.jac_cols
            &&& t.jac_rows[a] == p.eq_rows@[k] && t.jac_cols[a] == p.n_orig + k
            &&& t.jac_rows[b] == p.eq_rows@[k] && t.jac_cols[b] == p.n_orig + p.m_eq + k
            &&& value(jac[a]) * dp + value(jac[b]) * dn == -dp + dn
        }),
{
    let s = p.inner.shape();
    let t = p.shape();
    let m_eq = p.m_eq as int;
    let nnz = s.jac_rows.len() as int;
    let w = choose|w: Option<Seq<u64>>| #[trigger]
        p.inner.jacobian_gives(p.inner_point(x), w) && Some(jac) == (match w {
            Some(j) => Some(j + repeated(MINUS_ONE, p.m_eq as nat) + repeated(ONE, p.m_eq as nat)),
            None => None,
        });
    assert(w->0.len() == nnz);
    assert(jac.take(nnz) =~= w->0);
    assert(t.jac_rows.take(nnz) =~= s.jac_rows);
    assert(t.jac_cols.take(nnz) =~= s.jac_cols);
    assert(t.jac_cols[nnz + k] == counting(p.n_orig as int, p.m_eq as nat)[k]);
    assert(negated(ONE) == MINUS_ONE);
    assert(value(negated(ONE)) == -value(ONE));
    assert((-1 as real) * dp == -dp) by (nonlinear_arith);
    assert((1 as real) * dn == dn) by (nonlinear_arith);
}

/// The slacks are not negative and have no upper bound, the inner variables and all constraints keep their bounds, and
/// the second derivatives are those of the inner problem: none has a slack in it.
pub proof fn slacks_are_bounded_below<P: NlpProblem + ?Sized, F: Fn(FloatOp, u64, u64) -> u64>(
    p: L1PenaltyBarrierNlp<'_, P, F>,
    i: int,
)
    requires
        p.well_formed(),
        0 <= i < p.shape().n,
    ensures
        i < p.n_orig ==> p.shape().x_l[i] == p.inner.shape().x_l[i] && p.shape().x_u[i]
            == p.inner.shape().x_u[i] && p.shape().x0[i] == p.inner.shape().x0[i],
        i >= p.n_orig ==> p.shape().x_l[i] == ZERO && p.shape().x_u[i] == INFINITY,
        p.shape().g_l == p.inner.shape().g_l,
        p.shape().g_u == p.inner.shape().g_u,
        forall|e: int|
            0 <= e < p.shape().hess_rows.len() ==> (#[trigger] p.shape().hess_rows[e]) < p.n_orig
                && p.shape().hess_cols[e] < p.n_orig,
{
    let s = p.inner.shape();
    assert forall|e: int| 0 <= e < p.shape().hess_rows.len() implies (#[trigger] p.shape().hess_rows[e])
        < p.n_orig && p.shape().hess_cols[e] < p.n_orig by {
        assert(s.hess_rows[e] < s.n);
        assert(s.hess_cols[e] < s.n);
    }
}

} // verus!
