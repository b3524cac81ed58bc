//! The exact penalty reformulation of equality constraints.
//!
//! Each equality constraint `c(x) = t` gets two slacks `p, n >= 0` and becomes
//! `c(x) - p + n = t`; the objective is raised by `rho` times the sum of all
//! slacks. The variables are those of the inner problem, then the `p`, then the
//! `n`. Inequalities stay as they are.

use crate::float::{
    eq, finite, is_finite, lt, neg, negated, num_eq, num_lt, FloatOp, Fpu, INFINITY, MINUS_ONE,
    ONE, TEN_M4, ZERO,
};
use crate::linear_solver::copy_indices;
use crate::problem::{outcome, NlpProblem, ProblemShape};
use vstd::prelude::*;
use vstd::slice::slice_subrange;

verus! {

/// A buffer after an evaluation: what was given, if anything, and what the
/// buffer then holds.
pub struct Filled {
    pub given: Option<Seq<u64>>,
    pub left: Seq<u64>,
}

impl Filled {
    pub open spec fn fits(self, len: nat) -> bool {
        self.left.len() == len && (self.given matches Some(v) ==> v == self.left)
    }
}

/// The bounds coincide and are finite.
pub open spec fn is_equality(l: u64, u: u64) -> bool {
    num_eq(l, u) && finite(l)
}

/// The equalities among the first `k` constraints.
pub open spec fn equalities(g_l: Seq<u64>, g_u: Seq<u64>, k: nat) -> Seq<usize>
    decreases k,
{
    if k == 0 {
        Seq::empty()
    } else if is_equality(g_l[k - 1], g_u[k - 1]) {
        equalities(g_l, g_u, (k - 1) as nat).push((k - 1) as usize)
    } else {
        equalities(g_l, g_u, (k - 1) as nat)
    }
}

/// The slacks to start from: the violation in the slack that takes it up, and a
/// small floor in both.
pub open spec fn first_slacks<F: Fn(FloatOp, u64, u64) -> u64>(
    violation: u64,
    fpu: Fpu<F>,
) -> (u64, u64) {
    if num_lt(ZERO, violation) {
        (fpu.sum(violation, TEN_M4), TEN_M4)
    } else if num_lt(violation, ZERO) {
        (TEN_M4, fpu.sum(negated(violation), TEN_M4))
    } else {
        (TEN_M4, TEN_M4)
    }
}

/// The slacks of all equalities, from the constraint values `g0`.
pub open spec fn slacks_from<F: Fn(FloatOp, u64, u64) -> u64>(
    rows: Seq<usize>,
    g0: Seq<u64>,
    g_l: Seq<u64>,
    fpu: Fpu<F>,
) -> (Seq<u64>, Seq<u64>) {
    (
        Seq::new(
            rows.len(),
            |k: int|
                first_slacks(fpu.difference(g0[rows[k] as int], g_l[rows[k] as int]), fpu).0,
        ),
        Seq::new(
            rows.len(),
            |k: int|
                first_slacks(fpu.difference(g0[rows[k] as int], g_l[rows[k] as int]), fpu).1,
        ),
    )
}

/// A problem with slacks in its equalities.
pub struct L1PenaltyBarrierNlp<'a, P: ?Sized, F> {
    pub inner: &'a P,
    pub n_orig: usize,
    pub m: usize,
    /// Number of equalities.
    pub m_eq: usize,
    pub eq_rows: Vec<usize>,
    pub rho: u64,
    pub inner_jac_rows: Vec<usize>,
    pub inner_jac_cols: Vec<usize>,
    pub inner_hess_rows: Vec<usize>,
    pub inner_hess_cols: Vec<usize>,
    pub p_init: Vec<u64>,
    pub n_init: Vec<u64>,
    pub fpu: &'a Fpu<F>,
}

/// The constraint values with the slacks of the first `k` equalities.
pub open spec fn with_slacks<F: Fn(FloatOp, u64, u64) -> u64>(
    g: Seq<u64>,
    rows: Seq<usize>,
    p: Seq<u64>,
    n: Seq<u64>,
    k: nat,
    fpu: Fpu<F>,
) -> Seq<u64>
    decreases k,
{
    if k == 0 {
        g
    } else {
        let before = with_slacks(g, rows, p, n, (k - 1) as nat, fpu);
        let r = rows[k - 1] as int;
        before.update(r, fpu.sum(fpu.difference(before[r], p[k - 1]), n[k - 1]))
    }
}

/// `start` plus `rho` times each of the first `k` slacks.
pub open spec fn with_penalty<F: Fn(FloatOp, u64, u64) -> u64>(
    start: u64,
    rho: u64,
    slacks: Seq<u64>,
    k: nat,
    fpu: Fpu<F>,
) -> u64
    decreases k,
{
    if k == 0 {
        start
    } else {
        fpu.sum(
            with_penalty(start, rho, slacks, (k - 1) as nat, fpu),
            fpu.product(rho, slacks[k - 1]),
        )
    }
}

pub open spec fn repeated(v: u64, n: nat) -> Seq<u64> {
    Seq::new(n, |i: int| v)
}

/// Indices from `start` on.
pub open spec fn counting(start: int, n: nat) -> Seq<usize> {
    Seq::new(n, |i: int| (start + i) as usize)
}

fn append_repeated(v: &mut Vec<u64>, x: u64, n: usize)
    ensures
        final(v)@ == old(v)@ + repeated(x, n as nat),
{
    let ghost start = v@;
    assert(start =~= start + repeated(x, 0));
    for i in 0..n
        invariant
            v@ == start + repeated(x, i as nat),
    {
        v.push(x);
        assert(v@ =~= start + repeated(x, (i + 1) as nat));
    }
}

fn append_numbers(v: &mut Vec<u64>, w: &Vec<u64>)
    ensures
        final(v)@ == old(v)@ + w@,
{
    let ghost start = v@;
    assert(start =~= start + w@.take(0));
    for i in 0..w.len()
        invariant
            v@ == start + w@.take(i as int),
    {
        v.push(w[i]);
        assert(v@ =~= start + w@.take(i + 1));
    }
    assert(w@.take(w@.len() as int) =~= w@);
}

impl<'a, P: NlpProblem + ?Sized, F: Fn(FloatOp, u64, u64) -> u64> L1PenaltyBarrierNlp<'a, P, F> {
    /// The parts are those of the inner problem, and it is ready.
    pub open spec fn well_formed(&self) -> bool {
        let s = self.inner.shape();
        &&& self.fpu.sound()
        &&& self.inner.posed()
        &&& s.well_formed()
        &&& self.n_orig == s.n
        &&& self.m == s.m
        &&& self.eq_rows@ == equalities(s.g_l, s.g_u, s.m)
        &&& self.m_eq == self.eq_rows@.len()
        &&& forall|k: int| 0 <= k < self.m_eq ==> (#[trigger] self.eq_rows@[k]) < s.m
        &&& self.inner_jac_rows@ == s.jac_rows
        &&& self.inner_jac_cols@ == s.jac_cols
        &&& self.inner_hess_rows@ == s.hess_rows
        &&& self.inner_hess_cols@ == s.hess_cols
        &&& self.p_init@.len() == self.m_eq
        &&& self.n_init@.len() == self.m_eq
        &&& self.n_orig + 2 * self.m_eq <= usize::MAX
        &&& s.jac_rows.len() + 2 * self.m_eq <= usize::MAX
    }

    /// Wraps a problem, with the weight `rho` of the slacks.
    pub fn new(inner: &'a P, rho: u64, fpu: &'a Fpu<F>) -> (p: Self)
        requires
            fpu.sound(),
            inner.posed(),
            inner.shape().well_formed(),
            inner.shape().n + 2 * inner.shape().m <= usize::MAX,
            inner.shape().jac_rows.len() + 2 * inner.shape().m <= usize::MAX,
        ensures
            p.inner == inner,
            p.fpu == fpu,
            p.rho == rho,
            p.well_formed(),
            exists|g0: Filled| #[trigger]
                g0.fits(inner.shape().m) && (inner.shape().m > 0 ==> inner.constraints_give(
                    inner.shape().x0,
                    g0.given,
                )) && (p.p_init@, p.n_init@) == slacks_from(p.eq_rows@, g0.left, inner.shape().g_l, *fpu),
    {
        let n: usize = inner.num_variables();
        let m: usize = inner.num_constraints();
        let ghost s = inner.shape();
        let mut g_l: Vec<u64> = vec![ZERO; m];
        let mut g_u: Vec<u64> = vec![ZERO; m];
        if m > 0 {
            inner.constraint_bounds(&mut g_l, &mut g_u);
        } else {
            assert(g_l@ =~= s.g_l);
            assert(g_u@ =~= s.g_u);
        }
        let mut eq_rows: Vec<usize> = Vec::new();
        for i in 0..m
            invariant
                m == s.m,
                g_l@ == s.g_l,
                g_u@ == s.g_u,
                g_l@.len() == m,
                g_u@.len() == m,
                eq_rows@ == equalities(s.g_l, s.g_u, i as nat),
                eq_rows@.len() <= i,
                forall|k: int| 0 <= k < eq_rows@.len() ==> (#[trigger] eq_rows@[k]) < i,
        {
            if eq(g_l[i], g_u[i]) && is_finite(g_l[i]) {
                eq_rows.push(i);
            }
        }
        let m_eq: usize = eq_rows.len();
        let (jac_rows, jac_cols): (Vec<usize>, Vec<usize>) = inner.jacobian_structure();
        let (hess_rows, hess_cols): (Vec<usize>, Vec<usize>) = inner.hessian_structure();
        let mut x0: Vec<u64> = vec![ZERO; n];
        inner.initial_point(&mut x0);
        let mut g0: Vec<u64> = vec![ZERO; m];
        let mut ok: bool = false;
        if m > 0 {
            ok = inner.constraints(&x0, true, &mut g0);
        }
        let ghost filled = Filled { given: outcome(ok, g0@), left: g0@ };
        let ghost want = slacks_from(eq_rows@, g0@, g_l@, *fpu);
        let mut p_init: Vec<u64> = Vec::with_capacity(m_eq);
        let mut n_init: Vec<u64> = Vec::with_capacity(m_eq);
        for k in 0..m_eq
            invariant
                fpu.sound(),
                m_eq == eq_rows@.len(),
                g0@.len() == m,
                g_l@.len() == m,
                forall|k: int| 0 <= k < m_eq ==> (#[trigger] eq_rows@[k]) < m,
                want == slacks_from(eq_rows@, g0@, g_l@, *fpu),
                p_init@ == want.0.take(k as int),
                n_init@ == want.1.take(k as int),
        {
            let row: usize = eq_rows[k];
            let violation: u64 = fpu.sub(g0[row], g_l[row]);
            if lt(ZERO, violation) {
                p_init.push(fpu.add(violation, TEN_M4));
                n_init.push(TEN_M4);
            } else if lt(violation, ZERO) {
                p_init.push(TEN_M4);
                n_init.push(fpu.add(neg(violation), TEN_M4));
            } else {
                p_init.push(TEN_M4);
                n_init.push(TEN_M4);
            }
            assert(p_init@ =~= want.0.take(k + 1));
            assert(n_init@ =~= want.1.take(k + 1));
        }
        proof {
            assert(p_init@ =~= want.0);
            assert(n_init@ =~= want.1);
            assert(filled.fits(s.m));
        }
        L1PenaltyBarrierNlp {
            inner,
            n_orig: n,
            m,
            m_eq,
            eq_rows,
            rho,
            inner_jac_rows: jac_rows,
            inner_jac_cols: jac_cols,
            inner_hess_rows: hess_rows,
            inner_hess_cols: hess_cols,
            p_init,
            n_init,
            fpu,
        }
    }

    /// Number of variables of the inner problem.
    pub fn n_orig(&self) -> (n: usize)
        ensures
            n == self.n_orig,
    {
        self.n_orig
    }

    /// The equalities among the constraints.
    pub fn eq_rows(&self) -> (rows: &[usize])
        ensures
            rows@ == self.eq_rows@,
    {
        self.eq_rows.as_slice()
    }

    /// The variables of the inner problem in a point.
    pub open spec fn inner_point(&self, x: Seq<u64>) -> Seq<u64> {
        x.subrange(0, self.n_orig as int)
    }

    /// The slacks in a point, first all `p`, then all `n`.
    pub open spec fn slacks_in(&self, x: Seq<u64>) -> Seq<u64> {
        x.skip(self.n_orig as int)
    }
}

impl<'a, P: NlpProblem + ?Sized, F: Fn(FloatOp, u64, u64) -> u64> NlpProblem for L1PenaltyBarrierNlp<
    'a,
    P,
    F,
> {
    open spec fn posed(&self) -> bool {
        self.well_formed()
    }

    open spec fn shape(&self) -> ProblemShape {
        let s = self.inner.shape();
        let extra = 2 * self.m_eq as nat;
        ProblemShape {
            n: s.n + extra,
            m: s.m,
            x_l: s.x_l + repeated(ZERO, extra),
            x_u: s.x_u + repeated(INFINITY, extra),
            g_l: s.g_l,
            g_u: s.g_u,
            x0: s.x0 + self.p_init@ + self.n_init@,
            jac_rows: s.jac_rows + self.eq_rows@ + self.eq_rows@,
            jac_cols: s.jac_cols + counting(self.n_orig as int, self.m_eq as nat) + counting(
                self.n_orig + self.m_eq,
                self.m_eq as nat,
            ),
            hess_rows: s.hess_rows,
            hess_cols: s.hess_cols,
        }
    }

    open spec fn objective_gives(&self, x: Seq<u64>, v: Option<u64>) -> bool {
        exists|w: Option<u64>| #[trigger]
            self.inner.objective_gives(self.inner_point(x), w) && v == (match w {
                Some(f) => Some(
                    with_penalty(
                        f,
                        self.rho,
                        self.slacks_in(x),
                        2 * self.m_eq as nat,
                        *self.fpu,
                    ),
                ),
                None => None,
            })
    }

    open spec fn gradient_gives(&self, x: Seq<u64>, v: Option<Seq<u64>>) -> bool {
        exists|w: Option<Seq<u64>>| #[trigger]
            self.inner.gradient_gives(self.inner_point(x), w) && v == (match w {
                Some(f) => Some(f + repeated(self.rho, 2 * self.m_eq as nat)),
                None => None,
            })
    }

    open spec fn constraints_give(&self, x: Seq<u64>, v: Option<Seq<u64>>) -> bool {
        exists|w: Option<Seq<u64>>| #[trigger]
            self.inner.constraints_give(self.inner_point(x), w) && v == (match w {
                Some(g) => Some(
                    with_slacks(
                        g,
                        self.eq_rows@,
                        self.slacks_in(x).take(self.m_eq as int),
                        self.slacks_in(x).skip(self.m_eq as int),
                        self.m_eq as nat,
                        *self.fpu,
                    ),
                ),
                None => None,
            })
    }

    open spec fn jacobian_gives(&self, x: Seq<u64>, v: Option<Seq<u64>>) -> bool {
        exists|w: Option<Seq<u64>>| #[trigger]
            self.inner.jacobian_gives(self.inner_point(x), w) && v == (match w {
                Some(j) => Some(
                    j + repeated(MINUS_ONE, self.m_eq as nat) + repeated(ONE, self.m_eq as nat),
                ),
                None => None,
            })
    }

    open spec fn hessian_gives(
        &self,
        x: Seq<u64>,
        obj_factor: u64,
        lambda: Seq<u64>,
        v: Option<Seq<u64>>,
    ) -> bool {
        self.inner.hessian_gives(self.inner_point(x), obj_factor, lambda, v)
    }

    fn num_variables(&self) -> (n: usize) {
        self.n_orig + 2 * self.m_eq
    }

    fn num_constraints(&self) -> (m: usize) {
        self.m
    }

    fn bounds(&self, x_l: &mut Vec<u64>, x_u: &mut Vec<u64>) {
        let mut l: Vec<u64> = vec![ZERO; self.n_orig];
        let mut u: Vec<u64> = vec![ZERO; self.n_orig];
        self.inner.bounds(&mut l, &mut u);
        append_repeated(&mut l, ZERO, 2 * self.m_eq);
        append_repeated(&mut u, INFINITY, 2 * self.m_eq);
        *x_l = l;
        *x_u = u;
    }

    fn constraint_bounds(&self, g_l: &mut Vec<u64>, g_u: &mut Vec<u64>) {
        self.inner.constraint_bounds(g_l, g_u);
    }

    fn initial_point(&self, x0: &mut Vec<u64>) {
        let mut x: Vec<u64> = vec![ZERO; self.n_orig];
        self.inner.initial_point(&mut x);
        append_numbers(&mut x, &self.p_init);
        append_numbers(&mut x, &self.n_init);
        *x0 = x;
    }

    fn objective(&self, x: &[u64], new_x: bool, obj: &mut u64) -> (ok: bool) {
        let n: usize = self.n_orig;
        let ok: bool = self.inner.objective(slice_subrange(x, 0, n), new_x, obj);
        let ghost start = *obj;
        assert(self.inner.objective_gives(self.inner_point(x@), outcome(ok, start)));
        if !ok {
            return false;
        }
        for k in 0..(2 * self.m_eq)
            invariant
                self.well_formed(),
                n == self.n_orig,
                x@.len() == n + 2 * self.m_eq,
                *obj == with_penalty(
                    start,
                    self.rho,
                    self.slacks_in(x@),
                    k as nat,
                    *self.fpu,
                ),
        {
            *obj = self.fpu.add(*obj, self.fpu.mul(self.rho, x[n + k]));
        }
        true
    }

    fn gradient(&self, x: &[u64], new_x: bool, grad: &mut Vec<u64>) -> (ok: bool) {
        let n: usize = self.n_orig;
        let mut inner_grad: Vec<u64> = vec![ZERO; n];
        let ok: bool = self.inner.gradient(slice_subrange(x, 0, n), new_x, &mut inner_grad);
        assert(self.inner.gradient_gives(self.inner_point(x@), outcome(ok, inner_grad@)));
        if !ok {
            return false;
        }
        append_repeated(&mut inner_grad, self.rho, 2 * self.m_eq);
        *grad = inner_grad;
        true
    }

    fn constraints(&self, x: &[u64], new_x: bool, g: &mut Vec<u64>) -> (ok: bool) {
        let n: usize = self.n_orig;
        let m_eq: usize = self.m_eq;
        let ok: bool = self.inner.constraints(slice_subrange(x, 0, n), new_x, g);
        let ghost start = g@;
        assert(self.inner.constraints_give(self.inner_point(x@), outcome(ok, start)));
        if !ok {
            return false;
        }
        let ghost p = self.slacks_in(x@).take(m_eq as int);
        let ghost q = self.slacks_in(x@).skip(m_eq as int);
        for k in 0..m_eq
            invariant
                self.well_formed(),
                n == self.n_orig,
                m_eq == self.m_eq,
                x@.len() == n + 2 * m_eq,
                g@.len() == self.m,
                p == self.slacks_in(x@).take(m_eq as int),
                q == self.slacks_in(x@).skip(m_eq as int),
                g@ == with_slacks(start, self.eq_rows@, p, q, k as nat, *self.fpu),
        {
            let row: usize = self.eq_rows[k];
            let v: u64 = self.fpu.add(self.fpu.sub(g[row], x[n + k]), x[n + m_eq + k]);
            g.set(row, v);
        }
        true
    }

    fn jacobian_structure(&self) -> (pattern: (Vec<usize>, Vec<usize>)) {
        let n: usize = self.n_orig;
        let m_eq: usize = self.m_eq;
        let mut rows: Vec<usize> = copy_indices(&self.inner_jac_rows);
        let mut cols: Vec<usize> = copy_indices(&self.inner_jac_cols);
        let ghost s = self.inner.shape();
        let ghost eqs = self.eq_rows@;
        assert(rows@ =~= s.jac_rows + eqs.take(0));
        assert(cols@ =~= s.jac_cols + counting(n as int, 0));
        for k in 0..m_eq
            invariant
                self.well_formed(),
                n == self.n_orig,
                m_eq == self.m_eq,
                s == self.inner.shape(),
                eqs == self.eq_rows@,
                rows@ == s.jac_rows + eqs.take(k as int),
                cols@ == s.jac_cols + counting(n as int, k as nat),
        {
            rows.push(self.eq_rows[k]);
            cols.push(n + k);
            assert(rows@ =~= s.jac_rows + eqs.take(k + 1));
            assert(cols@ =~= s.jac_cols + counting(n as int, (k + 1) as nat));
        }
        let ghost rows1 = rows@;
        let ghost cols1 = cols@;
        assert(eqs.take(m_eq as int) =~= eqs);
        assert(rows@ =~= rows1 + eqs.take(0));
        assert(cols@ =~= cols1 + counting(n + m_eq, 0));
        for k in 0..m_eq
            invariant
                self.well_formed(),
                n == self.n_orig,
                m_eq == self.m_eq,
                eqs == self.eq_rows@,
                rows@ == rows1 + eqs.take(k as int),
                cols@ == cols1 + counting(n + m_eq, k as nat),
        {
            rows.push(self.eq_rows[k]);
            cols.push(n + m_eq + k);
            assert(rows@ =~= rows1 + eqs.take(k + 1));
            assert(cols@ =~= cols1 + counting(n + m_eq, (k + 1) as nat));
        }
        (rows, cols)
    }

    fn jacobian_values(&self, x: &[u64], new_x: bool, vals: &mut Vec<u64>) -> (ok: bool) {
        let n: usize = self.n_orig;
        let mut inner_vals: Vec<u64> = vec![ZERO; self.inner_jac_rows.len()];
        let ok: bool = self.inner.jacobian_values(slice_subrange(x, 0, n), new_x, &mut inner_vals);
        assert(self.inner.jacobian_gives(self.inner_point(x@), outcome(ok, inner_vals@)));
        if !ok {
            return false;
        }
        append_repeated(&mut inner_vals, MINUS_ONE, self.m_eq);
        append_repeated(&mut inner_vals, ONE, self.m_eq);
        *vals = inner_vals;
        true
    }

    fn hessian_structure(&self) -> (pattern: (Vec<usize>, Vec<usize>)) {
        (copy_indices(&self.inner_hess_rows), copy_indices(&self.inner_hess_cols))
    }

    fn hessian_values(
        &self,
        x: &[u64],
        new_x: bool,
        obj_factor: u64,
        lambda: &[u64],
        vals: &mut Vec<u64>,
    ) -> (ok: bool) {
        self.inner.hessian_values(
            slice_subrange(x, 0, self.n_orig),
            new_x,
            obj_factor,
            lambda,
            vals,
        )
    }

    fn notify_mu(&self, mu: u64) {
        self.inner.notify_mu(mu);
    }
}

/// The wrapped problem is one that can be wrapped again: its lists fit together.
pub proof fn wrapped_shape_fits<P: NlpProblem + ?Sized, F: Fn(FloatOp, u64, u64) -> u64>(
    p: L1PenaltyBarrierNlp<'_, P, F>,
)
    requires
        p.well_formed(),
    ensures
        p.shape().well_formed(),
{
    let s = p.inner.shape();
    let t = p.shape();
    let m_eq = p.m_eq as int;
    let nnz = s.jac_rows.len() as int;
    assert forall|k: int| 0 <= k < t.jac_rows.len() implies (#[trigger] t.jac_rows[k]) < t.m by {
        if k < nnz {
            assert(t.jac_rows[k] == s.jac_rows[k]);
        } else if k < nnz + m_eq {
            assert(t.jac_rows[k] == p.eq_rows@[k - nnz]);
        } else {
            assert(t.jac_rows[k] == p.eq_rows@[k - nnz - m_eq]);
        }
    }
    assert forall|k: int| 0 <= k < t.jac_cols.len() implies (#[trigger] t.jac_cols[k]) < t.n by {
        if k < nnz {
            assert(t.jac_cols[k] == s.jac_cols[k]);
        }
    }
    assert forall|k: int| 0 <= k < t.hess_rows.len() implies (#[trigger] t.hess_rows[k]) < t.n by {
        assert(s.hess_rows[k] < s.n);
    }
    assert forall|k: int| 0 <= k < t.hess_cols.len() implies (#[trigger] t.hess_cols[k]) < t.n by {
        assert(s.hess_cols[k] < s.n);
    }
}

/// The equalities of the wrapped problem are independent: the column of each
/// slack has one entry, minus one or one, and it lies in the row of the equality
/// that the slack belongs to.
pub proof fn slack_columns_single_out_equalities<
    P: NlpProblem + ?Sized,
    F: Fn(FloatOp, u64, u64) -> u64,
>(p: L1PenaltyBarrierNlp<'_, P, F>, x: Seq<u64>, v: Seq<u64>, k: int, e: int)
    requires
        p.well_formed(),
        p.jacobian_gives(x, Some(v)),
        v.len() == p.shape().jac_rows.len(),
        0 <= k < p.m_eq,
        0 <= e < v.len(),
    ensures
        ({
            let t = p.shape();
            let nnz = p.inner.shape().jac_rows.len();
            &&& t.jac_cols[e] == p.n_orig + k <==> e == nnz + k
            &&& t.jac_cols[e] == p.n_orig + p.m_eq + k <==> e == nnz + p.m_eq + k
            &&& e == nnz + k ==> t.jac_rows[e] == p.eq_rows@[k] && v[e] == MINUS_ONE
            &&& e == nnz + p.m_eq + k ==> t.jac_rows[e] == p.eq_rows@[k] && v[e] == ONE
        }),
{
    let s = p.inner.shape();
    let t = p.shape();
    let m_eq = p.m_eq as int;
    let nnz = s.jac_rows.len() as int;
    if e < nnz {
        assert(t.jac_cols[e] == s.jac_cols[e]);
        assert(s.jac_cols[e] < s.n);
    } else if e < nnz + m_eq {
        assert(t.jac_cols[e] == counting(p.n_orig as int, p.m_eq as nat)[e - nnz]);
        assert(t.jac_rows[e] == p.eq_rows@[e - nnz]);
    } else {
        assert(t.jac_rows[e] == p.eq_rows@[e - nnz - m_eq]);
    }
}

/// A problem without equalities keeps its shape.
pub proof fn without_equalities_nothing_is_added<
    P: NlpProblem + ?Sized,
    F: Fn(FloatOp, u64, u64) -> u64,
>(p: L1PenaltyBarrierNlp<'_, P, F>)
    requires
        p.well_formed(),
        p.m_eq == 0,
    ensures
        p.shape() == p.inner.shape(),
{
    let s = p.inner.shape();
    assert(p.shape() =~= s);
}

/// The slacks to start from, and the row with them, make no rounding error:
/// the row has the value `g` and the target `t`.
pub open spec fn exact_slacks<F: Fn(FloatOp, u64, u64) -> u64>(
    g: u64,
    t: u64,
    fpu: Fpu<F>,
    value: spec_fn(u64) -> real,
) -> bool {
    let v = fpu.difference(g, t);
    let (p, n) = first_slacks(v, fpu);
    &&& value(v) == value(g) - value(t)
    &&& num_lt(ZERO, v) <==> value(v) > (0 as real)
    &&& num_lt(v, ZERO) <==> value(v) < (0 as real)
    &&& num_lt(ZERO, v) ==> value(p) == value(v) + value(TEN_M4)
    &&& num_lt(v, ZERO) ==> value(n) == -value(v) + value(TEN_M4)
    &&& value(fpu.difference(g, p)) == value(g) - value(p)
    &&& value(fpu.sum(fpu.difference(g, p), n)) == value(g) - value(p) + value(n)
}

/// The equalities are listed in order, each once.
pub(crate) proof fn lemma_equalities(g_l: Seq<u64>, g_u: Seq<u64>, k: nat)
    requires
        k <= usize::MAX,
    ensures
        forall|a: int, b: int|
            0 <= a < b < equalities(g_l, g_u, k).len() ==> equalities(g_l, g_u, k)[a]
                < equalities(g_l, g_u, k)[b],
        forall|a: int|
            0 <= a < equalities(g_l, g_u, k).len() ==> (#[trigger] equalities(g_l, g_u, k)[a]) < k,
    decreases k,
{
    if k > 0 {
        lemma_equalities(g_l, g_u, (k - 1) as nat);
        let before = equalities(g_l, g_u, (k - 1) as nat);
        let now = equalities(g_l, g_u, k);
        assert forall|a: int| 0 <= a < now.len() implies (#[trigger] now[a]) < k by {
            if a < before.len() {
                assert(now[a] == before[a]);
            }
        }
        assert forall|a: int, b: int| 0 <= a < b < now.len() implies now[a] < now[b] by {
            assert(now[a] == before[a]);
            if b < before.len() {
                assert(now[b] == before[b]);
            }
        }
    }
}

/// The rows with slacks are changed once each, and no others.
pub(crate) proof fn lemma_with_slacks<F: Fn(FloatOp, u64, u64) -> u64>(
    g: Seq<u64>,
    rows: Seq<usize>,
    p: Seq<u64>,
    n: Seq<u64>,
    k: nat,
    i: int,
    fpu: Fpu<F>,
)
    requires
        k <= rows.len(),
        forall|a: int, b: int| 0 <= a < b < rows.len() ==> rows[a] < rows[b],
        forall|a: int| 0 <= a < rows.len() ==> (#[trigger] rows[a]) < g.len(),
        0 <= i < g.len(),
    ensures
        with_slacks(g, rows, p, n, k, fpu).len() == g.len(),
        forall|a: int|
            0 <= a < k && #[trigger] rows[a] == i ==> with_slacks(g, rows, p, n, k, fpu)[i]
                == fpu.sum(fpu.difference(g[i], p[a]), n[a]),
        (forall|a: int| 0 <= a < k ==> #[trigger] rows[a] != i) ==> with_slacks(
            g,
            rows,
            p,
            n,
            k,
            fpu,
        )[i] == g[i],
    decreases k,
{
    if k > 0 {
        lemma_with_slacks(g, rows, p, n, (k - 1) as nat, i, fpu);
        if rows[k - 1] == i {
            assert forall|a: int| 0 <= a < k - 1 implies #[trigger] rows[a] != i by {
                assert(rows[a] < rows[k - 1]);
            }
        }
    }
}

/// The slacks to start from are positive and take up the whole violation: with
/// them every equality has its target, and every other row keeps its value `g`.
/// No operation may make a rounding error.
pub proof fn start_meets_the_equalities<F: Fn(FloatOp, u64, u64) -> u64>(
    g: Seq<u64>,
    g_l: Seq<u64>,
    g_u: Seq<u64>,
    i: int,
    fpu: Fpu<F>,
    value: spec_fn(u64) -> real,
)
    requires
        g.len() <= usize::MAX,
        g_l.len() == g.len(),
        g_u.len() == g.len(),
        0 <= i < g.len(),
        value(TEN_M4) > (0 as real),
        is_equality(g_l[i], g_u[i]) ==> exact_slacks(g[i], g_l[i], fpu, value),
    ensures
        ({
            let rows = equalities(g_l, g_u, g.len());
            let (p, n) = slacks_from(rows, g, g_l, fpu);
            let h = with_slacks(g, rows, p, n, rows.len(), fpu);
            if is_equality(g_l[i], g_u[i]) {
                &&& value(h[i]) == value(g_l[i])
                &&& exists|k: int|
                    0 <= k < rows.len() && #[trigger] rows[k] == i && value(p[k]) > (0 as real)
                        && value(n[k]) > (0 as real)
            } else {
                h[i] == g[i]
            }
        }),
{
    let rows = equalities(g_l, g_u, g.len());
    let (p, n) = slacks_from(rows, g, g_l, fpu);
    lemma_equalities(g_l, g_u, g.len());
    lemma_with_slacks(g, rows, p, n, rows.len(), i, fpu);
    lemma_listed(g_l, g_u, g.len(), i);
    if is_equality(g_l[i], g_u[i]) {
        let k = choose|k: int| 0 <= k < rows.len() && #[trigger] rows[k] == i;
        assert(p[k] == first_slacks(fpu.difference(g[i], g_l[i]), fpu).0);
        assert(n[k] == first_slacks(fpu.difference(g[i], g_l[i]), fpu).1);
    }
}

/// A constraint is listed if and only if it is an equality.
pub(crate) proof fn lemma_listed(g_l: Seq<u64>, g_u: Seq<u64>, k: nat, i: int)
    requires
        k <= usize::MAX,
        0 <= i < k,
    ensures
        is_equality(g_l[i], g_u[i]) <==> exists|a: int|
            0 <= a < equalities(g_l, g_u, k).len() && #[trigger] equalities(g_l, g_u, k)[a] == i,
    decreases k,
{
    lemma_equalities(g_l, g_u, (k - 1) as nat);
    let before = equalities(g_l, g_u, (k - 1) as nat);
    let now = equalities(g_l, g_u, k);
    if i < k - 1 {
        lemma_listed(g_l, g_u, (k - 1) as nat, i);
        if is_equality(g_l[i], g_u[i]) {
            let a = choose|a: int| 0 <= a < before.len() && #[trigger] before[a] == i;
            assert(now[a] == i);
        } else if exists|a: int| 0 <= a < now.len() && #[trigger] now[a] == i {
            let a = choose|a: int| 0 <= a < now.len() && #[trigger] now[a] == i;
            assert(before[a] == i);
        }
    } else if is_equality(g_l[i], g_u[i]) {
        assert(now[now.len() - 1] == i);
    }
}

} // verus!
