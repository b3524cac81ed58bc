//! The penalty wrapper.

use ripopt::float::{FloatOp, Fpu};
use ripopt::l1_penalty_barrier_nlp::L1PenaltyBarrierNlp as Wrapped;
use ripopt::problem::NlpProblem as Program;

fn arithmetic(op: FloatOp, a: u64, b: u64) -> u64 {
    let (x, y) = (f64::from_bits(a), f64::from_bits(b));
    let r = match op {
        FloatOp::Add => x + y,
        FloatOp::Sub => x - y,
        FloatOp::Mul => x * y,
        FloatOp::Div => x / y,
        FloatOp::Rem => x % y,
        FloatOp::Pow => x.powf(y),
        FloatOp::Atan2 => x.atan2(y),
        FloatOp::Max => x.max(y),
        FloatOp::Min => x.min(y),
        FloatOp::Floor => x.floor(),
        FloatOp::Ceil => x.ceil(),
        FloatOp::Sqrt => x.sqrt(),
        FloatOp::Exp => x.exp(),
        FloatOp::Ln => x.ln(),
        FloatOp::Log10 => x.log10(),
        FloatOp::Sin => x.sin(),
        FloatOp::Cos => x.cos(),
        FloatOp::Tan => x.tan(),
        FloatOp::Asin => x.asin(),
        FloatOp::Acos => x.acos(),
        FloatOp::Atan => x.atan(),
        FloatOp::Sinh => x.sinh(),
        FloatOp::Cosh => x.cosh(),
        FloatOp::Tanh => x.tanh(),
        FloatOp::Asinh => x.asinh(),
        FloatOp::Acosh => x.acosh(),
        FloatOp::Atanh => x.atanh(),
        FloatOp::FromCount => a as f64,
    };
    r.to_bits()
}

type Unit = Fpu<fn(FloatOp, u64, u64) -> u64>;

fn unit() -> Unit {
    Fpu { f: arithmetic }
}

fn bits(v: &[f64]) -> Vec<u64> {
    v.iter().map(|x| x.to_bits()).collect()
}

fn numbers(v: &[u64]) -> Vec<f64> {
    v.iter().map(|b| f64::from_bits(*b)).collect()
}

/// A problem in `f64`.
trait NlpProblem {
    fn num_variables(&self) -> usize;
    fn num_constraints(&self) -> usize;
    fn bounds(&self, x_l: &mut [f64], x_u: &mut [f64]);
    fn constraint_bounds(&self, g_l: &mut [f64], g_u: &mut [f64]);
    fn initial_point(&self, x0: &mut [f64]);
    fn objective(&self, x: &[f64], new_x: bool, obj: &mut f64) -> bool;
    fn gradient(&self, x: &[f64], new_x: bool, grad: &mut [f64]) -> bool;
    fn constraints(&self, x: &[f64], new_x: bool, g: &mut [f64]) -> bool;
    fn jacobian_structure(&self) -> (Vec<usize>, Vec<usize>);
    fn jacobian_values(&self, x: &[f64], new_x: bool, vals: &mut [f64]) -> bool;
    fn hessian_structure(&self) -> (Vec<usize>, Vec<usize>);
    fn hessian_values(
        &self,
        x: &[f64],
        new_x: bool,
        obj_factor: f64,
        lambda: &[f64],
        vals: &mut [f64],
    ) -> bool;
}

/// A problem in `f64` as one in bits.
struct Bits<'p, T: ?Sized>(&'p T);

fn filled<R>(out: &mut Vec<u64>, f: impl FnOnce(&mut [f64]) -> R) -> R {
    let mut v = numbers(out);
    let r = f(&mut v);
    *out = bits(&v);
    r
}

impl<T: NlpProblem + ?Sized> Program for Bits<'_, T> {
    fn num_variables(&self) -> usize {
        self.0.num_variables()
    }

    fn num_constraints(&self) -> usize {
        self.0.num_constraints()
    }

    fn bounds(&self, x_l: &mut Vec<u64>, x_u: &mut Vec<u64>) {
        filled(x_l, |l| filled(x_u, |u| self.0.bounds(l, u)));
    }

    fn constraint_bounds(&self, g_l: &mut Vec<u64>, g_u: &mut Vec<u64>) {
        filled(g_l, |l| filled(g_u, |u| self.0.constraint_bounds(l, u)));
    }

    fn initial_point(&self, x0: &mut Vec<u64>) {
        filled(x0, |x| self.0.initial_point(x));
    }

    fn objective(&self, x: &[u64], new_x: bool, obj: &mut u64) -> bool {
        let mut v = f64::from_bits(*obj);
        let ok = self.0.objective(&numbers(x), new_x, &mut v);
        *obj = v.to_bits();
        ok
    }

    fn gradient(&self, x: &[u64], new_x: bool, grad: &mut Vec<u64>) -> bool {
        filled(grad, |g| self.0.gradient(&numbers(x), new_x, g))
    }

    fn constraints(&self, x: &[u64], new_x: bool, g: &mut Vec<u64>) -> bool {
        filled(g, |g| self.0.constraints(&numbers(x), new_x, g))
    }

    fn jacobian_structure(&self) -> (Vec<usize>, Vec<usize>) {
        self.0.jacobian_structure()
    }

    fn jacobian_values(&self, x: &[u64], new_x: bool, vals: &mut Vec<u64>) -> bool {
        filled(vals, |v| self.0.jacobian_values(&numbers(x), new_x, v))
    }

    fn hessian_structure(&self) -> (Vec<usize>, Vec<usize>) {
        self.0.hessian_structure()
    }

    fn hessian_values(
        &self,
        x: &[u64],
        new_x: bool,
        obj_factor: u64,
        lambda: &[u64],
        vals: &mut Vec<u64>,
    ) -> bool {
        filled(vals, |v| {
            self.0.hessian_values(
                &numbers(x),
                new_x,
                f64::from_bits(obj_factor),
                &numbers(lambda),
                v,
            )
        })
    }
}

/// A problem in bits as one in `f64`.
struct View<Q>(Q);

impl<Q> std::ops::Deref for View<Q> {
    type Target = Q;

    fn deref(&self) -> &Q {
        &self.0
    }
}

fn read<R>(out: &mut [f64], f: impl FnOnce(&mut Vec<u64>) -> R) -> R {
    let mut v = bits(out);
    let r = f(&mut v);
    out.copy_from_slice(&numbers(&v));
    r
}

impl<Q: Program> View<Q> {
    fn num_variables(&self) -> usize {
        self.0.num_variables()
    }

    fn num_constraints(&self) -> usize {
        self.0.num_constraints()
    }

    fn bounds(&self, x_l: &mut [f64], x_u: &mut [f64]) {
        read(x_l, |l| read(x_u, |u| self.0.bounds(l, u)));
    }

    fn initial_point(&self, x0: &mut [f64]) {
        read(x0, |x| self.0.initial_point(x));
    }

    fn objective(&self, x: &[f64], new_x: bool, obj: &mut f64) -> bool {
        let mut v = obj.to_bits();
        let ok = self.0.objective(&bits(x), new_x, &mut v);
        *obj = f64::from_bits(v);
        ok
    }

    fn gradient(&self, x: &[f64], new_x: bool, grad: &mut [f64]) -> bool {
        read(grad, |g| self.0.gradient(&bits(x), new_x, g))
    }

    fn constraints(&self, x: &[f64], new_x: bool, g: &mut [f64]) -> bool {
        read(g, |g| self.0.constraints(&bits(x), new_x, g))
    }

    fn jacobian_structure(&self) -> (Vec<usize>, Vec<usize>) {
        self.0.jacobian_structure()
    }

    fn jacobian_values(&self, x: &[f64], new_x: bool, vals: &mut [f64]) -> bool {
        read(vals, |v| self.0.jacobian_values(&bits(x), new_x, v))
    }

    fn hessian_structure(&self) -> (Vec<usize>, Vec<usize>) {
        self.0.hessian_structure()
    }

    fn hessian_values(
        &self,
        x: &[f64],
        new_x: bool,
        obj_factor: f64,
        lambda: &[f64],
        vals: &mut [f64],
    ) -> bool {
        read(vals, |v| {
            self.0.hessian_values(&bits(x), new_x, obj_factor.to_bits(), &bits(lambda), v)
        })
    }
}

struct L1PenaltyBarrierNlp;

impl L1PenaltyBarrierNlp {
    fn new<'p, T: NlpProblem>(
        prob: &'p T,
        rho: f64,
    ) -> View<Wrapped<'p, Bits<'p, T>, fn(FloatOp, u64, u64) -> u64>> {
        let inner: &'p Bits<'p, T> = Box::leak(Box::new(Bits(prob)));
        let fpu: &'static Unit = Box::leak(Box::new(unit()));
        View(Wrapped::new(inner, rho.to_bits(), fpu))
    }
}

struct EqOnly;
impl NlpProblem for EqOnly {
    fn num_variables(&self) -> usize { 2 }
    fn num_constraints(&self) -> usize { 1 }
    fn bounds(&self, x_l: &mut [f64], x_u: &mut [f64]) {
        x_l[0] = f64::NEG_INFINITY; x_u[0] = f64::INFINITY;
        x_l[1] = f64::NEG_INFINITY; x_u[1] = f64::INFINITY;
    }
    fn constraint_bounds(&self, g_l: &mut [f64], g_u: &mut [f64]) {
        g_l[0] = 1.0; g_u[0] = 1.0;
    }
    fn initial_point(&self, x0: &mut [f64]) { x0[0] = 0.0; x0[1] = 0.0; }
    fn objective(&self, x: &[f64], _new_x: bool, obj: &mut f64) -> bool {
        *obj = x[0]*x[0] + x[1]*x[1]; true
    }
    fn gradient(&self, x: &[f64], _new_x: bool, grad: &mut [f64]) -> bool {
        grad[0] = 2.0*x[0]; grad[1] = 2.0*x[1]; true
    }
    fn constraints(&self, x: &[f64], _new_x: bool, g: &mut [f64]) -> bool {
        g[0] = x[0] + x[1]; true
    }
    fn jacobian_structure(&self) -> (Vec<usize>, Vec<usize>) {
        (vec![0, 0], vec![0, 1])
    }
    fn jacobian_values(&self, _x: &[f64], _new_x: bool, vals: &mut [f64]) -> bool {
        vals[0] = 1.0; vals[1] = 1.0; true
    }
    fn hessian_structure(&self) -> (Vec<usize>, Vec<usize>) {
        (vec![0, 1], vec![0, 1])
    }
    fn hessian_values(&self, _x: &[f64], _new_x: bool, obj_factor: f64, _lambda: &[f64], vals: &mut [f64]) -> bool {
        vals[0] = 2.0 * obj_factor; vals[1] = 2.0 * obj_factor; true
    }
}

struct EqAndIneq;
impl NlpProblem for EqAndIneq {
    fn num_variables(&self) -> usize { 2 }
    fn num_constraints(&self) -> usize { 2 }
    fn bounds(&self, x_l: &mut [f64], x_u: &mut [f64]) {
        x_l[0] = f64::NEG_INFINITY; x_u[0] = f64::INFINITY;
        x_l[1] = f64::NEG_INFINITY; x_u[1] = f64::INFINITY;
    }
    fn constraint_bounds(&self, g_l: &mut [f64], g_u: &mut [f64]) {
        g_l[0] = 1.0; g_u[0] = 1.0;
        g_l[1] = f64::NEG_INFINITY; g_u[1] = 0.5;
    }
    fn initial_point(&self, x0: &mut [f64]) { x0[0] = 0.0; x0[1] = 0.0; }
    fn objective(&self, x: &[f64], _new_x: bool, obj: &mut f64) -> bool {
        *obj = x[0]*x[0] + x[1]*x[1]; true
    }
    fn gradient(&self, x: &[f64], _new_x: bool, grad: &mut [f64]) -> bool {
        grad[0] = 2.0*x[0]; grad[1] = 2.0*x[1]; true
    }
    fn constraints(&self, x: &[f64], _new_x: bool, g: &mut [f64]) -> bool {
        g[0] = x[0] + x[1];
        g[1] = x[0] - x[1];
        true
    }
    fn jacobian_structure(&self) -> (Vec<usize>, Vec<usize>) {
        (vec![0, 0, 1, 1], vec![0, 1, 0, 1])
    }
    fn jacobian_values(&self, _x: &[f64], _new_x: bool, vals: &mut [f64]) -> bool {
        vals[0] = 1.0; vals[1] = 1.0;
        vals[2] = 1.0; vals[3] = -1.0;
        true
    }
    fn hessian_structure(&self) -> (Vec<usize>, Vec<usize>) {
        (vec![0, 1], vec![0, 1])
    }
    fn hessian_values(&self, _x: &[f64], _new_x: bool, obj_factor: f64, _lambda: &[f64], vals: &mut [f64]) -> bool {
        vals[0] = 2.0 * obj_factor; vals[1] = 2.0 * obj_factor; true
    }
}

#[test]
fn dimensions_eq_only() {
    let prob = EqOnly;
    let w = L1PenaltyBarrierNlp::new(&prob, 1000.0);
    assert_eq!(w.num_variables(), 4);
    assert_eq!(w.num_constraints(), 1);
    assert_eq!(w.n_orig(), 2);
}

#[test]
fn only_equality_rows_get_slacks() {
    let prob = EqAndIneq;
    let w = L1PenaltyBarrierNlp::new(&prob, 1000.0);
    assert_eq!(w.num_variables(), 4);
    assert_eq!(w.num_constraints(), 2);

    let (rows, cols) = w.jacobian_structure();
    assert_eq!(rows.len(), 6);
    assert_eq!(rows[4], 0);
    assert_eq!(rows[5], 0);
    assert_eq!(cols[4], 2);
    assert_eq!(cols[5], 3);
}

#[test]
fn bounds_slacks_are_nonneg() {
    let prob = EqOnly;
    let w = L1PenaltyBarrierNlp::new(&prob, 1000.0);
    let nv = w.num_variables();
    let mut xl = vec![0.0; nv];
    let mut xu = vec![0.0; nv];
    w.bounds(&mut xl, &mut xu);
    assert_eq!(xl[0], f64::NEG_INFINITY);
    assert_eq!(xu[0], f64::INFINITY);
    assert_eq!(xl[2], 0.0);
    assert_eq!(xu[2], f64::INFINITY);
    assert_eq!(xl[3], 0.0);
    assert_eq!(xu[3], f64::INFINITY);
}

#[test]
fn objective_adds_rho_slack_sum() {
    let prob = EqOnly;
    let rho = 1000.0;
    let w = L1PenaltyBarrierNlp::new(&prob, rho);
    let x = vec![1.0, 1.0, 0.5, 0.25];
    let mut obj = 0.0;
    assert!(w.objective(&x, true, &mut obj));
    assert!((obj - (2.0 + rho * 0.75)).abs() < 1e-10, "obj = {}", obj);
}

#[test]
fn gradient_passes_inner_x_block_and_rho_slack_block() {
    let prob = EqOnly;
    let rho = 1000.0;
    let w = L1PenaltyBarrierNlp::new(&prob, rho);
    let x = vec![1.5, 2.0, 0.1, 0.2];
    let mut grad = vec![0.0; 4];
    assert!(w.gradient(&x, true, &mut grad));
    assert!((grad[0] - 3.0).abs() < 1e-12);
    assert!((grad[1] - 4.0).abs() < 1e-12);
    assert!((grad[2] - rho).abs() < 1e-12);
    assert!((grad[3] - rho).abs() < 1e-12);
}

#[test]
fn constraints_rewrites_eq_rows_with_slack_diff() {
    let prob = EqAndIneq;
    let w = L1PenaltyBarrierNlp::new(&prob, 1000.0);
    let x = vec![0.3, 0.5, 0.2, 0.1];
    let mut g = vec![0.0; 2];
    assert!(w.constraints(&x, true, &mut g));
    assert!((g[0] - 0.7).abs() < 1e-12, "g[0]={}", g[0]);
    assert!((g[1] - (-0.2)).abs() < 1e-12, "g[1]={}", g[1]);
}

#[test]
fn jacobian_values_inner_then_minus_one_plus_one() {
    let prob = EqOnly;
    let w = L1PenaltyBarrierNlp::new(&prob, 1000.0);
    let mut vals = vec![0.0; 4];
    let x = vec![0.5, 0.5, 0.1, 0.1];
    assert!(w.jacobian_values(&x, true, &mut vals));
    assert!((vals[0] - 1.0).abs() < 1e-12);
    assert!((vals[1] - 1.0).abs() < 1e-12);
    assert!((vals[2] - (-1.0)).abs() < 1e-12);
    assert!((vals[3] - 1.0).abs() < 1e-12);
}

#[test]
fn hessian_preserves_obj_factor_and_inner_structure() {
    let prob = EqOnly;
    let w = L1PenaltyBarrierNlp::new(&prob, 1000.0);
    let (hr, hc) = w.hessian_structure();
    assert_eq!(hr, vec![0, 1]);
    assert_eq!(hc, vec![0, 1]);
    let x = vec![1.0, 2.0, 0.1, 0.1];
    let lam = vec![3.0];
    let mut vals = vec![0.0; 2];
    assert!(w.hessian_values(&x, true, 1.0, &lam, &mut vals));
    assert!((vals[0] - 2.0).abs() < 1e-12);
    assert!((vals[1] - 2.0).abs() < 1e-12);
    let mut vals2 = vec![0.0; 2];
    assert!(w.hessian_values(&x, true, 0.0, &lam, &mut vals2));
    assert!(vals2[0].abs() < 1e-12);
    assert!(vals2[1].abs() < 1e-12);
}

#[test]
fn initial_slacks_are_strictly_positive() {
    let prob = EqOnly;
    let w = L1PenaltyBarrierNlp::new(&prob, 1000.0);
    let mut x0 = vec![0.0; 4];
    w.initial_point(&mut x0);
    assert_eq!(x0[0], 0.0);
    assert_eq!(x0[1], 0.0);
    assert!(x0[2] > 0.0, "p_init must be > 0 for IPM interior");
    assert!(x0[3] > 0.0, "n_init must be > 0 for IPM interior");
}

#[test]
fn initial_slacks_split_violation() {
    struct OffStart;
    impl NlpProblem for OffStart {
        fn num_variables(&self) -> usize { 1 }
        fn num_constraints(&self) -> usize { 1 }
        fn bounds(&self, x_l: &mut [f64], x_u: &mut [f64]) {
            x_l[0] = f64::NEG_INFINITY; x_u[0] = f64::INFINITY;
        }
        fn constraint_bounds(&self, g_l: &mut [f64], g_u: &mut [f64]) {
            g_l[0] = 0.0; g_u[0] = 0.0;
        }
        fn initial_point(&self, x0: &mut [f64]) { x0[0] = 0.7; }
        fn objective(&self, x: &[f64], _: bool, obj: &mut f64) -> bool { *obj = x[0]*x[0]; true }
        fn gradient(&self, x: &[f64], _: bool, grad: &mut [f64]) -> bool { grad[0] = 2.0*x[0]; true }
        fn constraints(&self, x: &[f64], _: bool, g: &mut [f64]) -> bool { g[0] = x[0]; true }
        fn jacobian_structure(&self) -> (Vec<usize>, Vec<usize>) { (vec![0], vec![0]) }
        fn jacobian_values(&self, _: &[f64], _: bool, vals: &mut [f64]) -> bool { vals[0] = 1.0; true }
        fn hessian_structure(&self) -> (Vec<usize>, Vec<usize>) { (vec![0], vec![0]) }
        fn hessian_values(&self, _: &[f64], _: bool, of: f64, _: &[f64], vals: &mut [f64]) -> bool { vals[0] = 2.0*of; true }
    }
    let prob = OffStart;
    let w = L1PenaltyBarrierNlp::new(&prob, 1000.0);
    let mut x0 = vec![0.0; 3];
    w.initial_point(&mut x0);
    assert!((x0[0] - 0.7).abs() < 1e-12);
    assert!(x0[1] > 0.7, "p_init should absorb the +0.7 surplus, got {}", x0[1]);
    assert!(x0[2] > 0.0 && x0[2] < 0.1, "n_init should remain at the floor, got {}", x0[2]);
}

#[test]
fn no_equality_rows_makes_wrapper_a_passthrough_in_dimensions() {
    struct IneqOnly;
    impl NlpProblem for IneqOnly {
        fn num_variables(&self) -> usize { 1 }
        fn num_constraints(&self) -> usize { 1 }
        fn bounds(&self, x_l: &mut [f64], x_u: &mut [f64]) { x_l[0]=f64::NEG_INFINITY; x_u[0]=f64::INFINITY; }
        fn constraint_bounds(&self, g_l: &mut [f64], g_u: &mut [f64]) { g_l[0]=f64::NEG_INFINITY; g_u[0]=1.0; }
        fn initial_point(&self, x0: &mut [f64]) { x0[0]=0.0; }
        fn objective(&self, x: &[f64], _: bool, o: &mut f64) -> bool { *o = x[0]*x[0]; true }
        fn gradient(&self, x: &[f64], _: bool, g: &mut [f64]) -> bool { g[0]=2.0*x[0]; true }
        fn constraints(&self, x: &[f64], _: bool, g: &mut [f64]) -> bool { g[0]=x[0]; true }
        fn jacobian_structure(&self) -> (Vec<usize>, Vec<usize>) { (vec![0], vec![0]) }
        fn jacobian_values(&self, _: &[f64], _: bool, v: &mut [f64]) -> bool { v[0]=1.0; true }
        fn hessian_structure(&self) -> (Vec<usize>, Vec<usize>) { (vec![0], vec![0]) }
        fn hessian_values(&self, _: &[f64], _: bool, of: f64, _: &[f64], v: &mut [f64]) -> bool { v[0]=2.0*of; true }
    }
    let prob = IneqOnly;
    let w = L1PenaltyBarrierNlp::new(&prob, 1000.0);
    assert_eq!(w.num_variables(), 1);
    assert_eq!(w.num_constraints(), 1);
    let (jr, _) = w.jacobian_structure();
    assert_eq!(jr.len(), 1, "no slack columns when there are no equality rows");
}

#[test]
fn the_equalities_are_listed() {
    let prob = EqAndIneq;
    let w = L1PenaltyBarrierNlp::new(&prob, 10.0);
    assert_eq!(w.eq_rows(), &[0]);
    let again = L1PenaltyBarrierNlp::new(&Again, 10.0);
    assert_eq!(again.eq_rows(), &[0, 1]);
    assert_eq!(again.num_variables(), 5);
}

/// Two equations in one variable.
struct Again;

impl NlpProblem for Again {
    fn num_variables(&self) -> usize {
        1
    }
    fn num_constraints(&self) -> usize {
        2
    }
    fn bounds(&self, x_l: &mut [f64], x_u: &mut [f64]) {
        x_l[0] = -1.0;
        x_u[0] = 1.0;
    }
    fn constraint_bounds(&self, g_l: &mut [f64], g_u: &mut [f64]) {
        g_l.fill(0.0);
        g_u.fill(0.0);
    }
    fn initial_point(&self, x0: &mut [f64]) {
        x0[0] = 0.5;
    }
    fn objective(&self, x: &[f64], _: bool, obj: &mut f64) -> bool {
        *obj = x[0];
        true
    }
    fn gradient(&self, _: &[f64], _: bool, grad: &mut [f64]) -> bool {
        grad[0] = 1.0;
        true
    }
    fn constraints(&self, x: &[f64], _: bool, g: &mut [f64]) -> bool {
        g[0] = x[0];
        g[1] = -x[0];
        true
    }
    fn jacobian_structure(&self) -> (Vec<usize>, Vec<usize>) {
        (vec![0, 1], vec![0, 0])
    }
    fn jacobian_values(&self, _: &[f64], _: bool, vals: &mut [f64]) -> bool {
        vals[0] = 1.0;
        vals[1] = -1.0;
        true
    }
    fn hessian_structure(&self) -> (Vec<usize>, Vec<usize>) {
        (vec![], vec![])
    }
    fn hessian_values(&self, _: &[f64], _: bool, _: f64, _: &[f64], _: &mut [f64]) -> bool {
        false
    }
}

#[test]
fn a_failed_evaluation_is_passed_on() {
    let w = L1PenaltyBarrierNlp::new(&Again, 10.0);
    let x = vec![0.5, 0.0, 0.0, 0.0, 0.0];
    assert!(!w.hessian_values(&x, true, 1.0, &[0.0, 0.0], &mut []));
}

#[test]
fn the_start_meets_the_equality() {
    // x + y = 1 from the origin: the violation is -1.
    let prob = EqOnly;
    let w = L1PenaltyBarrierNlp::new(&prob, 1000.0);
    let mut x0 = vec![0.0; 4];
    w.initial_point(&mut x0);
    let (mut g, mut l, mut u) = (vec![0.0; 1], bits(&[0.0]), bits(&[0.0]));
    assert!(w.constraints(&x0, true, &mut g));
    w.constraint_bounds(&mut l, &mut u);
    assert!((g[0] - numbers(&l)[0]).abs() < 1e-15 && l == u);
    assert!(x0[2] > 0.0 && x0[3] > 0.0);
}
