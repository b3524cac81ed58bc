//! Preprocessing.

use ripopt::float::{FloatOp, Fpu};
use ripopt::preprocessing::PreprocessedProblem as Reduced;
use ripopt::problem::NlpProblem as Program;
use ripopt::result::SolveStatus;

fn arithmetic(op: FloatOp, a: u64, b: u64) -> u64 {
    let (x, y) = (f64::from_bits(a), f64::from_bits(b));
    let r = match op {
        FloatOp::Add => x + y,
        FloatOp::Sub => x - y,
        FloatOp::Mul => x * y,
        FloatOp::Div => x / y,
        FloatOp::Rem => x % y,
        FloatOp::Pow => x.powf(y),
        FloatOp::Atan2 => x.atan2(y),
        FloatOp::Max => x.max(y),
        FloatOp::Min => x.min(y),
        FloatOp::Floor => x.floor(),
        FloatOp::Ceil => x.ceil(),
        FloatOp::Sqrt => x.sqrt(),
        FloatOp::Exp => x.exp(),
        FloatOp::Ln => x.ln(),
        FloatOp::Log10 => x.log10(),
        FloatOp::Sin => x.sin(),
        FloatOp::Cos => x.cos(),
        FloatOp::Tan => x.tan(),
        FloatOp::Asin => x.asin(),
        FloatOp::Acos => x.acos(),
        FloatOp::Atan => x.atan(),
        FloatOp::Sinh => x.sinh(),
        FloatOp::Cosh => x.cosh(),
        FloatOp::Tanh => x.tanh(),
        FloatOp::Asinh => x.asinh(),
        FloatOp::Acosh => x.acosh(),
        FloatOp::Atanh => x.atanh(),
        FloatOp::FromCount => a as f64,
    };
    r.to_bits()
}

type Unit = Fpu<fn(FloatOp, u64, u64) -> u64>;

fn unit() -> Unit {
    Fpu { f: arithmetic }
}

fn bits(v: &[f64]) -> Vec<u64> {
    v.iter().map(|x| x.to_bits()).collect()
}

fn numbers(v: &[u64]) -> Vec<f64> {
    v.iter().map(|b| f64::from_bits(*b)).collect()
}

/// A problem in `f64`.
trait NlpProblem {
    fn num_variables(&self) -> usize;
    fn num_constraints(&self) -> usize;
    fn bounds(&self, x_l: &mut [f64], x_u: &mut [f64]);
    fn constraint_bounds(&self, g_l: &mut [f64], g_u: &mut [f64]);
    fn initial_point(&self, x0: &mut [f64]);
    fn objective(&self, x: &[f64], new_x: bool, obj: &mut f64) -> bool;
    fn gradient(&self, x: &[f64], new_x: bool, grad: &mut [f64]) -> bool;
    fn constraints(&self, x: &[f64], new_x: bool, g: &mut [f64]) -> bool;
    fn jacobian_structure(&self) -> (Vec<usize>, Vec<usize>);
    fn jacobian_values(&self, x: &[f64], new_x: bool, vals: &mut [f64]) -> bool;
    fn hessian_structure(&self) -> (Vec<usize>, Vec<usize>);
    fn hessian_values(
        &self,
        x: &[f64],
        new_x: bool,
        obj_factor: f64,
        lambda: &[f64],
        vals: &mut [f64],
    ) -> bool;
}

/// A problem in `f64` as one in bits.
struct Bits<'p, T: ?Sized>(&'p T);

fn filled<R>(out: &mut Vec<u64>, f: impl FnOnce(&mut [f64]) -> R) -> R {
    let mut v = numbers(out);
    let r = f(&mut v);
    *out = bits(&v);
    r
}

impl<T: NlpProblem + ?Sized> Program for Bits<'_, T> {
    fn num_variables(&self) -> usize {
        self.0.num_variables()
    }

    fn num_constraints(&self) -> usize {
        self.0.num_constraints()
    }

    fn bounds(&self, x_l: &mut Vec<u64>, x_u: &mut Vec<u64>) {
        filled(x_l, |l| filled(x_u, |u| self.0.bounds(l, u)));
    }

    fn constraint_bounds(&self, g_l: &mut Vec<u64>, g_u: &mut Vec<u64>) {
        filled(g_l, |l| filled(g_u, |u| self.0.constraint_bounds(l, u)));
    }

    fn initial_point(&self, x0: &mut Vec<u64>) {
        filled(x0, |x| self.0.initial_point(x));
    }

    fn objective(&self, x: &[u64], new_x: bool, obj: &mut u64) -> bool {
        let mut v = f64::from_bits(*obj);
        let ok = self.0.objective(&numbers(x), new_x, &mut v);
        *obj = v.to_bits();
        ok
    }

    fn gradient(&self, x: &[u64], new_x: bool, grad: &mut Vec<u64>) -> bool {
        filled(grad, |g| self.0.gradient(&numbers(x), new_x, g))
    }

    fn constraints(&self, x: &[u64], new_x: bool, g: &mut Vec<u64>) -> bool {
        filled(g, |g| self.0.constraints(&numbers(x), new_x, g))
    }

    fn jacobian_structure(&self) -> (Vec<usize>, Vec<usize>) {
        self.0.jacobian_structure()
    }

    fn jacobian_values(&self, x: &[u64], new_x: bool, vals: &mut Vec<u64>) -> bool {
        filled(vals, |v| self.0.jacobian_values(&numbers(x), new_x, v))
    }

    fn hessian_structure(&self) -> (Vec<usize>, Vec<usize>) {
        self.0.hessian_structure()
    }

    fn hessian_values(
        &self,
        x: &[u64],
        new_x: bool,
        obj_factor: u64,
        lambda: &[u64],
        vals: &mut Vec<u64>,
    ) -> bool {
        filled(vals, |v| {
            self.0.hessian_values(
                &numbers(x),
                new_x,
                f64::from_bits(obj_factor),
                &numbers(lambda),
                v,
            )
        })
    }
}

/// A problem in bits as one in `f64`.
struct View<Q>(Q);

impl<Q> std::ops::Deref for View<Q> {
    type Target = Q;

    fn deref(&self) -> &Q {
        &self.0
    }
}

fn read<R>(out: &mut [f64], f: impl FnOnce(&mut Vec<u64>) -> R) -> R {
    let mut v = bits(out);
    let r = f(&mut v);
    out.copy_from_slice(&numbers(&v));
    r
}

impl<Q: Program> View<Q> {
    fn num_variables(&self) -> usize {
        self.0.num_variables()
    }

    fn num_constraints(&self) -> usize {
        self.0.num_constraints()
    }

    fn bounds(&self, x_l: &mut [f64], x_u: &mut [f64]) {
        read(x_l, |l| read(x_u, |u| self.0.bounds(l, u)));
    }

    fn initial_point(&self, x0: &mut [f64]) {
        read(x0, |x| self.0.initial_point(x));
    }

    fn objective(&self, x: &[f64], new_x: bool, obj: &mut f64) -> bool {
        let mut v = obj.to_bits();
        let ok = self.0.objective(&bits(x), new_x, &mut v);
        *obj = f64::from_bits(v);
        ok
    }

    fn gradient(&self, x: &[f64], new_x: bool, grad: &mut [f64]) -> bool {
        read(grad, |g| self.0.gradient(&bits(x), new_x, g))
    }

    fn constraints(&self, x: &[f64], new_x: bool, g: &mut [f64]) -> bool {
        read(g, |g| self.0.constraints(&bits(x), new_x, g))
    }

    fn jacobian_structure(&self) -> (Vec<usize>, Vec<usize>) {
        self.0.jacobian_structure()
    }

    fn jacobian_values(&self, x: &[f64], new_x: bool, vals: &mut [f64]) -> bool {
        read(vals, |v| self.0.jacobian_values(&bits(x), new_x, v))
    }

    fn hessian_structure(&self) -> (Vec<usize>, Vec<usize>) {
        self.0.hessian_structure()
    }

    fn hessian_values(
        &self,
        x: &[f64],
        new_x: bool,
        obj_factor: f64,
        lambda: &[f64],
        vals: &mut [f64],
    ) -> bool {
        read(vals, |v| {
            self.0.hessian_values(&bits(x), new_x, obj_factor.to_bits(), &bits(lambda), v)
        })
    }
}

struct PreprocessedProblem;

type Prepared<'p> = View<Reduced<'p, Bits<'p, dyn NlpProblem + 'p>>>;

impl PreprocessedProblem {
    fn new<'p>(prob: &'p dyn NlpProblem, bound_push: f64) -> Prepared<'p> {
        let inner: &'p Bits<'p, dyn NlpProblem + 'p> = Box::leak(Box::new(Bits(prob)));
        View(Reduced::new(inner, bound_push.to_bits(), &unit()))
    }
}

/// A solution in `f64`.
struct SolveResult {
    x: Vec<f64>,
    objective: f64,
    constraint_multipliers: Vec<f64>,
    bound_multipliers_lower: Vec<f64>,
    bound_multipliers_upper: Vec<f64>,
    constraint_values: Vec<f64>,
    status: SolveStatus,
    iterations: usize,
    diagnostics: String,
}

impl View<Reduced<'_, Bits<'_, dyn NlpProblem + '_>>> {
    fn unmap_solution(&self, r: &SolveResult) -> SolveResult {
        let full = self.0.unmap_solution(&ripopt::result::SolveResult {
            x: bits(&r.x),
            objective: r.objective.to_bits(),
            constraint_multipliers: bits(&r.constraint_multipliers),
            bound_multipliers_lower: bits(&r.bound_multipliers_lower),
            bound_multipliers_upper: bits(&r.bound_multipliers_upper),
            constraint_values: bits(&r.constraint_values),
            status: r.status,
            iterations: r.iterations,
            diagnostics: r.diagnostics.clone(),
        });
        SolveResult {
            x: numbers(&full.x),
            objective: f64::from_bits(full.objective),
            constraint_multipliers: numbers(&full.constraint_multipliers),
            bound_multipliers_lower: numbers(&full.bound_multipliers_lower),
            bound_multipliers_upper: numbers(&full.bound_multipliers_upper),
            constraint_values: numbers(&full.constraint_values),
            status: full.status,
            iterations: full.iterations,
            diagnostics: full.diagnostics,
        }
    }
}

struct FixedVarProblem;

impl NlpProblem for FixedVarProblem {
    fn num_variables(&self) -> usize {
        3
    }
    fn num_constraints(&self) -> usize {
        1
    }
    fn bounds(&self, x_l: &mut [f64], x_u: &mut [f64]) {
        x_l[0] = f64::NEG_INFINITY;
        x_u[0] = f64::INFINITY;
        x_l[1] = 2.0;
        x_u[1] = 2.0;
        x_l[2] = f64::NEG_INFINITY;
        x_u[2] = f64::INFINITY;
    }
    fn constraint_bounds(&self, g_l: &mut [f64], g_u: &mut [f64]) {
        g_l[0] = 4.0;
        g_u[0] = 4.0;
    }
    fn initial_point(&self, x0: &mut [f64]) {
        x0[0] = 1.0;
        x0[1] = 2.0;
        x0[2] = 3.0;
    }
    fn objective(&self, x: &[f64], _new_x: bool, obj: &mut f64) -> bool {
        *obj = (x[0] - 1.0).powi(2) + (x[1] - 2.0).powi(2) + (x[2] - 3.0).powi(2);
        true
    }
    fn gradient(&self, x: &[f64], _new_x: bool, grad: &mut [f64]) -> bool {
        grad[0] = 2.0 * (x[0] - 1.0);
        grad[1] = 2.0 * (x[1] - 2.0);
        grad[2] = 2.0 * (x[2] - 3.0);
        true
    }
    fn constraints(&self, x: &[f64], _new_x: bool, g: &mut [f64]) -> bool {
        g[0] = x[0] + x[2];
        true
    }
    fn jacobian_structure(&self) -> (Vec<usize>, Vec<usize>) {
        (vec![0, 0], vec![0, 2])
    }
    fn jacobian_values(&self, _x: &[f64], _new_x: bool, vals: &mut [f64]) -> bool {
        vals[0] = 1.0;
        vals[1] = 1.0;
        true
    }
    fn hessian_structure(&self) -> (Vec<usize>, Vec<usize>) {
        (vec![0, 1, 2], vec![0, 1, 2])
    }
    fn hessian_values(&self, _x: &[f64], _new_x: bool, obj_factor: f64, _lambda: &[f64], vals: &mut [f64]) -> bool {
        vals[0] = 2.0 * obj_factor;
        vals[1] = 2.0 * obj_factor;
        vals[2] = 2.0 * obj_factor;
        true
    }
}

#[test]
fn test_fixed_var_elimination() {
    let prob = FixedVarProblem;
    let prep = PreprocessedProblem::new(&prob as &dyn NlpProblem, 1e-2);

    assert!(prep.did_reduce());
    assert_eq!(prep.num_fixed(), 1);
    assert_eq!(prep.num_variables(), 2);
    assert_eq!(prep.num_constraints(), 1);

    assert_eq!(prep.var_map, vec![0, 2]);
}

#[test]
fn test_fixed_var_objective() {
    let prob = FixedVarProblem;
    let prep = PreprocessedProblem::new(&prob as &dyn NlpProblem, 1e-2);

    let x_red = vec![1.0, 3.0];
    let mut obj_val = 0.0;
    prep.objective(&x_red, true, &mut obj_val);
    assert!((obj_val - 0.0).abs() < 1e-10);
}

#[test]
fn test_fixed_var_gradient() {
    let prob = FixedVarProblem;
    let prep = PreprocessedProblem::new(&prob as &dyn NlpProblem, 1e-2);

    let x_red = vec![1.0, 3.0];
    let mut grad = vec![0.0; 2];
    prep.gradient(&x_red, true, &mut grad);
    assert!((grad[0] - 0.0).abs() < 1e-10);
    assert!((grad[1] - 0.0).abs() < 1e-10);
}

#[test]
fn test_fixed_var_constraints() {
    let prob = FixedVarProblem;
    let prep = PreprocessedProblem::new(&prob as &dyn NlpProblem, 1e-2);

    let x_red = vec![1.5, 2.5];
    let mut g = vec![0.0; 1];
    prep.constraints(&x_red, true, &mut g);
    assert!((g[0] - 4.0).abs() < 1e-10);
}

#[test]
fn test_unmap_solution() {
    let prob = FixedVarProblem;
    let prep = PreprocessedProblem::new(&prob as &dyn NlpProblem, 1e-2);

    let reduced_result = SolveResult {
        x: vec![2.0, 2.0],
        objective: 2.0,
        constraint_multipliers: vec![1.0],
        bound_multipliers_lower: vec![0.0, 0.0],
        bound_multipliers_upper: vec![0.0, 0.0],
        constraint_values: vec![4.0],
        status: SolveStatus::Optimal,
        iterations: 10,
        diagnostics: Default::default(),
    };

    let full = prep.unmap_solution(&reduced_result);
    assert_eq!(full.x.len(), 3);
    assert!((full.x[0] - 2.0).abs() < 1e-10);
    assert!((full.x[1] - 2.0).abs() < 1e-10);
    assert!((full.x[2] - 2.0).abs() < 1e-10);
    assert_eq!(full.constraint_multipliers.len(), 1);
    assert_eq!(full.bound_multipliers_lower.len(), 3);
}

struct DuplicateConstraintProblem;

impl NlpProblem for DuplicateConstraintProblem {
    fn num_variables(&self) -> usize {
        2
    }
    fn num_constraints(&self) -> usize {
        3
    }
    fn bounds(&self, x_l: &mut [f64], x_u: &mut [f64]) {
        x_l[0] = 0.0;
        x_u[0] = 10.0;
        x_l[1] = 0.0;
        x_u[1] = 10.0;
    }
    fn constraint_bounds(&self, g_l: &mut [f64], g_u: &mut [f64]) {
        g_l[0] = 1.0;
        g_u[0] = 5.0;
        g_l[1] = 0.0;
        g_u[1] = 3.0;
        g_l[2] = 1.0;
        g_u[2] = 5.0;
    }
    fn initial_point(&self, x0: &mut [f64]) {
        x0[0] = 1.0;
        x0[1] = 1.0;
    }
    fn objective(&self, x: &[f64], _new_x: bool, obj: &mut f64) -> bool {
        *obj = x[0] * x[0] + x[1] * x[1];
        true
    }
    fn gradient(&self, x: &[f64], _new_x: bool, grad: &mut [f64]) -> bool {
        grad[0] = 2.0 * x[0];
        grad[1] = 2.0 * x[1];
        true
    }
    fn constraints(&self, x: &[f64], _new_x: bool, g: &mut [f64]) -> bool {
        g[0] = x[0] + x[1];
        g[1] = x[0] - x[1];
        g[2] = x[0] + x[1];
        true
    }
    fn jacobian_structure(&self) -> (Vec<usize>, Vec<usize>) {
        (vec![0, 0, 1, 1, 2, 2], vec![0, 1, 0, 1, 0, 1])
    }
    fn jacobian_values(&self, _x: &[f64], _new_x: bool, vals: &mut [f64]) -> bool {
        vals[0] = 1.0;
        vals[1] = 1.0;
        vals[2] = 1.0;
        vals[3] = -1.0;
        vals[4] = 1.0;
        vals[5] = 1.0;
        true
    }
    fn hessian_structure(&self) -> (Vec<usize>, Vec<usize>) {
        (vec![0, 1], vec![0, 1])
    }
    fn hessian_values(&self, _x: &[f64], _new_x: bool, obj_factor: f64, _lambda: &[f64], vals: &mut [f64]) -> bool {
        vals[0] = 2.0 * obj_factor;
        vals[1] = 2.0 * obj_factor;
        true
    }
}

#[test]
fn test_redundant_constraint_detection() {
    let prob = DuplicateConstraintProblem;
    let prep = PreprocessedProblem::new(&prob as &dyn NlpProblem, 1e-2);

    assert!(prep.did_reduce());
    assert_eq!(prep.num_redundant(), 1);
    assert_eq!(prep.num_constraints(), 2);
    assert_eq!(prep.constr_map, vec![0, 1]);
}

#[test]
fn test_no_reduction() {
    struct NothingToReduce;
    impl NlpProblem for NothingToReduce {
        fn num_variables(&self) -> usize {
            2
        }
        fn num_constraints(&self) -> usize {
            1
        }
        fn bounds(&self, x_l: &mut [f64], x_u: &mut [f64]) {
            x_l[0] = 0.0;
            x_u[0] = 10.0;
            x_l[1] = 0.0;
            x_u[1] = 10.0;
        }
        fn constraint_bounds(&self, g_l: &mut [f64], g_u: &mut [f64]) {
            g_l[0] = 1.0;
            g_u[0] = 5.0;
        }
        fn initial_point(&self, x0: &mut [f64]) {
            x0[0] = 1.0;
            x0[1] = 1.0;
        }
        fn objective(&self, x: &[f64], _new_x: bool, obj: &mut f64) -> bool {
        *obj = x[0] + x[1];
        true
    }
        fn gradient(&self, _x: &[f64], _new_x: bool, grad: &mut [f64]) -> bool {
            grad[0] = 1.0;
            grad[1] = 1.0;
        true
    }
        fn constraints(&self, x: &[f64], _new_x: bool, g: &mut [f64]) -> bool {
            g[0] = x[0] + x[1];
        true
    }
        fn jacobian_structure(&self) -> (Vec<usize>, Vec<usize>) {
            (vec![0, 0], vec![0, 1])
        }
        fn jacobian_values(&self, _x: &[f64], _new_x: bool, vals: &mut [f64]) -> bool {
            vals[0] = 1.0;
            vals[1] = 1.0;
        true
    }
        fn hessian_structure(&self) -> (Vec<usize>, Vec<usize>) {
            (vec![], vec![])
        }
        fn hessian_values(
            &self,
            _x: &[f64],
            _new_x: bool,
            _obj_factor: f64,
            _lambda: &[f64],
            _vals: &mut [f64],
        ) -> bool { true }
    }

    let prob = NothingToReduce;
    let prep = PreprocessedProblem::new(&prob as &dyn NlpProblem, 1e-2);
    assert!(!prep.did_reduce());
}

struct BoundTightenPositive;

impl NlpProblem for BoundTightenPositive {
    fn num_variables(&self) -> usize { 1 }
    fn num_constraints(&self) -> usize { 1 }
    fn bounds(&self, x_l: &mut [f64], x_u: &mut [f64]) {
        x_l[0] = f64::NEG_INFINITY;
        x_u[0] = f64::INFINITY;
    }
    fn constraint_bounds(&self, g_l: &mut [f64], g_u: &mut [f64]) {
        g_l[0] = 4.0;
        g_u[0] = f64::INFINITY;
    }
    fn initial_point(&self, x0: &mut [f64]) { x0[0] = 5.0; }
    fn objective(&self, x: &[f64], _new_x: bool, obj: &mut f64) -> bool {
        *obj = x[0] * x[0];
        true
    }
    fn gradient(&self, x: &[f64], _new_x: bool, grad: &mut [f64]) -> bool { grad[0] = 2.0 * x[0];
        true
    }
    fn constraints(&self, x: &[f64], _new_x: bool, g: &mut [f64]) -> bool { g[0] = 2.0 * x[0];
        true
    }
    fn jacobian_structure(&self) -> (Vec<usize>, Vec<usize>) {
        (vec![0], vec![0])
    }
    fn jacobian_values(&self, _x: &[f64], _new_x: bool, vals: &mut [f64]) -> bool { vals[0] = 2.0;
        true
    }
    fn hessian_structure(&self) -> (Vec<usize>, Vec<usize>) {
        (vec![0], vec![0])
    }
    fn hessian_values(&self, _x: &[f64], _new_x: bool, obj_factor: f64, _lambda: &[f64], vals: &mut [f64]) -> bool {
        vals[0] = 2.0 * obj_factor;
        true
    }
}

#[test]
fn test_bound_tightening_positive_coeff() {
    let prob = BoundTightenPositive;
    let prep = PreprocessedProblem::new(&prob as &dyn NlpProblem, 1e-2);

    let mut xl = vec![0.0; 1];
    let mut xu = vec![0.0; 1];
    prep.bounds(&mut xl, &mut xu);
    assert!(xl[0] >= 2.0 - 1e-10, "expected x_l >= 2.0, got {}", xl[0]);
}

struct BoundTightenNegative;

impl NlpProblem for BoundTightenNegative {
    fn num_variables(&self) -> usize { 1 }
    fn num_constraints(&self) -> usize { 1 }
    fn bounds(&self, x_l: &mut [f64], x_u: &mut [f64]) {
        x_l[0] = f64::NEG_INFINITY;
        x_u[0] = f64::INFINITY;
    }
    fn constraint_bounds(&self, g_l: &mut [f64], g_u: &mut [f64]) {
        g_l[0] = f64::NEG_INFINITY;
        g_u[0] = -6.0;
    }
    fn initial_point(&self, x0: &mut [f64]) { x0[0] = 5.0; }
    fn objective(&self, x: &[f64], _new_x: bool, obj: &mut f64) -> bool {
        *obj = x[0] * x[0];
        true
    }
    fn gradient(&self, x: &[f64], _new_x: bool, grad: &mut [f64]) -> bool { grad[0] = 2.0 * x[0];
        true
    }
    fn constraints(&self, x: &[f64], _new_x: bool, g: &mut [f64]) -> bool { g[0] = -3.0 * x[0];
        true
    }
    fn jacobian_structure(&self) -> (Vec<usize>, Vec<usize>) {
        (vec![0], vec![0])
    }
    fn jacobian_values(&self, _x: &[f64], _new_x: bool, vals: &mut [f64]) -> bool { vals[0] = -3.0;
        true
    }
    fn hessian_structure(&self) -> (Vec<usize>, Vec<usize>) {
        (vec![0], vec![0])
    }
    fn hessian_values(&self, _x: &[f64], _new_x: bool, obj_factor: f64, _lambda: &[f64], vals: &mut [f64]) -> bool {
        vals[0] = 2.0 * obj_factor;
        true
    }
}

#[test]
fn test_bound_tightening_negative_coeff() {
    let prob = BoundTightenNegative;
    let prep = PreprocessedProblem::new(&prob as &dyn NlpProblem, 1e-2);

    let mut xl = vec![0.0; 1];
    let mut xu = vec![0.0; 1];
    prep.bounds(&mut xl, &mut xu);
    assert!(xl[0] >= 2.0 - 1e-10, "expected x_l >= 2.0, got {}", xl[0]);
}

struct BoundTightenBothSided;

impl NlpProblem for BoundTightenBothSided {
    fn num_variables(&self) -> usize { 1 }
    fn num_constraints(&self) -> usize { 1 }
    fn bounds(&self, x_l: &mut [f64], x_u: &mut [f64]) {
        x_l[0] = f64::NEG_INFINITY;
        x_u[0] = f64::INFINITY;
    }
    fn constraint_bounds(&self, g_l: &mut [f64], g_u: &mut [f64]) {
        g_l[0] = 1.0;
        g_u[0] = 6.0;
    }
    fn initial_point(&self, x0: &mut [f64]) { x0[0] = 1.0; }
    fn objective(&self, x: &[f64], _new_x: bool, obj: &mut f64) -> bool {
        *obj = x[0] * x[0];
        true
    }
    fn gradient(&self, x: &[f64], _new_x: bool, grad: &mut [f64]) -> bool { grad[0] = 2.0 * x[0];
        true
    }
    fn constraints(&self, x: &[f64], _new_x: bool, g: &mut [f64]) -> bool { g[0] = 2.0 * x[0];
        true
    }
    fn jacobian_structure(&self) -> (Vec<usize>, Vec<usize>) {
        (vec![0], vec![0])
    }
    fn jacobian_values(&self, _x: &[f64], _new_x: bool, vals: &mut [f64]) -> bool { vals[0] = 2.0;
        true
    }
    fn hessian_structure(&self) -> (Vec<usize>, Vec<usize>) {
        (vec![0], vec![0])
    }
    fn hessian_values(&self, _x: &[f64], _new_x: bool, obj_factor: f64, _lambda: &[f64], vals: &mut [f64]) -> bool {
        vals[0] = 2.0 * obj_factor;
        true
    }
}

#[test]
fn test_bound_tightening_both_sided() {
    let prob = BoundTightenBothSided;
    let prep = PreprocessedProblem::new(&prob as &dyn NlpProblem, 1e-2);

    let mut xl = vec![0.0; 1];
    let mut xu = vec![0.0; 1];
    prep.bounds(&mut xl, &mut xu);
    assert!(xl[0] >= 0.5 - 1e-10, "expected x_l >= 0.5, got {}", xl[0]);
    assert!(xu[0] <= 3.0 + 1e-10, "expected x_u <= 3.0, got {}", xu[0]);
}

#[test]
fn a_point_is_expanded_by_the_fixed_values() {
    let prob = FixedVarProblem;
    let prep = PreprocessedProblem::new(&prob as &dyn NlpProblem, 1e-2);
    let full = prep.unmap_solution(&SolveResult {
        x: vec![7.0, 9.0],
        objective: 0.0,
        constraint_multipliers: vec![0.0],
        bound_multipliers_lower: vec![0.0, 1.0],
        bound_multipliers_upper: vec![0.0, 0.0],
        constraint_values: vec![16.0],
        status: SolveStatus::Optimal,
        iterations: 1,
        diagnostics: String::new(),
    });
    assert_eq!(full.x, vec![7.0, 2.0, 9.0]);
    assert_eq!(full.bound_multipliers_lower, vec![0.0, 0.0, 1.0]);
    assert_eq!(prep.orig_to_reduced_var, vec![Some(0), None, Some(1)]);
}

#[test]
fn multipliers_of_a_repeated_constraint_are_zero() {
    let prob = DuplicateConstraintProblem;
    let prep = PreprocessedProblem::new(&prob as &dyn NlpProblem, 1e-2);
    let full = prep.unmap_solution(&SolveResult {
        x: vec![1.0, 2.0],
        objective: 5.0,
        constraint_multipliers: vec![3.0, 4.0],
        bound_multipliers_lower: vec![0.5, 0.25],
        bound_multipliers_upper: vec![0.0, 0.0],
        constraint_values: vec![3.0, -1.0],
        status: SolveStatus::Acceptable,
        iterations: 4,
        diagnostics: "kept".to_string(),
    });
    assert_eq!(full.x, vec![1.0, 2.0]);
    assert_eq!(full.constraint_multipliers, vec![3.0, 4.0, 0.0]);
    assert_eq!(full.bound_multipliers_lower, vec![0.5, 0.25]);
    assert_eq!(full.status, SolveStatus::Acceptable);
    assert_eq!(full.iterations, 4);
    assert_eq!(full.diagnostics, "kept");
    assert_eq!(full.objective, 5.0);
}

/// Two constraints of one variable: `2 x + 10` and twice that. Nothing can be
/// evaluated where `broken` says so.
struct Shifted {
    broken: bool,
    rows: usize,
}

impl NlpProblem for Shifted {
    fn num_variables(&self) -> usize { 1 }
    fn num_constraints(&self) -> usize { self.rows }
    fn bounds(&self, x_l: &mut [f64], x_u: &mut [f64]) {
        x_l[0] = f64::NEG_INFINITY;
        x_u[0] = f64::INFINITY;
    }
    fn constraint_bounds(&self, g_l: &mut [f64], g_u: &mut [f64]) {
        for i in 0..self.rows {
            g_l[i] = 4.0;
            g_u[i] = 40.0;
        }
    }
    fn initial_point(&self, x0: &mut [f64]) { x0[0] = 3.0; }
    fn objective(&self, x: &[f64], _new_x: bool, obj: &mut f64) -> bool {
        *obj = x[0];
        true
    }
    fn gradient(&self, _x: &[f64], _new_x: bool, grad: &mut [f64]) -> bool {
        grad[0] = 1.0;
        true
    }
    fn constraints(&self, x: &[f64], _new_x: bool, g: &mut [f64]) -> bool {
        if self.broken {
            return false;
        }
        for i in 0..self.rows {
            g[i] = (1.0 + i as f64) * (2.0 * x[0] + 10.0);
        }
        true
    }
    fn jacobian_structure(&self) -> (Vec<usize>, Vec<usize>) {
        ((0..self.rows).collect(), vec![0; self.rows])
    }
    fn jacobian_values(&self, _x: &[f64], _new_x: bool, vals: &mut [f64]) -> bool {
        if self.broken {
            return false;
        }
        for i in 0..self.rows {
            vals[i] = (1.0 + i as f64) * 2.0;
        }
        true
    }
    fn hessian_structure(&self) -> (Vec<usize>, Vec<usize>) {
        (vec![], vec![])
    }
    fn hessian_values(&self, _x: &[f64], _new_x: bool, _f: f64, _l: &[f64], _v: &mut [f64]) -> bool {
        true
    }
}

#[test]
fn the_constant_of_a_row_counts_in_its_bounds() {
    // 4 <= 2 x + 10 <= 40 is -3 <= x <= 15.
    let prob = Shifted { broken: false, rows: 1 };
    let prep = PreprocessedProblem::new(&prob as &dyn NlpProblem, 1e-2);
    let (mut xl, mut xu) = (vec![0.0; 1], vec![0.0; 1]);
    prep.bounds(&mut xl, &mut xu);
    assert_eq!((xl[0], xu[0]), (-3.0, 15.0));
}

#[test]
fn failed_evaluations_leave_everything_as_it_is() {
    let prob = Shifted { broken: true, rows: 2 };
    let prep = PreprocessedProblem::new(&prob as &dyn NlpProblem, 1e-2);
    assert_eq!(prep.num_redundant(), 0);
    assert_eq!(prep.num_constraints(), 2);
    let (mut xl, mut xu) = (vec![0.0; 1], vec![0.0; 1]);
    prep.bounds(&mut xl, &mut xu);
    assert_eq!((xl[0], xu[0]), (f64::NEG_INFINITY, f64::INFINITY));
}

/// `2 x + 3 y` with `y` fixed at one, whose value cannot be evaluated.
struct Hidden;

impl NlpProblem for Hidden {
    fn num_variables(&self) -> usize { 2 }
    fn num_constraints(&self) -> usize { 1 }
    fn bounds(&self, x_l: &mut [f64], x_u: &mut [f64]) {
        x_l.copy_from_slice(&[f64::NEG_INFINITY, 1.0]);
        x_u.copy_from_slice(&[f64::INFINITY, 1.0]);
    }
    fn constraint_bounds(&self, g_l: &mut [f64], g_u: &mut [f64]) {
        g_l[0] = 5.0;
        g_u[0] = 13.0;
    }
    fn initial_point(&self, x0: &mut [f64]) { x0.copy_from_slice(&[0.0, 0.0]); }
    fn objective(&self, x: &[f64], _new_x: bool, obj: &mut f64) -> bool {
        *obj = x[0];
        true
    }
    fn gradient(&self, _x: &[f64], _new_x: bool, grad: &mut [f64]) -> bool {
        grad.copy_from_slice(&[1.0, 0.0]);
        true
    }
    fn constraints(&self, _x: &[f64], _new_x: bool, _g: &mut [f64]) -> bool { false }
    fn jacobian_structure(&self) -> (Vec<usize>, Vec<usize>) { (vec![0, 0], vec![0, 1]) }
    fn jacobian_values(&self, _x: &[f64], _new_x: bool, vals: &mut [f64]) -> bool {
        vals.copy_from_slice(&[2.0, 3.0]);
        true
    }
    fn hessian_structure(&self) -> (Vec<usize>, Vec<usize>) { (vec![], vec![]) }
    fn hessian_values(&self, _x: &[f64], _new_x: bool, _f: f64, _l: &[f64], _v: &mut [f64]) -> bool {
        true
    }
}

#[test]
fn without_values_the_fixed_variables_make_the_constant() {
    let prep = PreprocessedProblem::new(&Hidden as &dyn NlpProblem, 1e-2);
    let (mut xl, mut xu) = (vec![0.0; 1], vec![0.0; 1]);
    prep.bounds(&mut xl, &mut xu);
    assert_eq!((xl[0], xu[0]), (1.0, 5.0));
}

#[test]
fn what_cannot_be_evaluated_is_not_taken_for_linear() {
    let x0 = bits(&[3.0]);
    let sound = Shifted { broken: false, rows: 2 };
    let flags = ripopt::linearity::detect_linear_constraints(
        &Bits(&sound as &dyn NlpProblem),
        &x0,
        &unit(),
    );
    assert_eq!(flags, vec![true, true]);
    let broken = Shifted { broken: true, rows: 2 };
    let flags = ripopt::linearity::detect_linear_constraints(
        &Bits(&broken as &dyn NlpProblem),
        &x0,
        &unit(),
    );
    assert_eq!(flags, vec![false, false]);
}
