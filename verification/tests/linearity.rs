//! Detection of linear constraints.

use ripopt::float::{FloatOp, Fpu};
use ripopt::problem::NlpProblem as Program;

fn arithmetic(op: FloatOp, a: u64, b: u64) -> u64 {
    let (x, y) = (f64::from_bits(a), f64::from_bits(b));
    let r = match op {
        FloatOp::Add => x + y,
        FloatOp::Sub => x - y,
        FloatOp::Mul => x * y,
        FloatOp::Div => x / y,
        FloatOp::Rem => x % y,
        FloatOp::Pow => x.powf(y),
        FloatOp::Atan2 => x.atan2(y),
        FloatOp::Max => x.max(y),
        FloatOp::Min => x.min(y),
        FloatOp::Floor => x.floor(),
        FloatOp::Ceil => x.ceil(),
        FloatOp::Sqrt => x.sqrt(),
        FloatOp::Exp => x.exp(),
        FloatOp::Ln => x.ln(),
        FloatOp::Log10 => x.log10(),
        FloatOp::Sin => x.sin(),
        FloatOp::Cos => x.cos(),
        FloatOp::Tan => x.tan(),
        FloatOp::Asin => x.asin(),
        FloatOp::Acos => x.acos(),
        FloatOp::Atan => x.atan(),
        FloatOp::Sinh => x.sinh(),
        FloatOp::Cosh => x.cosh(),
        FloatOp::Tanh => x.tanh(),
        FloatOp::Asinh => x.asinh(),
        FloatOp::Acosh => x.acosh(),
        FloatOp::Atanh => x.atanh(),
        FloatOp::FromCount => a as f64,
    };
    r.to_bits()
}

type Unit = Fpu<fn(FloatOp, u64, u64) -> u64>;

fn unit() -> Unit {
    Fpu { f: arithmetic }
}

fn bits(v: &[f64]) -> Vec<u64> {
    v.iter().map(|x| x.to_bits()).collect()
}

fn numbers(v: &[u64]) -> Vec<f64> {
    v.iter().map(|b| f64::from_bits(*b)).collect()
}

/// A problem in `f64` whose functions can be evaluated everywhere.
trait NlpProblem {
    fn num_variables(&self) -> usize;
    fn num_constraints(&self) -> usize;
    fn bounds(&self, x_l: &mut [f64], x_u: &mut [f64]);
    fn constraint_bounds(&self, g_l: &mut [f64], g_u: &mut [f64]);
    fn initial_point(&self, x0: &mut [f64]);
    fn objective(&self, x: &[f64], new_x: bool) -> f64;
    fn gradient(&self, x: &[f64], new_x: bool, grad: &mut [f64]);
    fn constraints(&self, x: &[f64], new_x: bool, g: &mut [f64]);
    fn jacobian_structure(&self) -> (Vec<usize>, Vec<usize>);
    fn jacobian_values(&self, x: &[f64], new_x: bool, vals: &mut [f64]);
    fn hessian_structure(&self) -> (Vec<usize>, Vec<usize>);
    fn hessian_values(
        &self,
        x: &[f64],
        new_x: bool,
        obj_factor: f64,
        lambda: &[f64],
        vals: &mut [f64],
    );
}

/// A problem in `f64` as one in bits.
struct Bits<'p, T: ?Sized>(&'p T);

fn filled<R>(out: &mut Vec<u64>, f: impl FnOnce(&mut [f64]) -> R) -> R {
    let mut v = numbers(out);
    let r = f(&mut v);
    *out = bits(&v);
    r
}

impl<T: NlpProblem + ?Sized> Program for Bits<'_, T> {
    fn num_variables(&self) -> usize {
        self.0.num_variables()
    }

    fn num_constraints(&self) -> usize {
        self.0.num_constraints()
    }

    fn bounds(&self, x_l: &mut Vec<u64>, x_u: &mut Vec<u64>) {
        filled(x_l, |l| filled(x_u, |u| self.0.bounds(l, u)));
    }

    fn constraint_bounds(&self, g_l: &mut Vec<u64>, g_u: &mut Vec<u64>) {
        filled(g_l, |l| filled(g_u, |u| self.0.constraint_bounds(l, u)));
    }

    fn initial_point(&self, x0: &mut Vec<u64>) {
        filled(x0, |x| self.0.initial_point(x));
    }

    fn objective(&self, x: &[u64], new_x: bool, obj: &mut u64) -> bool {
        *obj = self.0.objective(&numbers(x), new_x).to_bits();
        true
    }

    fn gradient(&self, x: &[u64], new_x: bool, grad: &mut Vec<u64>) -> bool {
        filled(grad, |g| self.0.gradient(&numbers(x), new_x, g));
        true
    }

    fn constraints(&self, x: &[u64], new_x: bool, g: &mut Vec<u64>) -> bool {
        filled(g, |g| self.0.constraints(&numbers(x), new_x, g));
        true
    }

    fn jacobian_structure(&self) -> (Vec<usize>, Vec<usize>) {
        self.0.jacobian_structure()
    }

    fn jacobian_values(&self, x: &[u64], new_x: bool, vals: &mut Vec<u64>) -> bool {
        filled(vals, |v| self.0.jacobian_values(&numbers(x), new_x, v));
        true
    }

    fn hessian_structure(&self) -> (Vec<usize>, Vec<usize>) {
        self.0.hessian_structure()
    }

    fn hessian_values(
        &self,
        x: &[u64],
        new_x: bool,
        obj_factor: u64,
        lambda: &[u64],
        vals: &mut Vec<u64>,
    ) -> bool {
        filled(vals, |v| {
            self.0.hessian_values(
                &numbers(x),
                new_x,
                f64::from_bits(obj_factor),
                &numbers(lambda),
                v,
            )
        });
        true
    }
}

fn detect_linear_constraints<T: NlpProblem>(prob: &T, x0: &[f64]) -> Vec<bool> {
    ripopt::linearity::detect_linear_constraints(&Bits(prob), &bits(x0), &unit())
}

struct MixedProblem;

impl NlpProblem for MixedProblem {
    fn num_variables(&self) -> usize {
        2
    }
    fn num_constraints(&self) -> usize {
        2
    }
    fn bounds(&self, x_l: &mut [f64], x_u: &mut [f64]) {
        x_l[0] = f64::NEG_INFINITY;
        x_u[0] = f64::INFINITY;
        x_l[1] = f64::NEG_INFINITY;
        x_u[1] = f64::INFINITY;
    }
    fn constraint_bounds(&self, g_l: &mut [f64], g_u: &mut [f64]) {
        g_l[0] = 2.0;
        g_u[0] = 2.0;
        g_l[1] = 2.0;
        g_u[1] = 2.0;
    }
    fn initial_point(&self, x0: &mut [f64]) {
        x0[0] = 1.0;
        x0[1] = 1.0;
    }
    fn objective(&self, x: &[f64], _new_x: bool) -> f64 {
        x[0] + x[1]
    }
    fn gradient(&self, _x: &[f64], _new_x: bool, grad: &mut [f64]) {
        grad[0] = 1.0;
        grad[1] = 1.0;
    }
    fn constraints(&self, x: &[f64], _new_x: bool, g: &mut [f64]) {
        g[0] = x[0] + x[1];
        g[1] = x[0] * x[0] + x[1] * x[1];
    }
    fn jacobian_structure(&self) -> (Vec<usize>, Vec<usize>) {
        (vec![0, 0, 1, 1], vec![0, 1, 0, 1])
    }
    fn jacobian_values(&self, x: &[f64], _new_x: bool, vals: &mut [f64]) {
        vals[0] = 1.0;
        vals[1] = 1.0;
        vals[2] = 2.0 * x[0];
        vals[3] = 2.0 * x[1];
    }
    fn hessian_structure(&self) -> (Vec<usize>, Vec<usize>) {
        (vec![0, 1], vec![0, 1])
    }
    fn hessian_values(&self, _x: &[f64], _new_x: bool, _obj_factor: f64, lambda: &[f64], vals: &mut [f64]) {
        vals[0] = 2.0 * lambda[1];
        vals[1] = 2.0 * lambda[1];
    }
}

#[test]
fn test_mixed_linear_detection() {
    let prob = MixedProblem;
    let x0 = vec![1.0, 1.0];
    let flags = detect_linear_constraints(&prob, &x0);
    assert_eq!(flags.len(), 2);
    assert!(flags[0]);
    assert!(!flags[1]);
}

struct AllLinear;

impl NlpProblem for AllLinear {
    fn num_variables(&self) -> usize {
        2
    }
    fn num_constraints(&self) -> usize {
        1
    }
    fn bounds(&self, x_l: &mut [f64], x_u: &mut [f64]) {
        x_l[0] = 0.0;
        x_u[0] = 10.0;
        x_l[1] = 0.0;
        x_u[1] = 10.0;
    }
    fn constraint_bounds(&self, g_l: &mut [f64], g_u: &mut [f64]) {
        g_l[0] = 1.0;
        g_u[0] = f64::INFINITY;
    }
    fn initial_point(&self, x0: &mut [f64]) {
        x0[0] = 1.0;
        x0[1] = 1.0;
    }
    fn objective(&self, x: &[f64], _new_x: bool) -> f64 {
        x[0] + x[1]
    }
    fn gradient(&self, _x: &[f64], _new_x: bool, grad: &mut [f64]) {
        grad[0] = 1.0;
        grad[1] = 1.0;
    }
    fn constraints(&self, x: &[f64], _new_x: bool, g: &mut [f64]) {
        g[0] = 2.0 * x[0] + 3.0 * x[1];
    }
    fn jacobian_structure(&self) -> (Vec<usize>, Vec<usize>) {
        (vec![0, 0], vec![0, 1])
    }
    fn jacobian_values(&self, _x: &[f64], _new_x: bool, vals: &mut [f64]) {
        vals[0] = 2.0;
        vals[1] = 3.0;
    }
    fn hessian_structure(&self) -> (Vec<usize>, Vec<usize>) {
        (vec![], vec![])
    }
    fn hessian_values(
        &self,
        _x: &[f64],
        _new_x: bool,
            _obj_factor: f64,
        _lambda: &[f64],
        _vals: &mut [f64],
    ) {
    }
}

#[test]
fn test_all_linear() {
    let prob = AllLinear;
    let x0 = vec![1.0, 1.0];
    let flags = detect_linear_constraints(&prob, &x0);
    assert_eq!(flags.len(), 1);
    assert!(flags[0]);
}

#[test]
fn test_no_constraints() {
    struct NoConstraints;
    impl NlpProblem for NoConstraints {
        fn num_variables(&self) -> usize {
            2
        }
        fn num_constraints(&self) -> usize {
            0
        }
        fn bounds(&self, x_l: &mut [f64], x_u: &mut [f64]) {
            x_l[0] = f64::NEG_INFINITY;
            x_u[0] = f64::INFINITY;
            x_l[1] = f64::NEG_INFINITY;
            x_u[1] = f64::INFINITY;
        }
        fn constraint_bounds(&self, _g_l: &mut [f64], _g_u: &mut [f64]) {}
        fn initial_point(&self, x0: &mut [f64]) {
            x0[0] = 1.0;
            x0[1] = 1.0;
        }
        fn objective(&self, x: &[f64], _new_x: bool) -> f64 {
            x[0] * x[0]
        }
        fn gradient(&self, x: &[f64], _new_x: bool, grad: &mut [f64]) {
            grad[0] = 2.0 * x[0];
            grad[1] = 0.0;
        }
        fn constraints(&self, _x: &[f64], _new_x: bool, _g: &mut [f64]) {}
        fn jacobian_structure(&self) -> (Vec<usize>, Vec<usize>) {
            (vec![], vec![])
        }
        fn jacobian_values(&self, _x: &[f64], _new_x: bool, _vals: &mut [f64]) {}
        fn hessian_structure(&self) -> (Vec<usize>, Vec<usize>) {
            (vec![0], vec![0])
        }
        fn hessian_values(
            &self,
            _x: &[f64],
            _new_x: bool,
            obj_factor: f64,
            _lambda: &[f64],
            vals: &mut [f64],
        ) {
            vals[0] = 2.0 * obj_factor;
        }
    }

    let prob = NoConstraints;
    let x0 = vec![1.0, 1.0];
    let flags = detect_linear_constraints(&prob, &x0);
    assert!(flags.is_empty());
}

struct BoundedVarProblem;

impl NlpProblem for BoundedVarProblem {
    fn num_variables(&self) -> usize { 1 }
    fn num_constraints(&self) -> usize { 1 }
    fn bounds(&self, x_l: &mut [f64], x_u: &mut [f64]) {
        x_l[0] = 1.0;
        x_u[0] = 1.0 + 1e-6;
    }
    fn constraint_bounds(&self, g_l: &mut [f64], g_u: &mut [f64]) {
        g_l[0] = 0.0;
        g_u[0] = 10.0;
    }
    fn initial_point(&self, x0: &mut [f64]) { x0[0] = 1.0; }
    fn objective(&self, x: &[f64], _new_x: bool) -> f64 { x[0] }
    fn gradient(&self, _x: &[f64], _new_x: bool, grad: &mut [f64]) { grad[0] = 1.0; }
    fn constraints(&self, x: &[f64], _new_x: bool, g: &mut [f64]) {
        g[0] = x[0] * x[0];
    }
    fn jacobian_structure(&self) -> (Vec<usize>, Vec<usize>) {
        (vec![0], vec![0])
    }
    fn jacobian_values(&self, x: &[f64], _new_x: bool, vals: &mut [f64]) {
        vals[0] = 2.0 * x[0];
    }
    fn hessian_structure(&self) -> (Vec<usize>, Vec<usize>) {
        (vec![0], vec![0])
    }
    fn hessian_values(&self, _x: &[f64], _new_x: bool, _obj_factor: f64, lambda: &[f64], vals: &mut [f64]) {
        vals[0] = 2.0 * lambda[0];
    }
}

#[test]
fn test_bounded_var_prevents_detection() {
    let prob = BoundedVarProblem;
    let x0 = vec![1.0];
    let flags = detect_linear_constraints(&prob, &x0);
    assert_eq!(flags.len(), 1);
    assert!(!flags[0], "expected false (conservative) due to tight bounds");
}

struct ZeroJacEntryProblem;

impl NlpProblem for ZeroJacEntryProblem {
    fn num_variables(&self) -> usize { 2 }
    fn num_constraints(&self) -> usize { 1 }
    fn bounds(&self, x_l: &mut [f64], x_u: &mut [f64]) {
        x_l[0] = 0.0;
        x_u[0] = 10.0;
        x_l[1] = 1.0;
        x_u[1] = 1.0 + 1e-6;
    }
    fn constraint_bounds(&self, g_l: &mut [f64], g_u: &mut [f64]) {
        g_l[0] = 0.0;
        g_u[0] = 10.0;
    }
    fn initial_point(&self, x0: &mut [f64]) {
        x0[0] = 1.0;
        x0[1] = 1.0;
    }
    fn objective(&self, x: &[f64], _new_x: bool) -> f64 { x[0] + x[1] }
    fn gradient(&self, _x: &[f64], _new_x: bool, grad: &mut [f64]) {
        grad[0] = 1.0;
        grad[1] = 1.0;
    }
    fn constraints(&self, x: &[f64], _new_x: bool, g: &mut [f64]) {
        g[0] = 2.0 * x[0];
    }
    fn jacobian_structure(&self) -> (Vec<usize>, Vec<usize>) {
        (vec![0, 0], vec![0, 1])
    }
    fn jacobian_values(&self, _x: &[f64], _new_x: bool, vals: &mut [f64]) {
        vals[0] = 2.0;
        vals[1] = 0.0;
    }
    fn hessian_structure(&self) -> (Vec<usize>, Vec<usize>) {
        (vec![], vec![])
    }
    fn hessian_values(&self, _x: &[f64], _new_x: bool, _obj_factor: f64, _lambda: &[f64], _vals: &mut [f64]) {}
}

#[test]
fn test_zero_jac_entry_not_blocking() {
    let prob = ZeroJacEntryProblem;
    let x0 = vec![1.0, 1.0];
    let flags = detect_linear_constraints(&prob, &x0);
    assert_eq!(flags.len(), 1);
    assert!(flags[0], "expected true: zero jac entry should not block detection");
}
