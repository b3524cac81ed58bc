//! Tapes.

use ripopt::float::{FloatOp, Fpu};
use ripopt::nl::autodiff::{CommonExprCache, ExternalResolver};
use ripopt::nl::expr::{BinaryOp, NaryOp, UnaryOp};
use ripopt::nl::sweeps::{ExternalArg, ExternalValue, Externals};
use std::collections::HashMap;

fn arithmetic(op: FloatOp, a: u64, b: u64) -> u64 {
    let (x, y) = (f64::from_bits(a), f64::from_bits(b));
    let r = match op {
        FloatOp::Add => x + y,
        FloatOp::Sub => x - y,
        FloatOp::Mul => x * y,
        FloatOp::Div => x / y,
        FloatOp::Rem => x % y,
        FloatOp::Pow => x.powf(y),
        FloatOp::Atan2 => x.atan2(y),
        FloatOp::Max => x.max(y),
        FloatOp::Min => x.min(y),
        FloatOp::Floor => x.floor(),
        FloatOp::Ceil => x.ceil(),
        FloatOp::Sqrt => x.sqrt(),
        FloatOp::Exp => x.exp(),
        FloatOp::Ln => x.ln(),
        FloatOp::Log10 => x.log10(),
        FloatOp::Sin => x.sin(),
        FloatOp::Cos => x.cos(),
        FloatOp::Tan => x.tan(),
        FloatOp::Asin => x.asin(),
        FloatOp::Acos => x.acos(),
        FloatOp::Atan => x.atan(),
        FloatOp::Sinh => x.sinh(),
        FloatOp::Cosh => x.cosh(),
        FloatOp::Tanh => x.tanh(),
        FloatOp::Asinh => x.asinh(),
        FloatOp::Acosh => x.acosh(),
        FloatOp::Atanh => x.atanh(),
        FloatOp::FromCount => a as f64,
    };
    r.to_bits()
}

type Unit = Fpu<fn(FloatOp, u64, u64) -> u64>;

fn unit() -> Unit {
    Fpu { f: arithmetic }
}

fn bits(v: &[f64]) -> Vec<u64> {
    v.iter().map(|x| x.to_bits()).collect()
}

fn numbers(v: &[u64]) -> Vec<f64> {
    v.iter().map(|b| f64::from_bits(*b)).collect()
}

/// An expression with constants in `f64`.
enum ExprNode {
    Const(f64),
    Var(usize),
    Binary(BinaryOp, Box<ExprNode>, Box<ExprNode>),
    Unary(UnaryOp, Box<ExprNode>),
    Nary(NaryOp, Vec<ExprNode>),
}

impl ExprNode {
    fn lib(&self) -> ripopt::nl::expr::ExprNode {
        match self {
            ExprNode::Const(c) => ripopt::nl::expr::ExprNode::Const(c.to_bits()),
            ExprNode::Var(i) => ripopt::nl::expr::ExprNode::Var(*i),
            ExprNode::Binary(op, l, r) => {
                ripopt::nl::expr::ExprNode::Binary(*op, Box::new(l.lib()), Box::new(r.lib()))
            }
            ExprNode::Unary(op, a) => ripopt::nl::expr::ExprNode::Unary(*op, Box::new(a.lib())),
            ExprNode::Nary(op, args) => {
                ripopt::nl::expr::ExprNode::Nary(*op, args.iter().map(|a| a.lib()).collect())
            }
        }
    }
}

fn no_call(
    _lib: usize,
    _name: &String,
    _args: &Vec<ExternalArg>,
    _first: bool,
    _second: bool,
) -> ExternalValue {
    panic!("no imported functions here")
}

type Calls = Externals<fn(usize, &String, &Vec<ExternalArg>, bool, bool) -> ExternalValue>;

fn externals() -> Calls {
    Externals { f: no_call }
}

/// A tape over `f64`.
struct Tape(ripopt::nl::autodiff::Tape);

impl Tape {
    fn build(expr: &ExprNode, common: &[ExprNode], n_vars: usize) -> Self {
        let exprs: Vec<ripopt::nl::expr::ExprNode> = common.iter().map(|e| e.lib()).collect();
        Tape(ripopt::nl::autodiff::Tape::build(&expr.lib(), &exprs, n_vars))
    }

    fn eval(&self, x: &[f64]) -> f64 {
        f64::from_bits(self.0.eval(&bits(x), &unit(), &externals()))
    }

    fn gradient(&self, x: &[f64], grad: &mut [f64]) {
        let mut g = bits(grad);
        self.0.gradient(&bits(x), &mut g, &unit(), &externals());
        grad.copy_from_slice(&numbers(&g));
    }

    fn variables(&self) -> Vec<usize> {
        self.0.variables()
    }

    fn hessian_accumulate(
        &self,
        x: &[f64],
        weight: f64,
        hess_map: &HashMap<(usize, usize), usize>,
        vals: &mut [f64],
    ) {
        let mut tables: Vec<HashMap<usize, usize>> = vec![HashMap::new(); x.len()];
        for (&(r, c), &p) in hess_map {
            tables[r].insert(c, p);
        }
        let mut v = bits(vals);
        self.0.hessian_accumulate(
            &bits(x),
            weight.to_bits(),
            &tables,
            &mut v,
            &unit(),
            &externals(),
        );
        vals.copy_from_slice(&numbers(&v));
    }

    fn hessian_sparsity(&self) -> Vec<(usize, usize)> {
        self.0.hessian_sparsity()
    }
}

#[test]
fn tape_build_and_eval_polynomial() {
    let expr = ExprNode::Binary(
        BinaryOp::Add,
        Box::new(ExprNode::Binary(
            BinaryOp::Mul,
            Box::new(ExprNode::Const(3.0)),
            Box::new(ExprNode::Binary(
                BinaryOp::Pow,
                Box::new(ExprNode::Var(0)),
                Box::new(ExprNode::Const(2.0)),
            )),
        )),
        Box::new(ExprNode::Binary(
            BinaryOp::Mul,
            Box::new(ExprNode::Const(2.0)),
            Box::new(ExprNode::Var(1)),
        )),
    );
    let tape = Tape::build(&expr, &[], 2);
    let val = tape.eval(&[2.0, 3.0]);
    assert!((val - 18.0).abs() < 1e-10);
}

#[test]
fn tape_gradient_polynomial() {
    let expr = ExprNode::Binary(
        BinaryOp::Add,
        Box::new(ExprNode::Binary(
            BinaryOp::Mul,
            Box::new(ExprNode::Const(3.0)),
            Box::new(ExprNode::Binary(
                BinaryOp::Pow,
                Box::new(ExprNode::Var(0)),
                Box::new(ExprNode::Const(2.0)),
            )),
        )),
        Box::new(ExprNode::Binary(
            BinaryOp::Mul,
            Box::new(ExprNode::Const(2.0)),
            Box::new(ExprNode::Var(1)),
        )),
    );
    let tape = Tape::build(&expr, &[], 2);
    let mut grad = vec![0.0; 2];
    tape.gradient(&[2.0, 3.0], &mut grad);
    assert!((grad[0] - 12.0).abs() < 1e-10);
    assert!((grad[1] - 2.0).abs() < 1e-10);
}

#[test]
fn tape_gradient_transcendental() {
    let expr = ExprNode::Binary(
        BinaryOp::Add,
        Box::new(ExprNode::Binary(
            BinaryOp::Add,
            Box::new(ExprNode::Unary(UnaryOp::Exp, Box::new(ExprNode::Var(0)))),
            Box::new(ExprNode::Unary(UnaryOp::Sin, Box::new(ExprNode::Var(1)))),
        )),
        Box::new(ExprNode::Binary(
            BinaryOp::Add,
            Box::new(ExprNode::Unary(UnaryOp::Log, Box::new(ExprNode::Var(0)))),
            Box::new(ExprNode::Unary(UnaryOp::Sqrt, Box::new(ExprNode::Var(1)))),
        )),
    );
    let tape = Tape::build(&expr, &[], 2);
    let x = [1.0, 1.0];
    let val = tape.eval(&x);
    let expected_val = 1.0_f64.exp() + 1.0_f64.sin() + 0.0 + 1.0;
    assert!((val - expected_val).abs() < 1e-10);

    let mut grad = vec![0.0; 2];
    tape.gradient(&x, &mut grad);
    let expected_g0 = 1.0_f64.exp() + 1.0;
    let expected_g1 = 1.0_f64.cos() + 0.5;
    assert!((grad[0] - expected_g0).abs() < 1e-10);
    assert!((grad[1] - expected_g1).abs() < 1e-10);
}

#[test]
fn tape_common_expr_inlining() {
    let common_exprs = vec![ExprNode::Binary(
        BinaryOp::Add,
        Box::new(ExprNode::Var(0)),
        Box::new(ExprNode::Var(1)),
    )];
    let expr = ExprNode::Binary(
        BinaryOp::Pow,
        Box::new(ExprNode::Var(2)),
        Box::new(ExprNode::Const(2.0)),
    );
    let tape = Tape::build(&expr, &common_exprs, 2);
    let val = tape.eval(&[3.0, 4.0]);
    assert!((val - 49.0).abs() < 1e-10);

    let mut grad = vec![0.0; 2];
    tape.gradient(&[3.0, 4.0], &mut grad);
    assert!((grad[0] - 14.0).abs() < 1e-10);
    assert!((grad[1] - 14.0).abs() < 1e-10);
}

#[test]
fn tape_nary_max_min() {
    let expr_max = ExprNode::Nary(
        NaryOp::Max,
        vec![ExprNode::Const(1.0), ExprNode::Var(0), ExprNode::Const(2.0)],
    );
    let tape_max = Tape::build(&expr_max, &[], 1);
    let val_max = tape_max.eval(&[3.0]);
    assert!((val_max - 3.0).abs() < 1e-10);

    let expr_min = ExprNode::Nary(
        NaryOp::Min,
        vec![ExprNode::Const(5.0), ExprNode::Var(0), ExprNode::Const(2.0)],
    );
    let tape_min = Tape::build(&expr_min, &[], 1);
    let val_min = tape_min.eval(&[3.0]);
    assert!((val_min - 2.0).abs() < 1e-10);
}

fn check_hessian_vs_fd(tape: &Tape, x: &[f64], tol: f64) {
    let vars = tape.variables();
    let n = x.len();

    let mut hess_map = HashMap::new();
    let mut idx = 0;
    for (ai, &vi) in vars.iter().enumerate() {
        for &vj in &vars[..=ai] {
            let (r, c) = if vi >= vj { (vi, vj) } else { (vj, vi) };
            hess_map.entry((r, c)).or_insert_with(|| { let i = idx; idx += 1; i });
        }
    }
    let nnz = idx;

    let mut vals_ad = vec![0.0; nnz];
    tape.hessian_accumulate(x, 1.0, &hess_map, &mut vals_ad);

    let mut vals_fd = vec![0.0; nnz];
    let mut x_pert = x.to_vec();
    let mut gp = vec![0.0; n];
    let mut gm = vec![0.0; n];
    for &j in &vars {
        let h = (1e-7_f64).max(x[j].abs() * 1e-7);
        x_pert[j] = x[j] + h;
        gp.iter_mut().for_each(|v| *v = 0.0);
        tape.gradient(&x_pert, &mut gp);
        x_pert[j] = x[j] - h;
        gm.iter_mut().for_each(|v| *v = 0.0);
        tape.gradient(&x_pert, &mut gm);
        x_pert[j] = x[j];
        for &i in &vars {
            if i >= j {
                if let Some(&pos) = hess_map.get(&(i, j)) {
                    vals_fd[pos] = (gp[i] - gm[i]) / (2.0 * h);
                }
            }
        }
    }

    for (&(r, c), &pos) in &hess_map {
        let ad = vals_ad[pos];
        let fd = vals_fd[pos];
        let err = (ad - fd).abs();
        let scale = fd.abs().max(1.0);
        assert!(
            err / scale < tol,
            "Hessian mismatch at ({},{}): AD={:.10e}, FD={:.10e}, err={:.2e}",
            r, c, ad, fd, err
        );
    }
}

#[test]
fn hessian_quadratic() {
    let expr = ExprNode::Nary(NaryOp::Sum, vec![
        ExprNode::Binary(BinaryOp::Mul, Box::new(ExprNode::Const(3.0)),
            Box::new(ExprNode::Binary(BinaryOp::Pow, Box::new(ExprNode::Var(0)), Box::new(ExprNode::Const(2.0))))),
        ExprNode::Binary(BinaryOp::Mul, Box::new(ExprNode::Const(2.0)),
            Box::new(ExprNode::Binary(BinaryOp::Mul, Box::new(ExprNode::Var(0)), Box::new(ExprNode::Var(1))))),
        ExprNode::Binary(BinaryOp::Pow, Box::new(ExprNode::Var(1)), Box::new(ExprNode::Const(2.0))),
    ]);
    let tape = Tape::build(&expr, &[], 2);
    check_hessian_vs_fd(&tape, &[2.0, 3.0], 1e-5);
}

#[test]
fn hessian_transcendental() {
    let expr = ExprNode::Nary(NaryOp::Sum, vec![
        ExprNode::Unary(UnaryOp::Exp, Box::new(ExprNode::Var(0))),
        ExprNode::Unary(UnaryOp::Sin, Box::new(ExprNode::Var(1))),
        ExprNode::Unary(UnaryOp::Log, Box::new(ExprNode::Var(0))),
        ExprNode::Unary(UnaryOp::Sqrt, Box::new(ExprNode::Var(1))),
        ExprNode::Binary(BinaryOp::Mul, Box::new(ExprNode::Var(0)), Box::new(ExprNode::Var(1))),
    ]);
    let tape = Tape::build(&expr, &[], 2);
    check_hessian_vs_fd(&tape, &[1.5, 2.0], 1e-5);
}

#[test]
fn hessian_division_and_trig() {
    let expr = ExprNode::Nary(NaryOp::Sum, vec![
        ExprNode::Binary(BinaryOp::Div, Box::new(ExprNode::Var(0)), Box::new(ExprNode::Var(1))),
        ExprNode::Unary(UnaryOp::Cos, Box::new(ExprNode::Var(0))),
        ExprNode::Unary(UnaryOp::Tan, Box::new(ExprNode::Var(1))),
        ExprNode::Unary(UnaryOp::Atan, Box::new(ExprNode::Var(0))),
    ]);
    let tape = Tape::build(&expr, &[], 2);
    check_hessian_vs_fd(&tape, &[0.5, 1.2], 1e-5);
}

#[test]
fn hessian_hyperbolic() {
    let expr = ExprNode::Nary(NaryOp::Sum, vec![
        ExprNode::Unary(UnaryOp::Sinh, Box::new(ExprNode::Var(0))),
        ExprNode::Unary(UnaryOp::Cosh, Box::new(ExprNode::Var(0))),
        ExprNode::Unary(UnaryOp::Tanh, Box::new(ExprNode::Var(0))),
        ExprNode::Unary(UnaryOp::Asinh, Box::new(ExprNode::Var(0))),
        ExprNode::Unary(UnaryOp::Acosh, Box::new(ExprNode::Binary(
            BinaryOp::Add, Box::new(ExprNode::Var(0)), Box::new(ExprNode::Const(2.0))))),
        ExprNode::Unary(UnaryOp::Atanh, Box::new(ExprNode::Binary(
            BinaryOp::Div, Box::new(ExprNode::Var(0)), Box::new(ExprNode::Const(2.0))))),
    ]);
    let tape = Tape::build(&expr, &[], 1);
    check_hessian_vs_fd(&tape, &[0.5], 1e-5);
}

#[test]
fn hessian_rosenbrock() {
    let expr = ExprNode::Nary(NaryOp::Sum, vec![
        ExprNode::Binary(BinaryOp::Pow,
            Box::new(ExprNode::Binary(BinaryOp::Sub,
                Box::new(ExprNode::Const(1.0)), Box::new(ExprNode::Var(0)))),
            Box::new(ExprNode::Const(2.0))),
        ExprNode::Binary(BinaryOp::Mul,
            Box::new(ExprNode::Const(100.0)),
            Box::new(ExprNode::Binary(BinaryOp::Pow,
                Box::new(ExprNode::Binary(BinaryOp::Sub,
                    Box::new(ExprNode::Var(1)),
                    Box::new(ExprNode::Binary(BinaryOp::Pow,
                        Box::new(ExprNode::Var(0)),
                        Box::new(ExprNode::Const(2.0)))))),
                Box::new(ExprNode::Const(2.0))))),
    ]);
    let tape = Tape::build(&expr, &[], 2);
    check_hessian_vs_fd(&tape, &[1.0, 1.0], 1e-5);
    check_hessian_vs_fd(&tape, &[-1.5, 2.3], 1e-5);
}

#[test]
fn hessian_sparsity_separable() {
    let expr = ExprNode::Nary(NaryOp::Sum, vec![
        ExprNode::Unary(UnaryOp::Sin, Box::new(ExprNode::Var(0))),
        ExprNode::Binary(BinaryOp::Mul,
            Box::new(ExprNode::Var(1)),
            Box::new(ExprNode::Var(2))),
    ]);
    let tape = Tape::build(&expr, &[], 3);
    let sparsity = tape.hessian_sparsity();
    assert!(sparsity.contains(&(0, 0)), "should have (0,0) from sin(x0)");
    assert!(sparsity.contains(&(2, 1)), "should have (2,1) from x1*x2");
    assert!(!sparsity.contains(&(1, 0)), "should NOT have (1,0) - separable");
    assert!(!sparsity.contains(&(2, 0)), "should NOT have (2,0) - separable");
}

#[test]
fn hessian_sparsity_matches_numerical() {
    let expr = ExprNode::Nary(NaryOp::Sum, vec![
        ExprNode::Unary(UnaryOp::Exp,
            Box::new(ExprNode::Binary(BinaryOp::Mul,
                Box::new(ExprNode::Var(0)),
                Box::new(ExprNode::Var(1))))),
        ExprNode::Binary(BinaryOp::Pow,
            Box::new(ExprNode::Var(2)),
            Box::new(ExprNode::Const(2.0))),
    ]);
    let tape = Tape::build(&expr, &[], 3);
    let sparsity = tape.hessian_sparsity();
    assert!(sparsity.contains(&(0, 0)));
    assert!(sparsity.contains(&(1, 0)));
    assert!(sparsity.contains(&(1, 1)));
    assert!(sparsity.contains(&(2, 2)));
    assert!(!sparsity.contains(&(2, 0)));
    assert!(!sparsity.contains(&(2, 1)));
    assert_eq!(sparsity.len(), 4);
}

#[test]
fn a_cached_tape_is_the_inlined_one() {
    let common: Vec<ripopt::nl::expr::ExprNode> = vec![
        ExprNode::Binary(BinaryOp::Add, Box::new(ExprNode::Var(0)), Box::new(ExprNode::Var(1)))
            .lib(),
        ExprNode::Binary(BinaryOp::Mul, Box::new(ExprNode::Var(2)), Box::new(ExprNode::Var(0)))
            .lib(),
    ];
    let expr =
        ExprNode::Binary(BinaryOp::Sub, Box::new(ExprNode::Var(3)), Box::new(ExprNode::Var(2)))
            .lib();
    let cache = CommonExprCache::build(&common, 2);
    let cached = ripopt::nl::autodiff::Tape::build_cached(&expr, &common, 2, &cache);
    let inlined = ripopt::nl::autodiff::Tape::build(&expr, &common, 2);
    assert_eq!(format!("{:?}", cached.ops), format!("{:?}", inlined.ops));
    let v = cached.eval(&bits(&[3.0, 4.0]), &unit(), &externals());
    assert_eq!(f64::from_bits(v), 7.0 * 3.0 - 7.0);
}

#[test]
fn the_gradient_of_an_absent_variable_is_zero() {
    let e = ExprNode::Unary(UnaryOp::Neg, Box::new(ExprNode::Var(2)));
    let tape = Tape::build(&e, &[], 3);
    let mut grad = vec![5.0; 3];
    tape.gradient(&[1.0, 2.0, 3.0], &mut grad);
    assert_eq!(grad, vec![0.0, 0.0, -1.0]);
    assert_eq!(tape.variables(), vec![2]);
}

#[test]
fn an_empty_sum_is_zero() {
    let tape = Tape::build(&ExprNode::Nary(NaryOp::Sum, vec![]), &[], 1);
    assert_eq!(tape.eval(&[1.0]), 0.0);
}

#[test]
fn a_quotient_couples_the_variables_of_its_divisor() {
    let e = ExprNode::Binary(
        BinaryOp::Div,
        Box::new(ExprNode::Var(0)),
        Box::new(ExprNode::Binary(
            BinaryOp::Add,
            Box::new(ExprNode::Var(1)),
            Box::new(ExprNode::Var(2)),
        )),
    );
    let pairs = Tape::build(&e, &[], 3).hessian_sparsity();
    assert_eq!(pairs, vec![(1, 0), (1, 1), (2, 0), (2, 1), (2, 2)]);
}

fn product_call(
    lib: usize,
    name: &String,
    args: &Vec<ExternalArg>,
    first: bool,
    second: bool,
) -> ExternalValue {
    assert_eq!(lib, 0);
    assert_eq!(name, "times");
    let r: Vec<f64> = args
        .iter()
        .map(|a| match a {
            ExternalArg::Real(b) => f64::from_bits(*b),
            ExternalArg::Str(_) => unreachable!(),
        })
        .collect();
    ExternalValue {
        value: (r[0] * r[1]).to_bits(),
        derivs: if first { bits(&[r[1], r[0]]) } else { Vec::new() },
        hessian: if second { bits(&[0.0, 1.0, 0.0]) } else { Vec::new() },
    }
}

#[test]
fn an_imported_function_brings_its_derivatives() {
    let expr = ripopt::nl::expr::ExprNode::Funcall {
        id: 4,
        args: vec![ripopt::nl::expr::ExprNode::Var(0), ripopt::nl::expr::ExprNode::Var(1)],
    };
    let mut funcs: HashMap<usize, (usize, String)> = HashMap::new();
    funcs.insert(4, (0, "times".to_string()));
    let resolver = ExternalResolver { funcs_by_id: funcs };
    let tape = ripopt::nl::autodiff::Tape::build_with_externals(&expr, &[], 2, &resolver);
    let ext: Calls = Externals { f: product_call };
    let x = bits(&[3.0, 5.0]);
    assert_eq!(f64::from_bits(tape.eval(&x, &unit(), &ext)), 15.0);
    let mut grad = bits(&[0.0, 0.0]);
    tape.gradient(&x, &mut grad, &unit(), &ext);
    assert_eq!(numbers(&grad), vec![5.0, 3.0]);
    assert_eq!(tape.hessian_sparsity(), vec![(0, 0), (1, 0), (1, 1)]);
    let mut tables: Vec<HashMap<usize, usize>> = vec![HashMap::new(); 2];
    tables[0].insert(0, 0);
    tables[1].insert(0, 1);
    tables[1].insert(1, 2);
    let mut vals = bits(&[0.0, 0.0, 0.0]);
    tape.hessian_accumulate(&x, 1.0f64.to_bits(), &tables, &mut vals, &unit(), &ext);
    assert_eq!(numbers(&vals), vec![0.0, 1.0, 0.0]);
}

#[test]
fn a_small_step_moves_value_and_gradient_by_the_derivatives() {
    // x * x * y - (-y), on numbers for which the arithmetic is exact.
    let x = || Box::new(ExprNode::Var(0));
    let y = || Box::new(ExprNode::Var(1));
    let square = Box::new(ExprNode::Binary(BinaryOp::Mul, x(), x()));
    let e = ExprNode::Binary(
        BinaryOp::Sub,
        Box::new(ExprNode::Binary(BinaryOp::Mul, square, y())),
        Box::new(ExprNode::Unary(UnaryOp::Neg, y())),
    );
    let tape = Tape::build(&e, &[], 2);
    let (at, t) = ([3.0, 5.0], 0.125);
    let moved = [3.0 + t, 5.0];
    let (mut grad, mut grad_moved) = (vec![0.0; 2], vec![0.0; 2]);
    tape.gradient(&at, &mut grad);
    tape.gradient(&moved, &mut grad_moved);
    assert_eq!(grad, vec![30.0, 10.0]);
    // f(x + t) - f(x) = t * 2xy + t^2 * y.
    assert_eq!(tape.eval(&moved) - tape.eval(&at), t * grad[0] + t * t * 5.0);
    let map: HashMap<(usize, usize), usize> = vec![((0, 0), 0), ((1, 0), 1)].into_iter().collect();
    let mut hess = vec![0.0; 2];
    tape.hessian_accumulate(&at, 4.0, &map, &mut hess);
    assert_eq!(hess, vec![40.0, 24.0]);
    assert_eq!(4.0 * (grad_moved[0] - grad[0]), t * hess[0]);
    assert_eq!(4.0 * (grad_moved[1] - grad[1]), t * hess[1] + 4.0 * t * t);
}

#[test]
fn a_power_has_its_derivatives_at_a_base_of_zero() {
    let power = |e: f64| {
        Box::new(ExprNode::Binary(
            BinaryOp::Pow,
            Box::new(ExprNode::Var(0)),
            Box::new(ExprNode::Const(e)),
        ))
    };
    let map: HashMap<(usize, usize), usize> = vec![((0, 0), 0), ((1, 0), 1)].into_iter().collect();
    // x^e * y at x = 0, y = 3: the second derivatives by x x, and by x y.
    for (e, xx, xy) in [(1.0, 0.0, 1.0), (1.5, 0.0, 0.0), (2.0, 6.0, 0.0), (3.0, 0.0, 0.0)] {
        let f = ExprNode::Binary(BinaryOp::Mul, power(e), Box::new(ExprNode::Var(1)));
        let tape = Tape::build(&f, &[], 2);
        let mut hess = vec![0.0; 2];
        tape.hessian_accumulate(&[0.0, 3.0], 1.0, &map, &mut hess);
        assert_eq!(hess, vec![xx, xy], "exponent {}", e);
    }
    let mixed: HashMap<(usize, usize), usize> = vec![((1, 0), 0)].into_iter().collect();
    let f = ExprNode::Binary(BinaryOp::Mul, power(1.0), Box::new(ExprNode::Var(1)));
    let mut vals = vec![0.0];
    Tape::build(&f, &[], 2).hessian_accumulate(&[0.0, 3.0], 1.0, &mixed, &mut vals);
    assert_eq!(vals, vec![1.0]);
}

#[test]
fn the_reverse_sweep_adds_to_what_was_there() {
    let f = ExprNode::Binary(
        BinaryOp::Div,
        Box::new(ExprNode::Var(0)),
        Box::new(ExprNode::Unary(UnaryOp::Exp, Box::new(ExprNode::Var(1)))),
    );
    let tape = Tape::build(&f, &[], 3);
    let vals = tape.0.forward(&bits(&[3.0, 0.0, 7.0]), &unit(), &externals());
    let (mut from_zero, mut from_some) = (bits(&[0.0; 3]), bits(&[8.0, -2.0, 5.0]));
    tape.0.reverse(&vals, &mut from_zero, &unit(), &externals());
    tape.0.reverse(&vals, &mut from_some, &unit(), &externals());
    assert_eq!(numbers(&from_zero), vec![1.0, -3.0, 0.0]);
    assert_eq!(numbers(&from_some), vec![9.0, -5.0, 5.0]);
    // A gradient that is too short for a variable.
    let mut short = bits(&[1.0]);
    tape.0.reverse(&vals, &mut short, &unit(), &externals());
    assert_eq!(numbers(&short), vec![2.0]);
}

fn check_gradient_vs_fd(tape: &Tape, x: &[f64], tol: f64, what: &str) {
    let mut grad = vec![0.0; x.len()];
    tape.gradient(x, &mut grad);
    let mut at = x.to_vec();
    for j in 0..x.len() {
        let h = 1e-6;
        at[j] = x[j] + h;
        let above = tape.eval(&at);
        at[j] = x[j] - h;
        let below = tape.eval(&at);
        at[j] = x[j];
        let fd = (above - below) / (2.0 * h);
        let scale = fd.abs().max(1.0);
        assert!((grad[j] - fd).abs() / scale < tol, "{}: {} {} {}", what, j, grad[j], fd);
    }
}

#[test]
fn every_operator_has_its_derivatives() {
    let product = || {
        Box::new(ExprNode::Binary(
            BinaryOp::Mul,
            Box::new(ExprNode::Var(0)),
            Box::new(ExprNode::Var(1)),
        ))
    };
    let sum = || {
        Box::new(ExprNode::Binary(
            BinaryOp::Add,
            Box::new(ExprNode::Var(0)),
            Box::new(ExprNode::Var(2)),
        ))
    };
    for op in [
        UnaryOp::Abs,
        UnaryOp::Neg,
        UnaryOp::Floor,
        UnaryOp::Ceil,
        UnaryOp::Tanh,
        UnaryOp::Tan,
        UnaryOp::Sqrt,
        UnaryOp::Sinh,
        UnaryOp::Sin,
        UnaryOp::Log10,
        UnaryOp::Log,
        UnaryOp::Exp,
        UnaryOp::Cosh,
        UnaryOp::Cos,
        UnaryOp::Atanh,
        UnaryOp::Atan,
        UnaryOp::Asinh,
        UnaryOp::Asin,
        UnaryOp::Acos,
    ] {
        let tape = Tape::build(&ExprNode::Unary(op, product()), &[], 3);
        check_gradient_vs_fd(&tape, &[0.8, 0.6, 0.0], 1e-6, &format!("{:?}", op));
        check_hessian_vs_fd(&tape, &[0.8, 0.6, 0.0], 1e-5);
    }
    for op in [
        UnaryOp::Abs,
        UnaryOp::Tanh,
        UnaryOp::Sinh,
        UnaryOp::Atan,
        UnaryOp::Asinh,
        UnaryOp::Asin,
        UnaryOp::Acos,
        UnaryOp::Atanh,
    ] {
        let tape = Tape::build(&ExprNode::Unary(op, product()), &[], 3);
        check_gradient_vs_fd(&tape, &[-0.8, 0.6, 0.0], 1e-6, &format!("{:?}", op));
        check_hessian_vs_fd(&tape, &[-0.8, 0.6, 0.0], 1e-5);
    }
    let tape = Tape::build(&ExprNode::Unary(UnaryOp::Acosh, product()), &[], 3);
    check_gradient_vs_fd(&tape, &[1.5, 1.2, 0.0], 1e-6, "acosh");
    check_hessian_vs_fd(&tape, &[1.5, 1.2, 0.0], 1e-5);
    for op in [
        BinaryOp::Add,
        BinaryOp::Sub,
        BinaryOp::Mul,
        BinaryOp::Div,
        BinaryOp::Pow,
        BinaryOp::Atan2,
        BinaryOp::Less,
    ] {
        for point in [[1.3, 0.7, 0.4], [0.9, 2.1, -0.2]] {
            let tape = Tape::build(&ExprNode::Binary(op, product(), sum()), &[], 3);
            check_gradient_vs_fd(&tape, &point, 1e-6, &format!("{:?}", op));
            check_hessian_vs_fd(&tape, &point, 1e-5);
        }
    }
    for e in [2.0, 3.0, -1.0, -2.0] {
        let power = ExprNode::Binary(BinaryOp::Pow, product(), Box::new(ExprNode::Const(e)));
        let tape = Tape::build(&power, &[], 3);
        check_gradient_vs_fd(&tape, &[-1.3, 0.9, 0.0], 1e-6, "power of a negative number");
        check_hessian_vs_fd(&tape, &[-1.3, 0.9, 0.0], 1e-5);
    }
    for op in [NaryOp::Min, NaryOp::Max] {
        let tape = Tape::build(&ExprNode::Nary(op, vec![*product(), *sum()]), &[], 3);
        check_gradient_vs_fd(&tape, &[1.3, 0.7, 0.4], 1e-6, &format!("{:?}", op));
        check_hessian_vs_fd(&tape, &[1.3, 0.7, 0.4], 1e-5);
    }
}

#[test]
fn the_reverse_sweep_leaves_absent_variables() {
    let e = ExprNode::Unary(UnaryOp::Neg, Box::new(ExprNode::Var(2)));
    let tape = Tape::build(&e, &[], 3);
    let vals = tape.0.forward(&bits(&[1.0, 2.0, 3.0]), &unit(), &externals());
    let mut grad = bits(&[5.0, -7.0, 4.0]);
    tape.0.reverse(&vals, &mut grad, &unit(), &externals());
    assert_eq!(numbers(&grad), vec![5.0, -7.0, 3.0]);
}
