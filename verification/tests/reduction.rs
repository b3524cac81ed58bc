//! Reductions and second attempts.

use ripopt::float::{FloatOp, Fpu};
use ripopt::options::SolverOptions;
use ripopt::problem::NlpProblem;
use ripopt::reduction_frame::dense::solve_dense_square_system;
use ripopt::reduction_frame::{ReductionFrame, ReductionStack, RemovedMultiplierRecovery};
use ripopt::result::{SolveResult, SolveStatus};
use ripopt::retry::{solve, wants_retry, PenaltyFlags};

fn arithmetic(op: FloatOp, a: u64, b: u64) -> u64 {
    let (x, y) = (f64::from_bits(a), f64::from_bits(b));
    let r = match op {
        FloatOp::Add => x + y,
        FloatOp::Sub => x - y,
        FloatOp::Mul => x * y,
        FloatOp::Div => x / y,
        FloatOp::Rem => x % y,
        FloatOp::Pow => x.powf(y),
        FloatOp::Atan2 => x.atan2(y),
        FloatOp::Max => x.max(y),
        FloatOp::Min => x.min(y),
        FloatOp::Floor => x.floor(),
        FloatOp::Ceil => x.ceil(),
        FloatOp::Sqrt => x.sqrt(),
        FloatOp::Exp => x.exp(),
        FloatOp::Ln => x.ln(),
        FloatOp::Log10 => x.log10(),
        FloatOp::Sin => x.sin(),
        FloatOp::Cos => x.cos(),
        FloatOp::Tan => x.tan(),
        FloatOp::Asin => x.asin(),
        FloatOp::Acos => x.acos(),
        FloatOp::Atan => x.atan(),
        FloatOp::Sinh => x.sinh(),
        FloatOp::Cosh => x.cosh(),
        FloatOp::Tanh => x.tanh(),
        FloatOp::Asinh => x.asinh(),
        FloatOp::Acosh => x.acosh(),
        FloatOp::Atanh => x.atanh(),
        FloatOp::FromCount => a as f64,
    };
    r.to_bits()
}

type Unit = Fpu<fn(FloatOp, u64, u64) -> u64>;

fn unit() -> Unit {
    Fpu { f: arithmetic }
}

fn bits(v: &[f64]) -> Vec<u64> {
    v.iter().map(|x| x.to_bits()).collect()
}

fn numbers(v: &[u64]) -> Vec<f64> {
    v.iter().map(|b| f64::from_bits(*b)).collect()
}

/// `x^2 + y^2 + z^2` with `x + y = 2` and `3 z = 6`.
struct Squares;

impl NlpProblem for Squares {
    fn num_variables(&self) -> usize {
        3
    }

    fn num_constraints(&self) -> usize {
        2
    }

    fn bounds(&self, x_l: &mut Vec<u64>, x_u: &mut Vec<u64>) {
        *x_l = bits(&[f64::NEG_INFINITY; 3]);
        *x_u = bits(&[f64::INFINITY; 3]);
    }

    fn constraint_bounds(&self, g_l: &mut Vec<u64>, g_u: &mut Vec<u64>) {
        *g_l = bits(&[2.0, 6.0]);
        *g_u = bits(&[2.0, 6.0]);
    }

    fn initial_point(&self, x0: &mut Vec<u64>) {
        *x0 = bits(&[0.0; 3]);
    }

    fn objective(&self, x: &[u64], _new_x: bool, obj: &mut u64) -> bool {
        *obj = numbers(x).iter().map(|v| v * v).sum::<f64>().to_bits();
        true
    }

    fn gradient(&self, x: &[u64], _new_x: bool, grad: &mut Vec<u64>) -> bool {
        *grad = bits(&numbers(x).iter().map(|v| 2.0 * v).collect::<Vec<f64>>());
        true
    }

    fn constraints(&self, x: &[u64], _new_x: bool, g: &mut Vec<u64>) -> bool {
        let x = numbers(x);
        *g = bits(&[x[0] + x[1], 3.0 * x[2]]);
        true
    }

    fn jacobian_structure(&self) -> (Vec<usize>, Vec<usize>) {
        (vec![0, 0, 1], vec![0, 1, 2])
    }

    fn jacobian_values(&self, _x: &[u64], _new_x: bool, vals: &mut Vec<u64>) -> bool {
        *vals = bits(&[1.0, 1.0, 3.0]);
        true
    }

    fn hessian_structure(&self) -> (Vec<usize>, Vec<usize>) {
        (vec![0, 1, 2], vec![0, 1, 2])
    }

    fn hessian_values(
        &self,
        _x: &[u64],
        _new_x: bool,
        obj_factor: u64,
        _lambda: &[u64],
        vals: &mut Vec<u64>,
    ) -> bool {
        *vals = bits(&[2.0 * f64::from_bits(obj_factor); 3]);
        true
    }
}

fn frame(recovery: RemovedMultiplierRecovery) -> ReductionFrame {
    ReductionFrame::new(3, 2, vec![0, 1], vec![0], bits(&[f64::NAN, f64::NAN, 2.0]), recovery)
}

fn reduced(status: SolveStatus, iterations: usize) -> SolveResult<String> {
    SolveResult {
        x: bits(&[1.0, 1.0]),
        objective: 2.0f64.to_bits(),
        constraint_multipliers: bits(&[-2.0]),
        bound_multipliers_lower: bits(&[0.25, 0.0]),
        bound_multipliers_upper: bits(&[0.0, 0.5]),
        constraint_values: bits(&[2.0]),
        status,
        iterations,
        diagnostics: "kept".to_string(),
    }
}

#[test]
fn what_is_removed_is_what_is_not_kept() {
    let f = frame(RemovedMultiplierRecovery::NoRecovery);
    assert!(f.did_reduce());
    assert_eq!((f.num_removed_vars(), f.num_removed_rows()), (1, 1));
    assert_eq!((f.removed_vars(), f.removed_rows()), (vec![2], vec![1]));
    assert_eq!(numbers(&f.expand_x(&bits(&[4.0, 5.0]))), vec![4.0, 5.0, 2.0]);
    assert_eq!(
        f.reduced_x_scaling(&bits(&[1.0, 2.0, 3.0])).map(|v| numbers(&v)),
        Some(vec![1.0, 2.0])
    );
    assert!(f.reduced_x_scaling(&bits(&[1.0])).is_none());
    assert_eq!(f.reduced_g_scaling(&bits(&[7.0, 8.0])).map(|v| numbers(&v)), Some(vec![7.0]));
    assert!(f.reduced_g_scaling(&bits(&[])).is_none());
}

#[test]
fn a_removed_multiplier_is_zero_or_recovered() {
    let r = reduced(SolveStatus::Optimal, 3);
    let plain = frame(RemovedMultiplierRecovery::NoRecovery).unmap_solution(&Squares, &r, &unit());
    assert_eq!(numbers(&plain.x), vec![1.0, 1.0, 2.0]);
    assert_eq!(numbers(&plain.constraint_multipliers), vec![-2.0, 0.0]);
    assert_eq!(numbers(&plain.bound_multipliers_lower), vec![0.25, 0.0, 0.0]);
    let full =
        frame(RemovedMultiplierRecovery::AuxiliaryStationarity).unmap_solution(&Squares, &r, &unit());
    let y = numbers(&full.constraint_multipliers);
    assert_eq!(y[0], -2.0);
    assert!((4.0 + 3.0 * y[1]).abs() < 1e-12, "stationarity in z: {}", y[1]);
    assert_eq!(full.iterations, 3);
}

#[test]
fn layers_are_unmapped_from_the_last_to_the_first() {
    let f = frame(RemovedMultiplierRecovery::NoRecovery);
    let stack: ReductionStack<'_, Squares> = ReductionStack::new();
    let same = stack.unmap_solution(&reduced(SolveStatus::Optimal, 1), &unit());
    assert_eq!(numbers(&same.x), vec![1.0, 1.0]);
    let problem = Squares;
    let stack = ReductionStack::new().push(&f, &problem);
    let full = stack.unmap_solution(&reduced(SolveStatus::Optimal, 1), &unit());
    assert_eq!(full.diagnostics, "kept");
    assert_eq!(numbers(&full.x), vec![1.0, 1.0, 2.0]);
}

#[test]
fn a_square_system_is_solved_or_refused() {
    let a = bits(&[0.0, 2.0, 3.0, 0.0]);
    let x = solve_dense_square_system(&a, &bits(&[4.0, 9.0]), 2, &unit()).unwrap();
    assert_eq!(numbers(&x), vec![3.0, 2.0]);
    let refused = |a: &[f64], b: &[f64], n: usize| {
        solve_dense_square_system(&bits(a), &bits(b), n, &unit()).unwrap_err()
    };
    assert_eq!(refused(&[1.0], &[1.0, 2.0], 2), "dense system dimensions are inconsistent");
    assert_eq!(
        refused(&[f64::NAN], &[1.0], 1),
        "dense system matrix contains a non-finite value"
    );
    assert_eq!(
        refused(&[1.0], &[f64::INFINITY], 1),
        "dense system RHS contains a non-finite value"
    );
    assert_eq!(refused(&[0.0], &[1.0], 1), "dense system matrix is zero");
    assert_eq!(
        refused(&[1.0, 1.0, 1.0, 1.0], &[1.0, 2.0], 2),
        "dense system is singular or ill-conditioned"
    );
    assert!(solve_dense_square_system(&Vec::new(), &Vec::new(), 0, &unit()).unwrap().is_empty());
}

const RETRY: PenaltyFlags =
    PenaltyFlags { l1_exact_penalty_barrier: false, l1_fallback_on_restoration_failure: true };

#[test]
fn a_second_attempt_counts_where_it_is_optimal() {
    let options = SolverOptions::default();
    let mends = |_: &Squares, _: &SolverOptions, f: PenaltyFlags| {
        if f.l1_exact_penalty_barrier {
            reduced(SolveStatus::Optimal, 5)
        } else {
            reduced(SolveStatus::RestorationFailed, 7)
        }
    };
    let r = solve(&Squares, &options, RETRY, &mends);
    assert_eq!((r.status, r.iterations), (SolveStatus::Optimal, 12));
    let fails = |_: &Squares, _: &SolverOptions, f: PenaltyFlags| {
        if f.l1_exact_penalty_barrier {
            reduced(SolveStatus::MaxIterations, 5)
        } else {
            reduced(SolveStatus::LocalInfeasibility, 7)
        }
    };
    let r = solve(&Squares, &options, RETRY, &fails);
    assert_eq!((r.status, r.iterations), (SolveStatus::LocalInfeasibility, 12));
}

#[test]
fn there_is_no_second_attempt_without_need_or_leave() {
    assert!(wants_retry(RETRY, SolveStatus::Acceptable));
    assert!(!wants_retry(RETRY, SolveStatus::Optimal));
    assert!(!wants_retry(RETRY, SolveStatus::MaxIterations));
    let off = PenaltyFlags { l1_fallback_on_restoration_failure: false, ..RETRY };
    assert!(!wants_retry(off, SolveStatus::RestorationFailed));
    let on = PenaltyFlags { l1_exact_penalty_barrier: true, ..RETRY };
    assert!(!wants_retry(on, SolveStatus::RestorationFailed));
}

#[test]
fn options_start_from_the_usual_values() {
    let o = SolverOptions::default();
    assert_eq!(f64::from_bits(o.tol), 1e-8);
    assert_eq!(f64::from_bits(o.constr_viol_tol), 1e-4);
}
