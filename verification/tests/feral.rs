//! The sparse direct solver and the hybrid.

use ripopt::float::{FloatOp, Fpu};
use ripopt::linear_solver::feral_direct::{
    map_error, FactorStep, FeralFailure, FeralLdl, Scaling,
};
use ripopt::linear_solver::feral_hybrid::{Clock, FeralHybrid, HybridMode};
use ripopt::linear_solver::feral_iterative::FeralIterativeMinres;
use ripopt::linear_solver::solver::LinearSolver;
use ripopt::linear_solver::{Inertia, KktMatrix, SolverError};

fn arithmetic(op: FloatOp, a: u64, b: u64) -> u64 {
    let (x, y) = (f64::from_bits(a), f64::from_bits(b));
    let r = match op {
        FloatOp::Add => x + y,
        FloatOp::Sub => x - y,
        FloatOp::Mul => x * y,
        FloatOp::Div => x / y,
        FloatOp::Rem => x % y,
        FloatOp::Pow => x.powf(y),
        FloatOp::Atan2 => x.atan2(y),
        FloatOp::Max => x.max(y),
        FloatOp::Min => x.min(y),
        FloatOp::Floor => x.floor(),
        FloatOp::Ceil => x.ceil(),
        FloatOp::Sqrt => x.sqrt(),
        FloatOp::Exp => x.exp(),
        FloatOp::Ln => x.ln(),
        FloatOp::Log10 => x.log10(),
        FloatOp::Sin => x.sin(),
        FloatOp::Cos => x.cos(),
        FloatOp::Tan => x.tan(),
        FloatOp::Asin => x.asin(),
        FloatOp::Acos => x.acos(),
        FloatOp::Atan => x.atan(),
        FloatOp::Sinh => x.sinh(),
        FloatOp::Cosh => x.cosh(),
        FloatOp::Tanh => x.tanh(),
        FloatOp::Asinh => x.asinh(),
        FloatOp::Acosh => x.acosh(),
        FloatOp::Atanh => x.atanh(),
        FloatOp::FromCount => a as f64,
    };
    r.to_bits()
}

type Unit = Fpu<fn(FloatOp, u64, u64) -> u64>;

fn unit() -> Unit {
    Fpu { f: arithmetic }
}

fn bits(v: &[f64]) -> Vec<u64> {
    v.iter().map(|x| x.to_bits()).collect()
}

fn numbers(v: &[u64]) -> Vec<f64> {
    v.iter().map(|b| f64::from_bits(*b)).collect()
}

fn matrix(entries: &[(usize, usize, f64)], n: usize) -> KktMatrix {
    let mut m = KktMatrix::zeros_sparse(n, entries.len());
    for &(i, j, v) in entries {
        m.add(i, j, v.to_bits(), &unit());
    }
    m
}

fn good() -> Inertia {
    Inertia { positive: 2, negative: 0, zero: 0 }
}

#[test]
fn a_new_matrix_is_analyzed_and_a_later_one_refactored() {
    let mut ldl = FeralLdl::new(1e-8f64.to_bits());
    let m = matrix(&[(0, 0, 2.0), (0, 1, 1.0), (1, 1, 3.0), (0, 1, 0.5)], 2);
    match ldl.begin_factor(&m, &unit()).unwrap() {
        FactorStep::Analyze { rows, cols } => {
            assert_eq!(rows.iter().max(), Some(&1));
            assert_eq!(rows.len(), cols.len());
            for (r, c) in rows.iter().zip(cols.iter()) {
                assert!(r >= c);
            }
        }
        other => panic!("{:?}", other),
    }
    ldl.analyzed(Ok(())).unwrap();
    assert_eq!(ldl.finish_factor(Ok(good())).unwrap(), Some(good()));
    let later = matrix(&[(0, 0, 5.0), (0, 1, 7.0), (1, 1, 11.0), (0, 1, 0.25)], 2);
    match ldl.begin_factor(&later, &unit()).unwrap() {
        FactorStep::Refactor(values) => {
            assert_eq!(numbers(&values), vec![5.0, 7.25, 11.0]);
        }
        other => panic!("{:?}", other),
    }
    let longer =
        matrix(&[(0, 0, 5.0), (0, 1, 7.0), (1, 1, 11.0), (0, 1, 0.0), (1, 1, 1.0)], 2);
    match ldl.begin_factor(&longer, &unit()).unwrap() {
        FactorStep::Refactor(values) => {
            assert_eq!(numbers(&values), vec![5.0, 7.0, 12.0]);
        }
        other => panic!("{:?}", other),
    }
}

#[test]
fn entries_beyond_the_matrix_are_refused() {
    let mut ldl = FeralLdl::new_kkt(1, 0);
    let mut m = match matrix(&[(0, 0, 1.0)], 1) {
        KktMatrix::Sparse(s) => s,
        KktMatrix::Dense(_) => unreachable!(),
    };
    m.triplet_rows.push(0);
    m.triplet_cols.push(4);
    m.triplet_vals.push(0);
    match ldl.begin_factor(&KktMatrix::Sparse(m), &unit()) {
        Err(SolverError::NumericalFailure(text)) => {
            assert_eq!(text, "feral: invalid input: row index 4 out of bounds for n=1");
        }
        other => panic!("{:?}", other),
    }
}

#[test]
fn a_dense_matrix_is_refused_and_an_empty_one_is_done() {
    let mut ldl = FeralLdl::new(0);
    match ldl.begin_factor(&KktMatrix::zeros_dense(1), &unit()) {
        Err(SolverError::NumericalFailure(text)) => {
            assert_eq!(text, "FeralLdl requires KktMatrix::Sparse");
        }
        other => panic!("{:?}", other),
    }
    let none = Inertia { positive: 0, negative: 0, zero: 0 };
    match ldl.begin_factor(&matrix(&[], 0), &unit()) {
        Ok(FactorStep::Done(i)) => assert_eq!(i, none),
        other => panic!("{:?}", other),
    }
    assert!(!ldl.begin_solve(0, 0).unwrap());
}

#[test]
fn solves_are_checked() {
    let mut ldl = FeralLdl::new(0);
    assert!(matches!(ldl.begin_solve(1, 1), Err(SolverError::NumericalFailure(_))));
    let m = matrix(&[(0, 0, 2.0), (1, 1, 2.0)], 2);
    ldl.begin_factor(&m, &unit()).unwrap();
    ldl.analyzed(Ok(())).unwrap();
    ldl.finish_factor(Ok(good())).unwrap();
    assert!(matches!(
        ldl.begin_solve(1, 2),
        Err(SolverError::DimensionMismatch { expected: 2, got: 1 })
    ));
    assert!(ldl.begin_solve(2, 2).unwrap());
    let mut x = bits(&[0.0, 0.0]);
    ldl.finish_solve(Ok(bits(&[1.0, 2.0])), &mut x).unwrap();
    assert_eq!(numbers(&x), vec![1.0, 2.0]);
    assert!(ldl.finish_solve(Ok(bits(&[1.0])), &mut x).is_err());
    assert_eq!(numbers(&x), vec![1.0, 2.0]);
    assert!(ldl.finish_factor(Err(FeralFailure::RankDeficient)).is_err());
    assert!(ldl.begin_solve(2, 2).is_err());
}

#[test]
fn a_failed_analysis_is_begun_again() {
    let mut ldl = FeralLdl::new(0);
    let m = matrix(&[(0, 0, 2.0)], 1);
    ldl.begin_factor(&m, &unit()).unwrap();
    let r = ldl.analyzed(Err(FeralFailure::Other("no memory".to_string())));
    match r {
        Err(SolverError::NumericalFailure(text)) => assert_eq!(text, "feral: no memory"),
        other => panic!("{:?}", other),
    }
    assert!(matches!(ldl.begin_factor(&m, &unit()), Ok(FactorStep::Analyze { .. })));
}

#[test]
fn failures_become_errors() {
    assert!(matches!(map_error(FeralFailure::RankDeficient), SolverError::SingularMatrix));
    assert!(matches!(
        map_error(FeralFailure::DimensionMismatch { expected: 3, got: 4 }),
        SolverError::DimensionMismatch { expected: 3, got: 4 }
    ));
}

#[test]
fn quality_rises_by_scaling_then_by_pivot_threshold() {
    let mut ldl = FeralLdl::new(1e-8f64.to_bits());
    assert_eq!(ldl.scaling(), Scaling::Identity);
    assert!(ldl.increase_quality(&unit()));
    assert_eq!(ldl.scaling(), Scaling::InfNorm);
    assert_eq!(f64::from_bits(ldl.pivot_threshold()), 1e-8);
    assert!(ldl.increase_quality(&unit()));
    assert_eq!(f64::from_bits(ldl.pivot_threshold()), 1e-8f64.powf(0.75));
    let mut raised = 2;
    while ldl.increase_quality(&unit()) {
        raised += 1;
        assert!(raised < 100);
    }
    assert_eq!(f64::from_bits(ldl.pivot_threshold()), 0.5);
    let mut zero = FeralLdl::new(0);
    zero.increase_quality(&unit());
    zero.increase_quality(&unit());
    assert_eq!(f64::from_bits(zero.pivot_threshold()), 0.01);
}

/// A solver that answers as it is told.
struct Scripted {
    factors: bool,
    solves: bool,
    asked: usize,
}

impl LinearSolver for Scripted {
    fn factor(&mut self, _matrix: &KktMatrix) -> Result<Option<Inertia>, SolverError> {
        self.asked += 1;
        if self.factors {
            Ok(Some(Inertia { positive: self.asked, negative: 0, zero: 0 }))
        } else {
            Err(SolverError::SingularMatrix)
        }
    }

    fn solve(&mut self, rhs: &Vec<u64>, solution: &mut Vec<u64>) -> Result<(), SolverError> {
        if self.solves {
            solution.copy_from_slice(rhs);
            Ok(())
        } else {
            Err(SolverError::SingularMatrix)
        }
    }

    fn provides_inertia(&self) -> bool {
        true
    }

    fn increase_quality(&mut self) -> bool {
        self.factors
    }
}

struct Fixed(f64);

impl Clock for Fixed {
    fn mark(&self) -> u64 {
        7
    }

    fn seconds_since(&self, mark: u64) -> u64 {
        assert_eq!(mark, 7);
        self.0.to_bits()
    }
}

fn solver(factors: bool, solves: bool) -> Scripted {
    Scripted { factors, solves, asked: 0 }
}

type Hybrid = FeralHybrid<Scripted, FeralIterativeMinres<Scripted>, Fixed>;

fn hybrid(direct: Scripted, iterative: Scripted, seconds: f64) -> Hybrid {
    FeralHybrid::new(direct, FeralIterativeMinres::new(iterative), Fixed(seconds))
}

#[test]
fn a_fast_direct_solver_is_kept() {
    let mut h = hybrid(solver(true, true), solver(true, true), 0.5);
    h.factor(&matrix(&[], 0)).unwrap();
    assert_eq!(h.mode(), HybridMode::Direct);
    let mut h = h.with_time_threshold(0.25f64.to_bits());
    h.factor(&matrix(&[], 0)).unwrap();
    assert_eq!(h.mode(), HybridMode::Iterative);
}

#[test]
fn a_slow_direct_solver_stays_where_the_iterative_one_fails() {
    let mut h = hybrid(solver(true, true), solver(false, true), 2.0);
    let r = h.factor(&matrix(&[], 0)).unwrap();
    assert_eq!(r, Some(Inertia { positive: 1, negative: 0, zero: 0 }));
    assert_eq!(h.mode(), HybridMode::Direct);
}

#[test]
fn both_solvers_have_to_fail() {
    let mut h = hybrid(solver(false, true), solver(true, true), 0.0);
    assert!(h.factor(&matrix(&[], 0)).is_ok());
    assert_eq!(h.mode(), HybridMode::Iterative);
    let mut h = hybrid(solver(false, true), solver(false, true), 0.0);
    assert!(h.factor(&matrix(&[], 0)).is_err());
    assert_eq!(h.mode(), HybridMode::Iterative);
    assert!(h.factor(&matrix(&[], 0)).is_err());
    assert_eq!(h.mode(), HybridMode::Direct);
}

#[test]
fn three_failed_iterative_solves_bring_the_direct_solver_back() {
    let mut h = hybrid(solver(false, true), solver(true, false), 0.0);
    h.factor(&matrix(&[], 0)).unwrap();
    let mut x = bits(&[0.0]);
    for _ in 0..2 {
        assert!(h.solve(&bits(&[1.0]), &mut x).is_err());
        assert_eq!(h.mode(), HybridMode::Iterative);
    }
    assert!(h.solve(&bits(&[1.0]), &mut x).is_err());
    assert_eq!(h.mode(), HybridMode::Direct);
    assert!(h.solve(&bits(&[1.0]), &mut x).is_ok());
    assert_eq!(numbers(&x), vec![1.0]);
}

#[test]
fn many_columns_are_solved_in_turn() {
    let mut s = solver(true, true);
    let rhs = bits(&[1.0, 2.0, 3.0, 4.0]);
    let mut x = bits(&[0.0; 4]);
    s.solve_many(&rhs, 2, &mut x).unwrap();
    assert_eq!(x, rhs);
    let r = s.solve_many(&rhs, 3, &mut x);
    assert!(matches!(r, Err(SolverError::DimensionMismatch { expected: 3, got: 4 })));
}

#[test]
fn errors_and_inertias_have_texts() {
    let i = Inertia { positive: 12, negative: 3, zero: 0 };
    assert_eq!(i.to_text(), "(+12, -3, 0:0)");
    assert_eq!(SolverError::SingularMatrix.to_text(), "singular matrix");
}
