//! Steps, perturbations and scaling on small numbers.

use ripopt::float::{FloatOp, Fpu};
use ripopt::kkt::assemble::{matvec_original, ruiz_equilibrate};
use ripopt::kkt::{
    affine_predictor_rhs, recover_dv, recover_dz, solve_for_direction_with_ir,
    InertiaCorrectionParams, IrParams, KktSystem, TrialStatus,
};
use ripopt::kkt_aug::{
    aug_probing_mu_from_affine, build_outer_rhs, fold_aug_rhs, recover_step, AugStep,
    ConstraintPartition,
};
use ripopt::linear_solver::dense_matrix::SymmetricMatrix;
use ripopt::linear_solver::solver::LinearSolver;
use ripopt::linear_solver::{Inertia, KktMatrix, SolverError};

fn arithmetic(op: FloatOp, a: u64, b: u64) -> u64 {
    let (x, y) = (f64::from_bits(a), f64::from_bits(b));
    let r = match op {
        FloatOp::Add => x + y,
        FloatOp::Sub => x - y,
        FloatOp::Mul => x * y,
        FloatOp::Div => x / y,
        FloatOp::Rem => x % y,
        FloatOp::Pow => x.powf(y),
        FloatOp::Atan2 => x.atan2(y),
        FloatOp::Max => x.max(y),
        FloatOp::Min => x.min(y),
        FloatOp::Floor => x.floor(),
        FloatOp::Ceil => x.ceil(),
        FloatOp::Sqrt => x.sqrt(),
        FloatOp::Exp => x.exp(),
        FloatOp::Ln => x.ln(),
        FloatOp::Log10 => x.log10(),
        FloatOp::Sin => x.sin(),
        FloatOp::Cos => x.cos(),
        FloatOp::Tan => x.tan(),
        FloatOp::Asin => x.asin(),
        FloatOp::Acos => x.acos(),
        FloatOp::Atan => x.atan(),
        FloatOp::Sinh => x.sinh(),
        FloatOp::Cosh => x.cosh(),
        FloatOp::Tanh => x.tanh(),
        FloatOp::Asinh => x.asinh(),
        FloatOp::Acosh => x.acosh(),
        FloatOp::Atanh => x.atanh(),
        FloatOp::FromCount => a as f64,
    };
    r.to_bits()
}

type Unit = Fpu<fn(FloatOp, u64, u64) -> u64>;

fn unit() -> Unit {
    Fpu { f: arithmetic }
}

fn bits(v: &[f64]) -> Vec<u64> {
    v.iter().map(|x| x.to_bits()).collect()
}

fn numbers(v: &[u64]) -> Vec<f64> {
    v.iter().map(|b| f64::from_bits(*b)).collect()
}

const INF: f64 = f64::INFINITY;

#[test]
fn constraint_multipliers_step_with_the_slacks() {
    // An equation, and an inequality between 0 and 4.
    let (dv_l, dv_u) = recover_dv(
        2,
        &bits(&[1.0, 0.0]),
        &bits(&[1.0, 4.0]),
        &bits(&[1.0, 1.0]),
        &bits(&[7.0, 2.0]),
        &bits(&[7.0, 0.5]),
        &bits(&[9.0, 0.25]),
        1.0f64.to_bits(),
        &unit(),
    );
    assert_eq!(numbers(&dv_l), vec![0.0, -1.5]);
    assert_eq!(numbers(&dv_u), vec![0.0, (1.0 - 0.5 * 3.0) / 3.0 + 0.5 / 3.0 * 0.25]);
}

#[test]
fn an_affine_right_hand_side_has_no_centering() {
    let r = affine_predictor_rhs(
        &bits(&[1.0, 2.0, 3.0, 4.0]),
        &bits(&[2.0, 2.0, 2.0]),
        &bits(&[0.0, -INF, -INF]),
        &bits(&[INF, 4.0, INF]),
        0.5f64.to_bits(),
        0.125f64.to_bits(),
        &unit(),
    );
    // One lower bound, one upper bound, none, and a constraint.
    let low = 1.0 - 0.5 / 2.0 + 0.125 * 0.5;
    let high = 2.0 + 0.5 / 2.0 - 0.125 * 0.5;
    assert_eq!(numbers(&r), vec![low, high, 3.0, 4.0]);
}

#[test]
fn a_singular_matrix_is_answered_by_four_tests() {
    let mut p = InertiaCorrectionParams::default();
    let mu = 1.0f64.to_bits();
    let first = p.consider_new_system_aug(mu, &unit());
    assert_eq!(first, Some((0.0f64.to_bits(), 0.0f64.to_bits())));
    assert_eq!(p.test_status, TrialStatus::DcEq0DxEq0);
    assert!(p.perturb_for_singularity_aug(mu, &unit()));
    assert_eq!(p.test_status, TrialStatus::DcGt0DxEq0);
    assert_eq!(numbers(&[p.delta_x_curr, p.delta_c_curr]), vec![0.0, 1e-8]);
    assert!(p.perturb_for_singularity_aug(mu, &unit()));
    assert_eq!(p.test_status, TrialStatus::DcEq0DxGt0);
    assert_eq!(numbers(&[p.delta_x_curr, p.delta_c_curr]), vec![1e-4, 0.0]);
    assert!(p.perturb_for_singularity_aug(mu, &unit()));
    assert_eq!(p.test_status, TrialStatus::DcGt0DxGt0);
    assert_eq!(numbers(&[p.delta_x_curr, p.delta_c_curr]), vec![1e-4 * 100.0, 1e-8]);
}

#[test]
fn beyond_the_limit_the_constraints_are_perturbed_once() {
    let mut p = InertiaCorrectionParams::default();
    p.delta_w_max = 1e-5f64.to_bits();
    assert!(!p.perturb_for_wrong_inertia_aug(1.0f64.to_bits(), &unit()));
    assert_eq!(numbers(&[p.delta_x_curr, p.delta_c_curr]), vec![1e-4, 1e-8]);
    let mut q = InertiaCorrectionParams::default();
    assert!(q.perturb_for_wrong_inertia_aug(1.0f64.to_bits(), &unit()));
    assert!(q.perturb_for_wrong_inertia_aug(1.0f64.to_bits(), &unit()));
    assert_eq!(numbers(&[q.delta_x_curr, q.delta_c_curr]), vec![1e-4 * 100.0, 0.0]);
}

fn dense(rows: &[&[f64]]) -> KktMatrix {
    let mut m = SymmetricMatrix::zeros(rows.len());
    for i in 0..rows.len() {
        for j in 0..=i {
            m.set(i, j, rows[i][j].to_bits());
        }
    }
    KktMatrix::Dense(m)
}

#[test]
fn a_product_can_leave_the_perturbations_out() {
    let kkt = KktSystem {
        dim: 2,
        n: 1,
        m: 1,
        matrix: dense(&[&[3.0, 2.0], &[2.0, -1.0]]),
        rhs: bits(&[0.0, 0.0]),
        delta_c_diag: bits(&[0.25]),
        scale_factors: None,
        input_atags: None,
    };
    let mut y = bits(&[0.0, 0.0]);
    let (delta_w, delta_c) = (0.5f64.to_bits(), 0.125f64.to_bits());
    matvec_original(&kkt, &bits(&[1.0, 10.0]), &mut y, delta_w, delta_c, &unit());
    assert_eq!(numbers(&y), vec![23.0 - 0.5, -8.0 + 3.75]);
}

#[test]
fn equilibration_scales_matrix_and_right_hand_side_alike() {
    let rows: [&[f64]; 2] = [&[4.0, 0.5], &[0.5, 100.0]];
    let mut m = dense(&rows);
    let mut rhs = bits(&[1.0, 2.0]);
    let d = numbers(&ruiz_equilibrate(&mut m, &mut rhs, &unit()));
    assert!(d[0] < 1.0 && d[1] < d[0]);
    let rhs = numbers(&rhs);
    for i in 0..2 {
        assert!((rhs[i] - d[i] * (1.0 + i as f64)).abs() < 1e-15);
        for j in 0..2 {
            let v = f64::from_bits(m.get(i, j, &unit()));
            assert!((v - d[i] * rows[i][j] * d[j]).abs() < 1e-12);
        }
    }
}

fn probe(lower: f64, mu: f64) -> Option<f64> {
    let partition = ConstraintPartition {
        n_c: 0,
        n_d: 0,
        eq_pos: vec![],
        ineq_pos: vec![],
        ineq_to_constraint: vec![],
    };
    let step = AugStep {
        dx: bits(&[-0.5]),
        ds: vec![],
        dy_c: vec![],
        dy_d: vec![],
        dy_m: vec![],
        dz_l: bits(&[-0.5]),
        dz_u: bits(&[0.0]),
        dv_l: vec![],
        dv_u: vec![],
    };
    aug_probing_mu_from_affine(
        1,
        &partition,
        &step,
        &bits(&[2.0]),
        &bits(&[lower]),
        &bits(&[INF]),
        &bits(&[1.0]),
        &bits(&[0.0]),
        &[],
        &[],
        &[],
        &[],
        &[],
        mu.to_bits(),
        100.0f64.to_bits(),
        1e-11f64.to_bits(),
        1e5f64.to_bits(),
        &unit(),
    )
    .map(f64::from_bits)
}

#[test]
fn the_affine_step_suggests_a_barrier_parameter() {
    // The full step leaves a distance of 0.5 and a multiplier of 0.5.
    let mu = probe(1.0, 1.0).unwrap();
    assert!((mu - 0.015625).abs() < 1e-15);
    assert_eq!(probe(-INF, 1.0), None);
    assert_eq!(probe(1.0, 0.0), None);
}

#[test]
fn both_systems_recover_the_same_multiplier_steps() {
    // Two variables; an inequality, an equation, and another inequality.
    let (x, x_l, x_u) = (bits(&[1.0, 2.0]), bits(&[0.0, -INF]), bits(&[INF, 5.0]));
    let (z_l, z_u) = (bits(&[0.5, 0.0]), bits(&[0.0, 0.25]));
    let (g_l, g_u) = (bits(&[0.0, 3.0, -INF]), bits(&[4.0, 3.0, 2.0]));
    let (s, v_l, v_u) = (bits(&[1.0, 3.0, 0.5]), bits(&[2.0, 0.0, 0.0]), bits(&[0.5, 0.0, 1.5]));
    let mu = 0.75f64.to_bits();
    let partition = ConstraintPartition::new(&g_l, &g_u, &unit());
    let sol = bits(&[0.5, -0.5, 0.125, -0.25, 7.0, 8.0, 9.0]);
    let step = recover_step(
        2, &partition, &sol, &x, &x_l, &x_u, &z_l, &z_u, &s, &g_l, &g_u, &v_l, &v_u, mu, &unit(),
    );
    assert_eq!(numbers(&step.ds), vec![0.125, 0.0, -0.25]);
    assert_eq!(numbers(&step.dy_m), vec![8.0, 7.0, 9.0]);
    let dz = recover_dz(&x, &x_l, &x_u, &z_l, &z_u, &step.dx, mu, &unit());
    let dv = recover_dv(3, &g_l, &g_u, &s, &v_l, &v_u, &step.ds, mu, &unit());
    assert_eq!((step.dz_l, step.dz_u), dz);
    assert_eq!((step.dv_l, step.dv_u), dv);
}

#[test]
fn recovered_steps_meet_the_complementarity() {
    let (x, x_l, x_u) = (bits(&[3.0, 1.0]), bits(&[1.0, -INF]), bits(&[7.0, 1.5]));
    let (z_l, z_u) = (bits(&[4.0, 0.0]), bits(&[0.5, 8.0]));
    let (dx, mu) = (bits(&[1.0, -0.25]), 6.0f64);
    let (dl, du) = recover_dz(&x, &x_l, &x_u, &z_l, &z_u, &dx, mu.to_bits(), &unit());
    let (dl, du) = (numbers(&dl), numbers(&du));
    // s dz + z dx = mu - z s at a lower bound, with a minus at an upper one.
    assert_eq!(2.0 * dl[0] + 4.0 * 1.0, mu - 4.0 * 2.0);
    assert_eq!(4.0 * du[0] - 0.5 * 1.0, mu - 0.5 * 4.0);
    assert_eq!(0.5 * du[1] - 8.0 * -0.25, mu - 8.0 * 0.5);
    assert_eq!(dl[1], 0.0);
}

#[test]
fn folded_residuals_are_centered() {
    let partition = ConstraintPartition::new(&[], &[], &unit());
    let (x, x_l, x_u) = (bits(&[3.0, 2.0, 1.0]), bits(&[1.0, -INF, 0.5]), bits(&[7.0, 6.0, INF]));
    let (z_l, z_u) = (bits(&[4.0, 0.0, 8.0]), bits(&[0.5, 2.0, 0.0]));
    let (grad, j_t_y) = (bits(&[5.0, -1.0, 2.0]), bits(&[0.25, 0.5, 1.0]));
    let mu = 8.0f64.to_bits();
    let kappa_d = 0.125f64.to_bits();
    let rhs = build_outer_rhs(
        3, &partition, &grad, &j_t_y, &x, &x_l, &x_u, &z_l, &z_u, &[], &[], &[], &[], &[], &[],
        &[], mu, kappa_d, &unit(),
    );
    let folded = fold_aug_rhs(3, &partition, &rhs, &x, &x_l, &x_u, &[], &[], &[], &unit());
    // Minus the gradient and the transposed product, the centering terms, and
    // the damping of a variable with one bound.
    assert_eq!(
        numbers(&folded),
        vec![
            -5.25 + 8.0 / 2.0 - 8.0 / 4.0,
            0.5 - 8.0 / 4.0 + 1.0,
            -3.0 + 8.0 / 0.5 - 1.0
        ]
    );
}

#[test]
fn an_equilibrated_solution_is_scaled_back() {
    let rows: [&[f64]; 2] = [&[4.0, 0.5], &[0.5, 100.0]];
    let mut m = dense(&rows);
    let mut rhs = bits(&[1.0, 2.0]);
    let d = numbers(&ruiz_equilibrate(&mut m, &mut rhs, &unit()));
    let at = |i: usize, j: usize| f64::from_bits(m.get(i, j, &unit()));
    let b = numbers(&rhs);
    let det = at(0, 0) * at(1, 1) - at(0, 1) * at(1, 0);
    let y = [
        (b[0] * at(1, 1) - at(0, 1) * b[1]) / det,
        (at(0, 0) * b[1] - at(1, 0) * b[0]) / det,
    ];
    let x = [y[0] * d[0], y[1] * d[1]];
    for i in 0..2 {
        let r = rows[i][0] * x[0] + rows[i][1] * x[1];
        assert!((r - (1.0 + i as f64)).abs() < 1e-12);
    }
}

/// A solver whose first solution is wrong, and which keeps the buffers that it
/// was handed.
struct Recorder {
    better: bool,
    handed: Vec<f64>,
}

impl LinearSolver for Recorder {
    fn factor(&mut self, _matrix: &KktMatrix) -> Result<Option<Inertia>, SolverError> {
        Ok(None)
    }

    fn solve(&mut self, _rhs: &Vec<u64>, solution: &mut Vec<u64>) -> Result<(), SolverError> {
        self.handed.push(f64::from_bits(solution[0]));
        solution[0] = if self.better { 2.0f64 } else { 1.0f64 }.to_bits();
        Ok(())
    }

    fn provides_inertia(&self) -> bool {
        false
    }

    fn increase_quality(&mut self) -> bool {
        self.better = true;
        true
    }
}

#[test]
fn a_second_pass_starts_from_the_last_solution() {
    let kkt = KktSystem {
        dim: 1,
        n: 1,
        m: 0,
        matrix: dense(&[&[2.0]]),
        rhs: bits(&[4.0]),
        delta_c_diag: vec![],
        scale_factors: None,
        input_atags: None,
    };
    let ir = IrParams { enabled: false, ..IrParams::default() };
    let mut solver = Recorder { better: false, handed: vec![] };
    let (dx, dy) = solve_for_direction_with_ir(&kkt, &mut solver, 0, 0, ir, &unit()).unwrap();
    assert_eq!((numbers(&dx), numbers(&dy)), (vec![2.0], vec![]));
    assert_eq!(solver.handed, vec![0.0, 1.0]);
}
