//! The augmented system.

use ripopt::float::{FloatOp, Fpu, Notation};
use ripopt::kkt::InertiaCorrectionParams;
use ripopt::kkt_aug::newton;
use ripopt::kkt_aug::newton::{IR_MAX_STEPS_DEFAULT, IR_MIN_STEPS_DEFAULT};
use ripopt::linear_solver::solver::LinearSolver;
use ripopt::linear_solver::{Inertia, SolverError};

fn arithmetic(op: FloatOp, a: u64, b: u64) -> u64 {
    let (x, y) = (f64::from_bits(a), f64::from_bits(b));
    let r = match op {
        FloatOp::Add => x + y,
        FloatOp::Sub => x - y,
        FloatOp::Mul => x * y,
        FloatOp::Div => x / y,
        FloatOp::Rem => x % y,
        FloatOp::Pow => x.powf(y),
        FloatOp::Atan2 => x.atan2(y),
        FloatOp::Max => x.max(y),
        FloatOp::Min => x.min(y),
        FloatOp::Floor => x.floor(),
        FloatOp::Ceil => x.ceil(),
        FloatOp::Sqrt => x.sqrt(),
        FloatOp::Exp => x.exp(),
        FloatOp::Ln => x.ln(),
        FloatOp::Log10 => x.log10(),
        FloatOp::Sin => x.sin(),
        FloatOp::Cos => x.cos(),
        FloatOp::Tan => x.tan(),
        FloatOp::Asin => x.asin(),
        FloatOp::Acos => x.acos(),
        FloatOp::Atan => x.atan(),
        FloatOp::Sinh => x.sinh(),
        FloatOp::Cosh => x.cosh(),
        FloatOp::Tanh => x.tanh(),
        FloatOp::Asinh => x.asinh(),
        FloatOp::Acosh => x.acosh(),
        FloatOp::Atanh => x.atanh(),
        FloatOp::FromCount => a as f64,
    };
    r.to_bits()
}

type Unit = Fpu<fn(FloatOp, u64, u64) -> u64>;

fn unit() -> Unit {
    Fpu { f: arithmetic }
}

fn bits(v: &[f64]) -> Vec<u64> {
    v.iter().map(|x| x.to_bits()).collect()
}

fn numbers(v: &[u64]) -> Vec<f64> {
    v.iter().map(|b| f64::from_bits(*b)).collect()
}

/// A dense solver: elimination with row exchanges, and the inertia from the
/// eigenvalues.
struct DenseLdl {
    n: usize,
    rows: Vec<Vec<f64>>,
    least: Option<f64>,
    factor_calls: usize,
}

impl DenseLdl {
    fn new() -> Self {
        DenseLdl { n: 0, rows: Vec::new(), least: None, factor_calls: 0 }
    }

    fn full(matrix: &ripopt::linear_solver::KktMatrix) -> Vec<Vec<f64>> {
        let n = matrix.n();
        (0..n)
            .map(|i| (0..n).map(|j| f64::from_bits(matrix.get(i, j, &unit()))).collect())
            .collect()
    }
}

impl LinearSolver for DenseLdl {
    fn factor(
        &mut self,
        matrix: &ripopt::linear_solver::KktMatrix,
    ) -> Result<Option<Inertia>, SolverError> {
        self.factor_calls += 1;
        self.n = matrix.n();
        self.rows = DenseLdl::full(matrix);
        let mut packed = ripopt::linear_solver::dense_matrix::SymmetricMatrix::zeros(self.n);
        for i in 0..self.n {
            for j in 0..=i {
                packed.set(i, j, self.rows[i][j].to_bits());
            }
        }
        let eigs = numbers(&packed.eigenvalues(&unit()));
        let top = eigs.iter().fold(0.0f64, |a, e| a.max(e.abs()));
        let tiny = 1e-14 * top;
        self.least = eigs.first().copied();
        Ok(Some(Inertia {
            positive: eigs.iter().filter(|e| **e > tiny).count(),
            negative: eigs.iter().filter(|e| **e < -tiny).count(),
            zero: eigs.iter().filter(|e| e.abs() <= tiny).count(),
        }))
    }

    fn solve(&mut self, rhs: &Vec<u64>, solution: &mut Vec<u64>) -> Result<(), SolverError> {
        let n = self.n;
        let mut a = self.rows.clone();
        let mut b = numbers(rhs);
        for k in 0..n {
            let mut p = k;
            for i in k + 1..n {
                if a[i][k].abs() > a[p][k].abs() {
                    p = i;
                }
            }
            if a[p][k] == 0.0 {
                return Err(SolverError::SingularMatrix);
            }
            a.swap(k, p);
            b.swap(k, p);
            for i in k + 1..n {
                let f = a[i][k] / a[k][k];
                for j in k..n {
                    let v = a[k][j];
                    a[i][j] -= f * v;
                }
                b[i] -= f * b[k];
            }
        }
        for k in (0..n).rev() {
            for j in k + 1..n {
                b[k] -= a[k][j] * b[j];
            }
            b[k] /= a[k][k];
        }
        solution.copy_from_slice(&bits(&b));
        Ok(())
    }

    fn provides_inertia(&self) -> bool {
        true
    }

    fn min_diagonal(&self) -> Option<u64> {
        self.least.map(|v| v.to_bits())
    }

    fn increase_quality(&mut self) -> bool {
        false
    }
}

/// A matrix of `f64`.
#[derive(Clone)]
struct KktMatrix(ripopt::linear_solver::KktMatrix);

impl KktMatrix {
    fn zeros_dense(n: usize) -> Self {
        KktMatrix(ripopt::linear_solver::KktMatrix::zeros_dense(n))
    }

    fn add(&mut self, i: usize, j: usize, v: f64) {
        self.0.add(i, j, v.to_bits(), &unit());
    }

    fn get(&self, i: usize, j: usize) -> f64 {
        f64::from_bits(self.0.get(i, j, &unit()))
    }

    fn matvec(&self, x: &[f64], y: &mut [f64]) {
        let mut out = bits(y);
        self.0.matvec(&bits(x), &mut out, &unit());
        y.copy_from_slice(&numbers(&out));
    }
}

impl DenseLdl {
    fn factor(&mut self, matrix: &KktMatrix) -> Result<Option<Inertia>, SolverError> {
        LinearSolver::factor(self, &matrix.0)
    }

    fn solve(&mut self, rhs: &[f64], solution: &mut [f64]) -> Result<(), SolverError> {
        let mut out = bits(solution);
        let r = LinearSolver::solve(self, &bits(rhs), &mut out);
        solution.copy_from_slice(&numbers(&out));
        r
    }
}

struct ConstraintPartition(ripopt::kkt_aug::ConstraintPartition);

impl std::ops::Deref for ConstraintPartition {
    type Target = ripopt::kkt_aug::ConstraintPartition;

    fn deref(&self) -> &Self::Target {
        &self.0
    }
}

impl ConstraintPartition {
    fn new(g_l: &[f64], g_u: &[f64]) -> Self {
        ConstraintPartition(ripopt::kkt_aug::ConstraintPartition::new(
            &bits(g_l),
            &bits(g_u),
            &unit(),
        ))
    }
}

fn compute_sigma_s(
    p: &ConstraintPartition,
    s: &[f64],
    g_l: &[f64],
    g_u: &[f64],
    v_l: &[f64],
    v_u: &[f64],
) -> Vec<f64> {
    numbers(&ripopt::kkt_aug::compute_sigma_s(
        &p.0,
        &bits(s),
        &bits(g_l),
        &bits(g_u),
        &bits(v_l),
        &bits(v_u),
        &unit(),
    ))
}

struct AugKktSystem {
    dim: usize,
    n: usize,
    n_c: usize,
    n_d: usize,
    matrix: KktMatrix,
    delta_c: f64,
    delta_d: f64,
    delta_x: f64,
    delta_s: f64,
}

impl AugKktSystem {
    fn lib(&self) -> ripopt::kkt_aug::AugKktSystem {
        ripopt::kkt_aug::AugKktSystem {
            dim: self.dim,
            n: self.n,
            n_c: self.n_c,
            n_d: self.n_d,
            matrix: self.matrix.0.clone(),
            delta_c: self.delta_c.to_bits(),
            delta_d: self.delta_d.to_bits(),
            delta_x: self.delta_x.to_bits(),
            delta_s: self.delta_s.to_bits(),
        }
    }

    fn of(a: ripopt::kkt_aug::AugKktSystem) -> Self {
        AugKktSystem {
            dim: a.dim,
            n: a.n,
            n_c: a.n_c,
            n_d: a.n_d,
            matrix: KktMatrix(a.matrix),
            delta_c: f64::from_bits(a.delta_c),
            delta_d: f64::from_bits(a.delta_d),
            delta_x: f64::from_bits(a.delta_x),
            delta_s: f64::from_bits(a.delta_s),
        }
    }
}

#[allow(clippy::too_many_arguments)]
fn assemble_aug_kkt(
    n: usize,
    p: &ConstraintPartition,
    hess_rows: &[usize],
    hess_cols: &[usize],
    hess_vals: &[f64],
    jac_rows: &[usize],
    jac_cols: &[usize],
    jac_vals: &[f64],
    sigma_x: &[f64],
    sigma_s: &[f64],
    delta_x: f64,
    delta_s: f64,
    delta_c: f64,
    delta_d: f64,
    use_sparse: bool,
) -> AugKktSystem {
    AugKktSystem::of(ripopt::kkt_aug::assemble_aug_kkt(
        n,
        &p.0,
        hess_rows,
        hess_cols,
        &bits(hess_vals),
        jac_rows,
        jac_cols,
        &bits(jac_vals),
        &bits(sigma_x),
        &bits(sigma_s),
        delta_x.to_bits(),
        delta_s.to_bits(),
        delta_c.to_bits(),
        delta_d.to_bits(),
        use_sparse,
        &unit(),
    ))
}

struct OuterRhs {
    rhs_x: Vec<f64>,
    rhs_s: Vec<f64>,
    rhs_y_c: Vec<f64>,
    rhs_y_d: Vec<f64>,
    whole: ripopt::kkt_aug::OuterRhs,
}

#[allow(clippy::too_many_arguments)]
fn build_outer_rhs(
    n: usize,
    p: &ConstraintPartition,
    grad_f: &[f64],
    j_t_y: &[f64],
    x: &[f64],
    x_l: &[f64],
    x_u: &[f64],
    z_l: &[f64],
    z_u: &[f64],
    s: &[f64],
    g: &[f64],
    g_l: &[f64],
    g_u: &[f64],
    y: &[f64],
    v_l: &[f64],
    v_u: &[f64],
    mu: f64,
    kappa_d: f64,
) -> OuterRhs {
    let whole = ripopt::kkt_aug::build_outer_rhs(
        n,
        &p.0,
        &bits(grad_f),
        &bits(j_t_y),
        &bits(x),
        &bits(x_l),
        &bits(x_u),
        &bits(z_l),
        &bits(z_u),
        &bits(s),
        &bits(g),
        &bits(g_l),
        &bits(g_u),
        &bits(y),
        &bits(v_l),
        &bits(v_u),
        mu.to_bits(),
        kappa_d.to_bits(),
        &unit(),
    );
    OuterRhs {
        rhs_x: numbers(&whole.rhs_x),
        rhs_s: numbers(&whole.rhs_s),
        rhs_y_c: numbers(&whole.rhs_y_c),
        rhs_y_d: numbers(&whole.rhs_y_d),
        whole,
    }
}

#[allow(clippy::too_many_arguments)]
fn fold_aug_rhs(
    n: usize,
    p: &ConstraintPartition,
    outer: &OuterRhs,
    x: &[f64],
    x_l: &[f64],
    x_u: &[f64],
    s: &[f64],
    g_l: &[f64],
    g_u: &[f64],
) -> Vec<f64> {
    numbers(&ripopt::kkt_aug::fold_aug_rhs(
        n,
        &p.0,
        &outer.whole,
        &bits(x),
        &bits(x_l),
        &bits(x_u),
        &bits(s),
        &bits(g_l),
        &bits(g_u),
        &unit(),
    ))
}

struct AugStep {
    dx: Vec<f64>,
    ds: Vec<f64>,
    dy_c: Vec<f64>,
    dy_d: Vec<f64>,
    dz_l: Vec<f64>,
    dz_u: Vec<f64>,
    dv_l: Vec<f64>,
    dv_u: Vec<f64>,
}

impl AugStep {
    fn of(a: &ripopt::kkt_aug::AugStep) -> Self {
        AugStep {
            dx: numbers(&a.dx),
            ds: numbers(&a.ds),
            dy_c: numbers(&a.dy_c),
            dy_d: numbers(&a.dy_d),
            dz_l: numbers(&a.dz_l),
            dz_u: numbers(&a.dz_u),
            dv_l: numbers(&a.dv_l),
            dv_u: numbers(&a.dv_u),
        }
    }
}

#[allow(clippy::too_many_arguments)]
fn recover_step(
    n: usize,
    p: &ConstraintPartition,
    sol: &[f64],
    x: &[f64],
    x_l: &[f64],
    x_u: &[f64],
    z_l: &[f64],
    z_u: &[f64],
    s: &[f64],
    g_l: &[f64],
    g_u: &[f64],
    v_l: &[f64],
    v_u: &[f64],
    mu: f64,
) -> AugStep {
    AugStep::of(&ripopt::kkt_aug::recover_step(
        n,
        &p.0,
        &bits(sol),
        &bits(x),
        &bits(x_l),
        &bits(x_u),
        &bits(z_l),
        &bits(z_u),
        &bits(s),
        &bits(g_l),
        &bits(g_u),
        &bits(v_l),
        &bits(v_u),
        mu.to_bits(),
        &unit(),
    ))
}

fn shown(b: u64) -> String {
    format!("{:.2e}", f64::from_bits(b))
}

#[allow(clippy::too_many_arguments)]
fn aug_step_from_state(
    n: usize,
    grad_f: &[f64],
    hess_rows: &[usize],
    hess_cols: &[usize],
    hess_vals: &[f64],
    jac_rows: &[usize],
    jac_cols: &[usize],
    jac_vals: &[f64],
    x: &[f64],
    x_l: &[f64],
    x_u: &[f64],
    z_l: &[f64],
    z_u: &[f64],
    s: &[f64],
    g: &[f64],
    g_l: &[f64],
    g_u: &[f64],
    y: &[f64],
    v_l: &[f64],
    v_u: &[f64],
    mu: f64,
    kappa_d: f64,
    use_sparse: bool,
    solver: &mut DenseLdl,
    params: &mut InertiaCorrectionParams,
) -> Result<(AugStep, f64, f64, AugKktSystem), SolverError> {
    let notation: Notation<fn(u64) -> String> = Notation { d: shown };
    let (step, w, c, aug) = ripopt::kkt_aug::aug_step_from_state(
        n,
        &bits(grad_f),
        hess_rows,
        hess_cols,
        &bits(hess_vals),
        jac_rows,
        jac_cols,
        &bits(jac_vals),
        &bits(x),
        &bits(x_l),
        &bits(x_u),
        &bits(z_l),
        &bits(z_u),
        &bits(s),
        &bits(g),
        &bits(g_l),
        &bits(g_u),
        &bits(y),
        &bits(v_l),
        &bits(v_u),
        mu.to_bits(),
        kappa_d.to_bits(),
        use_sparse,
        solver,
        params,
        &unit(),
        &notation,
    )?;
    Ok((AugStep::of(&step), f64::from_bits(w), f64::from_bits(c), AugKktSystem::of(aug)))
}

#[allow(clippy::too_many_arguments)]
fn apply_aug_perturbation(
    base: &KktMatrix,
    n: usize,
    n_c: usize,
    n_d: usize,
    delta_x: f64,
    delta_s: f64,
    delta_c: f64,
    delta_d: f64,
) -> KktMatrix {
    KktMatrix(ripopt::kkt::factor::apply_aug_perturbation(
        &base.0,
        n,
        n_c,
        n_d,
        delta_x.to_bits(),
        delta_s.to_bits(),
        delta_c.to_bits(),
        delta_d.to_bits(),
        &unit(),
    ))
}

const IR_RATIO_MAX_DEFAULT: f64 = 1e-10;
const IR_IMPROVEMENT_FACTOR_DEFAULT: f64 = 0.999999999;

struct AugSolveResult {
    sol: Vec<f64>,
    ir_iters: usize,
    final_ratio: Option<f64>,
}

fn solve_aug_with_ir(
    solver: &mut DenseLdl,
    aug: &AugKktSystem,
    rhs: &[f64],
    min_iters: usize,
    max_iters: usize,
    ratio_max: f64,
    improvement: f64,
) -> Result<AugSolveResult, SolverError> {
    let r = ripopt::kkt_aug::solve_aug_with_ir(
        solver,
        &aug.lib(),
        &bits(rhs),
        min_iters,
        max_iters,
        ratio_max.to_bits(),
        improvement.to_bits(),
        &unit(),
    )?;
    Ok(AugSolveResult {
        sol: numbers(&r.sol),
        ir_iters: r.ir_iters,
        final_ratio: r.final_ratio.map(f64::from_bits),
    })
}

#[test]
fn partition_pure_equality() {
    let g_l = vec![1.0, 2.0, 3.0];
    let g_u = vec![1.0, 2.0, 3.0];
    let p = ConstraintPartition::new(&g_l, &g_u);
    assert_eq!(p.n_c, 3);
    assert_eq!(p.n_d, 0);
    assert_eq!(p.eq_pos, vec![Some(0), Some(1), Some(2)]);
    assert_eq!(p.ineq_pos, vec![None, None, None]);
    assert!(p.ineq_to_constraint.is_empty());
}

#[test]
fn partition_pure_inequality() {
    let g_l = vec![0.0, f64::NEG_INFINITY];
    let g_u = vec![10.0, 5.0];
    let p = ConstraintPartition::new(&g_l, &g_u);
    assert_eq!(p.n_c, 0);
    assert_eq!(p.n_d, 2);
    assert_eq!(p.eq_pos, vec![None, None]);
    assert_eq!(p.ineq_pos, vec![Some(0), Some(1)]);
    assert_eq!(p.ineq_to_constraint, vec![0, 1]);
}

#[test]
fn partition_mixed_preserves_order() {
    let g_l = vec![1.0, 0.0, 5.0, f64::NEG_INFINITY, -1.0];
    let g_u = vec![1.0, 10.0, 5.0, 7.0, 1.0];
    let p = ConstraintPartition::new(&g_l, &g_u);
    assert_eq!(p.n_c, 2);
    assert_eq!(p.n_d, 3);
    assert_eq!(p.eq_pos, vec![Some(0), None, Some(1), None, None]);
    assert_eq!(p.ineq_pos, vec![None, Some(0), None, Some(1), Some(2)]);
    assert_eq!(p.ineq_to_constraint, vec![1, 3, 4]);
}

#[test]
fn sigma_s_zero_for_unbounded() {
    let g_l = vec![0.0, f64::NEG_INFINITY];
    let g_u = vec![f64::INFINITY, f64::INFINITY];
    let p = ConstraintPartition::new(&g_l, &g_u);
    let s = vec![1.0, 0.0];
    let v_l = vec![2.0, 0.0];
    let v_u = vec![0.0, 0.0];
    let sigma = compute_sigma_s(&p, &s, &g_l, &g_u, &v_l, &v_u);
    assert_eq!(sigma.len(), 2);
    assert!((sigma[0] - 2.0).abs() < 1e-12);
    assert_eq!(sigma[1], 0.0);
}

#[test]
fn sigma_s_two_sided_sums_both_contributions() {
    let g_l = vec![0.0];
    let g_u = vec![10.0];
    let p = ConstraintPartition::new(&g_l, &g_u);
    let s = vec![2.0];
    let v_l = vec![3.0];
    let v_u = vec![4.0];
    let sigma = compute_sigma_s(&p, &s, &g_l, &g_u, &v_l, &v_u);
    assert!((sigma[0] - 2.0).abs() < 1e-12);
}

#[test]
fn assemble_dimensions_and_block_signs() {
    let n = 2usize;
    let g_l = vec![5.0, 0.0, f64::NEG_INFINITY];
    let g_u = vec![5.0, 10.0, 1.0];
    let p = ConstraintPartition::new(&g_l, &g_u);
    assert_eq!(p.n_c, 1);
    assert_eq!(p.n_d, 2);

    let hess_rows = vec![0, 1];
    let hess_cols = vec![0, 1];
    let hess_vals = vec![7.0, 11.0];

    let jac_rows = vec![0, 0, 1, 2];
    let jac_cols = vec![0, 1, 0, 1];
    let jac_vals = vec![1.0, 2.0, 3.0, 4.0];

    let sigma_x = vec![0.5, 0.25];
    let sigma_s = vec![0.1, 0.2];
    let sys = assemble_aug_kkt(
        n, &p,
        &hess_rows, &hess_cols, &hess_vals,
        &jac_rows, &jac_cols, &jac_vals,
        &sigma_x, &sigma_s,
        1e-3, 2e-3, 3e-4, 4e-4,
        false,
    );
    assert_eq!(sys.dim, 7);
    assert_eq!(sys.n_c, 1);
    assert_eq!(sys.n_d, 2);

    assert!((sys.matrix.get(0, 0) - (7.0 + 0.5 + 1e-3)).abs() < 1e-12);
    assert!((sys.matrix.get(1, 1) - (11.0 + 0.25 + 1e-3)).abs() < 1e-12);

    assert!((sys.matrix.get(2, 2) - (0.1 + 2e-3)).abs() < 1e-12);
    assert!((sys.matrix.get(3, 3) - (0.2 + 2e-3)).abs() < 1e-12);

    assert!((sys.matrix.get(4, 0) - 1.0).abs() < 1e-12);
    assert!((sys.matrix.get(4, 1) - 2.0).abs() < 1e-12);

    assert!((sys.matrix.get(5, 0) - 3.0).abs() < 1e-12);
    assert!((sys.matrix.get(5, 1) - 0.0).abs() < 1e-12);
    assert!((sys.matrix.get(6, 0) - 0.0).abs() < 1e-12);
    assert!((sys.matrix.get(6, 1) - 4.0).abs() < 1e-12);

    assert!((sys.matrix.get(5, 2) - (-1.0)).abs() < 1e-12);
    assert!((sys.matrix.get(6, 3) - (-1.0)).abs() < 1e-12);

    assert!((sys.matrix.get(4, 4) - (-3e-4)).abs() < 1e-12);
    assert!((sys.matrix.get(5, 5) - (-4e-4)).abs() < 1e-12);
    assert!((sys.matrix.get(6, 6) - (-4e-4)).abs() < 1e-12);
}

#[test]
fn outer_rhs_pure_equality_no_slack_entries() {
    let n = 2usize;
    let g_l = vec![0.0];
    let g_u = vec![0.0];
    let p = ConstraintPartition::new(&g_l, &g_u);
    let grad_f = vec![1.0, 2.0];
    let j_t_y = vec![0.1, 0.2];
    let x = vec![0.0, 0.0];
    let x_l = vec![f64::NEG_INFINITY; 2];
    let x_u = vec![f64::INFINITY; 2];
    let z_l = vec![0.0; 2];
    let z_u = vec![0.0; 2];
    let s = vec![0.0];
    let g = vec![0.5];
    let y = vec![0.3];
    let v_l = vec![0.0];
    let v_u = vec![0.0];
    let r = build_outer_rhs(
        n, &p, &grad_f, &j_t_y,
        &x, &x_l, &x_u, &z_l, &z_u,
        &s, &g, &g_l, &g_u, &y, &v_l, &v_u,
        1e-3, 0.0,
    );
    assert!((r.rhs_x[0] - 1.1).abs() < 1e-12);
    assert!((r.rhs_x[1] - 2.2).abs() < 1e-12);
    assert!(r.rhs_s.is_empty());
    assert!(r.rhs_y_d.is_empty());
    assert_eq!(r.rhs_y_c.len(), 1);
    assert!((r.rhs_y_c[0] - 0.5).abs() < 1e-12);
}

#[test]
fn outer_rhs_kappa_d_one_sided_only() {
    let n = 3usize;
    let g_l: Vec<f64> = vec![];
    let g_u: Vec<f64> = vec![];
    let p = ConstraintPartition::new(&g_l, &g_u);
    let grad_f = vec![0.0, 0.0, 0.0];
    let j_t_y = vec![0.0, 0.0, 0.0];
    let x = vec![1.0, 1.0, 1.0];
    let x_l = vec![0.0, f64::NEG_INFINITY, 0.0];
    let x_u = vec![f64::INFINITY, 2.0, 2.0];
    let z_l = vec![5.0, 0.0, 7.0];
    let z_u = vec![0.0, 11.0, 13.0];
    let s = vec![];
    let g = vec![];
    let y = vec![];
    let v_l = vec![];
    let v_u = vec![];
    let mu = 0.01;
    let kappa_d = 1e-5;
    let r = build_outer_rhs(
        n, &p, &grad_f, &j_t_y,
        &x, &x_l, &x_u, &z_l, &z_u,
        &s, &g, &g_l, &g_u, &y, &v_l, &v_u,
        mu, kappa_d,
    );
    assert!((r.rhs_x[0] - (-5.0 + kappa_d * mu)).abs() < 1e-12);
    assert!((r.rhs_x[1] - (11.0 - kappa_d * mu)).abs() < 1e-12);
    assert!((r.rhs_x[2] - (-7.0 + 13.0)).abs() < 1e-12);
}

#[test]
fn fold_then_recover_round_trip_diagonal() {
    let n = 1usize;
    let g_l = vec![0.0];
    let g_u = vec![10.0];
    let p = ConstraintPartition::new(&g_l, &g_u);
    let x_l = vec![0.0];
    let x_u = vec![f64::INFINITY];
    let x = vec![1.0];
    let z_l = vec![0.5];
    let z_u = vec![0.0];
    let s = vec![3.0];
    let g = vec![3.5];
    let y = vec![0.7];
    let v_l = vec![0.4];
    let v_u = vec![0.6];
    let mu = 0.1;

    let sigma_x = vec![0.5];
    let sigma_s = compute_sigma_s(&p, &s, &g_l, &g_u, &v_l, &v_u);

    let hess_rows = vec![0];
    let hess_cols = vec![0];
    let hess_vals = vec![2.0];
    let jac_rows = vec![0];
    let jac_cols = vec![0];
    let jac_vals = vec![3.0];

    let aug = assemble_aug_kkt(
        n, &p,
        &hess_rows, &hess_cols, &hess_vals,
        &jac_rows, &jac_cols, &jac_vals,
        &sigma_x, &sigma_s,
        0.0, 0.0, 0.0, 0.0,
        false,
    );
    assert_eq!(aug.dim, 3);

    let grad_f = vec![10.0];
    let j_t_y = vec![3.0 * 0.7];
    let outer = build_outer_rhs(
        n, &p, &grad_f, &j_t_y,
        &x, &x_l, &x_u, &z_l, &z_u,
        &s, &g, &g_l, &g_u, &y, &v_l, &v_u,
        mu, 0.0,
    );
    let aug_rhs = fold_aug_rhs(n, &p, &outer, &x, &x_l, &x_u, &s, &g_l, &g_u);
    assert_eq!(aug_rhs.len(), 3);

    let mut solver = DenseLdl::new();
    solver.factor(&aug.matrix).unwrap();
    let mut sol = vec![0.0; 3];
    solver.solve(&aug_rhs, &mut sol).unwrap();

    let mut check = vec![0.0; 3];
    aug.matrix.matvec(&sol, &mut check);
    for i in 0..3 {
        assert!(
            (check[i] - aug_rhs[i]).abs() < 1e-9,
            "row {}: matvec={}, rhs={}", i, check[i], aug_rhs[i]
        );
    }

    let step = recover_step(
        n, &p, &sol,
        &x, &x_l, &x_u, &z_l, &z_u,
        &s, &g_l, &g_u, &v_l, &v_u, mu,
    );
    assert_eq!(step.dx.len(), 1);
    assert_eq!(step.ds.len(), 1);
    assert_eq!(step.dy_c.len(), 0);
    assert_eq!(step.dy_d.len(), 1);
    let s_l_x = x[0] - x_l[0];
    let expected_dz_l = (mu - z_l[0] * s_l_x) / s_l_x - (z_l[0] / s_l_x) * step.dx[0];
    assert!((step.dz_l[0] - expected_dz_l).abs() < 1e-12);
    assert_eq!(step.dz_u[0], 0.0);
    assert!(step.dv_l[0] != 0.0);
    assert!(step.dv_u[0] != 0.0);
}

#[test]
fn aug_step_from_state_unconstrained_quadratic_lands_on_minimum() {
    let n = 1usize;
    let grad_f = vec![2.0];
    let hess_rows = vec![0];
    let hess_cols = vec![0];
    let hess_vals = vec![1.0];
    let jac_rows: Vec<usize> = vec![];
    let jac_cols: Vec<usize> = vec![];
    let jac_vals: Vec<f64> = vec![];
    let x = vec![2.0];
    let x_l = vec![f64::NEG_INFINITY];
    let x_u = vec![f64::INFINITY];
    let z_l = vec![0.0];
    let z_u = vec![0.0];
    let s: Vec<f64> = vec![];
    let g: Vec<f64> = vec![];
    let g_l: Vec<f64> = vec![];
    let g_u: Vec<f64> = vec![];
    let y: Vec<f64> = vec![];
    let v_l: Vec<f64> = vec![];
    let v_u: Vec<f64> = vec![];
    let mu = 1e-3;
    let mut solver = DenseLdl::new();
    let mut params = ripopt::kkt::InertiaCorrectionParams::default();
    let (step, _dw, _dc, _aug) = aug_step_from_state(
        n, &grad_f,
        &hess_rows, &hess_cols, &hess_vals,
        &jac_rows, &jac_cols, &jac_vals,
        &x, &x_l, &x_u, &z_l, &z_u,
        &s, &g, &g_l, &g_u, &y, &v_l, &v_u,
        mu, 0.0, false,
        &mut solver, &mut params,
    ).unwrap();
    assert!((step.dx[0] - (-2.0)).abs() < 1e-9, "dx = {}", step.dx[0]);
    assert!(step.ds.is_empty());
    assert!(step.dy_c.is_empty());
    assert!(step.dy_d.is_empty());
}

#[test]
fn apply_aug_perturbation_lands_on_correct_diagonals() {
    let mut base = KktMatrix::zeros_dense(5);
    for i in 0..5 {
        base.add(i, i, 1.0);
    }
    let p = apply_aug_perturbation(&base, 2, 1, 1, 0.1, 0.2, 0.3, 0.4);
    assert!((p.get(0, 0) - 1.1).abs() < 1e-12);
    assert!((p.get(1, 1) - 1.1).abs() < 1e-12);
    assert!((p.get(2, 2) - 1.2).abs() < 1e-12);
    assert!((p.get(3, 3) - 0.7).abs() < 1e-12);
    assert!((p.get(4, 4) - 0.6).abs() < 1e-12);
}

#[test]
fn solve_aug_with_ir_diagonal_reaches_target_ratio() {
    let mut matrix = KktMatrix::zeros_dense(3);
    matrix.add(0, 0, 2.0);
    matrix.add(1, 1, 3.0);
    matrix.add(2, 2, 5.0);
    let aug = AugKktSystem {
        dim: 3, n: 1, n_c: 1, n_d: 1,
        matrix,
        delta_c: 0.0, delta_d: 0.0, delta_x: 0.0, delta_s: 0.0,
    };
    let rhs = vec![1.0, 1.0, 1.0];
    let mut solver = DenseLdl::new();
    solver.factor(&aug.matrix).unwrap();
    let res = solve_aug_with_ir(
        &mut solver, &aug, &rhs,
        IR_MIN_STEPS_DEFAULT,
        IR_MAX_STEPS_DEFAULT,
        IR_RATIO_MAX_DEFAULT,
        IR_IMPROVEMENT_FACTOR_DEFAULT,
    ).unwrap();
    assert!((res.sol[0] - 0.5).abs() < 1e-12);
    assert!((res.sol[1] - 1.0/3.0).abs() < 1e-12);
    assert!((res.sol[2] - 0.2).abs() < 1e-12);
    assert!(res.ir_iters <= 2);
    assert!(res.final_ratio.unwrap() < IR_RATIO_MAX_DEFAULT);
}

#[test]
fn assemble_pure_equality_no_slack_block() {
    let n = 2usize;
    let g_l = vec![0.0, 1.0];
    let g_u = vec![0.0, 1.0];
    let p = ConstraintPartition::new(&g_l, &g_u);
    assert_eq!(p.n_d, 0);
    let hess_rows = vec![0, 1];
    let hess_cols = vec![0, 1];
    let hess_vals = vec![1.0, 1.0];
    let jac_rows = vec![0, 1];
    let jac_cols = vec![0, 1];
    let jac_vals = vec![5.0, 6.0];
    let sys = assemble_aug_kkt(
        n, &p,
        &hess_rows, &hess_cols, &hess_vals,
        &jac_rows, &jac_cols, &jac_vals,
        &[0.0, 0.0], &[],
        0.0, 0.0, 0.0, 0.0,
        false,
    );
    assert_eq!(sys.dim, 4);
    assert!((sys.matrix.get(2, 0) - 5.0).abs() < 1e-12);
    assert!((sys.matrix.get(3, 1) - 6.0).abs() < 1e-12);
}

#[test]
fn refinement_parameters_are_the_usual_ones() {
    assert_eq!(f64::from_bits(newton::IR_RATIO_MAX_DEFAULT), IR_RATIO_MAX_DEFAULT);
    assert_eq!(
        f64::from_bits(newton::IR_IMPROVEMENT_FACTOR_DEFAULT),
        IR_IMPROVEMENT_FACTOR_DEFAULT
    );
}

/// One variable above zero and one inequality, at a point in the interior.
struct Point {
    x: Vec<u64>,
    x_l: Vec<u64>,
    x_u: Vec<u64>,
    z_l: Vec<u64>,
    z_u: Vec<u64>,
    s: Vec<u64>,
    g: Vec<u64>,
    g_l: Vec<u64>,
    g_u: Vec<u64>,
    y: Vec<u64>,
    v_l: Vec<u64>,
    v_u: Vec<u64>,
}

fn point() -> Point {
    Point {
        x: bits(&[1.0]),
        x_l: bits(&[0.0]),
        x_u: bits(&[f64::INFINITY]),
        z_l: bits(&[0.1]),
        z_u: bits(&[0.0]),
        s: bits(&[2.0]),
        g: bits(&[2.0]),
        g_l: bits(&[1.0]),
        g_u: bits(&[f64::INFINITY]),
        y: bits(&[-0.1]),
        v_l: bits(&[0.1]),
        v_u: bits(&[0.0]),
    }
}

#[test]
fn the_affine_step_suggests_a_smaller_barrier_parameter() {
    let p = point();
    let notation: Notation<fn(u64) -> String> = Notation { d: shown };
    let mut solver = DenseLdl::new();
    let mut params = InertiaCorrectionParams::default();
    let r = ripopt::kkt_aug::aug_step_from_state_mehrotra(
        1,
        &bits(&[1.0]),
        &[0],
        &[0],
        &bits(&[2.0]),
        &[0],
        &[0],
        &bits(&[2.0]),
        &p.x,
        &p.x_l,
        &p.x_u,
        &p.z_l,
        &p.z_u,
        &p.s,
        &p.g,
        &p.g_l,
        &p.g_u,
        &p.y,
        &p.v_l,
        &p.v_u,
        0.1f64.to_bits(),
        0.0f64.to_bits(),
        100.0f64.to_bits(),
        1e-11f64.to_bits(),
        1e5f64.to_bits(),
        false,
        &mut solver,
        &mut params,
        &unit(),
        &notation,
    );
    let (step, mu, _, _, _) = r.unwrap();
    assert_eq!(solver.factor_calls, 1);
    assert!(f64::from_bits(mu) > 0.0 && f64::from_bits(mu) < 0.1);
    assert!(step.dx.len() == 1 && f64::from_bits(step.dx[0]).is_finite());
}

#[test]
fn a_correction_with_lists_of_wrong_length_is_refused() {
    let p = point();
    let notation: Notation<fn(u64) -> String> = Notation { d: shown };
    let mut params = InertiaCorrectionParams::default();
    let r = ripopt::kkt_aug::aug_soc_solve_dx(
        1,
        &bits(&[1.0]),
        &[0],
        &[0],
        &bits(&[2.0]),
        &[0],
        &[0],
        &bits(&[2.0]),
        &p.x,
        &p.x_l,
        &p.x_u,
        &p.z_l,
        &p.z_u,
        &p.s,
        &p.g,
        &p.g_l,
        &p.g_u,
        &p.y,
        &p.v_l,
        &p.v_u,
        0.1f64.to_bits(),
        0.0f64.to_bits(),
        false,
        &mut DenseLdl::new(),
        &mut params,
        &bits(&[1.0]),
        &bits(&[]),
        &unit(),
        &notation,
    );
    assert!(r.is_none());
}

#[test]
fn a_correction_reuses_the_factors_of_the_step() {
    let p = point();
    let notation: Notation<fn(u64) -> String> = Notation { d: shown };
    let mut params = InertiaCorrectionParams::default();
    let mut solver = DenseLdl::new();
    let (step, _, _, aug) = ripopt::kkt_aug::aug_step_from_state(
        1,
        &bits(&[1.0]),
        &[0],
        &[0],
        &bits(&[2.0]),
        &[0],
        &[0],
        &bits(&[2.0]),
        &p.x,
        &p.x_l,
        &p.x_u,
        &p.z_l,
        &p.z_u,
        &p.s,
        &p.g,
        &p.g_l,
        &p.g_u,
        &p.y,
        &p.v_l,
        &p.v_u,
        0.1f64.to_bits(),
        0.0f64.to_bits(),
        false,
        &mut solver,
        &mut params,
        &unit(),
        &notation,
    )
    .unwrap();
    let calls = solver.factor_calls;
    let (dx, ds) = ripopt::kkt_aug::aug_soc_solve_dx_factored(
        1,
        &bits(&[1.0]),
        &[0],
        &[0],
        &bits(&[2.0]),
        &p.x,
        &p.x_l,
        &p.x_u,
        &p.z_l,
        &p.z_u,
        &p.s,
        &p.g,
        &p.g_l,
        &p.g_u,
        &p.y,
        &p.v_l,
        &p.v_u,
        0.1f64.to_bits(),
        0.0f64.to_bits(),
        &mut solver,
        &aug,
        &bits(&[]),
        &bits(&[0.0]),
        &unit(),
    )
    .unwrap();
    assert_eq!(solver.factor_calls, calls);
    assert!((f64::from_bits(dx[0]) - f64::from_bits(step.dx[0])).abs() < 1e-10);
    assert!((f64::from_bits(ds[0]) - f64::from_bits(step.ds[0])).abs() < 1e-10);
}
