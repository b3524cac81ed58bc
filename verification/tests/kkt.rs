//! KKT systems.

use ripopt::float::{FloatOp, Fpu, Notation};
use ripopt::kkt::{FactorCache, IrParams, KktInputAtags};
use ripopt::linear_solver::solver::LinearSolver;
use ripopt::linear_solver::{Inertia, SolverError};

fn arithmetic(op: FloatOp, a: u64, b: u64) -> u64 {
    let (x, y) = (f64::from_bits(a), f64::from_bits(b));
    let r = match op {
        FloatOp::Add => x + y,
        FloatOp::Sub => x - y,
        FloatOp::Mul => x * y,
        FloatOp::Div => x / y,
        FloatOp::Rem => x % y,
        FloatOp::Pow => x.powf(y),
        FloatOp::Atan2 => x.atan2(y),
        FloatOp::Max => x.max(y),
        FloatOp::Min => x.min(y),
        FloatOp::Floor => x.floor(),
        FloatOp::Ceil => x.ceil(),
        FloatOp::Sqrt => x.sqrt(),
        FloatOp::Exp => x.exp(),
        FloatOp::Ln => x.ln(),
        FloatOp::Log10 => x.log10(),
        FloatOp::Sin => x.sin(),
        FloatOp::Cos => x.cos(),
        FloatOp::Tan => x.tan(),
        FloatOp::Asin => x.asin(),
        FloatOp::Acos => x.acos(),
        FloatOp::Atan => x.atan(),
        FloatOp::Sinh => x.sinh(),
        FloatOp::Cosh => x.cosh(),
        FloatOp::Tanh => x.tanh(),
        FloatOp::Asinh => x.asinh(),
        FloatOp::Acosh => x.acosh(),
        FloatOp::Atanh => x.atanh(),
        FloatOp::FromCount => a as f64,
    };
    r.to_bits()
}

type Unit = Fpu<fn(FloatOp, u64, u64) -> u64>;

fn unit() -> Unit {
    Fpu { f: arithmetic }
}

fn bits(v: &[f64]) -> Vec<u64> {
    v.iter().map(|x| x.to_bits()).collect()
}

fn numbers(v: &[u64]) -> Vec<f64> {
    v.iter().map(|b| f64::from_bits(*b)).collect()
}

/// A dense solver: elimination with row exchanges, and the inertia from the
/// eigenvalues.
struct DenseLdl {
    n: usize,
    rows: Vec<Vec<f64>>,
    least: Option<f64>,
    factor_calls: usize,
}

impl DenseLdl {
    fn new() -> Self {
        DenseLdl { n: 0, rows: Vec::new(), least: None, factor_calls: 0 }
    }

    fn full(matrix: &ripopt::linear_solver::KktMatrix) -> Vec<Vec<f64>> {
        let n = matrix.n();
        (0..n)
            .map(|i| (0..n).map(|j| f64::from_bits(matrix.get(i, j, &unit()))).collect())
            .collect()
    }
}

impl LinearSolver for DenseLdl {
    fn factor(
        &mut self,
        matrix: &ripopt::linear_solver::KktMatrix,
    ) -> Result<Option<Inertia>, SolverError> {
        self.factor_calls += 1;
        self.n = matrix.n();
        self.rows = DenseLdl::full(matrix);
        let mut packed = ripopt::linear_solver::dense_matrix::SymmetricMatrix::zeros(self.n);
        for i in 0..self.n {
            for j in 0..=i {
                packed.set(i, j, self.rows[i][j].to_bits());
            }
        }
        let eigs = numbers(&packed.eigenvalues(&unit()));
        let top = eigs.iter().fold(0.0f64, |a, e| a.max(e.abs()));
        let tiny = 1e-14 * top;
        self.least = eigs.first().copied();
        Ok(Some(Inertia {
            positive: eigs.iter().filter(|e| **e > tiny).count(),
            negative: eigs.iter().filter(|e| **e < -tiny).count(),
            zero: eigs.iter().filter(|e| e.abs() <= tiny).count(),
        }))
    }

    fn solve(&mut self, rhs: &Vec<u64>, solution: &mut Vec<u64>) -> Result<(), SolverError> {
        let n = self.n;
        let mut a = self.rows.clone();
        let mut b = numbers(rhs);
        for k in 0..n {
            let mut p = k;
            for i in k + 1..n {
                if a[i][k].abs() > a[p][k].abs() {
                    p = i;
                }
            }
            if a[p][k] == 0.0 {
                return Err(SolverError::SingularMatrix);
            }
            a.swap(k, p);
            b.swap(k, p);
            for i in k + 1..n {
                let f = a[i][k] / a[k][k];
                for j in k..n {
                    let v = a[k][j];
                    a[i][j] -= f * v;
                }
                b[i] -= f * b[k];
            }
        }
        for k in (0..n).rev() {
            for j in k + 1..n {
                b[k] -= a[k][j] * b[j];
            }
            b[k] /= a[k][k];
        }
        solution.copy_from_slice(&bits(&b));
        Ok(())
    }

    fn provides_inertia(&self) -> bool {
        true
    }

    fn min_diagonal(&self) -> Option<u64> {
        self.least.map(|v| v.to_bits())
    }

    fn increase_quality(&mut self) -> bool {
        false
    }
}

/// A packed matrix of `f64`.
#[derive(Clone)]
struct SymmetricMatrix(ripopt::linear_solver::dense_matrix::SymmetricMatrix);

impl SymmetricMatrix {
    fn zeros(n: usize) -> Self {
        SymmetricMatrix(ripopt::linear_solver::dense_matrix::SymmetricMatrix::zeros(n))
    }

    fn set(&mut self, i: usize, j: usize, v: f64) {
        self.0.set(i, j, v.to_bits());
    }

    fn matvec(&self, x: &[f64], y: &mut [f64]) {
        let mut out = bits(y);
        self.0.matvec(&bits(x), &mut out, &unit());
        y.copy_from_slice(&numbers(&out));
    }
}

/// A matrix of `f64`, dense or as the library keeps it.
#[derive(Clone)]
enum KktMatrix {
    Dense(SymmetricMatrix),
    Kept(ripopt::linear_solver::KktMatrix),
}

impl KktMatrix {
    fn lib(&self) -> ripopt::linear_solver::KktMatrix {
        match self {
            KktMatrix::Dense(d) => ripopt::linear_solver::KktMatrix::Dense(d.0.clone()),
            KktMatrix::Kept(k) => k.clone(),
        }
    }

    fn get(&self, i: usize, j: usize) -> f64 {
        f64::from_bits(self.lib().get(i, j, &unit()))
    }

    fn matvec(&self, x: &[f64], y: &mut [f64]) {
        let mut out = bits(y);
        self.lib().matvec(&bits(x), &mut out, &unit());
        y.copy_from_slice(&numbers(&out));
    }
}

impl DenseLdl {
    fn factor(&mut self, matrix: &KktMatrix) -> Result<Option<Inertia>, SolverError> {
        LinearSolver::factor(self, &matrix.lib())
    }
}

struct KktSystem {
    dim: usize,
    n: usize,
    m: usize,
    matrix: KktMatrix,
    rhs: Vec<f64>,
    delta_c_diag: Vec<f64>,
    scale_factors: Option<Vec<f64>>,
    input_atags: Option<KktInputAtags>,
}

impl KktSystem {
    fn lib(&self) -> ripopt::kkt::KktSystem {
        ripopt::kkt::KktSystem {
            dim: self.dim,
            n: self.n,
            m: self.m,
            matrix: self.matrix.lib(),
            rhs: bits(&self.rhs),
            delta_c_diag: bits(&self.delta_c_diag),
            scale_factors: self.scale_factors.as_ref().map(|v| bits(v)),
            input_atags: self.input_atags,
        }
    }

    fn of(k: ripopt::kkt::KktSystem) -> Self {
        KktSystem {
            dim: k.dim,
            n: k.n,
            m: k.m,
            matrix: KktMatrix::Kept(k.matrix),
            rhs: numbers(&k.rhs),
            delta_c_diag: numbers(&k.delta_c_diag),
            scale_factors: k.scale_factors.map(|v| numbers(&v)),
            input_atags: k.input_atags,
        }
    }
}

/// The perturbation handler with its numbers as `f64`.
struct InertiaCorrectionParams {
    delta_w_init: f64,
    delta_w_inc_fact_first: f64,
    delta_w_dec_fact: f64,
    delta_w_max: f64,
    delta_w_last: f64,
    max_attempts: usize,
    degeneracy_count: usize,
    pretend_singular_used: bool,
    rest: ripopt::kkt::InertiaCorrectionParams,
}

impl Default for InertiaCorrectionParams {
    fn default() -> Self {
        InertiaCorrectionParams::of(ripopt::kkt::InertiaCorrectionParams::default())
    }
}

impl InertiaCorrectionParams {
    fn of(p: ripopt::kkt::InertiaCorrectionParams) -> Self {
        InertiaCorrectionParams {
            delta_w_init: f64::from_bits(p.delta_w_init),
            delta_w_inc_fact_first: f64::from_bits(p.delta_w_inc_fact_first),
            delta_w_dec_fact: f64::from_bits(p.delta_w_dec_fact),
            delta_w_max: f64::from_bits(p.delta_w_max),
            delta_w_last: f64::from_bits(p.delta_w_last),
            max_attempts: p.max_attempts,
            degeneracy_count: p.degeneracy_count,
            pretend_singular_used: p.pretend_singular_used,
            rest: p,
        }
    }

    fn lib(&self) -> ripopt::kkt::InertiaCorrectionParams {
        ripopt::kkt::InertiaCorrectionParams {
            delta_w_init: self.delta_w_init.to_bits(),
            delta_w_inc_fact_first: self.delta_w_inc_fact_first.to_bits(),
            delta_w_dec_fact: self.delta_w_dec_fact.to_bits(),
            delta_w_max: self.delta_w_max.to_bits(),
            delta_w_last: self.delta_w_last.to_bits(),
            max_attempts: self.max_attempts,
            degeneracy_count: self.degeneracy_count,
            pretend_singular_used: self.pretend_singular_used,
            ..self.rest
        }
    }

    fn reset_pretend_singular_for_new_iter(&mut self) {
        let mut p = self.lib();
        p.reset_pretend_singular_for_new_iter();
        *self = InertiaCorrectionParams::of(p);
    }
}

#[derive(Clone, Copy)]
struct KktSystemFingerprint {
    atags: KktInputAtags,
    delta_x: f64,
    delta_c: f64,
}

impl KktSystemFingerprint {
    fn lib(&self) -> ripopt::kkt::KktSystemFingerprint {
        ripopt::kkt::KktSystemFingerprint {
            atags: self.atags,
            delta_x: self.delta_x.to_bits(),
            delta_c: self.delta_c.to_bits(),
        }
    }

    fn matches(&self, other: &Self) -> bool {
        self.lib().matches(&other.lib())
    }
}

struct BoundResidualContext<'a> {
    x: &'a [f64],
    x_l: &'a [f64],
    x_u: &'a [f64],
    z_l: &'a [f64],
    z_u: &'a [f64],
    mu: f64,
    r_x_full: &'a [f64],
}

impl BoundResidualContext<'_> {
    fn within<R>(&self, f: impl FnOnce(&ripopt::kkt::BoundResidualContext<'_>) -> R) -> R {
        let (x, x_l, x_u) = (bits(self.x), bits(self.x_l), bits(self.x_u));
        let (z_l, z_u, r) = (bits(self.z_l), bits(self.z_u), bits(self.r_x_full));
        f(&ripopt::kkt::BoundResidualContext {
            x: &x,
            x_l: &x_l,
            x_u: &x_u,
            z_l: &z_l,
            z_u: &z_u,
            mu: self.mu.to_bits(),
            r_x_full: &r,
        })
    }
}

struct ConstraintLayout(ripopt::kkt::layout::ConstraintLayout);

impl ConstraintLayout {
    fn new(g_l: &[f64], g_u: &[f64]) -> Self {
        ConstraintLayout(ripopt::kkt::layout::ConstraintLayout::new(
            &bits(g_l),
            &bits(g_u),
            &unit(),
        ))
    }
}

fn compute_sigma(x: &[f64], x_l: &[f64], x_u: &[f64], z_l: &[f64], z_u: &[f64]) -> Vec<f64> {
    numbers(&ripopt::kkt::compute_sigma(
        &bits(x),
        &bits(x_l),
        &bits(x_u),
        &bits(z_l),
        &bits(z_u),
        &unit(),
    ))
}

#[allow(clippy::too_many_arguments)]
fn assemble_kkt(
    n: usize,
    n_c: usize,
    n_d: usize,
    hess_rows: &[usize],
    hess_cols: &[usize],
    hess_vals: &[f64],
    jac_c_rows: &[usize],
    jac_c_cols: &[usize],
    jac_c_vals: &[f64],
    jac_d_rows: &[usize],
    jac_d_cols: &[usize],
    jac_d_vals: &[f64],
    sigma: &[f64],
    grad_f: &[f64],
    c_x: &[f64],
    d_x: &[f64],
    d_l: &[f64],
    d_u: &[f64],
    s: &[f64],
    y_c: &[f64],
    y_d: &[f64],
    x: &[f64],
    x_l: &[f64],
    x_u: &[f64],
    mu: f64,
    kappa_d: f64,
    use_sparse: bool,
    v_l: &[f64],
    v_u: &[f64],
    layout: &ConstraintLayout,
) -> KktSystem {
    KktSystem::of(ripopt::kkt::assemble_kkt(
        n,
        n_c,
        n_d,
        hess_rows,
        hess_cols,
        &bits(hess_vals),
        jac_c_rows,
        jac_c_cols,
        &bits(jac_c_vals),
        jac_d_rows,
        jac_d_cols,
        &bits(jac_d_vals),
        &bits(sigma),
        &bits(grad_f),
        &bits(c_x),
        &bits(d_x),
        &bits(d_l),
        &bits(d_u),
        &bits(s),
        &bits(y_c),
        &bits(y_d),
        &bits(x),
        &bits(x_l),
        &bits(x_u),
        mu.to_bits(),
        kappa_d.to_bits(),
        use_sparse,
        &bits(v_l),
        &bits(v_u),
        &layout.0,
        &unit(),
    ))
}

fn shown(b: u64) -> String {
    format!("{:.2e}", f64::from_bits(b))
}

fn notation() -> Notation<fn(u64) -> String> {
    Notation { d: shown }
}

type Deltas = Result<(f64, f64), SolverError>;

fn pair(r: Result<(u64, u64), SolverError>) -> Deltas {
    r.map(|(w, c)| (f64::from_bits(w), f64::from_bits(c)))
}

fn factor_with_inertia_correction(
    kkt: &mut KktSystem,
    solver: &mut DenseLdl,
    params: &mut InertiaCorrectionParams,
    mu: f64,
) -> Deltas {
    let mut k = kkt.lib();
    let mut p = params.lib();
    let r = ripopt::kkt::factor_with_inertia_correction(
        &mut k,
        solver,
        &mut p,
        mu.to_bits(),
        &unit(),
        &notation(),
    );
    *kkt = KktSystem::of(k);
    *params = InertiaCorrectionParams::of(p);
    pair(r)
}

fn factor_with_inertia_correction_cached(
    kkt: &mut KktSystem,
    solver: &mut DenseLdl,
    params: &mut InertiaCorrectionParams,
    mu: f64,
    cache: &mut FactorCache,
) -> Deltas {
    let mut k = kkt.lib();
    let mut p = params.lib();
    let r = ripopt::kkt::factor_with_inertia_correction_cached(
        &mut k,
        solver,
        &mut p,
        mu.to_bits(),
        cache,
        &unit(),
        &notation(),
    );
    *kkt = KktSystem::of(k);
    *params = InertiaCorrectionParams::of(p);
    pair(r)
}

type Direction = Result<(Vec<f64>, Vec<f64>), SolverError>;

fn lists(r: Result<(Vec<u64>, Vec<u64>), SolverError>) -> Direction {
    r.map(|(a, b)| (numbers(&a), numbers(&b)))
}

fn solve_for_direction(
    kkt: &KktSystem,
    solver: &mut DenseLdl,
    delta_w: f64,
    delta_c: f64,
) -> Direction {
    lists(ripopt::kkt::solve_for_direction(
        &kkt.lib(),
        solver,
        delta_w.to_bits(),
        delta_c.to_bits(),
        &unit(),
    ))
}

fn solve_for_direction_with_ir(
    kkt: &KktSystem,
    solver: &mut DenseLdl,
    delta_w: f64,
    delta_c: f64,
    ir: IrParams,
) -> Direction {
    lists(ripopt::kkt::solve_for_direction_with_ir(
        &kkt.lib(),
        solver,
        delta_w.to_bits(),
        delta_c.to_bits(),
        ir,
        &unit(),
    ))
}

fn solve_for_direction_with_ir_ctx(
    kkt: &KktSystem,
    solver: &mut DenseLdl,
    delta_w: f64,
    delta_c: f64,
    ir: IrParams,
    ctx: Option<&BoundResidualContext<'_>>,
) -> Direction {
    let (k, w, c) = (kkt.lib(), delta_w.to_bits(), delta_c.to_bits());
    lists(match ctx {
        None => ripopt::kkt::solve_for_direction_with_ir_ctx(&k, solver, w, c, ir, None, &unit()),
        Some(ctx) => ctx.within(|x| {
            ripopt::kkt::solve_for_direction_with_ir_ctx(&k, solver, w, c, ir, Some(x), &unit())
        }),
    })
}

fn solve_for_direction_with_ir_full(
    kkt: &KktSystem,
    solver: &mut DenseLdl,
    delta_w: f64,
    delta_c: f64,
    ir: IrParams,
    ctx: Option<&BoundResidualContext<'_>>,
) -> Direction {
    let (k, w, c) = (kkt.lib(), delta_w.to_bits(), delta_c.to_bits());
    lists(match ctx {
        None => ripopt::kkt::solve_for_direction_with_ir_full(&k, solver, w, c, ir, None, &unit()),
        Some(ctx) => ctx.within(|x| {
            ripopt::kkt::solve_for_direction_with_ir_full(&k, solver, w, c, ir, Some(x), &unit())
        }),
    })
}

fn solve_for_direction_iter_aware(
    kkt: &KktSystem,
    solver: &mut DenseLdl,
    params: &mut InertiaCorrectionParams,
    delta_w: f64,
    delta_c: f64,
) -> Direction {
    let mut p = params.lib();
    let r = ripopt::kkt::solve_for_direction_iter_aware(
        &kkt.lib(),
        solver,
        &mut p,
        delta_w.to_bits(),
        delta_c.to_bits(),
        &unit(),
    );
    *params = InertiaCorrectionParams::of(p);
    lists(r)
}

fn recover_full_step(ctx: &BoundResidualContext<'_>, dx: &[f64]) -> (Vec<f64>, Vec<f64>) {
    let (l, u) = ctx.within(|x| ripopt::kkt::recover_full_step(x, &bits(dx), &unit()));
    (numbers(&l), numbers(&u))
}

fn compute_full_residual_ratio(
    kkt: &KktSystem,
    ctx: &BoundResidualContext<'_>,
    dx: &[f64],
    _dy: &[f64],
    dz_l: &[f64],
    dz_u: &[f64],
) -> (f64, f64, f64, f64) {
    let r = ctx.within(|x| {
        ripopt::kkt::compute_full_residual_ratio(
            &kkt.lib(),
            x,
            &bits(dx),
            &bits(dz_l),
            &bits(dz_u),
            &unit(),
        )
    });
    (f64::from_bits(r.0), f64::from_bits(r.1), f64::from_bits(r.2), f64::from_bits(r.3))
}

fn recover_dz(
    x: &[f64],
    x_l: &[f64],
    x_u: &[f64],
    z_l: &[f64],
    z_u: &[f64],
    dx: &[f64],
    mu: f64,
) -> (Vec<f64>, Vec<f64>) {
    let (l, u) = ripopt::kkt::recover_dz(
        &bits(x),
        &bits(x_l),
        &bits(x_u),
        &bits(z_l),
        &bits(z_u),
        &bits(dx),
        mu.to_bits(),
        &unit(),
    );
    (numbers(&l), numbers(&u))
}

#[test]
fn test_compute_sigma_no_bounds() {
    let x = vec![1.0, 2.0];
    let x_l = vec![f64::NEG_INFINITY, f64::NEG_INFINITY];
    let x_u = vec![f64::INFINITY, f64::INFINITY];
    let z_l = vec![0.0, 0.0];
    let z_u = vec![0.0, 0.0];
    let sigma = compute_sigma(&x, &x_l, &x_u, &z_l, &z_u);
    assert!((sigma[0]).abs() < 1e-15);
    assert!((sigma[1]).abs() < 1e-15);
}

#[test]
fn test_compute_sigma_lower_bound_only() {
    let x = vec![1.5];
    let x_l = vec![1.0];
    let x_u = vec![f64::INFINITY];
    let z_l = vec![2.0];
    let z_u = vec![0.0];
    let sigma = compute_sigma(&x, &x_l, &x_u, &z_l, &z_u);
    assert!((sigma[0] - 4.0).abs() < 1e-12);
}

#[test]
fn test_compute_sigma_both_bounds() {
    let x = vec![1.5];
    let x_l = vec![1.0];
    let x_u = vec![2.0];
    let z_l = vec![2.0];
    let z_u = vec![3.0];
    let sigma = compute_sigma(&x, &x_l, &x_u, &z_l, &z_u);
    assert!((sigma[0] - 10.0).abs() < 1e-12);
}

#[test]
fn test_compute_sigma_at_bound_clamped() {
    let x = vec![1.0];
    let x_l = vec![1.0];
    let x_u = vec![f64::INFINITY];
    let z_l = vec![1.0];
    let z_u = vec![0.0];
    let sigma = compute_sigma(&x, &x_l, &x_u, &z_l, &z_u);
    assert!(sigma[0] > 1e19);
}

#[test]
fn test_assemble_kkt_unconstrained() {
    let n = 2;
    let hess_rows = vec![0, 1];
    let hess_cols = vec![0, 1];
    let hess_vals = vec![2.0, 3.0];
    let sigma = vec![1.0, 2.0];
    let grad_f = vec![0.5, 0.5];
    let x = vec![1.0, 2.0];
    let x_l = vec![f64::NEG_INFINITY; 2];
    let x_u = vec![f64::INFINITY; 2];

    let layout = ConstraintLayout::new(&[], &[]);
    let kkt = assemble_kkt(
        n, 0, 0, &hess_rows, &hess_cols, &hess_vals,
        &[], &[], &[], &[], &[], &[], &sigma, &grad_f,
        &[], &[], &[], &[], &[], &[], &[],
        &x, &x_l, &x_u, 0.1, 0.0, false, &[], &[], &layout,
    );

    assert_eq!(kkt.dim, 2);
    assert!((kkt.matrix.get(0, 0) - 3.0).abs() < 1e-12);
    assert!((kkt.matrix.get(1, 1) - 5.0).abs() < 1e-12);
}

#[test]
fn test_assemble_kkt_equality_constraint() {
    let n = 2;
    let hess_rows = vec![0, 1];
    let hess_cols = vec![0, 1];
    let hess_vals = vec![2.0, 2.0];
    let jac_c_rows = vec![0, 0];
    let jac_c_cols = vec![0, 1];
    let jac_c_vals = vec![1.0, 1.0];
    let sigma = vec![0.0; 2];
    let grad_f = vec![1.0, 1.0];
    let c_x = vec![-0.3];
    let y_c = vec![0.5];
    let x = vec![0.3, 0.4];
    let x_l = vec![f64::NEG_INFINITY; 2];
    let x_u = vec![f64::INFINITY; 2];

    let g_l = vec![1.0];
    let g_u = vec![1.0];
    let layout = ConstraintLayout::new(&g_l, &g_u);
    let kkt = assemble_kkt(
        n, 1, 0, &hess_rows, &hess_cols, &hess_vals,
        &jac_c_rows, &jac_c_cols, &jac_c_vals,
        &[], &[], &[], &sigma, &grad_f,
        &c_x, &[], &[], &[], &[], &y_c, &[],
        &x, &x_l, &x_u, 0.1, 0.0, false, &[], &[], &layout,
    );

    assert_eq!(kkt.dim, 3);
    assert!((kkt.matrix.get(2, 0) - 1.0).abs() < 1e-12);
    assert!((kkt.matrix.get(2, 1) - 1.0).abs() < 1e-12);
    assert!(kkt.matrix.get(2, 2).abs() < 1e-15);
    assert!(kkt.delta_c_diag[0].abs() < 1e-15);
    assert!((kkt.rhs[2] - 0.3).abs() < 1e-12);
}

#[test]
fn test_assemble_kkt_rhs_sign_convention() {
    let n = 1;
    let hess_rows = vec![0];
    let hess_cols = vec![0];
    let hess_vals = vec![1.0];
    let jac_c_rows = vec![0];
    let jac_c_cols = vec![0];
    let jac_c_vals = vec![2.0];
    let sigma = vec![0.0];
    let grad_f = vec![3.0];
    let c_x = vec![0.0];
    let y_c = vec![1.0];
    let x = vec![1.0];
    let x_l = vec![f64::NEG_INFINITY];
    let x_u = vec![f64::INFINITY];

    let g_l = vec![1.0];
    let g_u = vec![1.0];
    let layout = ConstraintLayout::new(&g_l, &g_u);
    let kkt = assemble_kkt(
        n, 1, 0, &hess_rows, &hess_cols, &hess_vals,
        &jac_c_rows, &jac_c_cols, &jac_c_vals,
        &[], &[], &[], &sigma, &grad_f,
        &c_x, &[], &[], &[], &[], &y_c, &[],
        &x, &x_l, &x_u, 0.1, 0.0, false, &[], &[], &layout,
    );

    assert!((kkt.rhs[0] - (-5.0)).abs() < 1e-12,
        "RHS sign convention: expected -5.0, got {}", kkt.rhs[0]);
}

#[test]
fn test_assemble_kkt_explicit_vL_within_kappa_sigma_band() {
    let n = 1;
    let hess_rows = vec![0]; let hess_cols = vec![0]; let hess_vals = vec![1.0];
    let jac_d_rows = vec![0]; let jac_d_cols = vec![0]; let jac_d_vals = vec![1.0];
    let sigma = vec![0.0];
    let grad_f = vec![0.0];
    let d_x = vec![1.3];
    let d_l = vec![1.0];
    let d_u = vec![f64::INFINITY];
    let y_d = vec![0.0];
    let x = vec![1.3];
    let x_l = vec![f64::NEG_INFINITY];
    let x_u = vec![f64::INFINITY];
    let v_l = vec![1.5]; let v_u = vec![0.0_f64; 1];
    let mu = 0.01;

    let s = d_x.clone();
    let g_l = vec![1.0];
    let g_u = vec![f64::INFINITY];
    let layout = ConstraintLayout::new(&g_l, &g_u);
    let kkt = assemble_kkt(
        n, 0, 1, &hess_rows, &hess_cols, &hess_vals,
        &[], &[], &[], &jac_d_rows, &jac_d_cols, &jac_d_vals,
        &sigma, &grad_f,
        &[], &d_x, &d_l, &d_u, &s, &[], &y_d,
        &x, &x_l, &x_u, mu, 0.0, false, &v_l, &v_u, &layout,
    );
    let d_22 = kkt.matrix.get(1, 1);
    assert!((d_22 - (-0.2)).abs() < 1e-9,
        "(2,2) block should be -1/Σ_s = -0.2 with v_L = 1.5; got {}", d_22);
}

#[test]
fn test_assemble_kkt_explicit_vL_zero_gets_kappa_sigma_floor() {
    let n = 1;
    let hess_rows = vec![0]; let hess_cols = vec![0]; let hess_vals = vec![1.0];
    let jac_d_rows = vec![0]; let jac_d_cols = vec![0]; let jac_d_vals = vec![1.0];
    let sigma = vec![0.0];
    let grad_f = vec![0.0];
    let d_x = vec![1.3];
    let d_l = vec![1.0];
    let d_u = vec![f64::INFINITY];
    let y_d = vec![0.0];
    let x = vec![1.3];
    let x_l = vec![f64::NEG_INFINITY];
    let x_u = vec![f64::INFINITY];
    let v_l = vec![0.0_f64; 1]; let v_u = vec![0.0_f64; 1];
    let mu = 0.01;

    let s = d_x.clone();
    let g_l = vec![1.0];
    let g_u = vec![f64::INFINITY];
    let layout = ConstraintLayout::new(&g_l, &g_u);
    let kkt = assemble_kkt(
        n, 0, 1, &hess_rows, &hess_cols, &hess_vals,
        &[], &[], &[], &jac_d_rows, &jac_d_cols, &jac_d_vals,
        &sigma, &grad_f,
        &[], &d_x, &d_l, &d_u, &s, &[], &y_d,
        &x, &x_l, &x_u, mu, 0.0, false, &v_l, &v_u, &layout,
    );
    let d_22 = kkt.matrix.get(1, 1);
    let expected = -9e10;
    let rel = (d_22 - expected).abs() / expected.abs();
    assert!(rel < 1e-3, "(2,2) should be ≈ -9e10 with κ_σ floor; got {}", d_22);
}

#[test]
fn test_assemble_kkt_inequality_constraint() {
    let n = 1;
    let hess_rows = vec![0];
    let hess_cols = vec![0];
    let hess_vals = vec![1.0];
    let jac_d_rows = vec![0];
    let jac_d_cols = vec![0];
    let jac_d_vals = vec![1.0];
    let sigma = vec![0.0];
    let grad_f = vec![0.0];
    let d_x = vec![2.0];
    let d_l = vec![1.0];
    let d_u = vec![f64::INFINITY];
    let y_d = vec![0.0];
    let x = vec![2.0];
    let x_l = vec![f64::NEG_INFINITY];
    let x_u = vec![f64::INFINITY];
    let mu = 0.1;

    let v_l = vec![0.0_f64; 1];
    let v_u = vec![0.0_f64; 1];
    let s = d_x.clone();
    let g_l = vec![1.0];
    let g_u = vec![f64::INFINITY];
    let layout = ConstraintLayout::new(&g_l, &g_u);
    let kkt = assemble_kkt(
        n, 0, 1, &hess_rows, &hess_cols, &hess_vals,
        &[], &[], &[], &jac_d_rows, &jac_d_cols, &jac_d_vals,
        &sigma, &grad_f,
        &[], &d_x, &d_l, &d_u, &s, &[], &y_d,
        &x, &x_l, &x_u, mu, 0.0, false, &v_l, &v_u, &layout,
    );

    assert!(kkt.matrix.get(1, 1) < 0.0,
        "Inequality (2,2) block should be negative, got {}", kkt.matrix.get(1, 1));
}

#[test]
fn test_factor_with_inertia_correction_good() {
    let n = 2;
    let m = 1;
    let mut matrix = SymmetricMatrix::zeros(3);
    matrix.set(0, 0, 2.0);
    matrix.set(1, 1, 2.0);
    matrix.set(2, 0, 1.0);
    matrix.set(2, 1, 1.0);

    let mut kkt = KktSystem {
        dim: 3, n, m,
        matrix: KktMatrix::Dense(matrix),
        rhs: vec![1.0, 2.0, 3.0],
        delta_c_diag: vec![0.0; m],
        scale_factors: None,
        input_atags: None,
    };
    let mut solver = DenseLdl::new();
    let mut params = InertiaCorrectionParams::default();

    let (delta_w, delta_c) = factor_with_inertia_correction(&mut kkt, &mut solver, &mut params, 1e-4).unwrap();
    assert!((delta_w).abs() < 1e-15, "Good inertia should need no delta_w");
    assert!((delta_c).abs() < 1e-15, "Good inertia should need no delta_c");
}

#[test]
fn test_factor_with_inertia_correction_needs_perturbation() {
    let n = 2;
    let m = 1;
    let mut matrix = SymmetricMatrix::zeros(3);
    matrix.set(0, 0, 2.0);
    matrix.set(1, 1, 2.0);
    matrix.set(2, 2, 1.0);
    matrix.set(2, 0, 0.1);
    matrix.set(2, 1, 0.1);

    let mut kkt = KktSystem {
        dim: 3, n, m,
        matrix: KktMatrix::Dense(matrix),
        rhs: vec![1.0, 2.0, 3.0],
        delta_c_diag: vec![0.0; m],
        scale_factors: None,
        input_atags: None,
    };
    let mut solver = DenseLdl::new();
    let mut params = InertiaCorrectionParams::default();

    let result = factor_with_inertia_correction(&mut kkt, &mut solver, &mut params, 1e-4);
    match result {
        Ok((delta_w, _)) => assert!(delta_w > 0.0, "wrong inertia should require δ_w > 0"),
        Err(ripopt::linear_solver::SolverError::NumericalFailure(_)) => {}
        Err(e) => panic!("unexpected error variant: {:?}", e),
    }
}

#[test]
fn test_factor_no_delta_c_when_nonsingular() {
    let n = 2;
    let m = 1;
    let mut matrix = SymmetricMatrix::zeros(3);
    matrix.set(0, 0, 2.0);
    matrix.set(1, 1, 3.0);
    matrix.set(2, 0, 1.0);
    matrix.set(2, 1, 0.5);

    let mut kkt = KktSystem {
        dim: 3, n, m,
        matrix: KktMatrix::Dense(matrix),
        rhs: vec![1.0, 2.0, 3.0],
        delta_c_diag: vec![0.0; m],
        scale_factors: None,
        input_atags: None,
    };
    let mut solver = DenseLdl::new();
    let mut params = InertiaCorrectionParams::default();

    let (delta_w, delta_c) = factor_with_inertia_correction(
        &mut kkt, &mut solver, &mut params, 1e-4,
    ).unwrap();
    assert!(delta_w.abs() < 1e-15, "non-singular: no delta_w needed");
    assert!(delta_c.abs() < 1e-15, "non-singular: no delta_c");
}

#[test]
fn test_iterative_refinement_residual_decrease() {
    let n = 2;
    let m = 1;
    let mut matrix = SymmetricMatrix::zeros(3);
    matrix.set(0, 0, 2.0);
    matrix.set(1, 1, 3.0);
    matrix.set(2, 0, 1.0);
    matrix.set(2, 1, 1.0);
    let kkt = KktSystem {
        dim: 3, n, m,
        matrix: KktMatrix::Dense(matrix),
        rhs: vec![1.0, 0.5, -2.0],
        delta_c_diag: vec![0.0; m],
        scale_factors: None,
        input_atags: None,
    };

    let mut solver_a = DenseLdl::new();
    solver_a.factor(&kkt.matrix).unwrap();
    let ir_off = IrParams { enabled: false, steps_required: 0, max_steps: 0, ..IrParams::default() };
    let (dx_a, dy_a) = solve_for_direction_with_ir(&kkt, &mut solver_a, 0.0, 0.0, ir_off).unwrap();
    let mut sol_a = dx_a.clone();
    sol_a.extend_from_slice(&dy_a);
    let mut res_a = vec![0.0; 3];
    kkt.matrix.matvec(&sol_a, &mut res_a);
    let res_a_norm: f64 = (0..3).map(|i| (kkt.rhs[i] - res_a[i]).abs()).fold(0.0, f64::max);

    let mut solver_b = DenseLdl::new();
    solver_b.factor(&kkt.matrix).unwrap();
    let ir_on = IrParams::default();
    let (dx_b, dy_b) = solve_for_direction_with_ir(&kkt, &mut solver_b, 0.0, 0.0, ir_on).unwrap();
    let mut sol_b = dx_b.clone();
    sol_b.extend_from_slice(&dy_b);
    let mut res_b = vec![0.0; 3];
    kkt.matrix.matvec(&sol_b, &mut res_b);
    let res_b_norm: f64 = (0..3).map(|i| (kkt.rhs[i] - res_b[i]).abs()).fold(0.0, f64::max);

    assert!(res_b_norm <= res_a_norm + 1e-12,
        "IR-enabled residual {} must be <= IR-disabled residual {}", res_b_norm, res_a_norm);
    assert!(res_b_norm < 1e-10,
        "IR-enabled residual must converge to near-zero, got {}", res_b_norm);
}

#[test]
fn test_pretend_singular_once_per_iter() {
    let n = 2;
    let m = 1;
    let mut matrix = SymmetricMatrix::zeros(3);
    matrix.set(0, 0, 1.0);
    matrix.set(1, 1, 1.0);
    matrix.set(2, 0, 1e10);
    matrix.set(2, 1, 1e10);

    let mut kkt = KktSystem {
        dim: 3, n, m,
        matrix: KktMatrix::Dense(matrix),
        rhs: vec![1.0, 1.0, 0.0],
        delta_c_diag: vec![0.0; m],
        scale_factors: None,
        input_atags: None,
    };
    let mut solver = DenseLdl::new();
    let mut params = InertiaCorrectionParams::default();
    let _ = solver.factor(&kkt.matrix);

    let r1 = solve_for_direction_iter_aware(&kkt, &mut solver, &mut params, 0.0, 0.0);
    if !matches!(r1, Err(SolverError::PretendSingular)) {
        assert!(!params.pretend_singular_used,
            "flag must not be set on a successful solve");
        return;
    }
    assert!(params.pretend_singular_used,
        "first PretendSingular must record the flag");

    let r2 = solve_for_direction_iter_aware(&kkt, &mut solver, &mut params, 0.0, 0.0);
    assert!(!matches!(r2, Err(SolverError::PretendSingular)),
        "second pretend-singular within the same outer iter must be refused, got {:?}", r2);

    params.reset_pretend_singular_for_new_iter();
    assert!(!params.pretend_singular_used,
        "reset_pretend_singular_for_new_iter clears the flag");
    let r3 = solve_for_direction_iter_aware(&kkt, &mut solver, &mut params, 0.0, 0.0);
    assert!(matches!(r3, Err(SolverError::PretendSingular)),
        "after reset, pretend-singular should fire again on the same singular system");
}

#[test]
fn test_factor_delta_c_on_singular() {
    let n = 2;
    let m = 1;
    let mut matrix = SymmetricMatrix::zeros(3);
    matrix.set(0, 0, 2.0);
    matrix.set(1, 1, 3.0);

    let mut kkt = KktSystem {
        dim: 3, n, m,
        matrix: KktMatrix::Dense(matrix),
        rhs: vec![1.0, 2.0, 3.0],
        delta_c_diag: vec![0.0; m],
        scale_factors: None,
        input_atags: None,
    };
    let mut solver = DenseLdl::new();
    let mut params = InertiaCorrectionParams::default();

    let result = factor_with_inertia_correction(
        &mut kkt, &mut solver, &mut params, 1e-4,
    );
    let (_delta_w, delta_c) = result.expect("factorization should recover from singularity");
    assert!(delta_c > 0.0,
        "singular system: delta_c must be > 0 (PerturbForSingularity)");
}

#[test]
fn test_factor_with_inertia_correction_warm_start() {
    let n = 2;
    let m = 1;
    let mut matrix = SymmetricMatrix::zeros(3);
    matrix.set(0, 0, 2.0);
    matrix.set(1, 1, 2.0);
    matrix.set(2, 2, 1.0);
    matrix.set(2, 0, 0.1);
    matrix.set(2, 1, 0.1);

    let mut kkt = KktSystem {
        dim: 3, n, m,
        matrix: KktMatrix::Dense(matrix),
        rhs: vec![1.0, 2.0, 3.0],
        delta_c_diag: vec![0.0; m],
        scale_factors: None,
        input_atags: None,
    };
    let mut solver = DenseLdl::new();
    let mut params = InertiaCorrectionParams::default();
    params.delta_w_last = 1.0;

    let result = factor_with_inertia_correction(&mut kkt, &mut solver, &mut params, 1e-4);
    match result {
        Ok((delta_w, _)) => {
            let warm_start = 1.0 * params.delta_w_dec_fact;
            assert!(
                delta_w >= warm_start - 1e-12,
                "Warm-start should begin from delta_w_last * dec_fact ({}); got {}",
                warm_start, delta_w
            );
        }
        Err(ripopt::linear_solver::SolverError::NumericalFailure(_)) => {}
        Err(e) => panic!("unexpected error variant: {:?}", e),
    }
}

#[test]
fn test_factor_with_inertia_correction_growth_sequence() {
    let n = 2;
    let m = 1;
    let mut matrix = SymmetricMatrix::zeros(3);
    matrix.set(0, 0, -1.0);
    matrix.set(1, 1, -1.0);
    matrix.set(2, 0, 1.0);
    matrix.set(2, 1, 1.0);

    let mut kkt = KktSystem {
        dim: 3, n, m,
        matrix: KktMatrix::Dense(matrix),
        rhs: vec![1.0, 2.0, 3.0],
        delta_c_diag: vec![0.0; m],
        scale_factors: None,
        input_atags: None,
    };
    let mut solver = DenseLdl::new();
    let mut params = InertiaCorrectionParams::default();
    let (delta_w, _dc) = factor_with_inertia_correction(&mut kkt, &mut solver, &mut params, 1e-4).unwrap();
    assert!(delta_w >= params.delta_w_init,
        "delta_w should be at least delta_w_init, got {}", delta_w);
    assert!((params.delta_w_last - delta_w).abs() < 1e-15,
        "delta_w_last should equal the successful delta_w");
    assert_eq!(params.degeneracy_count, 1);
}

#[test]
fn test_inertia_first_inc_factor_used_when_cold() {
    let n = 2;
    let m = 2;
    let mut matrix = SymmetricMatrix::zeros(4);
    for i in 0..4 { matrix.set(i, i, 1.0); }
    matrix.set(2, 0, 0.5);
    matrix.set(3, 1, 0.5);
    let mut kkt = KktSystem {
        dim: 4, n, m,
        matrix: KktMatrix::Dense(matrix),
        rhs: vec![1.0, 2.0, 3.0, 4.0],
        delta_c_diag: vec![0.0; m],
        scale_factors: None,
        input_atags: None,
    };
    let mut solver = DenseLdl::new();
    let mut params = InertiaCorrectionParams::default();
    let result = factor_with_inertia_correction(&mut kkt, &mut solver, &mut params, 1.0);
    match result {
        Ok((delta_w, _)) => {
            if delta_w > params.delta_w_init * 1.5 {
                assert!(
                    delta_w >= params.delta_w_init * params.delta_w_inc_fact_first - 1e-12,
                    "Cold escalation should jump by 100x, not 8x; got delta_w={:.3e}",
                    delta_w
                );
            }
        }
        Err(ripopt::linear_solver::SolverError::NumericalFailure(_)) => {}
        Err(e) => panic!("unexpected error variant: {:?}", e),
    }
}

#[test]
fn test_inertia_dec_fact_warm_shrinks_by_one_third() {
    let n = 2;
    let m = 1;
    let mut matrix = SymmetricMatrix::zeros(3);
    matrix.set(0, 0, -1.0);
    matrix.set(1, 1, -1.0);
    matrix.set(2, 2, 1.0);
    matrix.set(2, 0, 0.1);
    matrix.set(2, 1, 0.1);
    let mut kkt2 = KktSystem {
        dim: 3, n, m,
        matrix: KktMatrix::Dense(matrix),
        rhs: vec![1.0, 2.0, 3.0],
        delta_c_diag: vec![0.0; m],
        scale_factors: None,
        input_atags: None,
    };
    let mut solver = DenseLdl::new();
    let mut params = InertiaCorrectionParams::default();
    params.delta_w_last = 0.9;
    let result = factor_with_inertia_correction(&mut kkt2, &mut solver, &mut params, 1e-4);
    match result {
        Ok((delta_w, _)) => {
            let expected_initial = 0.9 * (1.0 / 3.0);
            assert!(
                delta_w >= expected_initial - 1e-12,
                "Warm-shrink should start at delta_w_last * 1/3 = {:.3e}; got {:.3e}",
                expected_initial, delta_w
            );
            assert!(
                delta_w > 0.9 / 8.0,
                "delta_w should not shrink by the growth factor"
            );
        }
        Err(ripopt::linear_solver::SolverError::NumericalFailure(_)) => {}
        Err(e) => panic!("unexpected error variant: {:?}", e),
    }
}

#[test]
fn test_inertia_max_perturbation_cap() {
    let n = 2;
    let m = 2;
    let mut matrix = SymmetricMatrix::zeros(4);
    for i in 0..4 { matrix.set(i, i, 1.0); }
    matrix.set(2, 0, 0.1);
    matrix.set(3, 1, 0.1);
    let mut kkt = KktSystem {
        dim: 4, n, m,
        matrix: KktMatrix::Dense(matrix),
        rhs: vec![1.0, 2.0, 3.0, 4.0],
        delta_c_diag: vec![0.0; m],
        scale_factors: None,
        input_atags: None,
    };
    let mut solver = DenseLdl::new();
    let mut params = InertiaCorrectionParams {
        delta_w_max: 1e-2,
        max_attempts: 100,
        ..Default::default()
    };
    let result = factor_with_inertia_correction(&mut kkt, &mut solver, &mut params, 1e-4);
    match result {
        Ok(_) => {}
        Err(ripopt::linear_solver::SolverError::NumericalFailure(_)) => {}
        Err(e) => panic!("unexpected error variant on cap exhaustion: {:?}", e),
    }
}

#[test]
fn test_factor_with_inertia_correction_max_attempts_cap() {
    let n = 2;
    let m = 2;
    let mut matrix = SymmetricMatrix::zeros(4);
    for i in 0..4 { matrix.set(i, i, 1.0); }
    matrix.set(2, 0, 0.1);
    matrix.set(3, 1, 0.1);

    let mut kkt = KktSystem {
        dim: 4, n, m,
        matrix: KktMatrix::Dense(matrix),
        rhs: vec![1.0, 2.0, 3.0, 4.0],
        delta_c_diag: vec![0.0; m],
        scale_factors: None,
        input_atags: None,
    };
    let mut solver = DenseLdl::new();
    let mut params = InertiaCorrectionParams {
        max_attempts: 3,
        ..Default::default()
    };
    let result = factor_with_inertia_correction(&mut kkt, &mut solver, &mut params, 1e-4);
    match result {
        Ok((delta_w, delta_c)) => {
            assert!(delta_w >= 0.0, "delta_w must be non-negative, got {}", delta_w);
            assert!(delta_c >= 0.0, "delta_c must be non-negative, got {}", delta_c);
        }
        Err(ripopt::linear_solver::SolverError::NumericalFailure(_)) => {}
        Err(e) => panic!("unexpected error variant: {:?}", e),
    }
}

#[test]
fn test_factor_with_inertia_correction_degeneracy_count_sets_structural_flag() {
    let n = 2;
    let m = 1;
    let mut params = InertiaCorrectionParams::default();

    for _ in 0..3 {
        let mut matrix = SymmetricMatrix::zeros(3);
        matrix.set(0, 0, -1.0);
        matrix.set(1, 1, -1.0);
        matrix.set(2, 0, 1.0);
        matrix.set(2, 1, 1.0);
        let mut kkt = KktSystem {
            dim: 3, n, m,
            matrix: KktMatrix::Dense(matrix),
            rhs: vec![1.0, 2.0, 3.0],
            delta_c_diag: vec![0.0; m],
            scale_factors: None,
            input_atags: None,
        };
        let mut solver = DenseLdl::new();
        factor_with_inertia_correction(&mut kkt, &mut solver, &mut params, 1e-4).unwrap();
    }
    assert!(params.degeneracy_count >= 3,
        "each iteration needed δ_x, degeneracy_count must reach 3");
}

#[test]
fn test_factor_with_inertia_correction_unconstrained_uses_min_diagonal_path() {
    let n = 2;
    let m = 0;
    let mut matrix = SymmetricMatrix::zeros(2);
    matrix.set(0, 0, -2.0);
    matrix.set(1, 1, 3.0);
    let mut kkt = KktSystem {
        dim: 2, n, m,
        matrix: KktMatrix::Dense(matrix),
        rhs: vec![1.0, 1.0],
        delta_c_diag: vec![0.0; m],
        scale_factors: None,
        input_atags: None,
    };
    let mut solver = DenseLdl::new();
    let mut params = InertiaCorrectionParams::default();
    let (delta_w, delta_c) = factor_with_inertia_correction(&mut kkt, &mut solver, &mut params, 1e-4).unwrap();
    assert!(delta_w > 0.0, "indefinite unconstrained needs delta_w > 0, got {}", delta_w);
    assert_eq!(delta_c, 0.0, "unconstrained (m=0) must have delta_c = 0");
}

#[test]
fn test_solve_for_direction_simple() {
    let n = 2;
    let m = 1;
    let mut matrix = SymmetricMatrix::zeros(3);
    matrix.set(0, 0, 2.0);
    matrix.set(1, 1, 2.0);
    matrix.set(2, 0, 1.0);
    matrix.set(2, 1, 1.0);

    let rhs = vec![1.0, 2.0, 0.5];
    let kkt = KktSystem {
        dim: 3, n, m,
        matrix: KktMatrix::Dense(matrix.clone()),
        rhs: rhs.clone(),
        delta_c_diag: vec![0.0; m],
        scale_factors: None,
        input_atags: None,
    };

    let mut solver = DenseLdl::new();
    solver.factor(&KktMatrix::Dense(matrix.clone())).unwrap();

    let (dx, dy) = solve_for_direction(&kkt, &mut solver, 0.0, 0.0).unwrap();
    assert_eq!(dx.len(), 2);
    assert_eq!(dy.len(), 1);

    let mut sol = vec![0.0; 3];
    sol[..2].copy_from_slice(&dx);
    sol[2] = dy[0];
    let mut ax = vec![0.0; 3];
    matrix.matvec(&sol, &mut ax);
    for i in 0..3 {
        assert!((ax[i] - rhs[i]).abs() < 1e-8,
            "KKT*solution mismatch at {}: {} vs {}", i, ax[i], rhs[i]);
    }
}

#[test]
fn test_recover_dz_no_bounds() {
    let x = vec![1.0, 2.0];
    let x_l = vec![f64::NEG_INFINITY; 2];
    let x_u = vec![f64::INFINITY; 2];
    let z_l = vec![0.0; 2];
    let z_u = vec![0.0; 2];
    let dx = vec![0.1, 0.2];
    let (dz_l, dz_u) = recover_dz(&x, &x_l, &x_u, &z_l, &z_u, &dx, 0.1);
    for i in 0..2 {
        assert!((dz_l[i]).abs() < 1e-15);
        assert!((dz_u[i]).abs() < 1e-15);
    }
}

#[test]
fn test_recover_dz_lower_bound() {
    let x = vec![1.5];
    let x_l = vec![1.0];
    let x_u = vec![f64::INFINITY];
    let z_l = vec![2.0];
    let z_u = vec![0.0];
    let dx = vec![0.1];
    let mu = 0.1;
    let (dz_l, _) = recover_dz(&x, &x_l, &x_u, &z_l, &z_u, &dx, mu);
    assert!((dz_l[0] - (-2.2)).abs() < 1e-12);
}

fn build_test_kkt() -> KktSystem {
    let n = 2;
    let m = 1;
    let mut matrix = SymmetricMatrix::zeros(3);
    matrix.set(0, 0, 2.0);
    matrix.set(1, 1, 2.0);
    matrix.set(2, 0, 1.0);
    matrix.set(2, 1, 1.0);
    KktSystem {
        dim: 3, n, m,
        matrix: KktMatrix::Dense(matrix),
        rhs: vec![1.0, 2.0, 3.0],
        delta_c_diag: vec![0.0; m],
        scale_factors: None,
        input_atags: Some(KktInputAtags::default()),
    }
}

#[test]
fn test_factor_cache_hit_when_unchanged() {
    let mut kkt = build_test_kkt();
    let mut solver = DenseLdl::new();
    let mut params = InertiaCorrectionParams::default();
    let mut cache = FactorCache::new();
    cache.enabled = true;

    let r1 = factor_with_inertia_correction_cached(
        &mut kkt, &mut solver, &mut params, 1e-4, &mut cache,
    ).unwrap();
    assert_eq!(cache.factor_calls, 1, "first call must factor");
    assert_eq!(cache.hits, 0);
    assert_eq!(cache.misses, 1);

    let r2 = factor_with_inertia_correction_cached(
        &mut kkt, &mut solver, &mut params, 1e-4, &mut cache,
    ).unwrap();
    assert_eq!(cache.factor_calls, 1, "second call must NOT factor");
    assert_eq!(cache.hits, 1);
    assert_eq!(r1.0.to_bits(), r2.0.to_bits());
    assert_eq!(r1.1.to_bits(), r2.1.to_bits());
}

#[test]
fn test_factor_cache_miss_on_zl_change() {
    let mut kkt = build_test_kkt();
    let mut solver = DenseLdl::new();
    let mut params = InertiaCorrectionParams::default();
    let mut cache = FactorCache::new();
    cache.enabled = true;

    factor_with_inertia_correction_cached(
        &mut kkt, &mut solver, &mut params, 1e-4, &mut cache,
    ).unwrap();
    assert_eq!(cache.factor_calls, 1);

    if let Some(ref mut atags) = kkt.input_atags {
        atags.z_l = atags.z_l.wrapping_add(1);
    }

    factor_with_inertia_correction_cached(
        &mut kkt, &mut solver, &mut params, 1e-4, &mut cache,
    ).unwrap();
    assert_eq!(cache.factor_calls, 2, "z_l change must invalidate cache");
    assert_eq!(cache.hits, 0);
    assert_eq!(cache.misses, 2);
}

#[test]
fn test_factor_cache_disabled_still_factors() {
    let mut kkt = build_test_kkt();
    let mut solver = DenseLdl::new();
    let mut params = InertiaCorrectionParams::default();
    let mut cache = FactorCache::new();

    factor_with_inertia_correction_cached(
        &mut kkt, &mut solver, &mut params, 1e-4, &mut cache,
    ).unwrap();
    factor_with_inertia_correction_cached(
        &mut kkt, &mut solver, &mut params, 1e-4, &mut cache,
    ).unwrap();
    assert_eq!(cache.factor_calls, 2,
        "cache disabled: every call must factor");
    assert_eq!(cache.hits, 0);
    assert_eq!(cache.misses, 0);
}

#[test]
fn test_factor_cache_invalidate_forces_refactor() {
    let mut kkt = build_test_kkt();
    let mut solver = DenseLdl::new();
    let mut params = InertiaCorrectionParams::default();
    let mut cache = FactorCache::new();
    cache.enabled = true;

    factor_with_inertia_correction_cached(
        &mut kkt, &mut solver, &mut params, 1e-4, &mut cache,
    ).unwrap();
    assert_eq!(cache.factor_calls, 1);

    cache.invalidate();
    factor_with_inertia_correction_cached(
        &mut kkt, &mut solver, &mut params, 1e-4, &mut cache,
    ).unwrap();
    assert_eq!(cache.factor_calls, 2,
        "invalidate(): next call must refactor");
}

#[test]
fn test_fingerprint_matches_bit_exact() {
    let f1 = KktSystemFingerprint {
        atags: KktInputAtags::default(),
        delta_x: 1e-4,
        delta_c: 0.0,
    };
    let f2 = KktSystemFingerprint {
        atags: KktInputAtags::default(),
        delta_x: 1e-4,
        delta_c: 0.0,
    };
    assert!(f1.matches(&f2));

    let f3 = KktSystemFingerprint { delta_x: 1e-4 + f64::EPSILON, ..f1 };
    assert!(!f1.matches(&f3));

    let f_nan = KktSystemFingerprint { delta_x: f64::NAN, ..f1 };
    let f_nan2 = KktSystemFingerprint { delta_x: f64::NAN, ..f1 };
    assert!(f_nan.matches(&f_nan2),
        "to_bits()-based comparator hits identical NaN payloads (intentional)");
}

#[test]
fn test_t323_stiff_z_recovery_residual_small() {
    let n = 1;
    let m = 0;
    let x = vec![1.0 + 1e-8];
    let x_l = vec![1.0];
    let x_u = vec![f64::INFINITY];
    let z_l = vec![1e8];
    let z_u = vec![0.0];
    let mu = 1e-12;
    let h = 2.0;
    let s_l = x[0] - x_l[0];
    let sigma = z_l[0] / s_l;
    let mut matrix = SymmetricMatrix::zeros(1);
    matrix.set(0, 0, h + sigma);
    let r_x_full = vec![-1.0];
    let r_x_aug = r_x_full[0] + mu / s_l;
    let kkt = KktSystem {
        dim: n + m, n, m,
        matrix: KktMatrix::Dense(matrix),
        rhs: vec![r_x_aug],
        delta_c_diag: vec![],
        scale_factors: None,
        input_atags: None,
    };
    let mut solver = DenseLdl::new();
    solver.factor(&kkt.matrix).unwrap();

    let ctx = BoundResidualContext {
        x: &x, x_l: &x_l, x_u: &x_u,
        z_l: &z_l, z_u: &z_u,
        mu, r_x_full: &r_x_full,
    };

    let ir = IrParams::default();
    let (dx, dy) = solve_for_direction_with_ir_full(
        &kkt, &mut solver, 0.0, 0.0, ir, Some(&ctx),
    ).unwrap();
    assert_eq!(dy.len(), 0);
    assert_eq!(dx.len(), 1);

    let (dz_l, dz_u) = recover_full_step(&ctx, &dx);
    let (ratio, _, r_zl, r_zu) =
        compute_full_residual_ratio(&kkt, &ctx, &dx, &dy, &dz_l, &dz_u);
    assert!(ratio < 1e-10,
        "8-block residual ratio {} must be < 1e-10 (r_zL={}, r_zU={})",
        ratio, r_zl, r_zu);
}

#[test]
fn test_t323_option_off_identical_to_baseline() {
    let n = 2;
    let m = 1;
    let mut matrix = SymmetricMatrix::zeros(3);
    matrix.set(0, 0, 2.0);
    matrix.set(1, 1, 3.0);
    matrix.set(2, 0, 1.0);
    matrix.set(2, 1, 1.0);
    let kkt = KktSystem {
        dim: 3, n, m,
        matrix: KktMatrix::Dense(matrix),
        rhs: vec![1.0, 0.5, -2.0],
        delta_c_diag: vec![0.0; m],
        scale_factors: None,
        input_atags: None,
    };

    let mut solver_a = DenseLdl::new();
    solver_a.factor(&kkt.matrix).unwrap();
    let (dx_a, dy_a) = solve_for_direction_with_ir(
        &kkt, &mut solver_a, 0.0, 0.0, IrParams::default(),
    ).unwrap();

    let mut solver_b = DenseLdl::new();
    solver_b.factor(&kkt.matrix).unwrap();
    let (dx_b, dy_b) = solve_for_direction_with_ir_full(
        &kkt, &mut solver_b, 0.0, 0.0, IrParams::default(), None,
    ).unwrap();

    assert_eq!(dx_a.len(), dx_b.len());
    for i in 0..dx_a.len() {
        assert!((dx_a[i] - dx_b[i]).abs() < 1e-15,
            "dx[{}] differs ({} vs {})", i, dx_a[i], dx_b[i]);
    }
    for i in 0..dy_a.len() {
        assert!((dy_a[i] - dy_b[i]).abs() < 1e-15,
            "dy[{}] differs ({} vs {})", i, dy_a[i], dy_b[i]);
    }
}

#[test]
fn test_t323_correction_monotone_nonworsening() {
    let n = 1;
    let m = 0;
    let x = vec![1.0 + 1e-10];
    let x_l = vec![1.0];
    let x_u = vec![f64::INFINITY];
    let z_l = vec![1e10];
    let z_u = vec![0.0];
    let mu = 1e-12;
    let h = 1.0;
    let s_l = x[0] - x_l[0];
    let sigma = z_l[0] / s_l;
    let mut matrix = SymmetricMatrix::zeros(1);
    matrix.set(0, 0, h + sigma);
    let r_x_full = vec![-0.5];
    let r_x_aug = r_x_full[0] + mu / s_l;
    let kkt = KktSystem {
        dim: 1, n, m,
        matrix: KktMatrix::Dense(matrix),
        rhs: vec![r_x_aug],
        delta_c_diag: vec![],
        scale_factors: None,
        input_atags: None,
    };
    let mut solver_a = DenseLdl::new();
    solver_a.factor(&kkt.matrix).unwrap();
    let (dx_a, dy_a) = solve_for_direction_with_ir(
        &kkt, &mut solver_a, 0.0, 0.0, IrParams::default(),
    ).unwrap();
    let ctx = BoundResidualContext {
        x: &x, x_l: &x_l, x_u: &x_u, z_l: &z_l, z_u: &z_u, mu, r_x_full: &r_x_full,
    };
    let (dz_l_a, dz_u_a) = recover_full_step(&ctx, &dx_a);
    let (ratio_baseline, _, _, _) =
        compute_full_residual_ratio(&kkt, &ctx, &dx_a, &dy_a, &dz_l_a, &dz_u_a);

    let mut solver_b = DenseLdl::new();
    solver_b.factor(&kkt.matrix).unwrap();
    let (dx_b, dy_b) = solve_for_direction_with_ir_full(
        &kkt, &mut solver_b, 0.0, 0.0, IrParams::default(), Some(&ctx),
    ).unwrap();
    let (dz_l_b, dz_u_b) = recover_full_step(&ctx, &dx_b);
    let (ratio_full, _, _, _) =
        compute_full_residual_ratio(&kkt, &ctx, &dx_b, &dy_b, &dz_l_b, &dz_u_b);

    assert!(ratio_full <= ratio_baseline + 1e-15,
        "full-residual path must not regress; baseline={}, full={}",
        ratio_baseline, ratio_full);
}

#[test]
fn test_t323_ir_ctx_off_bit_exact() {
    let n = 2;
    let m = 1;
    let mut matrix = SymmetricMatrix::zeros(3);
    matrix.set(0, 0, 4.0);
    matrix.set(1, 1, 5.0);
    matrix.set(2, 0, 1.0);
    matrix.set(2, 1, -2.0);
    let kkt = KktSystem {
        dim: 3, n, m,
        matrix: KktMatrix::Dense(matrix),
        rhs: vec![0.7, -0.3, 1.2],
        delta_c_diag: vec![0.0; m],
        scale_factors: None,
        input_atags: None,
    };
    let mut solver_a = DenseLdl::new();
    solver_a.factor(&kkt.matrix).unwrap();
    let (dx_a, dy_a) = solve_for_direction_with_ir(
        &kkt, &mut solver_a, 0.0, 0.0, IrParams::default(),
    ).unwrap();
    let mut solver_b = DenseLdl::new();
    solver_b.factor(&kkt.matrix).unwrap();
    let (dx_b, dy_b) = solve_for_direction_with_ir_ctx(
        &kkt, &mut solver_b, 0.0, 0.0, IrParams::default(), None,
    ).unwrap();
    for i in 0..n { assert_eq!(dx_a[i], dx_b[i],
        "dx[{}] differs ({} vs {})", i, dx_a[i], dx_b[i]); }
    for i in 0..m { assert_eq!(dy_a[i], dy_b[i],
        "dy[{}] differs ({} vs {})", i, dy_a[i], dy_b[i]); }
}

#[test]
fn test_t323_ir_ctx_solution_correctness() {
    let n = 2;
    let m = 1;
    let mut matrix = SymmetricMatrix::zeros(3);
    matrix.set(0, 0, 4.0);
    matrix.set(1, 1, 5.0);
    matrix.set(2, 0, 1.0);
    matrix.set(2, 1, -2.0);
    let kkt = KktSystem {
        dim: 3, n, m,
        matrix: KktMatrix::Dense(matrix),
        rhs: vec![0.7, -0.3, 1.2],
        delta_c_diag: vec![0.0; m],
        scale_factors: None,
        input_atags: None,
    };
    let x = vec![1.0, 2.0];
    let x_l = vec![0.5, 1.0];
    let x_u = vec![f64::INFINITY, f64::INFINITY];
    let z_l = vec![0.1, 0.2];
    let z_u = vec![0.0, 0.0];
    let r_x_full: Vec<f64> = Vec::new();
    let ctx = BoundResidualContext {
        x: &x, x_l: &x_l, x_u: &x_u, z_l: &z_l, z_u: &z_u,
        mu: 1e-3, r_x_full: &r_x_full,
    };
    let mut solver = DenseLdl::new();
    solver.factor(&kkt.matrix).unwrap();
    let (dx, dy) = solve_for_direction_with_ir_ctx(
        &kkt, &mut solver, 0.0, 0.0, IrParams::default(), Some(&ctx),
    ).unwrap();
    let mut sol = dx.clone();
    sol.extend_from_slice(&dy);
    let mut res = vec![0.0; 3];
    kkt.matrix.matvec(&sol, &mut res);
    for i in 0..3 {
        let r = (kkt.rhs[i] - res[i]).abs();
        assert!(r < 1e-12,
            "ctx=Some: augmented residual[{}]={} not near zero", i, r);
    }
}

fn steps(v: &[f64]) -> Vec<u64> {
    bits(v)
}

#[test]
fn compressed_multipliers_give_the_same_diagonal() {
    let x = steps(&[1.5, 2.0, 0.5]);
    let x_l = steps(&[1.0, f64::NEG_INFINITY, 0.0]);
    let x_u = steps(&[2.0, 3.0, f64::INFINITY]);
    let all = ripopt::kkt::compute_sigma(
        &x,
        &x_l,
        &x_u,
        &steps(&[2.0, 0.0, 4.0]),
        &steps(&[3.0, 5.0, 0.0]),
        &unit(),
    );
    let layout = ripopt::kkt::layout::BoundLayout::new(&x_l, &x_u);
    let packed = ripopt::kkt::compute_sigma_compressed(
        &x,
        &x_l,
        &x_u,
        &steps(&[2.0, 4.0]),
        &steps(&[3.0, 5.0]),
        &layout,
        &unit(),
    );
    assert_eq!(numbers(&all), vec![10.0, 5.0, 8.0]);
    assert_eq!(all, packed);
}

#[test]
fn an_equation_has_no_slack_step() {
    let ds = ripopt::kkt::recover_ds(
        1,
        2,
        &[0, 1],
        &[0, 0],
        &steps(&[2.0, 3.0]),
        &steps(&[1.0, 4.0]),
        &steps(&[1.0, 0.0]),
        &steps(&[1.0, f64::INFINITY]),
        &steps(&[1.0, 5.0]),
        &steps(&[0.5]),
        &steps(&[0.0, 0.0]),
        &steps(&[]),
        &unit(),
    );
    assert_eq!(numbers(&ds)[0], 0.0);
    assert_eq!(numbers(&ds)[1], 3.0 * 0.5 + 4.0 - 5.0);
}

#[test]
fn a_perturbation_beyond_its_limit_is_given_up() {
    let mut kkt = build_test_kkt();
    let mut m = SymmetricMatrix::zeros(3);
    for i in 0..3 {
        m.set(i, i, 1.0);
    }
    kkt.matrix = KktMatrix::Dense(m);
    let mut params = InertiaCorrectionParams { delta_w_max: 1e-3, ..Default::default() };
    let r = factor_with_inertia_correction(&mut kkt, &mut DenseLdl::new(), &mut params, 1e-4);
    assert!(matches!(r, Err(SolverError::NumericalFailure(_))));
}

#[test]
fn many_sides_are_solved_one_after_the_other() {
    let kkt = build_test_kkt();
    let mut solver = DenseLdl::new();
    solver.factor(&kkt.matrix).unwrap();
    let sides = vec![steps(&[1.0, 2.0, 3.0]), steps(&[0.0, 1.0, 0.0])];
    let many = ripopt::kkt::solve_with_custom_rhs_many(2, 3, &mut solver, &sides).unwrap();
    assert_eq!(many.len(), 2);
    for (side, (dx, dy)) in sides.iter().zip(many.iter()) {
        let mut sol = numbers(dx);
        sol.extend(numbers(dy));
        let mut out = vec![0.0; 3];
        kkt.matrix.matvec(&sol, &mut out);
        for (a, b) in out.iter().zip(numbers(side)) {
            assert!((a - b).abs() < 1e-12);
        }
    }
}

#[test]
fn a_condensed_slack_is_recovered() {
    // Slack 2 off its bound, multipliers 4 and 1.5, barrier parameter 1: the
    // diagonal of the slack is 2, and its right-hand side 1.5 + 1 / 2.
    let layout = ConstraintLayout::new(&[0.0], &[f64::INFINITY]);
    let kkt = assemble_kkt(
        1, 0, 1, &[0], &[0], &[1.0],
        &[], &[], &[], &[0], &[0], &[1.0],
        &[0.0], &[0.0],
        &[], &[3.0], &[0.0], &[f64::INFINITY], &[2.0], &[], &[1.5],
        &[3.0], &[f64::NEG_INFINITY], &[f64::INFINITY], 1.0, 0.0, false, &[4.0], &[0.0], &layout,
    );
    assert_eq!(kkt.matrix.get(1, 1), -0.5);
    assert_eq!(kkt.rhs[1], -1.0 + 0.5 * 2.0);
    // A step of the variable and the multiplier that meets the condensed row.
    let (dx, dy) = (1.0, 2.0);
    assert_eq!(dx - 0.5 * dy, kkt.rhs[1]);
    let ds = numbers(&ripopt::kkt::recover_ds(
        1, 1, &[0], &[0], &bits(&[1.0]), &bits(&[3.0]), &bits(&[0.0]), &bits(&[f64::INFINITY]),
        &bits(&[2.0]), &bits(&[dx]), &bits(&[dy]), &[], &unit(),
    ));
    assert_eq!(2.0 * ds[0] - dy, 2.0);
}
