//! Low-rank corrections.

use ripopt::float::{FloatOp, Fpu};
use ripopt::linear_solver::solver::LinearSolver;
use ripopt::linear_solver::{Inertia, SolverError};

fn arithmetic(op: FloatOp, a: u64, b: u64) -> u64 {
    let (x, y) = (f64::from_bits(a), f64::from_bits(b));
    let r = match op {
        FloatOp::Add => x + y,
        FloatOp::Sub => x - y,
        FloatOp::Mul => x * y,
        FloatOp::Div => x / y,
        FloatOp::Rem => x % y,
        FloatOp::Pow => x.powf(y),
        FloatOp::Atan2 => x.atan2(y),
        FloatOp::Max => x.max(y),
        FloatOp::Min => x.min(y),
        FloatOp::Floor => x.floor(),
        FloatOp::Ceil => x.ceil(),
        FloatOp::Sqrt => x.sqrt(),
        FloatOp::Exp => x.exp(),
        FloatOp::Ln => x.ln(),
        FloatOp::Log10 => x.log10(),
        FloatOp::Sin => x.sin(),
        FloatOp::Cos => x.cos(),
        FloatOp::Tan => x.tan(),
        FloatOp::Asin => x.asin(),
        FloatOp::Acos => x.acos(),
        FloatOp::Atan => x.atan(),
        FloatOp::Sinh => x.sinh(),
        FloatOp::Cosh => x.cosh(),
        FloatOp::Tanh => x.tanh(),
        FloatOp::Asinh => x.asinh(),
        FloatOp::Acosh => x.acosh(),
        FloatOp::Atanh => x.atanh(),
        FloatOp::FromCount => a as f64,
    };
    r.to_bits()
}

type Unit = Fpu<fn(FloatOp, u64, u64) -> u64>;

fn unit() -> Unit {
    Fpu { f: arithmetic }
}

fn bits(v: &[f64]) -> Vec<u64> {
    v.iter().map(|x| x.to_bits()).collect()
}

fn numbers(v: &[u64]) -> Vec<f64> {
    v.iter().map(|b| f64::from_bits(*b)).collect()
}

/// A dense solver: elimination with row exchanges, and the inertia from the
/// eigenvalues.
struct DenseLdl {
    n: usize,
    rows: Vec<Vec<f64>>,
    least: Option<f64>,
    factor_calls: usize,
}

impl DenseLdl {
    fn new() -> Self {
        DenseLdl { n: 0, rows: Vec::new(), least: None, factor_calls: 0 }
    }

    fn full(matrix: &ripopt::linear_solver::KktMatrix) -> Vec<Vec<f64>> {
        let n = matrix.n();
        (0..n)
            .map(|i| (0..n).map(|j| f64::from_bits(matrix.get(i, j, &unit()))).collect())
            .collect()
    }
}

impl LinearSolver for DenseLdl {
    fn factor(
        &mut self,
        matrix: &ripopt::linear_solver::KktMatrix,
    ) -> Result<Option<Inertia>, SolverError> {
        self.factor_calls += 1;
        self.n = matrix.n();
        self.rows = DenseLdl::full(matrix);
        let mut packed = ripopt::linear_solver::dense_matrix::SymmetricMatrix::zeros(self.n);
        for i in 0..self.n {
            for j in 0..=i {
                packed.set(i, j, self.rows[i][j].to_bits());
            }
        }
        let eigs = numbers(&packed.eigenvalues(&unit()));
        let top = eigs.iter().fold(0.0f64, |a, e| a.max(e.abs()));
        let tiny = 1e-14 * top;
        self.least = eigs.first().copied();
        Ok(Some(Inertia {
            positive: eigs.iter().filter(|e| **e > tiny).count(),
            negative: eigs.iter().filter(|e| **e < -tiny).count(),
            zero: eigs.iter().filter(|e| e.abs() <= tiny).count(),
        }))
    }

    fn solve(&mut self, rhs: &Vec<u64>, solution: &mut Vec<u64>) -> Result<(), SolverError> {
        let n = self.n;
        let mut a = self.rows.clone();
        let mut b = numbers(rhs);
        for k in 0..n {
            let mut p = k;
            for i in k + 1..n {
                if a[i][k].abs() > a[p][k].abs() {
                    p = i;
                }
            }
            if a[p][k] == 0.0 {
                return Err(SolverError::SingularMatrix);
            }
            a.swap(k, p);
            b.swap(k, p);
            for i in k + 1..n {
                let f = a[i][k] / a[k][k];
                for j in k..n {
                    let v = a[k][j];
                    a[i][j] -= f * v;
                }
                b[i] -= f * b[k];
            }
        }
        for k in (0..n).rev() {
            for j in k + 1..n {
                b[k] -= a[k][j] * b[j];
            }
            b[k] /= a[k][k];
        }
        solution.copy_from_slice(&bits(&b));
        Ok(())
    }

    fn provides_inertia(&self) -> bool {
        true
    }

    fn min_diagonal(&self) -> Option<u64> {
        self.least.map(|v| v.to_bits())
    }

    fn increase_quality(&mut self) -> bool {
        false
    }
}

/// A matrix of `f64`.
#[derive(Clone)]
struct KktMatrix(ripopt::linear_solver::KktMatrix);

impl KktMatrix {
    fn zeros_dense(n: usize) -> Self {
        KktMatrix(ripopt::linear_solver::KktMatrix::zeros_dense(n))
    }

    fn add(&mut self, i: usize, j: usize, v: f64) {
        self.0.add(i, j, v.to_bits(), &unit());
    }

    fn matvec(&self, x: &[f64], y: &mut [f64]) {
        let mut out = bits(y);
        self.0.matvec(&bits(x), &mut out, &unit());
        y.copy_from_slice(&numbers(&out));
    }
}

impl DenseLdl {
    fn factor(&mut self, matrix: &KktMatrix) -> Result<Option<Inertia>, SolverError> {
        LinearSolver::factor(self, &matrix.0)
    }

    fn solve(&mut self, rhs: &[f64], solution: &mut [f64]) -> Result<(), SolverError> {
        let mut out = bits(solution);
        let r = LinearSolver::solve(self, &bits(rhs), &mut out);
        solution.copy_from_slice(&numbers(&out));
        r
    }
}

struct LbfgsCompact {
    n: usize,
    k: usize,
    sigma: f64,
    v: Vec<f64>,
    u: Vec<f64>,
}

impl LbfgsCompact {
    fn empty(n: usize, sigma: f64) -> Self {
        LbfgsCompact { n, k: 0, sigma, v: Vec::new(), u: Vec::new() }
    }
}

struct LowRankKktSolver(ripopt::linear_solver::low_rank_kkt::LowRankKktSolver<DenseLdl>);

impl LowRankKktSolver {
    fn new(inner: DenseLdl) -> Self {
        LowRankKktSolver(ripopt::linear_solver::low_rank_kkt::LowRankKktSolver::new(inner))
    }

    fn factor(
        &mut self,
        base: &KktMatrix,
        compact: &LbfgsCompact,
        n_aug: usize,
    ) -> Result<Option<Inertia>, SolverError> {
        let c = ripopt::linear_solver::low_rank_kkt::LbfgsCompact {
            n: compact.n,
            k: compact.k,
            sigma: compact.sigma.to_bits(),
            v: bits(&compact.v),
            u: bits(&compact.u),
        };
        self.0.factor(&base.0, &c, n_aug, &unit())
    }

    fn solve(&mut self, rhs: &[f64], solution: &mut [f64]) -> Result<(), SolverError> {
        let mut out = bits(solution);
        let r = self.0.solve(&bits(rhs), &mut out, &unit());
        solution.copy_from_slice(&numbers(&out));
        r
    }
}

#[test]
fn low_rank_wrapper_matches_dense_reference() {
    let n = 5;
    let m = 2;
    let n_aug = n + m;
    let k = 3;
    let sigma = 1.7;

    let v_data: Vec<f64> = (0..(n * k))
        .map(|i| ((i as f64) * 0.31 - 0.5).sin() * 0.4)
        .collect();
    let u_data: Vec<f64> = (0..(n * k))
        .map(|i| ((i as f64) * 0.21 + 0.2).cos() * 0.25)
        .collect();
    let compact = LbfgsCompact {
        n,
        k,
        sigma,
        v: v_data.clone(),
        u: u_data.clone(),
    };

    let j_mat: Vec<f64> = vec![
        1.0, 0.5, 0.0, 0.2, -0.3,
        -0.1, 0.4, 0.7, 0.0, 0.1,
    ];
    let sigma_x: Vec<f64> = vec![0.5, 0.6, 0.7, 0.4, 0.5];
    let delta_c = 1e-8;

    let build_kkt = |hess_dense: Option<&[f64]>| {
        let mut kkt = KktMatrix::zeros_dense(n_aug);
        for i in 0..n {
            let h_ii = match hess_dense {
                Some(b) => b[i * n + i],
                None => sigma,
            };
            kkt.add(i, i, h_ii + sigma_x[i]);
        }
        if let Some(b) = hess_dense {
            for i in 0..n {
                for jx in 0..i {
                    let v = b[i * n + jx];
                    if v != 0.0 {
                        kkt.add(i, jx, v);
                    }
                }
            }
        }
        for row in 0..m {
            for col in 0..n {
                let v = j_mat[row * n + col];
                if v != 0.0 {
                    kkt.add(n + row, col, v);
                }
            }
            kkt.add(n + row, n + row, -delta_c);
        }
        kkt
    };

    let base_kkt = build_kkt(None);

    let mut b_full = vec![0.0_f64; n * n];
    for i in 0..n {
        b_full[i * n + i] = sigma;
    }
    for j in 0..k {
        for r in 0..n {
            for c in 0..n {
                b_full[r * n + c] += v_data[r + j * n] * v_data[c + j * n]
                    - u_data[r + j * n] * u_data[c + j * n];
            }
        }
    }
    let full_kkt = build_kkt(Some(&b_full));

    let rhs: Vec<f64> = (0..n_aug)
        .map(|i| ((i as f64) * 0.7 - 1.3).sin())
        .collect();

    let mut ref_solver = DenseLdl::new();
    ref_solver
        .factor(&full_kkt)
        .expect("reference LDLᵀ should factor full KKT");
    let mut ref_sol = vec![0.0_f64; n_aug];
    ref_solver.solve(&rhs, &mut ref_sol).expect("ref solve");

    let mut wrapper = LowRankKktSolver::new(DenseLdl::new());
    wrapper
        .factor(&base_kkt, &compact, n_aug)
        .expect("wrapper factor");
    let mut wrap_sol = vec![0.0_f64; n_aug];
    wrapper.solve(&rhs, &mut wrap_sol).expect("wrapper solve");

    let mut resid = vec![0.0_f64; n_aug];
    full_kkt.matvec(&wrap_sol, &mut resid);
    for i in 0..n_aug {
        resid[i] -= rhs[i];
    }
    let resid_norm: f64 = resid.iter().map(|r| r * r).sum::<f64>().sqrt();
    let rhs_norm: f64 = rhs.iter().map(|r| r * r).sum::<f64>().sqrt();
    assert!(
        resid_norm / rhs_norm < 1e-10,
        "wrapper solve residual too large: {:e} / {:e}",
        resid_norm,
        rhs_norm
    );

    for i in 0..n_aug {
        let denom = ref_sol[i].abs().max(1e-12);
        let diff = (ref_sol[i] - wrap_sol[i]).abs();
        assert!(
            diff / denom < 1e-9,
            "row {i}: ref={} wrap={} |Δ|={diff:e}",
            ref_sol[i],
            wrap_sol[i]
        );
    }
}

#[test]
fn low_rank_wrapper_matches_dense_reference_k6() {
    let n = 12;
    let m = 4;
    let n_aug = n + m;
    let k = 6;
    let sigma = 2.3;

    let v_data: Vec<f64> = (0..(n * k))
        .map(|i| ((i as f64) * 0.13 - 0.7).sin() * 0.5)
        .collect();
    let u_data: Vec<f64> = (0..(n * k))
        .map(|i| ((i as f64) * 0.17 + 0.3).cos() * 0.3)
        .collect();
    let compact = LbfgsCompact { n, k, sigma, v: v_data.clone(), u: u_data.clone() };

    let j_mat: Vec<f64> = (0..(m * n))
        .map(|i| ((i as f64) * 0.41 + 0.1).sin() * 0.6)
        .collect();
    let sigma_x: Vec<f64> = (0..n).map(|i| 0.4 + 0.05 * (i as f64)).collect();
    let delta_c = 1e-8;

    let build_kkt = |hess_dense: Option<&[f64]>| {
        let mut kkt = KktMatrix::zeros_dense(n_aug);
        for i in 0..n {
            let h_ii = match hess_dense {
                Some(b) => b[i * n + i],
                None => sigma,
            };
            kkt.add(i, i, h_ii + sigma_x[i]);
        }
        if let Some(b) = hess_dense {
            for i in 0..n {
                for jx in 0..i {
                    kkt.add(i, jx, b[i * n + jx]);
                }
            }
        }
        for row in 0..m {
            for col in 0..n {
                kkt.add(n + row, col, j_mat[row * n + col]);
            }
            kkt.add(n + row, n + row, -delta_c);
        }
        kkt
    };

    let base_kkt = build_kkt(None);

    let mut b_full = vec![0.0_f64; n * n];
    for i in 0..n {
        b_full[i * n + i] = sigma;
    }
    for j in 0..k {
        for r in 0..n {
            for c in 0..n {
                b_full[r * n + c] +=
                    v_data[r + j * n] * v_data[c + j * n] - u_data[r + j * n] * u_data[c + j * n];
            }
        }
    }
    let full_kkt = build_kkt(Some(&b_full));

    let rhs: Vec<f64> = (0..n_aug)
        .map(|i| ((i as f64) * 0.9 - 0.5).cos())
        .collect();

    let mut ref_solver = DenseLdl::new();
    ref_solver.factor(&full_kkt).expect("ref factor");
    let mut ref_sol = vec![0.0_f64; n_aug];
    ref_solver.solve(&rhs, &mut ref_sol).expect("ref solve");
    let mut ref_resid = vec![0.0_f64; n_aug];
    full_kkt.matvec(&ref_sol, &mut ref_resid);
    for i in 0..n_aug {
        ref_resid[i] -= rhs[i];
    }
    let ref_resid_norm: f64 = ref_resid.iter().map(|r| r * r).sum::<f64>().sqrt();

    let mut wrapper = LowRankKktSolver::new(DenseLdl::new());
    wrapper.factor(&base_kkt, &compact, n_aug).expect("factor");
    let mut wrap_sol = vec![0.0_f64; n_aug];
    wrapper.solve(&rhs, &mut wrap_sol).expect("solve");

    let mut resid = vec![0.0_f64; n_aug];
    full_kkt.matvec(&wrap_sol, &mut resid);
    for i in 0..n_aug {
        resid[i] -= rhs[i];
    }
    let resid_norm: f64 = resid.iter().map(|r| r * r).sum::<f64>().sqrt();
    let rhs_norm: f64 = rhs.iter().map(|r| r * r).sum::<f64>().sqrt();
    let bound = (100.0 * ref_resid_norm).max(1e-7);
    assert!(
        resid_norm < bound,
        "k=6 residual too large: {:e} (ref {:e}, bound {:e}, ||rhs||={:e})",
        resid_norm,
        ref_resid_norm,
        bound,
        rhs_norm
    );

    let rhs2: Vec<f64> = (0..n_aug).map(|i| 1.0 / (1.0 + i as f64)).collect();
    let mut wrap_sol2 = vec![0.0_f64; n_aug];
    wrapper.solve(&rhs2, &mut wrap_sol2).expect("solve2");
    let mut resid2 = vec![0.0_f64; n_aug];
    full_kkt.matvec(&wrap_sol2, &mut resid2);
    for i in 0..n_aug {
        resid2[i] -= rhs2[i];
    }
    let resid2_norm: f64 = resid2.iter().map(|r| r * r).sum::<f64>().sqrt();
    assert!(
        resid2_norm < bound,
        "k=6 second-RHS residual too large: {:e} (bound {:e})",
        resid2_norm, bound
    );
}

#[test]
fn low_rank_wrapper_k0_passes_through() {
    let n = 3;
    let m = 1;
    let n_aug = n + m;
    let sigma = 0.9;

    let mut kkt = KktMatrix::zeros_dense(n_aug);
    for i in 0..n {
        kkt.add(i, i, sigma + 0.4);
    }
    kkt.add(n, 0, 1.0);
    kkt.add(n, 1, 0.5);
    kkt.add(n, n, -1e-8);

    let compact = LbfgsCompact::empty(n, sigma);
    let mut wrapper = LowRankKktSolver::new(DenseLdl::new());
    wrapper.factor(&kkt, &compact, n_aug).expect("factor");

    let rhs = vec![1.0, -2.0, 3.0, 0.5];
    let mut wrap_sol = vec![0.0; n_aug];
    wrapper.solve(&rhs, &mut wrap_sol).expect("solve");

    let mut ref_solver = DenseLdl::new();
    ref_solver.factor(&kkt).expect("ref factor");
    let mut ref_sol = vec![0.0; n_aug];
    ref_solver.solve(&rhs, &mut ref_sol).expect("ref solve");

    for i in 0..n_aug {
        assert!(
            (wrap_sol[i] - ref_sol[i]).abs() < 1e-12,
            "row {i}: wrap={} ref={}",
            wrap_sol[i],
            ref_sol[i]
        );
    }
}

#[test]
fn a_solve_before_any_factorization_is_refused() {
    let mut wrapper = LowRankKktSolver::new(DenseLdl::new());
    let r = wrapper.solve(&[1.0], &mut [0.0]);
    assert!(matches!(r, Err(SolverError::NumericalFailure(_))));
}

#[test]
fn a_matrix_of_another_size_is_refused() {
    let mut wrapper = LowRankKktSolver::new(DenseLdl::new());
    let base = KktMatrix::zeros_dense(2);
    let r = wrapper.factor(&base, &LbfgsCompact::empty(1, 1.0), 3);
    assert!(matches!(r, Err(SolverError::DimensionMismatch { .. })));
}

#[test]
fn a_correction_that_is_not_positive_definite_is_refused() {
    let mut base = KktMatrix::zeros_dense(1);
    base.add(0, 0, 1.0);
    let c = LbfgsCompact { n: 1, k: 1, sigma: 1.0, v: vec![0.0], u: vec![2.0] };
    let mut wrapper = LowRankKktSolver::new(DenseLdl::new());
    assert!(wrapper.factor(&base, &c, 1).is_err());
}
