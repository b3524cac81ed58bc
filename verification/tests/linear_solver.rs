//! Matrices.

use ripopt::float::{FloatOp, Fpu};
use ripopt::linear_solver::dense_matrix::SymmetricMatrix as Packed;
use ripopt::linear_solver::KktMatrix as Kkt;

fn arithmetic(op: FloatOp, a: u64, b: u64) -> u64 {
    let (x, y) = (f64::from_bits(a), f64::from_bits(b));
    let r = match op {
        FloatOp::Add => x + y,
        FloatOp::Sub => x - y,
        FloatOp::Mul => x * y,
        FloatOp::Div => x / y,
        FloatOp::Rem => x % y,
        FloatOp::Pow => x.powf(y),
        FloatOp::Atan2 => x.atan2(y),
        FloatOp::Max => x.max(y),
        FloatOp::Min => x.min(y),
        FloatOp::Floor => x.floor(),
        FloatOp::Ceil => x.ceil(),
        FloatOp::Sqrt => x.sqrt(),
        FloatOp::Exp => x.exp(),
        FloatOp::Ln => x.ln(),
        FloatOp::Log10 => x.log10(),
        FloatOp::Sin => x.sin(),
        FloatOp::Cos => x.cos(),
        FloatOp::Tan => x.tan(),
        FloatOp::Asin => x.asin(),
        FloatOp::Acos => x.acos(),
        FloatOp::Atan => x.atan(),
        FloatOp::Sinh => x.sinh(),
        FloatOp::Cosh => x.cosh(),
        FloatOp::Tanh => x.tanh(),
        FloatOp::Asinh => x.asinh(),
        FloatOp::Acosh => x.acosh(),
        FloatOp::Atanh => x.atanh(),
        FloatOp::FromCount => a as f64,
    };
    r.to_bits()
}

type Unit = Fpu<fn(FloatOp, u64, u64) -> u64>;

fn unit() -> Unit {
    Fpu { f: arithmetic }
}

fn bits(v: &[f64]) -> Vec<u64> {
    v.iter().map(|x| x.to_bits()).collect()
}

fn numbers(v: &[u64]) -> Vec<f64> {
    v.iter().map(|b| f64::from_bits(*b)).collect()
}

/// A packed matrix of `f64`.
struct SymmetricMatrix {
    n: usize,
    data: Vec<u64>,
}

impl SymmetricMatrix {
    fn packed(&self) -> Packed {
        Packed { n: self.n, data: self.data.clone() }
    }

    fn of(m: Packed) -> Self {
        SymmetricMatrix { n: m.n, data: m.data }
    }

    fn change(&mut self, f: impl FnOnce(&mut Packed)) {
        let mut m = self.packed();
        f(&mut m);
        *self = SymmetricMatrix::of(m);
    }

    fn zeros(n: usize) -> Self {
        SymmetricMatrix::of(Packed::zeros(n))
    }

    fn packed_index(n: usize, i: usize, j: usize) -> usize {
        Packed::packed_index(n, i, j)
    }

    fn set(&mut self, i: usize, j: usize, v: f64) {
        self.change(|m| m.set(i, j, v.to_bits()));
    }

    fn add(&mut self, i: usize, j: usize, v: f64) {
        self.change(|m| m.add(i, j, v.to_bits(), &unit()));
    }

    fn get(&self, i: usize, j: usize) -> f64 {
        f64::from_bits(self.packed().get(i, j))
    }

    fn add_diagonal(&mut self, v: f64) {
        self.change(|m| m.add_diagonal(v.to_bits(), &unit()));
    }

    fn add_diagonal_range(&mut self, start: usize, end: usize, v: f64) {
        self.change(|m| m.add_diagonal_range(start, end, v.to_bits(), &unit()));
    }

    fn matvec(&self, x: &[f64], y: &mut [f64]) {
        let mut out = bits(y);
        self.packed().matvec(&bits(x), &mut out, &unit());
        y.copy_from_slice(&numbers(&out));
    }

    fn to_full(&self) -> Vec<Vec<f64>> {
        self.packed().to_full().iter().map(|r| numbers(r)).collect()
    }

    fn eigenvalues(&self) -> Vec<f64> {
        numbers(&self.packed().eigenvalues(&unit()))
    }
}

/// A matrix of `f64`, dense or sparse.
struct KktMatrix(Kkt);

impl KktMatrix {
    fn zeros_dense(n: usize) -> Self {
        KktMatrix(Kkt::zeros_dense(n))
    }

    fn zeros_sparse(n: usize, capacity: usize) -> Self {
        KktMatrix(Kkt::zeros_sparse(n, capacity))
    }

    fn add(&mut self, i: usize, j: usize, v: f64) {
        self.0.add(i, j, v.to_bits(), &unit());
    }

    fn get(&self, i: usize, j: usize) -> f64 {
        f64::from_bits(self.0.get(i, j, &unit()))
    }

    fn matvec(&self, x: &[f64], y: &mut [f64]) {
        let mut out = bits(y);
        self.0.matvec(&bits(x), &mut out, &unit());
        y.copy_from_slice(&numbers(&out));
    }
}

#[test]
fn test_zeros_creates_correct_size() {
    // n=0
    let m = SymmetricMatrix::zeros(0);
    assert_eq!(m.n, 0);
    assert_eq!(m.data.len(), 0);
    // n=1
    let m = SymmetricMatrix::zeros(1);
    assert_eq!(m.n, 1);
    assert_eq!(m.data.len(), 1);
    // n=4
    let m = SymmetricMatrix::zeros(4);
    assert_eq!(m.n, 4);
    assert_eq!(m.data.len(), 10); // 4*5/2
}

#[test]
fn test_packed_index_j_zero() {
    // Regression: old formula j*(j-1)/2 underflowed for j=0 with usize
    // New formula: j*n - j*(j+1)/2 + i
    // For n=3, (0,0) should be index 0
    assert_eq!(SymmetricMatrix::packed_index(3, 0, 0), 0);
    // (1,0) should be 1
    assert_eq!(SymmetricMatrix::packed_index(3, 1, 0), 1);
    // (2,0) should be 2
    assert_eq!(SymmetricMatrix::packed_index(3, 2, 0), 2);
    // (1,1) should be 3
    assert_eq!(SymmetricMatrix::packed_index(3, 1, 1), 3);
    // (2,1) should be 4
    assert_eq!(SymmetricMatrix::packed_index(3, 2, 1), 4);
    // (2,2) should be 5
    assert_eq!(SymmetricMatrix::packed_index(3, 2, 2), 5);
}

#[test]
fn test_get_set_symmetry() {
    let mut m = SymmetricMatrix::zeros(3);
    m.set(2, 1, 7.5);
    assert!((m.get(2, 1) - 7.5).abs() < 1e-15);
    assert!((m.get(1, 2) - 7.5).abs() < 1e-15);
}

#[test]
fn test_add_accumulates() {
    let mut m = SymmetricMatrix::zeros(2);
    m.set(0, 0, 3.0);
    m.add(0, 0, 2.0);
    assert!((m.get(0, 0) - 5.0).abs() < 1e-15);
}

#[test]
fn test_add_diagonal() {
    let mut m = SymmetricMatrix::zeros(3);
    m.add_diagonal(5.0);
    for i in 0..3 {
        assert!((m.get(i, i) - 5.0).abs() < 1e-15);
    }
    // Off-diagonal should remain 0
    assert!((m.get(1, 0)).abs() < 1e-15);
}

#[test]
fn test_add_diagonal_range() {
    let mut m = SymmetricMatrix::zeros(4);
    m.add_diagonal_range(1, 3, 2.0);
    assert!((m.get(0, 0)).abs() < 1e-15);
    assert!((m.get(1, 1) - 2.0).abs() < 1e-15);
    assert!((m.get(2, 2) - 2.0).abs() < 1e-15);
    assert!((m.get(3, 3)).abs() < 1e-15);
}

#[test]
fn test_matvec_identity() {
    let mut m = SymmetricMatrix::zeros(3);
    for i in 0..3 {
        m.set(i, i, 1.0);
    }
    let x = [2.0, 3.0, 4.0];
    let mut y = [0.0; 3];
    m.matvec(&x, &mut y);
    for i in 0..3 {
        assert!((y[i] - x[i]).abs() < 1e-15);
    }
}

#[test]
fn test_matvec_symmetric() {
    // A = [[2, 1, 0], [1, 3, 1], [0, 1, 4]]
    let mut m = SymmetricMatrix::zeros(3);
    m.set(0, 0, 2.0);
    m.set(1, 0, 1.0);
    m.set(1, 1, 3.0);
    m.set(2, 1, 1.0);
    m.set(2, 2, 4.0);
    let x = [1.0, 2.0, 3.0];
    let mut y = [0.0; 3];
    m.matvec(&x, &mut y);
    // y = [2*1+1*2+0*3, 1*1+3*2+1*3, 0*1+1*2+4*3] = [4, 10, 14]
    assert!((y[0] - 4.0).abs() < 1e-15);
    assert!((y[1] - 10.0).abs() < 1e-15);
    assert!((y[2] - 14.0).abs() < 1e-15);
}

#[test]
fn test_matvec_zero_vector() {
    let mut m = SymmetricMatrix::zeros(3);
    m.set(0, 0, 5.0);
    m.set(1, 1, 3.0);
    let x = [0.0, 0.0, 0.0];
    let mut y = [0.0; 3];
    m.matvec(&x, &mut y);
    for i in 0..3 {
        assert!((y[i]).abs() < 1e-15);
    }
}

#[test]
fn test_to_full_round_trip() {
    let mut m = SymmetricMatrix::zeros(3);
    m.set(0, 0, 1.0);
    m.set(1, 0, 2.0);
    m.set(1, 1, 3.0);
    m.set(2, 0, 4.0);
    m.set(2, 1, 5.0);
    m.set(2, 2, 6.0);
    let full = m.to_full();
    assert!((full[0][0] - 1.0).abs() < 1e-15);
    assert!((full[0][1] - 2.0).abs() < 1e-15);
    assert!((full[1][0] - 2.0).abs() < 1e-15);
    assert!((full[1][1] - 3.0).abs() < 1e-15);
    assert!((full[0][2] - 4.0).abs() < 1e-15);
    assert!((full[2][0] - 4.0).abs() < 1e-15);
    assert!((full[2][2] - 6.0).abs() < 1e-15);
}

#[test]
fn test_eigenvalues_identity() {
    let mut m = SymmetricMatrix::zeros(3);
    for i in 0..3 {
        m.set(i, i, 1.0);
    }
    let eigs = m.eigenvalues();
    assert_eq!(eigs.len(), 3);
    for e in &eigs {
        assert!((e - 1.0).abs() < 1e-10);
    }
}

#[test]
fn test_eigenvalues_known_spectrum() {
    // [[2, 1], [1, 2]] has eigenvalues 1 and 3
    let mut m = SymmetricMatrix::zeros(2);
    m.set(0, 0, 2.0);
    m.set(1, 0, 1.0);
    m.set(1, 1, 2.0);
    let eigs = m.eigenvalues();
    assert_eq!(eigs.len(), 2);
    assert!((eigs[0] - 1.0).abs() < 1e-10);
    assert!((eigs[1] - 3.0).abs() < 1e-10);
}

// --- KktMatrix tests ---

#[test]
fn test_kkt_matrix_dense_add_get() {
    let mut m = KktMatrix::zeros_dense(3);
    m.add(0, 0, 2.0);
    m.add(1, 0, 1.5);
    m.add(2, 2, 3.0);
    assert!((m.get(0, 0) - 2.0).abs() < 1e-15);
    assert!((m.get(1, 0) - 1.5).abs() < 1e-15);
    assert!((m.get(0, 1) - 1.5).abs() < 1e-15);
    assert!((m.get(2, 2) - 3.0).abs() < 1e-15);
}

#[test]
fn test_kkt_matrix_sparse_add_get() {
    let mut m = KktMatrix::zeros_sparse(3, 10);
    m.add(0, 0, 2.0);
    m.add(1, 0, 1.5);
    m.add(2, 2, 3.0);
    assert!((m.get(0, 0) - 2.0).abs() < 1e-15);
    assert!((m.get(1, 0) - 1.5).abs() < 1e-15);
    assert!((m.get(0, 1) - 1.5).abs() < 1e-15);
    assert!((m.get(2, 2) - 3.0).abs() < 1e-15);
}

#[test]
fn test_kkt_matrix_sparse_matvec() {
    // A = [[2, 1, 0], [1, 3, 1], [0, 1, 4]]
    let mut m = KktMatrix::zeros_sparse(3, 10);
    m.add(0, 0, 2.0);
    m.add(1, 0, 1.0);
    m.add(1, 1, 3.0);
    m.add(2, 1, 1.0);
    m.add(2, 2, 4.0);
    let x = [1.0, 2.0, 3.0];
    let mut y = [0.0; 3];
    m.matvec(&x, &mut y);
    assert!((y[0] - 4.0).abs() < 1e-15);
    assert!((y[1] - 10.0).abs() < 1e-15);
    assert!((y[2] - 14.0).abs() < 1e-15);
}

#[test]
fn eigenvalues_come_in_ascending_order() {
    let mut m = SymmetricMatrix::zeros(3);
    m.set(0, 0, 5.0);
    m.set(1, 1, -2.0);
    m.set(2, 2, 1.0);
    assert_eq!(m.eigenvalues(), vec![-2.0, 1.0, 5.0]);
    m.set(1, 0, 3.0);
    m.set(2, 0, -1.0);
    m.set(2, 1, 0.5);
    let eigs = m.eigenvalues();
    assert!(eigs[0] <= eigs[1] && eigs[1] <= eigs[2]);
    assert!((eigs.iter().sum::<f64>() - 4.0).abs() < 1e-10);
    assert!(SymmetricMatrix::zeros(0).eigenvalues().is_empty());
    let mut one = SymmetricMatrix::zeros(1);
    one.set(0, 0, 7.0);
    assert_eq!(one.eigenvalues(), vec![7.0]);
}

#[test]
fn sparse_entries_at_one_place_add_up() {
    let mut m = KktMatrix::zeros_sparse(2, 4);
    m.add(0, 1, 1.0);
    m.add(1, 0, 2.5);
    assert_eq!(m.get(0, 1), 3.5);
    assert_eq!(m.get(1, 0), 3.5);
    assert_eq!(m.get(1, 1), 0.0);
}

#[test]
fn row_norms_and_scaling_agree_in_both_storages() {
    for mut m in [KktMatrix::zeros_dense(2), KktMatrix::zeros_sparse(2, 4)] {
        m.add(0, 0, -4.0);
        m.add(1, 0, 2.0);
        m.add(1, 1, 1.0);
        assert_eq!(numbers(&m.0.row_abs_max(&unit())), vec![4.0, 2.0]);
        assert_eq!(numbers(&m.0.row_abs_sum(&unit())), vec![6.0, 3.0]);
        m.0.scale_row_col(0, 0.5f64.to_bits(), &unit());
        assert_eq!(m.get(0, 0), -1.0);
        assert_eq!(m.get(0, 1), 1.0);
        assert_eq!(m.get(1, 1), 1.0);
        m.0.add_diagonal(10.0f64.to_bits(), &unit());
        assert_eq!(m.get(0, 0), 9.0);
        assert_eq!(m.get(1, 1), 11.0);
        m.0.add_diagonal_range(1, 2, (-1.0f64).to_bits(), &unit());
        assert_eq!(m.get(0, 0), 9.0);
        assert_eq!(m.get(1, 1), 10.0);
    }
}

#[test]
fn norms_are_those_of_the_summed_entries() {
    let mut one = KktMatrix::zeros_sparse(1, 3);
    one.add(0, 0, 2.0);
    one.add(0, 0, 3.0);
    assert_eq!(numbers(&one.0.row_abs_max(&unit())), vec![5.0]);
    assert_eq!(numbers(&one.0.row_abs_sum(&unit())), vec![5.0]);
    for mut m in [KktMatrix::zeros_dense(3), KktMatrix::zeros_sparse(3, 9)] {
        m.add(2, 0, 4.0);
        m.add(1, 1, -1.0);
        m.add(0, 2, -6.0);
        m.add(0, 1, 0.5);
        m.add(1, 0, 0.25);
        m.add(2, 2, 1.0);
        assert_eq!(numbers(&m.0.row_abs_max(&unit())), vec![2.0, 1.0, 2.0]);
        assert_eq!(numbers(&m.0.row_abs_sum(&unit())), vec![2.75, 1.75, 3.0]);
    }
}
