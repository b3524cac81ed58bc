//! KKT systems condensed to the variables.

use crate::linear_solver::dense_matrix::SymmetricMatrix;
use crate::linear_solver::sparse_matrix::SparseSymmetricMatrix;
use vstd::prelude::*;

verus! {

/// A KKT system condensed to the variables, for many more constraints than
/// variables: `S = H + Sigma + delta I + J^T D^-1 J`.
#[derive(Debug)]
pub struct CondensedKktSystem {
    /// The condensed matrix.
    pub matrix: SymmetricMatrix,
    pub rhs: Vec<u64>,
    /// Number of variables.
    pub n: usize,
    /// Number of constraints.
    pub m: usize,
    /// Diagonal of the constraint block.
    pub d_c: Vec<u64>,
    /// Right-hand side of the variables before condensation.
    pub rhs_primal: Vec<u64>,
    /// Right-hand side of the constraints.
    pub rhs_constraint: Vec<u64>,
    pub jac_rows: Vec<usize>,
    pub jac_cols: Vec<usize>,
    pub jac_vals: Vec<u64>,
}

/// A condensed KKT system with a sparse matrix.
#[derive(Debug)]
pub struct SparseCondensedKktSystem {
    pub matrix: SparseSymmetricMatrix,
    pub rhs: Vec<u64>,
    pub n: usize,
    pub m: usize,
    pub d_c: Vec<u64>,
    pub rhs_primal: Vec<u64>,
    pub rhs_constraint: Vec<u64>,
    pub jac_rows: Vec<usize>,
    pub jac_cols: Vec<usize>,
    pub jac_vals: Vec<u64>,
}

} // verus!
