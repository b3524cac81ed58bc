//! Core of a primal-dual interior-point solver for nonlinear programs.

pub mod float;
pub mod kkt;
pub mod kkt_aug;
pub mod l1_penalty_barrier_nlp;
pub mod linear_rows;
pub mod linear_solver;
pub mod linearity;
pub mod nl;
pub mod options;
pub mod penalty;
pub mod preprocessing;
pub mod problem;
pub mod reduction_frame;
pub mod result;
pub mod retry;
pub mod sorted;
pub mod text;

pub use options::{
    BoundMultInitMethod, FixedVariableTreatment, LinearSolverChoice, NlpScalingMethod,
    SolverOptions,
};
pub use problem::NlpProblem;
pub use result::{SolveResult, SolveStatus};
pub use retry::solve;
