//! AMPL `.nl` problems: expressions and evaluation tapes.

pub mod autodiff;
pub mod caching;
pub mod calculus;
pub mod chain;
pub mod completeness;
pub mod curvature;
pub mod derivative;
pub mod differentials;
pub mod expr;
pub mod expr_text;
pub mod externals;
pub mod lagrangian;
pub mod meaning;
pub mod parser;
pub mod problem_impl;
pub mod scan;
pub mod second_derivative;
pub mod slopes;
pub mod sol;
pub mod sol_reading;
pub mod sparsity;
pub mod sweeps;
pub mod written;
pub mod written_expr;
pub mod written_file;

pub use parser::{parse_nl_file, NlScalingFactors, NlSuffix, SuffixKind};
pub use problem_impl::NlProblem;
pub use sol::write_sol;
