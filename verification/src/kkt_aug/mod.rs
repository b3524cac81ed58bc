//! The augmented KKT system, in which the slacks of the inequalities are
//! unknowns of their own.
//!
//! The unknowns stand in the order variables, slacks, multipliers of the
//! equations, multipliers of the inequalities:
//!
//! ```text
//! [ W + Sx            J_c^T  J_d^T ]
//! [         Ss                -I   ]
//! [ J_c                            ]
//! [ J_d     -I                     ]
//! ```

pub mod agreement;
pub mod equations;
pub mod folding;
pub mod lengths;
pub mod newton;
pub mod probing;
pub mod step;
pub mod system;

pub use newton::{factor_aug_with_inertia_correction, solve_aug_with_ir, AugSolveResult};
pub use probing::aug_probing_mu_from_affine;
pub use step::{
    aug_soc_solve_dx, aug_soc_solve_dx_factored, aug_step_from_state,
    aug_step_from_state_mehrotra,
};
pub use system::{
    assemble_aug_kkt, build_outer_rhs, compute_sigma_s, fold_aug_rhs, recover_step,
    AugKktSystem, AugStep, ConstraintPartition, OuterRhs,
};
