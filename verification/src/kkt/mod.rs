//! The KKT system of an interior-point step.

pub mod assemble;
pub mod assembly;
pub mod barrier;
pub mod centering;
pub mod complementarity;
pub mod condensation;
pub mod condensed;
pub mod direction;
pub mod equilibration;
pub mod escalation;
pub mod factor;
pub mod inertia;
pub mod layout;
pub mod limits;
pub mod measures;
pub mod perturbation;
pub mod refined;

pub use assemble::{assemble_kkt, KktInputAtags, KktSystem};
pub use barrier::{
    affine_predictor_rhs, compute_sigma, compute_sigma_compressed, recover_ds, recover_dv,
    recover_dz,
};
pub use condensed::{CondensedKktSystem, SparseCondensedKktSystem};
pub use direction::{
    solve_for_direction, solve_for_direction_with_ir, solve_for_direction_with_ir_ctx,
    BoundResidualContext, IrParams,
};
pub use factor::{
    factor_with_inertia_correction, factor_with_inertia_correction_cached, FactorCache,
    KktSystemFingerprint,
};
pub use inertia::{DegenType, InertiaCorrectionParams, TrialStatus};
pub use refined::{
    compute_full_residual_ratio, recover_full_step, solve_for_direction_iter_aware,
    solve_for_direction_iter_aware_with_ir, solve_for_direction_iter_aware_with_ir_ctx,
    solve_for_direction_with_ir_full, solve_with_custom_rhs_many,
};
