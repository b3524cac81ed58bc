//! Solver options.

use vstd::prelude::*;

verus! {

/// Treatment of variables whose bounds are equal.
#[derive(Debug, Clone, Copy, PartialEq, Eq, Structural)]
pub enum FixedVariableTreatment {
    /// Widen the bounds around the fixed value, so that the variable has an
    /// interior to move in.
    RelaxBounds,
    /// Remove the variable from the problem before solving.
    MakeParameter,
}

impl Default for FixedVariableTreatment {
    fn default() -> (t: Self)
        ensures
            t == FixedVariableTreatment::MakeParameter,
    {
        FixedVariableTreatment::MakeParameter
    }
}

/// Initialization of the bound multipliers.
#[derive(Debug, Clone, Copy, PartialEq, Eq, Structural)]
pub enum BoundMultInitMethod {
    /// The same value for every finite bound.
    Constant,
    /// The initial barrier parameter divided by the distance to the bound.
    MuBased,
}

impl Default for BoundMultInitMethod {
    fn default() -> (t: Self)
        ensures
            t == BoundMultInitMethod::Constant,
    {
        BoundMultInitMethod::Constant
    }
}

/// Choice of linear solver for the KKT system.
#[derive(Debug, Clone, Copy, PartialEq, Eq, Structural)]
pub enum LinearSolverChoice {
    /// Direct factorization, which reports inertia.
    Direct,
    /// Iterative method with an incomplete factorization as preconditioner.
    Iterative,
    /// Direct at first, iterative where the direct solver fails.
    Hybrid,
}

impl Default for LinearSolverChoice {
    fn default() -> (t: Self)
        ensures
            t == LinearSolverChoice::Direct,
    {
        LinearSolverChoice::Direct
    }
}

/// Step length for the equality multipliers after a Newton step.
#[derive(Debug, Clone, Copy, PartialEq, Eq, Structural)]
pub enum AlphaForY {
    /// The primal step length.
    Primal,
    /// The step length of the bound multipliers.
    BoundMult,
    /// The smaller of the two.
    Min,
    /// The larger of the two.
    Max,
    /// The full step.
    Full,
    /// The full step where the primal step length is above a tolerance, else
    /// the primal step length.
    PrimalAndFull,
    /// The same with the step length of the bound multipliers.
    DualAndFull,
    /// The step length that minimizes the dual infeasibility.
    MinDualInfeas,
    /// The same, between the primal and the dual step length.
    SaferMinDualInfeas,
}

impl Default for AlphaForY {
    fn default() -> (t: Self)
        ensures
            t == AlphaForY::Primal,
    {
        AlphaForY::Primal
    }
}

/// Scaling of the problem.
#[derive(Debug, Clone, Copy, PartialEq, Eq, Structural)]
pub enum NlpScalingMethod {
    /// No automatic scaling.
    NoScaling,
    /// Scales from the gradients at the initial point.
    Gradient,
    /// Scales given by the user.
    User,
}

impl Default for NlpScalingMethod {
    fn default() -> (t: Self)
        ensures
            t == NlpScalingMethod::Gradient,
    {
        NlpScalingMethod::Gradient
    }
}

/// All tuning parameters. Numbers are binary64 bit patterns.
#[derive(Debug, Clone)]
pub struct SolverOptions {
    /// Convergence tolerance for optimality.
    pub tol: u64,
    /// Maximum number of iterations.
    pub max_iter: usize,
    /// Initial barrier parameter.
    pub mu_init: u64,
    /// Minimum barrier parameter.
    pub mu_min: u64,
    /// Multiplier on the initial average complementarity that bounds the adaptive barrier
    /// parameter from above.
    pub mu_max_fact: u64,
    /// Largest permitted increase of the barrier objective per trial step, as a power of ten.
    pub obj_max_inc: u64,
    /// Multiplier on the smallest step size of the line search.
    pub alpha_min_frac: u64,
    /// Number of consecutive accepted steps whose line search ended in a rejection by the
    /// filter that triggers a filter reset.
    pub filter_reset_trigger: u32,
    /// Maximum number of filter resets; 0 disables them.
    pub max_filter_resets: u32,
    /// `theta_min` of the filter is this times `max(1, theta_init)`.
    pub theta_min_fact: u64,
    /// `theta_max` of the filter is this times `max(1, theta_init)`.
    pub theta_max_fact: u64,
    /// Fraction-to-boundary parameter minimum.
    pub tau_min: u64,
    /// Barrier parameter reduction factor (monotone mode).
    pub mu_linear_decrease_factor: u64,
    /// Barrier parameter superlinear decrease power.
    pub mu_superlinear_decrease_power: u64,
    /// Print level (0 = silent, 5 = verbose).
    pub print_level: u8,
    /// Outward relaxation of every finite bound at problem setup, relative to `max(|bound|,
    /// 1)`; 0 disables it.
    pub bound_relax_factor: u64,
    /// Linear damping coefficient for variables with exactly one finite bound; 0 disables it.
    pub kappa_d: u64,
    /// Bound push for the initial point.
    pub bound_push: u64,
    /// Bound fraction for the initial point.
    pub bound_frac: u64,
    /// Slack bound push.
    pub slack_bound_push: u64,
    /// Slack bound fraction.
    pub slack_bound_frac: u64,
    /// Constraint violation tolerance for convergence.
    pub constr_viol_tol: u64,
    /// Dual infeasibility tolerance for convergence.
    pub dual_inf_tol: u64,
    /// Complementarity tolerance for convergence.
    pub compl_inf_tol: u64,
    /// Use adaptive barrier parameter update (vs monotone).
    pub mu_strategy_adaptive: bool,
    /// Maximum number of second-order correction steps.
    pub max_soc: usize,
    /// Warm-start initialization enabled.
    pub warm_start: bool,
    /// Warm-start bound push.
    pub warm_start_bound_push: u64,
    /// Warm-start bound fraction.
    pub warm_start_bound_frac: u64,
    /// Warm-start multiplier initial value.
    pub warm_start_mult_bound_push: u64,
    /// Barrier parameter at which a warm start begins; without it a warm start begins at `mu_init`.
    pub warm_start_target_mu: Option<u64>,
    /// Any bound less than this value is treated as -infinity (no bound). Set to a finite
    /// value to add artificial lower bounds on unbounded variables.
    pub nlp_lower_bound_inf: u64,
    /// Any bound greater than this value is treated as +infinity (no bound). Set to a
    /// finite value to add artificial upper bounds on unbounded variables.
    pub nlp_upper_bound_inf: u64,
    /// Adaptive barrier parameter divisor (kappa in mu = avg_compl / kappa). Higher values
    /// reduce mu faster. Default: 10.0.
    pub kappa: u64,
    /// Allow the adaptive barrier rule to increase mu when complementarity is large (e.g.,
    /// after restoration or stall recovery). Default: true.
    pub mu_allow_increase: bool,
    /// Estimate the initial constraint multipliers by least squares.
    pub least_squares_mult_init: bool,
    /// Maximum absolute value for LS multiplier init; if exceeded, fall back to zero.
    /// Default: 1000.0.
    pub constr_mult_init_max: u64,
    /// Cap on the multipliers that are kept after the restoration phase; at 0 they are set to zero.
    pub constr_mult_reset_threshold: u64,
    /// Include constraint slack log-barriers in the filter merit function. Default: true.
    pub constraint_slack_barrier: bool,
    /// Maximum wall-clock time in seconds. 0.0 means no limit.
    pub max_wall_time: u64,
    /// Number of consecutive shortened steps before activating watchdog. Default: 10.
    pub watchdog_shortened_iter_trigger: usize,
    /// Maximum trial iterations during watchdog mode. Default: 3.
    pub watchdog_trial_iter_max: usize,
    /// KKT dimension threshold for switching to sparse solver. When n + m >=
    /// sparse_threshold, use sparse LDLT instead of dense. Default: 100.
    pub sparse_threshold: usize,
    /// Barrier tolerance factor for fixed-mode mu decrease. Default: 10.0.
    pub barrier_tol_factor: u64,
    /// Allow several consecutive decreases of the barrier parameter per outer iteration in
    /// monotone mode.
    pub mu_allow_fast_monotone_decrease: bool,
    /// Initial factor for mu in fixed mode: mu = this * avg_compl. Default: 0.8.
    pub adaptive_mu_monotone_init_factor: u64,
    /// On a switch to fixed mode, restore the last iterate accepted in free mode.
    pub adaptive_mu_restore_previous_iterate: bool,
    /// Maximum iterations for restoration NLP subproblem. Default: 200.
    pub restoration_max_iter: usize,
    /// Disable NLP restoration (prevents recursion in inner solve). Default: false.
    pub disable_nlp_restoration: bool,
    /// Required reduction of the infeasibility for the restoration phase to succeed.
    pub kappa_resto: u64,
    /// Weight of the proximity term of the restoration objective.
    pub resto_proximity_weight: u64,
    /// Enable preprocessing to internally solve and remove auxiliary equality systems,
    /// eliminate fixed variables, and remove redundant constraints. Default: true.
    pub enable_preprocessing: bool,
    /// Maximum accepted residual for internal auxiliary equality-system solves during
    /// preprocessing. Default: 1e-8.
    pub auxiliary_tol: u64,
    /// Detect linear constraints and skip their Hessian contribution. Default: true.
    pub detect_linear_constraints: bool,
    /// Approximate the Hessian by L-BFGS instead of evaluating it.
    pub hessian_approximation_lbfgs: bool,
    /// Choose the barrier parameter by a predictor step.
    pub mehrotra_pc: bool,
    /// Maximum number of centrality corrections per iteration; 0 disables them.
    pub gondzio_mcc_max: usize,
    /// Choice of sparse linear solver. Default: Direct.
    pub linear_solver: LinearSolverChoice,
    /// Recompute the equality multipliers by least squares after each accepted step.
    pub recalc_y: bool,
    /// Constraint violation below which `recalc_y` recomputes.
    pub recalc_y_feas_tol: u64,
    /// Step length for the equality multipliers.
    pub alpha_for_y: AlphaForY,
    /// Step length above which `PrimalAndFull` and `DualAndFull` take the full step.
    pub alpha_for_y_tol: u64,
    /// Relative multiplier step below which a tiny primal step counts as tiny.
    pub tiny_step_y_tol: u64,
    /// Choose the barrier parameter of adaptive mode by a quality function.
    pub mu_oracle_quality_function: bool,
    /// Add a centrality penalty to the quality function.
    pub quality_function_centrality: bool,
    /// Maximum number of golden-section steps of the quality function.
    pub quality_function_max_section_steps: usize,
    /// How the problem is scaled.
    pub nlp_scaling_method: NlpScalingMethod,
    /// Factor on top of the computed objective scale; a negative one maximizes.
    pub obj_scaling_factor: u64,
    /// Gradient magnitude above which gradient-based scaling scales down.
    pub nlp_scaling_max_gradient: u64,
    /// Smallest scale that gradient-based scaling gives.
    pub nlp_scaling_min_value: u64,
    /// Where positive, the objective gradient is scaled to this magnitude.
    pub nlp_scaling_obj_target_gradient: u64,
    /// Where positive, the constraint gradients are scaled to this magnitude.
    pub nlp_scaling_constr_target_gradient: u64,
    /// Objective scale given by the user.
    pub user_obj_scaling: Option<u64>,
    /// Constraint scales given by the user.
    pub user_g_scaling: Option<Vec<u64>>,
    /// Variable scales given by the user.
    pub user_x_scaling: Option<Vec<u64>>,
    /// Initial constraint multipliers for warm starting.
    pub warm_start_y: Option<Vec<u64>>,
    /// Initial lower-bound multipliers for warm starting.
    pub warm_start_z_l: Option<Vec<u64>>,
    /// Initial upper-bound multipliers for warm starting.
    pub warm_start_z_u: Option<Vec<u64>>,
    /// Initial constraint slacks for warm starting.
    pub warm_start_s: Option<Vec<u64>>,
    /// Initial lower-bound multipliers of the slacks for warm starting.
    pub warm_start_v_l: Option<Vec<u64>>,
    /// Initial upper-bound multipliers of the slacks for warm starting.
    pub warm_start_v_u: Option<Vec<u64>>,
    /// Refine the solutions of the augmented system iteratively.
    pub use_ic_refinement: bool,
    /// Minimum refinement steps per solve.
    pub iterative_refinement_steps_required: usize,
    /// Maximum refinement steps per solve.
    pub max_refinement_steps: usize,
    /// Refinement goes on while the residual ratio is above this.
    pub residual_ratio_max: u64,
    /// Residual ratio above which the system is taken as singular.
    pub residual_ratio_singular: u64,
    /// Refinement gives up where the residual ratio does not fall below this times the
    /// previous one.
    pub residual_improvement_factor: u64,
    /// Check the residual of the full primal-dual system after refinement.
    pub ir_residual_full_8_block: bool,
    /// Reuse a factorization while the inputs of the matrix are unchanged. Default: false.
    pub factor_cache_enabled: bool,
    /// Directory into which the matrices are written.
    pub kkt_dump_dir: Option<String>,
    /// Problem name in the names of the written files.
    pub kkt_dump_name: String,
    /// Slack below which a bound is moved outward.
    pub slack_move: u64,
    /// Adjust the slacks of inequality constraints after an accepted step.
    pub magic_step: bool,
    /// How the bound multipliers are initialized.
    pub bound_mult_init_method: BoundMultInitMethod,
    /// Initial bound multiplier of `Constant`.
    pub bound_mult_init_val: u64,
    /// Treatment of variables whose bounds are equal.
    pub fixed_variable_treatment: FixedVariableTreatment,
    /// Relative change of the objective up to which an iterate counts as acceptable.
    pub acceptable_obj_change_tol: u64,
    /// Number of consecutive acceptable iterations that end the solve; 0 disables it.
    pub acceptable_iter: usize,
    /// Size of an iterate above which it is diverging.
    pub diverging_iterates_tol: u64,
}

impl Default for SolverOptions {
    fn default() -> (o: Self)
        ensures
            o.tol == 0x3e45_798e_e230_8c3au64,
            o.max_iter == 3000,
            o.mu_init == 0x3fb9_9999_9999_999au64,
            o.mu_min == 0x3da5_fd7f_e179_6495u64,
            o.mu_max_fact == 0x408f_4000_0000_0000u64,
            o.obj_max_inc == 0x4014_0000_0000_0000u64,
            o.alpha_min_frac == 0x3fa9_9999_9999_999au64,
            o.filter_reset_trigger == 5,
            o.max_filter_resets == 5,
            o.theta_min_fact == 0x3f1a_36e2_eb1c_432du64,
            o.theta_max_fact == 0x40c3_8800_0000_0000u64,
            o.tau_min == 0x3fef_ae14_7ae1_47aeu64,
            o.mu_linear_decrease_factor == 0x3fc9_9999_9999_999au64,
            o.mu_superlinear_decrease_power == 0x3ff8_0000_0000_0000u64,
            o.print_level == 5,
            o.bound_relax_factor == 0x3e45_798e_e230_8c3au64,
            o.kappa_d == 0x3ee4_f8b5_88e3_68f1u64,
            o.bound_push == 0x3f84_7ae1_47ae_147bu64,
            o.bound_frac == 0x3f84_7ae1_47ae_147bu64,
            o.slack_bound_push == 0x3f84_7ae1_47ae_147bu64,
            o.slack_bound_frac == 0x3f84_7ae1_47ae_147bu64,
            o.constr_viol_tol == 0x3f1a_36e2_eb1c_432du64,
            o.dual_inf_tol == 0x3ff0_0000_0000_0000u64,
            o.compl_inf_tol == 0x3f1a_36e2_eb1c_432du64,
            !o.mu_strategy_adaptive,
            o.max_soc == 4,
            !o.warm_start,
            o.warm_start_bound_push == 0x3f50_624d_d2f1_a9fcu64,
            o.warm_start_bound_frac == 0x3f50_624d_d2f1_a9fcu64,
            o.warm_start_mult_bound_push == 0x3f50_624d_d2f1_a9fcu64,
            o.warm_start_target_mu is None,
            o.nlp_lower_bound_inf == 0xc3e1_58e4_6091_3d00u64,
            o.nlp_upper_bound_inf == 0x43e1_58e4_6091_3d00u64,
            o.kappa == 0x4024_0000_0000_0000u64,
            o.mu_allow_increase,
            o.least_squares_mult_init,
            o.constr_mult_init_max == 0x408f_4000_0000_0000u64,
            o.constr_mult_reset_threshold == 0x0000_0000_0000_0000u64,
            o.constraint_slack_barrier,
            o.max_wall_time == 0x0000_0000_0000_0000u64,
            o.watchdog_shortened_iter_trigger == 10,
            o.watchdog_trial_iter_max == 3,
            o.sparse_threshold == 100,
            o.barrier_tol_factor == 0x4024_0000_0000_0000u64,
            o.mu_allow_fast_monotone_decrease,
            o.adaptive_mu_monotone_init_factor == 0x3fe9_9999_9999_999au64,
            !o.adaptive_mu_restore_previous_iterate,
            o.restoration_max_iter == 200,
            !o.disable_nlp_restoration,
            o.kappa_resto == 0x3fec_cccc_cccc_cccdu64,
            o.resto_proximity_weight == 0x3ff0_0000_0000_0000u64,
            o.enable_preprocessing,
            o.auxiliary_tol == 0x3e45_798e_e230_8c3au64,
            o.detect_linear_constraints,
            !o.hessian_approximation_lbfgs,
            !o.mehrotra_pc,
            o.gondzio_mcc_max == 3,
            o.linear_solver == LinearSolverChoice::Direct,
            !o.recalc_y,
            o.recalc_y_feas_tol == 0x3eb0_c6f7_a0b5_ed8du64,
            o.alpha_for_y == AlphaForY::Primal,
            o.alpha_for_y_tol == 0x4024_0000_0000_0000u64,
            o.tiny_step_y_tol == 0x3f84_7ae1_47ae_147bu64,
            o.mu_oracle_quality_function,
            !o.quality_function_centrality,
            o.quality_function_max_section_steps == 8,
            o.nlp_scaling_method == NlpScalingMethod::Gradient,
            o.obj_scaling_factor == 0x3ff0_0000_0000_0000u64,
            o.nlp_scaling_max_gradient == 0x4059_0000_0000_0000u64,
            o.nlp_scaling_min_value == 0x3e45_798e_e230_8c3au64,
            o.nlp_scaling_obj_target_gradient == 0x0000_0000_0000_0000u64,
            o.nlp_scaling_constr_target_gradient == 0x0000_0000_0000_0000u64,
            o.user_obj_scaling is None,
            o.user_g_scaling is None,
            o.user_x_scaling is None,
            o.warm_start_y is None,
            o.warm_start_z_l is None,
            o.warm_start_z_u is None,
            o.warm_start_s is None,
            o.warm_start_v_l is None,
            o.warm_start_v_u is None,
            o.use_ic_refinement,
            o.iterative_refinement_steps_required == 1,
            o.max_refinement_steps == 10,
            o.residual_ratio_max == 0x3ddb_7cdf_d9d7_bdbbu64,
            o.residual_ratio_singular == 0x3ee4_f8b5_88e3_68f1u64,
            o.residual_improvement_factor == 0x3fef_ffff_ff76_8fa1u64,
            !o.ir_residual_full_8_block,
            !o.factor_cache_enabled,
            o.kkt_dump_dir is None,
            o.kkt_dump_name@ == "problem"@,
            o.slack_move == 0x3d80_0000_0000_0000u64,
            o.magic_step,
            o.bound_mult_init_method == BoundMultInitMethod::Constant,
            o.bound_mult_init_val == 0x3ff0_0000_0000_0000u64,
            o.fixed_variable_treatment == FixedVariableTreatment::RelaxBounds,
            o.acceptable_obj_change_tol == 0x4415_af1d_78b5_8c40u64,
            o.acceptable_iter == 15,
            o.diverging_iterates_tol == 0x4415_af1d_78b5_8c40u64,
    {
        SolverOptions {
            tol: 0x3e45_798e_e230_8c3a,  // 1e-8
            max_iter: 3000,
            mu_init: 0x3fb9_9999_9999_999a,  // 0.1
            mu_min: 0x3da5_fd7f_e179_6495,  // 1e-11
            mu_max_fact: 0x408f_4000_0000_0000,  // 1000.0
            obj_max_inc: 0x4014_0000_0000_0000,  // 5.0
            alpha_min_frac: 0x3fa9_9999_9999_999a,  // 0.05
            filter_reset_trigger: 5,
            max_filter_resets: 5,
            theta_min_fact: 0x3f1a_36e2_eb1c_432d,  // 1e-4
            theta_max_fact: 0x40c3_8800_0000_0000,  // 1e4
            tau_min: 0x3fef_ae14_7ae1_47ae,  // 0.99
            mu_linear_decrease_factor: 0x3fc9_9999_9999_999a,  // 0.2
            mu_superlinear_decrease_power: 0x3ff8_0000_0000_0000,  // 1.5
            print_level: 5,
            bound_relax_factor: 0x3e45_798e_e230_8c3a,  // 1e-8
            kappa_d: 0x3ee4_f8b5_88e3_68f1,  // 1e-5
            bound_push: 0x3f84_7ae1_47ae_147b,  // 1e-2
            bound_frac: 0x3f84_7ae1_47ae_147b,  // 1e-2
            slack_bound_push: 0x3f84_7ae1_47ae_147b,  // 1e-2
            slack_bound_frac: 0x3f84_7ae1_47ae_147b,  // 1e-2
            constr_viol_tol: 0x3f1a_36e2_eb1c_432d,  // 1e-4
            dual_inf_tol: 0x3ff0_0000_0000_0000,  // 1.0
            compl_inf_tol: 0x3f1a_36e2_eb1c_432d,  // 1e-4
            mu_strategy_adaptive: false,
            max_soc: 4,
            warm_start: false,
            warm_start_bound_push: 0x3f50_624d_d2f1_a9fc,  // 1e-3
            warm_start_bound_frac: 0x3f50_624d_d2f1_a9fc,  // 1e-3
            warm_start_mult_bound_push: 0x3f50_624d_d2f1_a9fc,  // 1e-3
            warm_start_target_mu: None,
            nlp_lower_bound_inf: 0xc3e1_58e4_6091_3d00,  // -1e19
            nlp_upper_bound_inf: 0x43e1_58e4_6091_3d00,  // 1e19
            kappa: 0x4024_0000_0000_0000,  // 10.0
            mu_allow_increase: true,
            least_squares_mult_init: true,
            constr_mult_init_max: 0x408f_4000_0000_0000,  // 1000.0
            constr_mult_reset_threshold: 0x0000_0000_0000_0000,  // 0.0
            constraint_slack_barrier: true,
            max_wall_time: 0x0000_0000_0000_0000,  // 0.0
            watchdog_shortened_iter_trigger: 10,
            watchdog_trial_iter_max: 3,
            sparse_threshold: 100,
            barrier_tol_factor: 0x4024_0000_0000_0000,  // 10.0
            mu_allow_fast_monotone_decrease: true,
            adaptive_mu_monotone_init_factor: 0x3fe9_9999_9999_999a,  // 0.8
            adaptive_mu_restore_previous_iterate: false,
            restoration_max_iter: 200,
            disable_nlp_restoration: false,
            kappa_resto: 0x3fec_cccc_cccc_cccd,  // 0.9
            resto_proximity_weight: 0x3ff0_0000_0000_0000,  // 1.0
            enable_preprocessing: true,
            auxiliary_tol: 0x3e45_798e_e230_8c3a,  // 1e-8
            detect_linear_constraints: true,
            hessian_approximation_lbfgs: false,
            mehrotra_pc: false,
            gondzio_mcc_max: 3,
            linear_solver: LinearSolverChoice::Direct,
            recalc_y: false,
            recalc_y_feas_tol: 0x3eb0_c6f7_a0b5_ed8d,  // 1e-6
            alpha_for_y: AlphaForY::Primal,
            alpha_for_y_tol: 0x4024_0000_0000_0000,  // 10.0
            tiny_step_y_tol: 0x3f84_7ae1_47ae_147b,  // 1e-2
            mu_oracle_quality_function: true,
            quality_function_centrality: false,
            quality_function_max_section_steps: 8,
            nlp_scaling_method: NlpScalingMethod::Gradient,
            obj_scaling_factor: 0x3ff0_0000_0000_0000,  // 1.0
            nlp_scaling_max_gradient: 0x4059_0000_0000_0000,  // 100.0
            nlp_scaling_min_value: 0x3e45_798e_e230_8c3a,  // 1e-8
            nlp_scaling_obj_target_gradient: 0x0000_0000_0000_0000,  // 0.0
            nlp_scaling_constr_target_gradient: 0x0000_0000_0000_0000,  // 0.0
            user_obj_scaling: None,
            user_g_scaling: None,
            user_x_scaling: None,
            warm_start_y: None,
            warm_start_z_l: None,
            warm_start_z_u: None,
            warm_start_s: None,
            warm_start_v_l: None,
            warm_start_v_u: None,
            use_ic_refinement: true,
            iterative_refinement_steps_required: 1,
            max_refinement_steps: 10,
            residual_ratio_max: 0x3ddb_7cdf_d9d7_bdbb,  // 1e-10
            residual_ratio_singular: 0x3ee4_f8b5_88e3_68f1,  // 1e-5
            residual_improvement_factor: 0x3fef_ffff_ff76_8fa1,  // 0.999999999
            ir_residual_full_8_block: false,
            factor_cache_enabled: false,
            kkt_dump_dir: None,
            kkt_dump_name: "problem".to_string(),
            slack_move: 0x3d80_0000_0000_0000,  // 1.8189894035458565e-12
            magic_step: true,
            bound_mult_init_method: BoundMultInitMethod::Constant,
            bound_mult_init_val: 0x3ff0_0000_0000_0000,  // 1.0
            fixed_variable_treatment: FixedVariableTreatment::RelaxBounds,
            acceptable_obj_change_tol: 0x4415_af1d_78b5_8c40,  // 1e20
            acceptable_iter: 15,
            diverging_iterates_tol: 0x4415_af1d_78b5_8c40,  // 1e20
        }
    }
}

} // verus!
