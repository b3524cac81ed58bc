//! Perturbation of the KKT matrix until its inertia is right.

use crate::float::{
    eq, lt, num_eq, num_lt, FloatOp, Fpu, EIGHT, HUNDRED, QUARTER, TEN_M20, TEN_M4, TEN_M8, TEN_P20,
    TEN_P5, THIRD, ZERO,
};
use vstd::prelude::*;

verus! {

/// What is known of a block of the matrix.
#[derive(Debug, Clone, Copy, PartialEq, Eq, Structural)]
pub enum DegenType {
    NotYetDetermined,
    /// It factors without a perturbation.
    NotDegenerate,
    /// It always needs a perturbation.
    Degenerate,
}

/// Which of the two perturbations the matrix under test carries.
#[derive(Debug, Clone, Copy, PartialEq, Eq, Structural)]
pub enum TrialStatus {
    NoTest,
    DcEq0DxEq0,
    DcGt0DxEq0,
    DcEq0DxGt0,
    DcGt0DxGt0,
}

/// Options and state of the perturbation handler. The last perturbations and
/// the degeneracy flags outlive a matrix; the current perturbations and the
/// test status are set anew for each matrix.
#[derive(Debug, Clone, Copy, PartialEq, Eq, Structural)]
pub struct InertiaCorrectionParams {
    /// First perturbation of the Hessian.
    pub delta_w_init: u64,
    /// Growth where no earlier perturbation is near.
    pub delta_w_inc_fact_first: u64,
    /// Growth otherwise.
    pub delta_w_inc_fact: u64,
    /// Shrinkage of the last perturbation for a new matrix.
    pub delta_w_dec_fact: u64,
    /// Perturbations above this are given up.
    pub delta_w_max: u64,
    /// Perturbations do not shrink below this.
    pub delta_w_min: u64,
    /// The perturbation of the constraints is this times a power of the
    /// barrier parameter.
    pub delta_c_base: u64,
    /// The exponent of that power.
    pub delta_c_exp: u64,
    /// Whether the constraints are always perturbed.
    pub perturb_always_cd: bool,
    /// Factorizations for one matrix.
    pub max_attempts: usize,
    /// Last perturbation of the Hessian that was not zero.
    pub delta_w_last: u64,
    /// Last perturbation of the constraints that was not zero.
    pub delta_c_last: u64,
    pub hess_degenerate: DegenType,
    pub jac_degenerate: DegenType,
    /// Tests in which a perturbation was needed.
    pub degen_iters: usize,
    /// Perturbation of the Hessian in the current matrix.
    pub delta_x_curr: u64,
    /// Perturbation of the constraints in the current matrix.
    pub delta_c_curr: u64,
    pub test_status: TrialStatus,
    /// Whether systems are equilibrated.
    pub use_scaling: bool,
    /// Successive matrices that needed a perturbation of the Hessian.
    pub degeneracy_count: usize,
    /// Whether the Hessian always needs a perturbation.
    pub structurally_degenerate: bool,
    /// Whether a system was called singular for its residual in this
    /// iteration.
    pub pretend_singular_used: bool,
}

/// Tests after which a block that needed its perturbation counts as degenerate.
pub const DEGEN_ITERS_MAX: usize = 3;

/// The handler before its first matrix.
pub open spec fn default_params() -> InertiaCorrectionParams {
    InertiaCorrectionParams {
        delta_w_init: TEN_M4,
        delta_w_inc_fact_first: HUNDRED,
        delta_w_inc_fact: EIGHT,
        delta_w_dec_fact: THIRD,
        delta_w_max: TEN_P20,
        delta_w_min: TEN_M20,
        delta_c_base: TEN_M8,
        delta_c_exp: QUARTER,
        perturb_always_cd: false,
        max_attempts: 30,
        delta_w_last: ZERO,
        delta_c_last: ZERO,
        hess_degenerate: DegenType::NotYetDetermined,
        jac_degenerate: DegenType::NotYetDetermined,
        degen_iters: 0,
        delta_x_curr: ZERO,
        delta_c_curr: ZERO,
        test_status: TrialStatus::NoTest,
        use_scaling: false,
        degeneracy_count: 0,
        structurally_degenerate: false,
        pretend_singular_used: false,
    }
}

impl Default for InertiaCorrectionParams {
    fn default() -> (p: Self)
        ensures
            p == default_params(),
    {
        InertiaCorrectionParams {
            delta_w_init: TEN_M4,
            delta_w_inc_fact_first: HUNDRED,
            delta_w_inc_fact: EIGHT,
            delta_w_dec_fact: THIRD,
            delta_w_max: TEN_P20,
            delta_w_min: TEN_M20,
            delta_c_base: TEN_M8,
            delta_c_exp: QUARTER,
            perturb_always_cd: false,
            max_attempts: 30,
            delta_w_last: ZERO,
            delta_c_last: ZERO,
            hess_degenerate: DegenType::NotYetDetermined,
            jac_degenerate: DegenType::NotYetDetermined,
            degen_iters: 0,
            delta_x_curr: ZERO,
            delta_c_curr: ZERO,
            test_status: TrialStatus::NoTest,
            use_scaling: false,
            degeneracy_count: 0,
            structurally_degenerate: false,
            pretend_singular_used: false,
        }
    }
}

/// The perturbation of the constraints at barrier parameter `mu`.
pub open spec fn constraint_delta<F: Fn(FloatOp, u64, u64) -> u64>(
    p: InertiaCorrectionParams,
    mu: u64,
    fpu: Fpu<F>,
) -> u64 {
    fpu.product(
        p.delta_c_base,
        fpu.calc(FloatOp::Pow, fpu.calc(FloatOp::Max, mu, ZERO), p.delta_c_exp),
    )
}

/// One more test in which a perturbation was needed; after enough of them the
/// blocks count as degenerate.
pub open spec fn tested(p: InertiaCorrectionParams, hess: bool, jac: bool) -> InertiaCorrectionParams {
    let iters = (p.degen_iters + 1) as usize;
    InertiaCorrectionParams {
        degen_iters: iters,
        hess_degenerate: if hess && iters >= DEGEN_ITERS_MAX {
            DegenType::Degenerate
        } else {
            p.hess_degenerate
        },
        jac_degenerate: if jac && iters >= DEGEN_ITERS_MAX {
            DegenType::Degenerate
        } else {
            p.jac_degenerate
        },
        ..p
    }
}

/// An undetermined flag becomes not degenerate.
pub open spec fn ruled_out(d: DegenType) -> DegenType {
    if d == DegenType::NotYetDetermined {
        DegenType::NotDegenerate
    } else {
        d
    }
}

/// The outcome of the last test in the degeneracy flags.
pub open spec fn judged(p: InertiaCorrectionParams) -> InertiaCorrectionParams {
    match p.test_status {
        TrialStatus::NoTest => p,
        TrialStatus::DcEq0DxEq0 => InertiaCorrectionParams {
            hess_degenerate: ruled_out(p.hess_degenerate),
            jac_degenerate: ruled_out(p.jac_degenerate),
            ..p
        },
        TrialStatus::DcGt0DxEq0 => {
            let q = InertiaCorrectionParams { hess_degenerate: ruled_out(p.hess_degenerate), ..p };
            if p.jac_degenerate == DegenType::NotYetDetermined {
                tested(q, false, true)
            } else {
                q
            }
        },
        TrialStatus::DcEq0DxGt0 => {
            let q = InertiaCorrectionParams { jac_degenerate: ruled_out(p.jac_degenerate), ..p };
            if p.hess_degenerate == DegenType::NotYetDetermined {
                tested(q, true, false)
            } else {
                q
            }
        },
        TrialStatus::DcGt0DxGt0 => tested(p, true, true),
    }
}

/// The handler after a test is finished.
pub open spec fn finalized(p: InertiaCorrectionParams) -> InertiaCorrectionParams {
    let q = judged(p);
    InertiaCorrectionParams {
        structurally_degenerate: q.hess_degenerate == DegenType::Degenerate,
        ..q
    }
}

/// The next perturbation of the Hessian: at first the initial one, or the last
/// one shrunk; then the current one grown.
pub open spec fn next_delta<F: Fn(FloatOp, u64, u64) -> u64>(
    p: InertiaCorrectionParams,
    fpu: Fpu<F>,
) -> u64 {
    if num_eq(p.delta_x_curr, ZERO) {
        if num_eq(p.delta_w_last, ZERO) {
            p.delta_w_init
        } else {
            fpu.calc(
                FloatOp::Max,
                fpu.product(p.delta_w_last, p.delta_w_dec_fact),
                p.delta_w_min,
            )
        }
    } else if num_eq(p.delta_w_last, ZERO) || num_lt(
        fpu.product(TEN_P5, p.delta_w_last),
        p.delta_x_curr,
    ) {
        fpu.product(p.delta_x_curr, p.delta_w_inc_fact_first)
    } else {
        fpu.product(p.delta_x_curr, p.delta_w_inc_fact)
    }
}

/// The handler with the next perturbation of the Hessian, and whether that is
/// within the limit. Beyond the limit the last perturbation is forgotten.
pub open spec fn escalated<F: Fn(FloatOp, u64, u64) -> u64>(
    p: InertiaCorrectionParams,
    fpu: Fpu<F>,
) -> (InertiaCorrectionParams, bool) {
    let d = next_delta(p, fpu);
    if num_lt(p.delta_w_max, d) {
        (InertiaCorrectionParams { delta_x_curr: d, delta_w_last: ZERO, ..p }, false)
    } else {
        (InertiaCorrectionParams { delta_x_curr: d, ..p }, true)
    }
}

/// The handler at the start of a new matrix, before a degenerate Hessian is
/// perturbed.
pub open spec fn renewed<F: Fn(FloatOp, u64, u64) -> u64>(
    p: InertiaCorrectionParams,
    mu: u64,
    fpu: Fpu<F>,
) -> InertiaCorrectionParams {
    let q = finalized(p);
    InertiaCorrectionParams {
        delta_w_last: if num_eq(q.delta_x_curr, ZERO) {
            q.delta_w_last
        } else {
            q.delta_x_curr
        },
        delta_c_last: if num_eq(q.delta_c_curr, ZERO) {
            q.delta_c_last
        } else {
            q.delta_c_curr
        },
        delta_x_curr: ZERO,
        delta_c_curr: if q.jac_degenerate == DegenType::Degenerate || q.perturb_always_cd {
            constraint_delta(q, mu, fpu)
        } else {
            ZERO
        },
        test_status: if q.hess_degenerate == DegenType::NotYetDetermined || q.jac_degenerate
            == DegenType::NotYetDetermined {
            if q.perturb_always_cd {
                TrialStatus::DcGt0DxEq0
            } else {
                TrialStatus::DcEq0DxEq0
            }
        } else {
            TrialStatus::NoTest
        },
        ..q
    }
}

/// The handler at the start of a new matrix, and whether its perturbation is
/// within the limit.
#[verifier::opaque]
pub open spec fn considered<F: Fn(FloatOp, u64, u64) -> u64>(
    p: InertiaCorrectionParams,
    mu: u64,
    fpu: Fpu<F>,
) -> (InertiaCorrectionParams, bool) {
    let q = renewed(p, mu, fpu);
    if q.hess_degenerate == DegenType::Degenerate {
        escalated(q, fpu)
    } else {
        (q, true)
    }
}

/// `escalated`, and a new test status where that is within the limit.
pub open spec fn escalated_to<F: Fn(FloatOp, u64, u64) -> u64>(
    p: InertiaCorrectionParams,
    status: TrialStatus,
    fpu: Fpu<F>,
) -> (InertiaCorrectionParams, bool) {
    let (q, ok) = escalated(p, fpu);
    if ok {
        (InertiaCorrectionParams { test_status: status, ..q }, true)
    } else {
        (q, false)
    }
}

/// The handler after a singular matrix, and whether it can go on. While a flag
/// is undetermined the four combinations of perturbations are tried in turn.
#[verifier::opaque]
pub open spec fn after_singular<F: Fn(FloatOp, u64, u64) -> u64>(
    p: InertiaCorrectionParams,
    mu: u64,
    fpu: Fpu<F>,
) -> (InertiaCorrectionParams, bool) {
    let with_c = InertiaCorrectionParams { delta_c_curr: constraint_delta(p, mu, fpu), ..p };
    if p.hess_degenerate != DegenType::NotYetDetermined && p.jac_degenerate
        != DegenType::NotYetDetermined {
        if num_lt(ZERO, p.delta_c_curr) {
            escalated(p, fpu)
        } else {
            (with_c, true)
        }
    } else {
        match p.test_status {
            TrialStatus::DcEq0DxEq0 => if p.jac_degenerate == DegenType::NotYetDetermined {
                (InertiaCorrectionParams { test_status: TrialStatus::DcGt0DxEq0, ..with_c }, true)
            } else {
                escalated_to(p, TrialStatus::DcEq0DxGt0, fpu)
            },
            TrialStatus::DcGt0DxEq0 => if p.perturb_always_cd {
                escalated_to(p, TrialStatus::DcGt0DxGt0, fpu)
            } else {
                escalated_to(
                    InertiaCorrectionParams { delta_c_curr: ZERO, ..p },
                    TrialStatus::DcEq0DxGt0,
                    fpu,
                )
            },
            TrialStatus::DcEq0DxGt0 => escalated_to(with_c, TrialStatus::DcGt0DxGt0, fpu),
            TrialStatus::DcGt0DxGt0 => escalated(p, fpu),
            TrialStatus::NoTest => (p, false),
        }
    }
}

/// The handler after a matrix of wrong inertia, and whether it can go on. At
/// the limit the perturbation of the constraints is tried once, with that of
/// the Hessian started over.
#[verifier::opaque]
pub open spec fn after_wrong_inertia<F: Fn(FloatOp, u64, u64) -> u64>(
    p: InertiaCorrectionParams,
    mu: u64,
    fpu: Fpu<F>,
) -> (InertiaCorrectionParams, bool) {
    let (q, ok) = escalated(finalized(p), fpu);
    if !ok && num_eq(q.delta_c_curr, ZERO) {
        escalated(
            InertiaCorrectionParams {
                delta_c_curr: constraint_delta(q, mu, fpu),
                delta_x_curr: ZERO,
                test_status: TrialStatus::NoTest,
                hess_degenerate: if q.hess_degenerate == DegenType::Degenerate {
                    DegenType::NotYetDetermined
                } else {
                    q.hess_degenerate
                },
                ..q
            },
            fpu,
        )
    } else {
        (q, ok)
    }
}

impl InertiaCorrectionParams {
    /// Allows a system to be called singular for its residual again.
    pub fn reset_pretend_singular_for_new_iter(&mut self)
        ensures
            *final(self) == (InertiaCorrectionParams { pretend_singular_used: false, ..*old(self) }),
    {
        self.pretend_singular_used = false;
    }

    fn delta_cd<F: Fn(FloatOp, u64, u64) -> u64>(&self, mu: u64, fpu: &Fpu<F>) -> (d: u64)
        requires
            fpu.sound(),
        ensures
            d == constraint_delta(*self, mu, *fpu),
    {
        fpu.mul(self.delta_c_base, fpu.run(FloatOp::Pow, fpu.max(mu, ZERO), self.delta_c_exp))
    }

    /// Starts a new matrix. The result holds its first perturbations, unless
    /// they are beyond the limit.
    pub fn consider_new_system<F: Fn(FloatOp, u64, u64) -> u64>(
        &mut self,
        mu: u64,
        fpu: &Fpu<F>,
    ) -> (r: Option<(u64, u64)>)
        requires
            fpu.sound(),
            old(self).degen_iters < usize::MAX,
        ensures
            *final(self) == considered(*old(self), mu, *fpu).0,
            r == if considered(*old(self), mu, *fpu).1 {
                Some((final(self).delta_x_curr, final(self).delta_c_curr))
            } else {
                None
            },
    {
        proof {
            reveal(considered);
        }
        self.finalize_test();
        if !eq(self.delta_x_curr, ZERO) {
            self.delta_w_last = self.delta_x_curr;
        }
        if !eq(self.delta_c_curr, ZERO) {
            self.delta_c_last = self.delta_c_curr;
        }
        self.delta_x_curr = ZERO;
        if self.jac_degenerate == DegenType::Degenerate || self.perturb_always_cd {
            self.delta_c_curr = self.delta_cd(mu, fpu);
        } else {
            self.delta_c_curr = ZERO;
        }
        if self.hess_degenerate == DegenType::NotYetDetermined || self.jac_degenerate
            == DegenType::NotYetDetermined {
            self.test_status = if !self.perturb_always_cd {
                TrialStatus::DcEq0DxEq0
            } else {
                TrialStatus::DcGt0DxEq0
            };
        } else {
            self.test_status = TrialStatus::NoTest;
        }
        assert(*self == renewed(*old(self), mu, *fpu));
        if self.hess_degenerate == DegenType::Degenerate {
            if !self.get_deltas_for_wrong_inertia(fpu) {
                return None;
            }
        }
        Some((self.delta_x_curr, self.delta_c_curr))
    }

    /// Moves on to the next perturbation of the Hessian; tells whether it is
    /// within the limit.
    pub fn get_deltas_for_wrong_inertia<F: Fn(FloatOp, u64, u64) -> u64>(
        &mut self,
        fpu: &Fpu<F>,
    ) -> (ok: bool)
        requires
            fpu.sound(),
        ensures
            (*final(self), ok) == escalated(*old(self), *fpu),
    {
        if eq(self.delta_x_curr, ZERO) {
            if eq(self.delta_w_last, ZERO) {
                self.delta_x_curr = self.delta_w_init;
            } else {
                self.delta_x_curr = fpu.max(
                    fpu.mul(self.delta_w_last, self.delta_w_dec_fact),
                    self.delta_w_min,
                );
            }
        } else {
            let inc: u64 = if eq(self.delta_w_last, ZERO) || lt(
                fpu.mul(TEN_P5, self.delta_w_last),
                self.delta_x_curr,
            ) {
                self.delta_w_inc_fact_first
            } else {
                self.delta_w_inc_fact
            };
            self.delta_x_curr = fpu.mul(self.delta_x_curr, inc);
        }
        if lt(self.delta_w_max, self.delta_x_curr) {
            self.delta_w_last = ZERO;
            return false;
        }
        true
    }

    /// Answers a singular matrix with other perturbations; tells whether they
    /// are within the limit.
    pub fn perturb_for_singularity<F: Fn(FloatOp, u64, u64) -> u64>(
        &mut self,
        mu: u64,
        fpu: &Fpu<F>,
    ) -> (ok: bool)
        requires
            fpu.sound(),
        ensures
            (*final(self), ok) == after_singular(*old(self), mu, *fpu),
    {
        proof {
            reveal(after_singular);
        }
        let dcd: u64 = self.delta_cd(mu, fpu);
        if self.hess_degenerate != DegenType::NotYetDetermined && self.jac_degenerate
            != DegenType::NotYetDetermined {
            if lt(ZERO, self.delta_c_curr) {
                return self.get_deltas_for_wrong_inertia(fpu);
            } else {
                self.delta_c_curr = dcd;
                return true;
            }
        }
        match self.test_status {
            TrialStatus::DcEq0DxEq0 => {
                if self.jac_degenerate == DegenType::NotYetDetermined {
                    self.delta_c_curr = dcd;
                    self.test_status = TrialStatus::DcGt0DxEq0;
                    true
                } else {
                    if !self.get_deltas_for_wrong_inertia(fpu) {
                        return false;
                    }
                    self.test_status = TrialStatus::DcEq0DxGt0;
                    true
                }
            },
            TrialStatus::DcGt0DxEq0 => {
                if !self.perturb_always_cd {
                    self.delta_c_curr = ZERO;
                    if !self.get_deltas_for_wrong_inertia(fpu) {
                        return false;
                    }
                    self.test_status = TrialStatus::DcEq0DxGt0;
                } else {
                    if !self.get_deltas_for_wrong_inertia(fpu) {
                        return false;
                    }
                    self.test_status = TrialStatus::DcGt0DxGt0;
                }
                true
            },
            TrialStatus::DcEq0DxGt0 => {
                self.delta_c_curr = dcd;
                if !self.get_deltas_for_wrong_inertia(fpu) {
                    return false;
                }
                self.test_status = TrialStatus::DcGt0DxGt0;
                true
            },
            TrialStatus::DcGt0DxGt0 => self.get_deltas_for_wrong_inertia(fpu),
            TrialStatus::NoTest => false,
        }
    }

    /// Answers a matrix of wrong inertia with other perturbations; tells
    /// whether they are within the limit.
    pub fn perturb_for_wrong_inertia<F: Fn(FloatOp, u64, u64) -> u64>(
        &mut self,
        mu: u64,
        fpu: &Fpu<F>,
    ) -> (ok: bool)
        requires
            fpu.sound(),
            old(self).degen_iters < usize::MAX,
        ensures
            (*final(self), ok) == after_wrong_inertia(*old(self), mu, *fpu),
    {
        proof {
            reveal(after_wrong_inertia);
        }
        self.finalize_test();
        if self.get_deltas_for_wrong_inertia(fpu) {
            return true;
        }
        if eq(self.delta_c_curr, ZERO) {
            self.delta_c_curr = self.delta_cd(mu, fpu);
            self.delta_x_curr = ZERO;
            self.test_status = TrialStatus::NoTest;
            if self.hess_degenerate == DegenType::Degenerate {
                self.hess_degenerate = DegenType::NotYetDetermined;
            }
            return self.get_deltas_for_wrong_inertia(fpu);
        }
        false
    }

    /// `consider_new_system` for the augmented system.
    pub fn consider_new_system_aug<F: Fn(FloatOp, u64, u64) -> u64>(
        &mut self,
        mu: u64,
        fpu: &Fpu<F>,
    ) -> (r: Option<(u64, u64)>)
        requires
            fpu.sound(),
            old(self).degen_iters < usize::MAX,
        ensures
            *final(self) == considered(*old(self), mu, *fpu).0,
            r == if considered(*old(self), mu, *fpu).1 {
                Some((final(self).delta_x_curr, final(self).delta_c_curr))
            } else {
                None
            },
    {
        self.consider_new_system(mu, fpu)
    }

    /// `perturb_for_singularity` for the augmented system.
    pub fn perturb_for_singularity_aug<F: Fn(FloatOp, u64, u64) -> u64>(
        &mut self,
        mu: u64,
        fpu: &Fpu<F>,
    ) -> (ok: bool)
        requires
            fpu.sound(),
        ensures
            (*final(self), ok) == after_singular(*old(self), mu, *fpu),
    {
        self.perturb_for_singularity(mu, fpu)
    }

    /// `perturb_for_wrong_inertia` for the augmented system.
    pub fn perturb_for_wrong_inertia_aug<F: Fn(FloatOp, u64, u64) -> u64>(
        &mut self,
        mu: u64,
        fpu: &Fpu<F>,
    ) -> (ok: bool)
        requires
            fpu.sound(),
            old(self).degen_iters < usize::MAX,
        ensures
            (*final(self), ok) == after_wrong_inertia(*old(self), mu, *fpu),
    {
        self.perturb_for_wrong_inertia(mu, fpu)
    }

    /// Enters the outcome of the last test into the degeneracy flags.
    pub fn finalize_test(&mut self)
        requires
            old(self).degen_iters < usize::MAX,
        ensures
            *final(self) == finalized(*old(self)),
    {
        match self.test_status {
            TrialStatus::NoTest => {},
            TrialStatus::DcEq0DxEq0 => {
                if self.hess_degenerate == DegenType::NotYetDetermined {
                    self.hess_degenerate = DegenType::NotDegenerate;
                }
                if self.jac_degenerate == DegenType::NotYetDetermined {
                    self.jac_degenerate = DegenType::NotDegenerate;
                }
            },
            TrialStatus::DcGt0DxEq0 => {
                if self.hess_degenerate == DegenType::NotYetDetermined {
                    self.hess_degenerate = DegenType::NotDegenerate;
                }
                if self.jac_degenerate == DegenType::NotYetDetermined {
                    self.degen_iters = self.degen_iters + 1;
                    if self.degen_iters >= DEGEN_ITERS_MAX {
                        self.jac_degenerate = DegenType::Degenerate;
                    }
                }
            },
            TrialStatus::DcEq0DxGt0 => {
                if self.jac_degenerate == DegenType::NotYetDetermined {
                    self.jac_degenerate = DegenType::NotDegenerate;
                }
                if self.hess_degenerate == DegenType::NotYetDetermined {
                    self.degen_iters = self.degen_iters + 1;
                    if self.degen_iters >= DEGEN_ITERS_MAX {
                        self.hess_degenerate = DegenType::Degenerate;
                    }
                }
            },
            TrialStatus::DcGt0DxGt0 => {
                self.degen_iters = self.degen_iters + 1;
                if self.degen_iters >= DEGEN_ITERS_MAX {
                    self.hess_degenerate = DegenType::Degenerate;
                    self.jac_degenerate = DegenType::Degenerate;
                }
            },
        }
        self.structurally_degenerate = self.hess_degenerate == DegenType::Degenerate;
    }
}

/// A perturbation that the handler goes on with is never above its limit.
pub proof fn escalation_keeps_limit<F: Fn(FloatOp, u64, u64) -> u64>(
    p: InertiaCorrectionParams,
    fpu: Fpu<F>,
)
    ensures
        escalated(p, fpu).1 ==> !num_lt(p.delta_w_max, escalated(p, fpu).0.delta_x_curr),
        !escalated(p, fpu).1 ==> escalated(p, fpu).0.delta_w_last == ZERO,
{
}

/// A new matrix without known degeneracy starts without perturbations, unless
/// the constraints are always perturbed.
pub proof fn fresh_matrix_is_unperturbed<F: Fn(FloatOp, u64, u64) -> u64>(
    p: InertiaCorrectionParams,
    mu: u64,
    fpu: Fpu<F>,
)
    requires
        finalized(p).hess_degenerate != DegenType::Degenerate,
        finalized(p).jac_degenerate != DegenType::Degenerate,
        !p.perturb_always_cd,
    ensures
        considered(p, mu, fpu).1,
        considered(p, mu, fpu).0.delta_x_curr == ZERO,
        considered(p, mu, fpu).0.delta_c_curr == ZERO,
{
    reveal(considered);
}

/// A flag that is determined stays so when a test is finished.
pub proof fn finished_tests_keep_flags(p: InertiaCorrectionParams)
    requires
        p.test_status != TrialStatus::DcGt0DxGt0,
    ensures
        p.hess_degenerate != DegenType::NotYetDetermined ==> finalized(p).hess_degenerate
            == p.hess_degenerate,
        p.jac_degenerate != DegenType::NotYetDetermined ==> finalized(p).jac_degenerate
            == p.jac_degenerate,
{
}

} // verus!
