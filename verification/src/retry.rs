//! Solving with a second attempt.

use crate::options::SolverOptions;
use crate::problem::NlpProblem;
use crate::result::{ResultModel, SolveResult, SolveStatus};
use vstd::prelude::*;

verus! {

/// How the exact penalty reformulation takes part.
#[derive(Debug, Clone, Copy, PartialEq, Eq, Structural)]
pub struct PenaltyFlags {
    /// The problem is solved in the reformulation.
    pub l1_exact_penalty_barrier: bool,
    /// A failed attempt is repeated in the reformulation.
    pub l1_fallback_on_restoration_failure: bool,
}

/// The flags of the second attempt.
pub open spec fn retry_flags() -> PenaltyFlags {
    PenaltyFlags { l1_exact_penalty_barrier: true, l1_fallback_on_restoration_failure: false }
}

/// Whether an attempt that ended in `status` is followed by a second one.
pub open spec fn calls_for_retry(flags: PenaltyFlags, status: SolveStatus) -> bool {
    &&& flags.l1_fallback_on_restoration_failure
    &&& !flags.l1_exact_penalty_barrier
    &&& status is RestorationFailed || status is LocalInfeasibility || status is Acceptable
}

/// The second result where it is optimal, else the first, with the iterations
/// of both.
pub open spec fn merged<D>(first: ResultModel<D>, second: ResultModel<D>) -> ResultModel<D> {
    let best = if second.status is Optimal {
        second
    } else {
        first
    };
    ResultModel { iterations: first.iterations + second.iterations, ..best }
}

/// Whether an attempt that ended in `status` is followed by a second one.
pub fn wants_retry(flags: PenaltyFlags, status: SolveStatus) -> (b: bool)
    ensures
        b == calls_for_retry(flags, status),
{
    if !flags.l1_fallback_on_restoration_failure || flags.l1_exact_penalty_barrier {
        return false;
    }
    match status {
        SolveStatus::RestorationFailed | SolveStatus::LocalInfeasibility
        | SolveStatus::Acceptable => true,
        _ => false,
    }
}

/// The better of two results, with the iterations of both.
pub fn merge_results<D>(
    first: SolveResult<D>,
    second: SolveResult<D>,
) -> (r: SolveResult<D>)
    requires
        first.iterations + second.iterations <= usize::MAX,
    ensures
        r.model() == merged(first.model(), second.model()),
{
    let total: usize = first.iterations + second.iterations;
    let mut r: SolveResult<D> = match second.status {
        SolveStatus::Optimal => second,
        _ => first,
    };
    r.iterations = total;
    r
}

/// Solves the problem by `ipm`. Where the first attempt failed in a way that the
/// exact penalty reformulation may mend, and the flags allow it, a second attempt
/// is made in the reformulation; its result counts where it is optimal.
pub fn solve<
    P: NlpProblem + ?Sized,
    D,
    S: Fn(&P, &SolverOptions, PenaltyFlags) -> SolveResult<D>,
>(problem: &P, options: &SolverOptions, flags: PenaltyFlags, ipm: &S) -> (r: SolveResult<D>)
    requires
        forall|f: PenaltyFlags| call_requires(*ipm, (problem, options, f)),
        forall|a: SolveResult<D>, b: SolveResult<D>|
            #![trigger call_ensures(*ipm, (problem, options, flags), a), call_ensures(
                *ipm,
                (problem, options, retry_flags()),
                b,
            )]
            call_ensures(*ipm, (problem, options, flags), a) && calls_for_retry(flags, a.status)
                && call_ensures(*ipm, (problem, options, retry_flags()), b) ==> a.iterations
                + b.iterations <= usize::MAX,
    ensures
        exists|first: SolveResult<D>|
            #![trigger call_ensures(*ipm, (problem, options, flags), first)]
            call_ensures(*ipm, (problem, options, flags), first) && if calls_for_retry(
                flags,
                first.status,
            ) {
                exists|second: SolveResult<D>|
                    #![trigger call_ensures(*ipm, (problem, options, retry_flags()), second)]
                    call_ensures(*ipm, (problem, options, retry_flags()), second) && r.model()
                        == merged(first.model(), second.model())
            } else {
                r.model() == first.model()
            },
{
    let first: SolveResult<D> = ipm(problem, options, flags);
    if !wants_retry(flags, first.status) {
        return first;
    }
    let again: PenaltyFlags = PenaltyFlags {
        l1_exact_penalty_barrier: true,
        l1_fallback_on_restoration_failure: false,
    };
    assert(again == retry_flags());
    let second: SolveResult<D> = ipm(problem, options, again);
    merge_results(first, second)
}

/// A second attempt never makes a result worse: it counts where it is optimal, else the first one stays, and the iterations
/// of both are reported.
pub proof fn second_attempts_do_not_worsen<D>(first: ResultModel<D>, second: ResultModel<D>)
    ensures
        merged(first, second).iterations == first.iterations + second.iterations,
        first.status is Optimal || second.status is Optimal ==> merged(first, second).status is Optimal,
        second.status is Optimal ==> merged(first, second).x == second.x
            && merged(first, second).constraint_multipliers == second.constraint_multipliers,
        !(second.status is Optimal) ==> merged(first, second).status == first.status
            && merged(first, second).x == first.x
            && merged(first, second).constraint_multipliers == first.constraint_multipliers,
{
}

/// There is no third attempt, an optimal result is never tried again, and nothing is where the caller does not ask for it or
/// has asked for the reformulation at once.
pub proof fn attempts_end(flags: PenaltyFlags, status: SolveStatus)
    ensures
        !calls_for_retry(retry_flags(), status),
        !calls_for_retry(flags, SolveStatus::Optimal),
        retry_flags().l1_exact_penalty_barrier,
        calls_for_retry(flags, status) ==> flags.l1_fallback_on_restoration_failure
            && !flags.l1_exact_penalty_barrier,
        flags.l1_fallback_on_restoration_failure && !flags.l1_exact_penalty_barrier
            ==> calls_for_retry(flags, SolveStatus::RestorationFailed) && calls_for_retry(
            flags,
            SolveStatus::LocalInfeasibility,
        ) && calls_for_retry(flags, SolveStatus::Acceptable),
{
}

} // verus!
