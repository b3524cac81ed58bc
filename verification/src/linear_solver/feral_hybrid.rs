//! A solver that changes between a direct and an iterative one.

use crate::float::{lt, num_lt, ONE, ZERO};
use crate::linear_solver::model::MatrixModel;
use crate::linear_solver::solver::{reply, ErrorModel, LinearSolver, SolverEvent};
use crate::linear_solver::{Inertia, KktMatrix, SolverError};
use vstd::prelude::*;

verus! {

/// Number of failed iterative solves in a row at which the direct solver takes over.
pub const MAX_ITERATIVE_FAILURES: usize = 3;

/// A clock. Nothing is known of the times that it tells.
pub trait Clock {
    /// A mark of the present time.
    fn mark(&self) -> u64;

    /// The seconds since a mark, by their bits.
    fn seconds_since(&self, mark: u64) -> u64;
}

/// The next count. After the largest number it starts again.
pub open spec fn one_more(count: usize) -> usize {
    if count == usize::MAX {
        0
    } else {
        (count + 1) as usize
    }
}

fn count_up(count: usize) -> (r: usize)
    ensures
        r == one_more(count),
{
    if count == usize::MAX {
        0
    } else {
        count + 1
    }
}

#[derive(Debug, Clone, Copy, PartialEq, Eq, Structural)]
pub enum HybridMode {
    Direct,
    Iterative,
}

/// The state of a hybrid solver as a mathematical value.
#[verifier::ext_equal]
pub struct HybridModel {
    pub mode: HybridMode,
    /// Seconds that the last direct factorization took.
    pub last_factor_time: u64,
    /// Seconds beyond which a direct factorization is too slow.
    pub time_threshold: u64,
    /// Solves of the iterative solver that failed one after the other.
    pub iterative_failures: usize,
    /// Direct factorizations that failed one after the other.
    pub direct_failures: usize,
    /// The direct solver took over in the middle of the solves of a factorization.
    pub needs_refactor: bool,
    pub direct: Seq<SolverEvent>,
    pub iterative: Seq<SolverEvent>,
}

/// Factors by the direct solver until a factorization fails or takes longer than a
/// threshold, then by the iterative one. A failed iterative factorization, or too
/// many failed iterative solves, bring the direct solver back.
pub struct FeralHybrid<D, I, C> {
    direct: D,
    iterative: I,
    clock: C,
    mode: HybridMode,
    last_factor_time: u64,
    time_threshold: u64,
    iterative_failures: usize,
    direct_failures: usize,
    needs_refactor: bool,
    calls: Ghost<Seq<SolverEvent>>,
}

/// What a factorization does and answers. `d` and `i` are the replies of the direct
/// and of the iterative solver, where they were asked, and `seconds` is the time that
/// the direct one took.
pub open spec fn hybrid_factor(
    was: HybridModel,
    m: MatrixModel,
    d: Result<Option<Inertia>, ErrorModel>,
    i: Result<Option<Inertia>, ErrorModel>,
    seconds: u64,
) -> (HybridModel, Result<Option<Inertia>, ErrorModel>) {
    let ask_d = was.direct.push(SolverEvent::Factor(m, d));
    let ask_i = was.iterative.push(SolverEvent::Factor(m, i));
    match was.mode {
        HybridMode::Direct => {
            let timed = HybridModel { direct: ask_d, last_factor_time: seconds, ..was };
            if d is Err {
                (
                    HybridModel {
                        direct_failures: one_more(was.direct_failures),
                        mode: HybridMode::Iterative,
                        iterative_failures: 0,
                        iterative: ask_i,
                        ..timed
                    },
                    i,
                )
            } else if num_lt(was.time_threshold, seconds) {
                (
                    HybridModel {
                        direct_failures: 0,
                        iterative_failures: 0,
                        iterative: ask_i,
                        mode: if i is Ok {
                            HybridMode::Iterative
                        } else {
                            HybridMode::Direct
                        },
                        ..timed
                    },
                    if i is Ok {
                        i
                    } else {
                        d
                    },
                )
            } else {
                (HybridModel { direct_failures: 0, ..timed }, d)
            }
        },
        HybridMode::Iterative => if i is Ok {
            (HybridModel { iterative: ask_i, ..was }, i)
        } else {
            (
                HybridModel { iterative: ask_i, direct: ask_d, mode: HybridMode::Direct, ..was },
                d,
            )
        },
    }
}

/// The state after a solve by the solver of the mode.
pub open spec fn hybrid_solve(
    was: HybridModel,
    rhs: Seq<u64>,
    given: Seq<u64>,
    solution: Seq<u64>,
    r: Result<(), ErrorModel>,
) -> HybridModel {
    let e = SolverEvent::Solve(rhs, given, solution, r);
    match was.mode {
        HybridMode::Direct => HybridModel { direct: was.direct.push(e), ..was },
        HybridMode::Iterative => {
            let asked = HybridModel { iterative: was.iterative.push(e), ..was };
            if r is Ok {
                HybridModel { iterative_failures: 0, ..asked }
            } else if one_more(was.iterative_failures) >= MAX_ITERATIVE_FAILURES {
                HybridModel {
                    mode: HybridMode::Direct,
                    iterative_failures: 0,
                    needs_refactor: true,
                    ..asked
                }
            } else {
                HybridModel { iterative_failures: one_more(was.iterative_failures), ..asked }
            }
        },
    }
}

/// The matrix was factored from the state `was` with some replies of the two solvers
/// and some time of the direct one.
pub open spec fn factor_follows(
    was: HybridModel,
    m: MatrixModel,
    now: HybridModel,
    r: Result<Option<Inertia>, ErrorModel>,
) -> bool {
    exists|
        d: Result<Option<Inertia>, ErrorModel>,
        i: Result<Option<Inertia>, ErrorModel>,
        seconds: u64,
    |
        #[trigger] hybrid_factor(was, m, d, i, seconds) == (now, r)
}

/// A clock tells `seconds` as the time since some mark of its own.
pub open spec fn is_timed<C: Clock>(clock: C, seconds: u64) -> bool {
    exists|mark: u64| #[trigger]
        call_ensures(C::mark, (&clock,), mark) && call_ensures(
            C::seconds_since,
            (&clock, mark),
            seconds,
        )
}

impl<D: LinearSolver, I: LinearSolver, C: Clock> FeralHybrid<D, I, C> {
    pub closed spec fn model(&self) -> HybridModel {
        HybridModel {
            mode: self.mode,
            last_factor_time: self.last_factor_time,
            time_threshold: self.time_threshold,
            iterative_failures: self.iterative_failures,
            direct_failures: self.direct_failures,
            needs_refactor: self.needs_refactor,
            direct: self.direct.log(),
            iterative: self.iterative.log(),
        }
    }

    pub closed spec fn direct_solver(&self) -> D {
        self.direct
    }

    pub closed spec fn iterative_solver(&self) -> I {
        self.iterative
    }

    pub closed spec fn timer(&self) -> C {
        self.clock
    }

    /// A hybrid of the two solvers that starts with the direct one, and finds a
    /// second too long.
    pub fn new(direct: D, iterative: I, clock: C) -> (h: Self)
        ensures
            h.direct_solver() == direct,
            h.iterative_solver() == iterative,
            h.timer() == clock,
            h.log() == Seq::<SolverEvent>::empty(),
            h.model() == (HybridModel {
                mode: HybridMode::Direct,
                last_factor_time: ZERO,
                time_threshold: ONE,
                iterative_failures: 0,
                direct_failures: 0,
                needs_refactor: false,
                direct: direct.log(),
                iterative: iterative.log(),
            }),
    {
        FeralHybrid {
            direct,
            iterative,
            clock,
            mode: HybridMode::Direct,
            last_factor_time: ZERO,
            time_threshold: ONE,
            iterative_failures: 0,
            direct_failures: 0,
            needs_refactor: false,
            calls: Ghost(Seq::empty()),
        }
    }

    /// The same with another threshold.
    pub fn with_time_threshold(self, seconds: u64) -> (h: Self)
        ensures
            h.log() == self.log(),
            h.direct_solver() == self.direct_solver(),
            h.iterative_solver() == self.iterative_solver(),
            h.timer() == self.timer(),
            h.model() == (HybridModel { time_threshold: seconds, ..self.model() }),
    {
        FeralHybrid {
            direct: self.direct,
            iterative: self.iterative,
            clock: self.clock,
            mode: self.mode,
            last_factor_time: self.last_factor_time,
            time_threshold: seconds,
            iterative_failures: self.iterative_failures,
            direct_failures: self.direct_failures,
            needs_refactor: self.needs_refactor,
            calls: self.calls,
        }
    }

    /// The solver that is asked next.
    pub fn mode(&self) -> (m: HybridMode)
        ensures
            m == self.model().mode,
    {
        self.mode
    }

    /// Factors by the direct solver, and by the iterative one where that fails or
    /// takes too long.
    fn factor_direct(&mut self, matrix: &KktMatrix) -> (r: Result<Option<Inertia>, SolverError>)
        requires
            matrix.well_formed(),
            old(self).model().mode == HybridMode::Direct,
        ensures
            final(self).log() == old(self).log(),
            final(self).timer() == old(self).timer(),
            is_timed(old(self).timer(), final(self).model().last_factor_time),
            factor_follows(old(self).model(), matrix.model(), final(self).model(), reply(r)),
    {
        let ghost was = self.model();
        let ghost m = matrix.model();
        let start: u64 = self.clock.mark();
        let result: Result<Option<Inertia>, SolverError> = self.direct.factor(matrix);
        let seconds: u64 = self.clock.seconds_since(start);
        self.last_factor_time = seconds;
        let ghost d = reply(result);
        match result {
            Ok(inertia) => {
                self.direct_failures = 0;
                if lt(self.time_threshold, self.last_factor_time) {
                    self.iterative_failures = 0;
                    let again: Result<Option<Inertia>, SolverError> = self.iterative.factor(
                        matrix,
                    );
                    let ghost i = reply(again);
                    if let Ok(iter_inertia) = again {
                        self.mode = HybridMode::Iterative;
                        assert(hybrid_factor(was, m, d, i, seconds) == (
                            self.model(),
                            Ok::<Option<Inertia>, ErrorModel>(iter_inertia),
                        ));
                        return Ok(iter_inertia);
                    }
                    assert(hybrid_factor(was, m, d, i, seconds) == (
                        self.model(),
                        Ok::<Option<Inertia>, ErrorModel>(inertia),
                    ));
                } else {
                    assert(hybrid_factor(was, m, d, d, seconds) == (
                        self.model(),
                        Ok::<Option<Inertia>, ErrorModel>(inertia),
                    ));
                }
                Ok(inertia)
            },
            Err(e) => {
                self.direct_failures = count_up(self.direct_failures);
                self.mode = HybridMode::Iterative;
                self.iterative_failures = 0;
                let again: Result<Option<Inertia>, SolverError> = self.iterative.factor(matrix);
                assert(hybrid_factor(was, m, d, reply(again), seconds) == (
                    self.model(),
                    reply(again),
                ));
                again
            },
        }
    }

    /// Factors by the iterative solver, and by the direct one where that fails.
    fn factor_iterative(&mut self, matrix: &KktMatrix) -> (r: Result<
        Option<Inertia>,
        SolverError,
    >)
        requires
            matrix.well_formed(),
            old(self).model().mode == HybridMode::Iterative,
        ensures
            final(self).log() == old(self).log(),
            final(self).timer() == old(self).timer(),
            factor_follows(old(self).model(), matrix.model(), final(self).model(), reply(r)),
    {
        let ghost was = self.model();
        let ghost m = matrix.model();
        let result: Result<Option<Inertia>, SolverError> = self.iterative.factor(matrix);
        let ghost i = reply(result);
        match result {
            Ok(inertia) => {
                assert(hybrid_factor(was, m, i, i, 0) == (
                    self.model(),
                    Ok::<Option<Inertia>, ErrorModel>(inertia),
                ));
                Ok(inertia)
            },
            Err(e) => {
                self.mode = HybridMode::Direct;
                let again: Result<Option<Inertia>, SolverError> = self.direct.factor(matrix);
                assert(hybrid_factor(was, m, reply(again), i, 0) == (self.model(), reply(again)));
                again
            },
        }
    }
}

impl<D: LinearSolver, I: LinearSolver, C: Clock> LinearSolver for FeralHybrid<D, I, C> {
    closed spec fn log(&self) -> Seq<SolverEvent> {
        self.calls@
    }

    fn factor(&mut self, matrix: &KktMatrix) -> (r: Result<Option<Inertia>, SolverError>)
        ensures
            factor_follows(old(self).model(), matrix.model(), final(self).model(), reply(r)),
            final(self).timer() == old(self).timer(),
            old(self).model().mode == HybridMode::Direct ==> is_timed(
                old(self).timer(),
                final(self).model().last_factor_time,
            ),
    {
        let r: Result<Option<Inertia>, SolverError> = match self.mode {
            HybridMode::Direct => self.factor_direct(matrix),
            HybridMode::Iterative => self.factor_iterative(matrix),
        };
        proof {
            self.calls@ = self.calls@.push(SolverEvent::Factor(matrix.model(), reply(r)));
        }
        r
    }

    fn solve(&mut self, rhs: &Vec<u64>, solution: &mut Vec<u64>) -> (r: Result<(), SolverError>)
        ensures
            final(self).timer() == old(self).timer(),
            final(self).model() == hybrid_solve(
                old(self).model(),
                rhs@,
                old(solution)@,
                final(solution)@,
                reply(r),
            ),
    {
        let ghost given = solution@;
        let r: Result<(), SolverError> = match self.mode {
            HybridMode::Direct => self.direct.solve(rhs, solution),
            HybridMode::Iterative => {
                let result: Result<(), SolverError> = self.iterative.solve(rhs, solution);
                match &result {
                    Ok(()) => {
                        self.iterative_failures = 0;
                    },
                    Err(e) => {
                        self.iterative_failures = count_up(self.iterative_failures);
                        if self.iterative_failures >= MAX_ITERATIVE_FAILURES {
                            self.mode = HybridMode::Direct;
                            self.iterative_failures = 0;
                            self.needs_refactor = true;
                        }
                    },
                }
                result
            },
        };
        proof {
            self.calls@ = self.calls@.push(SolverEvent::Solve(rhs@, given, solution@, reply(r)));
        }
        r
    }

    fn provides_inertia(&self) -> (p: bool)
        ensures
            p,
    {
        true
    }

    fn min_diagonal(&self) -> (least: Option<u64>)
        ensures
            match self.model().mode {
                HybridMode::Direct => call_ensures(D::min_diagonal, (&self.direct_solver(),), least),
                HybridMode::Iterative => call_ensures(
                    I::min_diagonal,
                    (&self.iterative_solver(),),
                    least,
                ),
            },
    {
        match self.mode {
            HybridMode::Direct => self.direct.min_diagonal(),
            HybridMode::Iterative => self.iterative.min_diagonal(),
        }
    }

    fn increase_quality(&mut self) -> (improved: bool)
        ensures
            final(self).timer() == old(self).timer(),
            final(self).model() == (match old(self).model().mode {
                HybridMode::Direct => HybridModel {
                    direct: old(self).model().direct.push(SolverEvent::Improve(improved)),
                    ..old(self).model()
                },
                HybridMode::Iterative => HybridModel {
                    iterative: old(self).model().iterative.push(SolverEvent::Improve(improved)),
                    ..old(self).model()
                },
            }),
    {
        let improved: bool = match self.mode {
            HybridMode::Direct => self.direct.increase_quality(),
            HybridMode::Iterative => self.iterative.increase_quality(),
        };
        proof {
            self.calls@ = self.calls@.push(SolverEvent::Improve(improved));
        }
        improved
    }
}

/// A factorization that both solvers refuse fails with the error of the one that was
/// asked last, and one that either of them would give succeeds.
pub proof fn fails_only_with_both(
    was: HybridModel,
    m: MatrixModel,
    d: Result<Option<Inertia>, ErrorModel>,
    i: Result<Option<Inertia>, ErrorModel>,
    seconds: u64,
)
    ensures
        hybrid_factor(was, m, d, i, seconds).1 is Err <==> d is Err && i is Err,
        d is Err && i is Err ==> hybrid_factor(was, m, d, i, seconds).1 == match was.mode {
            HybridMode::Direct => i,
            HybridMode::Iterative => d,
        },
{
}

} // verus!
