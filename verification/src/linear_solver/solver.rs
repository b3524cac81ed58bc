//! Linear solvers.

use crate::linear_solver::model::MatrixModel;
use crate::linear_solver::{Inertia, KktMatrix, SolverError};
use vstd::prelude::*;

verus! {

/// What a factorization reports of itself, as far as the solver knows it.
#[derive(Debug)]
pub struct FactorDiagnostics {
    /// Pivots that were moved to a later place.
    pub n_delayed: Option<usize>,
    /// Pivot blocks of two rows.
    pub n_2x2: Option<usize>,
    /// Entries of the factor.
    pub factor_nnz: Option<usize>,
    /// Smallest diagonal entry in magnitude.
    pub min_diagonal: Option<u64>,
    /// Name of the scaling.
    pub scaling_info: Option<String>,
    /// Name of the algorithm.
    pub resolved_method: Option<String>,
}

/// Nothing is known.
pub open spec fn no_diagnostics() -> FactorDiagnostics {
    FactorDiagnostics {
        n_delayed: None,
        n_2x2: None,
        factor_nnz: None,
        min_diagonal: None,
        scaling_info: None,
        resolved_method: None,
    }
}

impl Default for FactorDiagnostics {
    fn default() -> (d: Self)
        ensures
            d == no_diagnostics(),
    {
        FactorDiagnostics {
            n_delayed: None,
            n_2x2: None,
            factor_nnz: None,
            min_diagonal: None,
            scaling_info: None,
            resolved_method: None,
        }
    }
}

/// A solver error as a mathematical value.
#[verifier::ext_equal]
pub enum ErrorModel {
    Singular,
    WrongInertia(Inertia),
    Failure(Seq<char>),
    Mismatch(usize, usize),
    Pretend,
}

pub open spec fn error_model(e: SolverError) -> ErrorModel {
    match e {
        SolverError::SingularMatrix => ErrorModel::Singular,
        SolverError::WrongInertia { actual } => ErrorModel::WrongInertia(actual),
        SolverError::NumericalFailure(msg) => ErrorModel::Failure(msg@),
        SolverError::DimensionMismatch { expected, got } => ErrorModel::Mismatch(expected, got),
        SolverError::PretendSingular => ErrorModel::Pretend,
    }
}

/// A reply with its error as a mathematical value.
pub open spec fn reply<T>(r: Result<T, SolverError>) -> Result<T, ErrorModel> {
    match r {
        Ok(v) => Ok(v),
        Err(e) => Err(error_model(e)),
    }
}

/// A failure with a message.
pub fn failure(message: &str) -> (e: SolverError)
    ensures
        error_model(e) == ErrorModel::Failure(message@),
{
    SolverError::NumericalFailure(String::from_str(message))
}

/// A call of a solver, with what it was given and what it gave back.
#[verifier::ext_equal]
pub enum SolverEvent {
    /// The matrix and the reply.
    Factor(MatrixModel, Result<Option<Inertia>, ErrorModel>),
    /// The right-hand side, the solution buffer before and after the call, and
    /// the reply.
    Solve(Seq<u64>, Seq<u64>, Seq<u64>, Result<(), ErrorModel>),
    /// Whether the quality was improved.
    Improve(bool),
}

/// Column `c` of a column-major table with columns of length `n`.
pub open spec fn column(v: Seq<u64>, n: int, c: int) -> Seq<u64> {
    v.subrange(c * n, c * n + n)
}

/// The events are the solves of the columns of `rhs`, one after the other, up
/// to the first that fails or the last. `before` and `after` are the solution
/// buffer before the first and after the last of them.
pub open spec fn columns_solved(
    ev: Seq<SolverEvent>,
    n: int,
    nrhs: int,
    rhs: Seq<u64>,
    before: Seq<u64>,
    after: Seq<u64>,
    r: Result<(), ErrorModel>,
) -> bool {
    &&& ev.len() <= nrhs
    &&& r is Ok ==> ev.len() == nrhs
    &&& r is Err ==> ev.len() > 0
    &&& after.len() == before.len()
    &&& forall|c: int|
        0 <= c < ev.len() ==> (#[trigger] ev[c] matches SolverEvent::Solve(b, z, x, q) && b
            == column(rhs, n, c) && z == column(before, n, c) && x == column(after, n, c) && q == (if c + 1 == ev.len() {
            r
        } else {
            Ok::<(), ErrorModel>(())
        }))
    &&& forall|i: int| ev.len() * n <= i < before.len() ==> #[trigger] after[i] == before[i]
}

/// A copy of a column.
fn column_of(v: &Vec<u64>, n: usize, c: usize) -> (col: Vec<u64>)
    requires
        c * n + n <= v@.len(),
    ensures
        col@ == column(v@, n as int, c as int),
{
    let total: usize = v.len();
    assert(0 <= c * n) by (nonlinear_arith);
    let start: usize = c * n;
    let mut col: Vec<u64> = Vec::with_capacity(n);
    for i in 0..n
        invariant
            start == c * n,
            start + n <= v@.len(),
            v@.len() == total,
            col@ == v@.subrange(start as int, start + i),
    {
        col.push(v[start + i]);
        assert(col@ =~= v@.subrange(start as int, start + i + 1));
    }
    col
}

/// A solver of symmetric linear systems. Its log tells what it was asked and
/// what it answered. A solver that leaves the log as it is given here cannot meet
/// the clauses that append to it, so what is proved over the log does not cover
/// such a solver.
pub trait LinearSolver {
    /// The calls up to now that factor, solve or improve. Of a solver that does
    /// not tell its log nothing is known.
    open spec fn log(&self) -> Seq<SolverEvent> {
        vstd::pervasive::arbitrary()
    }

    /// Factors the matrix. The reply holds the inertia where the solver can
    /// tell it.
    fn factor(&mut self, matrix: &KktMatrix) -> (r: Result<Option<Inertia>, SolverError>)
        requires
            matrix.well_formed(),
        ensures
            final(self).log() == old(self).log().push(
                SolverEvent::Factor(matrix.model(), reply(r)),
            ),
    ;

    /// Solves with the matrix factored last.
    fn solve(&mut self, rhs: &Vec<u64>, solution: &mut Vec<u64>) -> (r: Result<(), SolverError>)
        ensures
            final(solution)@.len() == old(solution)@.len(),
            final(self).log() == old(self).log().push(
                SolverEvent::Solve(rhs@, old(solution)@, final(solution)@, reply(r)),
            ),
    ;

    /// Solves for `nrhs` right-hand sides with the matrix factored last. `rhs` and
    /// `solution` hold them column by column.
    fn solve_many(
        &mut self,
        rhs: &Vec<u64>,
        nrhs: usize,
        solution: &mut Vec<u64>,
    ) -> (r: Result<(), SolverError>)
        ensures
            final(solution)@.len() == old(solution)@.len(),
            nrhs == 0 ==> r is Ok && final(self).log() == old(self).log() && final(solution)@
                == old(solution)@,
            nrhs > 0 && (rhs@.len() % nrhs as nat != 0 || rhs@.len() != old(solution)@.len()) ==> {
                &&& reply(r) == Err::<(), ErrorModel>(
                    ErrorModel::Mismatch(
                        ((rhs@.len() / nrhs as nat) * nrhs) as usize,
                        if rhs@.len() <= old(solution)@.len() {
                            rhs@.len() as usize
                        } else {
                            old(solution)@.len() as usize
                        },
                    ),
                )
                &&& final(self).log() == old(self).log()
                &&& final(solution)@ == old(solution)@
            },
            nrhs > 0 && rhs@.len() % nrhs as nat == 0 && rhs@.len() == old(solution)@.len() ==> {
                let was = old(self).log();
                let now = final(self).log();
                &&& was.is_prefix_of(now)
                &&& columns_solved(
                    now.skip(was.len() as int),
                    (rhs@.len() / nrhs as nat) as int,
                    nrhs as int,
                    rhs@,
                    old(solution)@,
                    final(solution)@,
                    reply(r),
                )
            },
    {
        if nrhs == 0 {
            return Ok(());
        }
        let n: usize = rhs.len() / nrhs;
        let total: usize = rhs.len();
        proof {
            vstd::arithmetic::div_mod::lemma_fundamental_div_mod(total as int, nrhs as int);
            vstd::arithmetic::mul::lemma_mul_is_commutative(n as int, nrhs as int);
        }
        let expected: usize = total - total % nrhs;
        if total % nrhs != 0 || solution.len() != total {
            let got: usize = if total <= solution.len() {
                total
            } else {
                solution.len()
            };
            return Err(SolverError::DimensionMismatch { expected, got });
        }
        assert(n * nrhs == total);
        let ghost was = self.log();
        let ghost before = solution@;
        assert(self.log().skip(was.len() as int) =~= Seq::empty());
        for c in 0..nrhs
            invariant
                n * nrhs == total,
                nrhs > 0,
                total % nrhs == 0,
                n == total / nrhs,
                was == old(self).log(),
                before == old(solution)@,
                rhs@.len() == total,
                solution@.len() == total,
                before.len() == total,
                was.is_prefix_of(self.log()),
                self.log().len() == was.len() + c,
                forall|k: int|
                    0 <= k < c ==> (#[trigger] self.log()[was.len() + k] matches SolverEvent::Solve(
                        b,
                        z,
                        x,
                        q,
                    ) && b == column(rhs@, n as int, k) && z == column(before, n as int, k) && x == column(solution@, n as int, k) && q
                        == Ok::<(), ErrorModel>(())),
                forall|i: int| c * n <= i < total ==> #[trigger] solution@[i] == before[i],
        {
            proof {
                assert(c * n + n <= nrhs * n) by (nonlinear_arith)
                    requires
                        c < nrhs,
                        0 <= n,
                ;
                assert(nrhs * n == n * nrhs) by (nonlinear_arith);
                assert((c + 1) * n == c * n + n) by (nonlinear_arith);
            }
            let b: Vec<u64> = column_of(rhs, n, c);
            let mut x: Vec<u64> = column_of(solution, n, c);
            assert(x@ =~= column(before, n as int, c as int));
            let ghost log_before = self.log();
            let result: Result<(), SolverError> = self.solve(&b, &mut x);
            let ghost sol_before = solution@;
            let start: usize = c * n;
            for i in 0..n
                invariant
                    start == c * n,
                    start + n <= total,
                    x@.len() == n,
                    solution@.len() == total,
                    sol_before.len() == total,
                    forall|k: int|
                        0 <= k < total ==> #[trigger] solution@[k] == if start <= k < start + i {
                            x@[k - start]
                        } else {
                            sol_before[k]
                        },
            {
                solution.set(start + i, x[i]);
            }
            proof {
                assert(column(solution@, n as int, c as int) =~= x@);
                assert forall|k: int| 0 <= k < c implies #[trigger] column(solution@, n as int, k)
                    == column(sol_before, n as int, k) by {
                    assert(k * n + n <= c * n) by (nonlinear_arith)
                        requires
                            0 <= k < c,
                            0 <= n,
                    ;
                    assert(0 <= k * n) by (nonlinear_arith)
                        requires
                            0 <= k,
                            0 <= n,
                    ;
                    assert(column(solution@, n as int, k) =~= column(sol_before, n as int, k));
                }
                assert forall|k: int| 0 <= k < c implies #[trigger] self.log()[was.len() + k]
                    == log_before[was.len() + k] by {}
            }
            match result {
                Ok(()) => {},
                Err(e) => {
                    proof {
                        let ev = self.log().skip(was.len() as int);
                        assert forall|k: int| 0 <= k < ev.len() implies (
                        #[trigger] ev[k] matches SolverEvent::Solve(b, z, x, q) && b == column(
                            rhs@,
                            n as int,
                            k,
                        ) && z == column(before, n as int, k) && x == column(solution@, n as int, k) && q == (if k + 1 == ev.len() {
                            Err::<(), ErrorModel>(error_model(e))
                        } else {
                            Ok::<(), ErrorModel>(())
                        })) by {
                            assert(ev[k] == self.log()[was.len() + k]);
                        }
                        assert(ev.len() == c + 1);
                        assert(ev.len() * n == c * n + n);
                    }
                    return Err(e);
                },
            }
        }
        proof {
            let ev = self.log().skip(was.len() as int);
            assert forall|k: int| 0 <= k < ev.len() implies (#[trigger] ev[k] matches SolverEvent::Solve(
                b,
                z,
                x,
                q,
            ) && b == column(rhs@, n as int, k) && z == column(before, n as int, k) && x == column(solution@, n as int, k) && q == (if k + 1
                == ev.len() {
                Ok::<(), ErrorModel>(())
            } else {
                Ok::<(), ErrorModel>(())
            })) by {
                assert(ev[k] == self.log()[was.len() + k]);
            }
        }
        Ok(())
    }

    /// Whether the solver tells the inertia.
    fn provides_inertia(&self) -> bool;

    /// The smallest diagonal entry of the factored matrix, where the solver
    /// can tell it.
    fn min_diagonal(&self) -> (least: Option<u64>)
        default_ensures
            least is None,
    {
        None
    }

    /// Improves the quality of later factorizations, if it still can.
    fn increase_quality(&mut self) -> (improved: bool)
        ensures
            final(self).log() == old(self).log().push(SolverEvent::Improve(improved)),
    ;

    /// What the last factorization reports of itself.
    fn last_factor_diagnostics(&self) -> (d: FactorDiagnostics)
        default_ensures
            d == no_diagnostics(),
    {
        FactorDiagnostics::default()
    }

    /// An estimate of the condition number in the one-norm, where the solver
    /// has one.
    fn estimate_condition_1norm(&mut self) -> (estimate: Option<u64>)
        ensures
            final(self).log() == old(self).log(),
        default_ensures
            estimate is None,
    {
        None
    }
}

} // verus!
