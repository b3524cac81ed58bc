//! Numbers, vectors and matrices as real ones.

use crate::float::{finite, negated, num_eq, num_lt, FloatOp, Fpu, ONE, ZERO};
use crate::linear_solver::linear_algebra::is_symmetric;
use crate::linear_solver::model::MatrixModel;
use crate::linear_solver::sparse_matrix::{upper, Triplet};
use crate::linear_solver::KktMatrix;
use vstd::prelude::*;

verus! {

/// Zeros and the one are what they stand for, and a change of sign is exact.
pub open spec fn reads_numbers(value: spec_fn(u64) -> real) -> bool {
    &&& forall|a: u64| num_eq(a, ZERO) ==> #[trigger] value(a) == (0 as real)
    &&& forall|a: u64| #[trigger] value(negated(a)) == -value(a)
    &&& value(ONE) == (1 as real)
}

/// Comparisons of finite numbers are those of what they stand for.
pub open spec fn reads_order(value: spec_fn(u64) -> real) -> bool {
    forall|a: u64, b: u64|
        #![trigger value(a), value(b)]
        finite(a) && finite(b) ==> (num_lt(a, b) <==> value(a) < value(b)) && (num_eq(a, b)
            <==> value(a) == value(b))
}

/// The larger one of two numbers is picked.
pub open spec fn picks_larger<F: Fn(FloatOp, u64, u64) -> u64>(
    a: u64,
    b: u64,
    fpu: Fpu<F>,
    value: spec_fn(u64) -> real,
) -> bool {
    value(fpu.calc(FloatOp::Max, a, b)) == if value(a) >= value(b) {
        value(a)
    } else {
        value(b)
    }
}

/// The smaller one of two numbers is picked.
pub open spec fn picks_smaller<F: Fn(FloatOp, u64, u64) -> u64>(
    a: u64,
    b: u64,
    fpu: Fpu<F>,
    value: spec_fn(u64) -> real,
) -> bool {
    value(fpu.calc(FloatOp::Min, a, b)) == if value(a) <= value(b) {
        value(a)
    } else {
        value(b)
    }
}

/// The operation does not round.
pub open spec fn exact<F: Fn(FloatOp, u64, u64) -> u64>(
    op: FloatOp,
    a: u64,
    b: u64,
    fpu: Fpu<F>,
    value: spec_fn(u64) -> real,
) -> bool {
    let r = value(fpu.calc(op, a, b));
    match op {
        FloatOp::Add => r == value(a) + value(b),
        FloatOp::Sub => r == value(a) - value(b),
        FloatOp::Mul => r == value(a) * value(b),
        FloatOp::Div => r * value(b) == value(a),
        FloatOp::Sqrt => r * r == value(a),
        _ => false,
    }
}

/// A product, and its sum with `acc` or its difference from `acc`, do not round.
pub open spec fn exact_term<F: Fn(FloatOp, u64, u64) -> u64>(
    acc: u64,
    a: u64,
    b: u64,
    minus: bool,
    fpu: Fpu<F>,
    value: spec_fn(u64) -> real,
) -> bool {
    &&& exact(FloatOp::Mul, a, b, fpu, value)
    &&& exact(
        if minus {
            FloatOp::Sub
        } else {
            FloatOp::Add
        },
        acc,
        fpu.product(a, b),
        fpu,
        value,
    )
}

pub open spec fn vector_of(x: Seq<u64>, value: spec_fn(u64) -> real) -> spec_fn(int) -> real {
    |i: int| value(x[i])
}

/// The sum of those of the first `k` entries that lie at `(i, j)` or at its
/// mirror place.
pub open spec fn entries_total(
    t: Seq<Triplet>,
    i: int,
    j: int,
    k: nat,
    value: spec_fn(u64) -> real,
) -> real
    decreases k,
{
    if k == 0 {
        0 as real
    } else {
        let before = entries_total(t, i, j, (k - 1) as nat, value);
        if t[k - 1].row == upper(i, j, 0).row && t[k - 1].col == upper(i, j, 0).col {
            before + value(t[k - 1].val)
        } else {
            before
        }
    }
}

/// The real matrix that the model stands for.
pub open spec fn matrix_of(
    m: MatrixModel,
    value: spec_fn(u64) -> real,
) -> spec_fn(int, int) -> real {
    |i: int, j: int|
        match m {
            MatrixModel::Dense { n, rows } => value(rows[i][j]),
            MatrixModel::Sparse { n, entries } => entries_total(
                entries,
                i,
                j,
                entries.len(),
                value,
            ),
        }
}

/// What a matrix stands for is symmetric.
pub proof fn matrices_are_symmetric(m: KktMatrix, value: spec_fn(u64) -> real)
    ensures
        is_symmetric(matrix_of(m.model(), value), m.dim() as nat),
{
    let a = matrix_of(m.model(), value);
    assert forall|i: int, j: int| 0 <= i < m.dim() && 0 <= j < m.dim() implies #[trigger] a(i, j)
        == a(j, i) by {
        match m.model() {
            MatrixModel::Dense { n, rows } => {},
            MatrixModel::Sparse { n, entries } => {
                lemma_mirrored(entries, i, j, entries.len(), value);
            },
        }
    }
}

proof fn lemma_mirrored(
    t: Seq<Triplet>,
    i: int,
    j: int,
    k: nat,
    value: spec_fn(u64) -> real,
)
    ensures
        entries_total(t, i, j, k, value) == entries_total(t, j, i, k, value),
    decreases k,
{
    if k > 0 {
        lemma_mirrored(t, i, j, (k - 1) as nat, value);
    }
}

} // verus!
