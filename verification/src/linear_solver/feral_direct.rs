//! The decisions of the sparse direct solver: what to analyze, what to keep
//! between factorizations, when to raise the quality. The multifrontal
//! factorization itself is done by `feral`.

use crate::float::{eq, le, num_eq, num_le, FloatOp, Fpu, HALF, TEN_M12, ZERO};
use crate::linear_solver::solver::{error_model, failure, reply, ErrorModel};
use crate::linear_solver::sparse_matrix::{entries_at, SparseSymmetricMatrix};
use crate::linear_solver::{copy_indices, copy_numbers, Inertia, KktMatrix, SolverError};
use crate::text::decimal;
use vstd::prelude::*;

verus! {

/// Pivot threshold after the first step up from none: 0.01.
pub const FIRST_PIVOT_THRESHOLD: u64 = 0x3f84_7ae1_47ae_147b;

/// Power by which a pivot threshold is raised: 0.75.
pub const PIVOT_EXPONENT: u64 = 0x3fe8_0000_0000_0000;

/// A list of this many pairs of numbers fits in the memory that can be addressed.
pub open spec fn addressable(count: int) -> bool {
    count < usize::MAX / 32
}

/// The row and the column of an entry below the diagonal.
pub open spec fn lower(i: usize, j: usize) -> (usize, usize) {
    if i <= j {
        (j, i)
    } else {
        (i, j)
    }
}

/// The entries lie in the lower triangle of an `n` by `n` matrix.
pub open spec fn triplets_lower(n: int, rows: Seq<usize>, cols: Seq<usize>) -> bool {
    &&& rows.len() == cols.len()
    &&& forall|k: int| 0 <= k < rows.len() ==> cols[k] <= (#[trigger] rows[k]) < n
}

/// Place `q` belongs to column `c`.
pub open spec fn in_column(col_ptr: Seq<usize>, c: int, q: int) -> bool {
    &&& 0 <= c
    &&& c + 1 < col_ptr.len()
    &&& col_ptr[c] <= q < col_ptr[c + 1]
}

/// `q` is the place of row `r` in column `c`.
pub open spec fn placed(
    col_ptr: Seq<usize>,
    row_idx: Seq<usize>,
    r: usize,
    c: usize,
    q: int,
) -> bool {
    &&& in_column(col_ptr, c as int, q)
    &&& q < row_idx.len()
    &&& row_idx[q] == r
}

/// Columns of strictly increasing rows.
pub open spec fn columns(col_ptr: Seq<usize>, row_idx: Seq<usize>) -> bool {
    &&& col_ptr.len() > 0
    &&& col_ptr[0] == 0
    &&& col_ptr[col_ptr.len() - 1] == row_idx.len()
    &&& forall|a: int, b: int|
        0 <= a <= b < col_ptr.len() ==> #[trigger] col_ptr[a] <= #[trigger] col_ptr[b]
    &&& forall|c: int, p: int, q: int| #[trigger]
        in_column(col_ptr, c, p) && #[trigger] in_column(col_ptr, c, q) && p < q ==> row_idx[p]
            < row_idx[q]
}

/// Row `r` is in column `c`.
pub open spec fn has_place(
    col_ptr: Seq<usize>,
    row_idx: Seq<usize>,
    r: usize,
    c: usize,
) -> bool {
    exists|q: int| #[trigger] placed(col_ptr, row_idx, r, c, q)
}

/// There is an entry at row `r` and column `c`.
pub open spec fn listed(rows: Seq<usize>, cols: Seq<usize>, r: usize, c: usize) -> bool {
    exists|k: int| 0 <= k < rows.len() && (#[trigger] rows[k]) == r && cols[k] == c
}

/// The columns hold the places of the entries and no others.
pub open spec fn columns_of(
    n: int,
    rows: Seq<usize>,
    cols: Seq<usize>,
    col_ptr: Seq<usize>,
    row_idx: Seq<usize>,
) -> bool {
    &&& col_ptr.len() == n + 1
    &&& columns(col_ptr, row_idx)
    &&& forall|r: usize, c: usize| #[trigger]
        has_place(col_ptr, row_idx, r, c) <==> listed(rows, cols, r, c)
}

/// The first column from entry `k` on that is not below `n`.
pub open spec fn stray_column(n: nat, cols: Seq<usize>, k: nat) -> Option<usize>
    decreases cols.len() - k,
{
    if k >= cols.len() {
        None
    } else if cols[k as int] >= n {
        Some(cols[k as int])
    } else {
        stray_column(n, cols, k + 1)
    }
}

/// What is wrong with the first entry from `k` on whose row is not below `n`, or
/// which lies above the diagonal.
pub open spec fn stray_entry(n: nat, rows: Seq<usize>, cols: Seq<usize>, k: nat) -> Seq<char>
    decreases rows.len() - k,
{
    if k >= rows.len() {
        Seq::empty()
    } else {
        let (r, c) = (rows[k as int], cols[k as int]);
        if r >= n {
            "row index "@ + decimal(r as nat) + " out of bounds for n="@ + decimal(n)
        } else if r < c {
            "triplet "@ + decimal(k) + " ("@ + decimal(r as nat) + ", "@ + decimal(c as nat)
                + ") is upper-triangle; CscMatrix stores only the lower triangle (row >= col)"@
        } else {
            stray_entry(n, rows, cols, k + 1)
        }
    }
}

/// What `feral` says of entries that are not a lower triangle.
pub open spec fn refusal_text(n: nat, rows: Seq<usize>, cols: Seq<usize>) -> Seq<char> {
    "invalid input: "@ + if rows.len() != cols.len() {
        "triplet arrays must have equal length"@
    } else {
        match stray_column(n, cols, 0) {
            Some(c) => "column index "@ + decimal(c as nat) + " out of bounds for n="@ + decimal(n),
            None => stray_entry(n, rows, cols, 0),
        }
    }
}

/// Calls `feral::CscMatrix::from_triplets` for the places of the entries, with
/// a default value for each entry. The contract claims that it accepts exactly the
/// entries of a lower triangle, that the columns it gives hold their places once
/// each, with rising rows, and that the message of a refusal names the first
/// fault: the lengths, then the columns, then the rows and the triangle.
#[verifier::external_body]
fn compressed(n: usize, rows: &Vec<usize>, cols: &Vec<usize>) -> (r: Result<
    (Vec<usize>, Vec<usize>),
    String,
>)
    requires
        addressable(n as int),
        addressable(rows@.len() as int),
    ensures
        r is Ok <==> triplets_lower(n as int, rows@, cols@),
        r matches Ok(p) ==> columns_of(n as int, rows@, cols@, p.0@, p.1@),
        r matches Err(t) ==> t@ == refusal_text(n as nat, rows@, cols@),
{
    match feral::CscMatrix::from_triplets(n, rows, cols, &vec![Default::default(); rows.len()]) {
        Ok(m) => Ok((m.col_ptr, m.row_idx)),
        Err(e) => Err(e.to_string()),
    }
}

/// Why an outside call failed.
#[derive(Debug, Clone)]
pub enum FeralFailure {
    RankDeficient,
    DimensionMismatch { expected: usize, got: usize },
    /// Any other failure, with its message.
    Other(String),
}

pub open spec fn failure_model(f: FeralFailure) -> ErrorModel {
    match f {
        FeralFailure::RankDeficient => ErrorModel::Singular,
        FeralFailure::DimensionMismatch { expected, got } => ErrorModel::Mismatch(expected, got),
        FeralFailure::Other(text) => ErrorModel::Failure("feral: "@ + text@),
    }
}

/// The failure as an error of the solver.
pub fn map_error(f: FeralFailure) -> (e: SolverError)
    ensures
        error_model(e) == failure_model(f),
{
    match f {
        FeralFailure::RankDeficient => SolverError::SingularMatrix,
        FeralFailure::DimensionMismatch { expected, got } => SolverError::DimensionMismatch {
            expected,
            got,
        },
        FeralFailure::Other(text) => {
            let mut s: String = String::from_str("feral: ");
            s.append(text.as_str());
            SolverError::NumericalFailure(s)
        },
    }
}

/// Two steps by which the quality of a factorization is raised: first the
/// scaling, then the pivot threshold until it is at its largest.
#[derive(Debug, Clone, Copy, PartialEq, Eq, Structural)]
pub enum QualityLevel {
    Baseline,
    ScalingEnabled,
    PivotRaised,
    Exhausted,
}

#[derive(Debug, Clone, Copy, PartialEq, Eq, Structural)]
pub enum Scaling {
    Identity,
    InfNorm,
}

/// The columns of a lower triangle.
#[derive(Debug)]
pub struct LowerPattern {
    pub col_ptr: Vec<usize>,
    pub row_idx: Vec<usize>,
}

impl LowerPattern {
    pub open spec fn well_formed(&self) -> bool {
        columns(self.col_ptr@, self.row_idx@)
    }

    /// Row `r` is in column `c`.
    pub open spec fn holds(&self, r: usize, c: usize) -> bool {
        has_place(self.col_ptr@, self.row_idx@, r, c)
    }

    /// The place of row `r` in column `c`.
    fn find(&self, r: usize, c: usize) -> (q: usize)
        requires
            self.well_formed(),
            self.holds(r, c),
        ensures
            placed(self.col_ptr@, self.row_idx@, r, c, q as int),
    {
        let ghost want = choose|q: int| #[trigger] placed(self.col_ptr@, self.row_idx@, r, c, q);
        let count: usize = self.col_ptr.len();
        assert(c + 1 < count);
        let mut lo: usize = self.col_ptr[c];
        let mut hi: usize = self.col_ptr[c + 1];
        proof {
            let last = self.col_ptr@.len() - 1;
            assert(self.col_ptr@[c + 1] <= self.col_ptr@[last]);
        }
        while lo + 1 < hi
            invariant
                self.well_formed(),
                placed(self.col_ptr@, self.row_idx@, r, c, want),
                self.col_ptr@[c as int] <= lo <= want < hi <= self.col_ptr@[c + 1],
                hi <= self.row_idx@.len(),
            decreases hi - lo,
        {
            let mid: usize = lo + (hi - lo) / 2;
            proof {
                assert(in_column(self.col_ptr@, c as int, mid as int));
                if mid < want {
                    assert(self.row_idx@[mid as int] < self.row_idx@[want]);
                }
                if want < mid {
                    assert(self.row_idx@[want] < self.row_idx@[mid as int]);
                }
            }
            if self.row_idx[mid] <= r {
                lo = mid;
            } else {
                hi = mid;
            }
        }
        lo
    }
}

/// Entry `k` of the lists is at place `mapping[k]`, from entry `start` on.
pub open spec fn maps_from(
    col_ptr: Seq<usize>,
    row_idx: Seq<usize>,
    rows: Seq<usize>,
    cols: Seq<usize>,
    mapping: Seq<usize>,
    start: int,
) -> bool {
    forall|k: int|
        start <= k < rows.len() ==> placed(
            col_ptr,
            row_idx,
            rows[k],
            cols[k],
            (#[trigger] mapping[k]) as int,
        )
}

/// Adds the places of the entries beyond those that are already there.
fn build_coo_to_csc_mapping(
    rows: &Vec<usize>,
    cols: &Vec<usize>,
    pattern: &LowerPattern,
    mapping: &mut Vec<usize>,
)
    requires
        pattern.well_formed(),
        rows@.len() == cols@.len(),
        old(mapping)@.len() <= rows@.len(),
        forall|k: int|
            old(mapping)@.len() <= k < rows@.len() ==> pattern.holds(#[trigger] rows@[k], cols@[k]),
    ensures
        final(mapping)@.len() == rows@.len(),
        final(mapping)@.take(old(mapping)@.len() as int) == old(mapping)@,
        maps_from(
            pattern.col_ptr@,
            pattern.row_idx@,
            rows@,
            cols@,
            final(mapping)@,
            old(mapping)@.len() as int,
        ),
{
    let ghost was = mapping@;
    let start: usize = mapping.len();
    for k in start..rows.len()
        invariant
            pattern.well_formed(),
            rows@.len() == cols@.len(),
            start == was.len(),
            start <= k,
            mapping@.len() == k,
            mapping@.take(start as int) == was,
            forall|k: int|
                was.len() <= k < rows@.len() ==> pattern.holds(#[trigger] rows@[k], cols@[k]),
            forall|i: int|
                start <= i < k ==> placed(
                    pattern.col_ptr@,
                    pattern.row_idx@,
                    rows@[i],
                    cols@[i],
                    (#[trigger] mapping@[i]) as int,
                ),
    {
        assert(pattern.holds(rows@[k as int], cols@[k as int]));
        let place: usize = pattern.find(rows[k], cols[k]);
        mapping.push(place);
        assert(mapping@.take(start as int) =~= was);
    }
}

/// The first `k` values that go to place `p`, added up from the left.
pub open spec fn place_sum<F: Fn(FloatOp, u64, u64) -> u64>(
    mapping: Seq<usize>,
    vals: Seq<u64>,
    p: int,
    k: nat,
    fpu: Fpu<F>,
) -> u64
    decreases k,
{
    if k == 0 {
        ZERO
    } else {
        let acc = place_sum(mapping, vals, p, (k - 1) as nat, fpu);
        if mapping[k - 1] == p {
            fpu.sum(acc, vals[k - 1])
        } else {
            acc
        }
    }
}

/// The values by place.
pub open spec fn scattered_values<F: Fn(FloatOp, u64, u64) -> u64>(
    mapping: Seq<usize>,
    vals: Seq<u64>,
    nnz: nat,
    fpu: Fpu<F>,
) -> Seq<u64> {
    Seq::new(nnz, |p: int| place_sum(mapping, vals, p, vals.len(), fpu))
}

fn scatter<F: Fn(FloatOp, u64, u64) -> u64>(
    mapping: &Vec<usize>,
    vals: &Vec<u64>,
    nnz: usize,
    fpu: &Fpu<F>,
) -> (values: Vec<u64>)
    requires
        fpu.sound(),
        vals@.len() <= mapping@.len(),
        forall|k: int| 0 <= k < mapping@.len() ==> (#[trigger] mapping@[k]) < nnz,
    ensures
        values@ == scattered_values(mapping@, vals@, nnz as nat, *fpu),
{
    let mut values: Vec<u64> = vec![ZERO; nnz];
    for k in 0..vals.len()
        invariant
            fpu.sound(),
            vals@.len() <= mapping@.len(),
            forall|k: int| 0 <= k < mapping@.len() ==> (#[trigger] mapping@[k]) < nnz,
            values@.len() == nnz,
            forall|p: int|
                0 <= p < nnz ==> #[trigger] values@[p] == place_sum(
                    mapping@,
                    vals@,
                    p,
                    k as nat,
                    *fpu,
                ),
    {
        let p: usize = mapping[k];
        let now: u64 = values[p];
        values.set(p, fpu.add(now, vals[k]));
    }
    assert(values@ =~= scattered_values(mapping@, vals@, nnz as nat, *fpu));
    values
}

/// The state of a direct solver as a mathematical value.
#[verifier::ext_equal]
pub struct LdlModel {
    pub n: usize,
    pub factored: bool,
    /// There are factors to solve with.
    pub has_factors: bool,
    /// The columns of the matrix that was analyzed.
    pub pattern: Option<(Seq<usize>, Seq<usize>)>,
    /// The columns that are being analyzed.
    pub pending: Option<(Seq<usize>, Seq<usize>)>,
    /// The place of each entry.
    pub mapping: Seq<usize>,
    pub scaling: Scaling,
    pub pivot_threshold: u64,
    pub quality: QualityLevel,
}

pub open spec fn pattern_model(p: Option<LowerPattern>) -> Option<(Seq<usize>, Seq<usize>)> {
    match p {
        Some(p) => Some((p.col_ptr@, p.row_idx@)),
        None => None,
    }
}

/// State of a sparse direct solver of symmetric systems. The columns of the first
/// matrix are analyzed and kept, and with them the place of each entry; later
/// matrices are taken to have the same places.
pub struct FeralLdl {
    n: usize,
    factored: bool,
    has_factors: bool,
    pattern: Option<LowerPattern>,
    pending: Option<LowerPattern>,
    coo_to_csc: Vec<usize>,
    scaling: Scaling,
    pivot_threshold: u64,
    quality_level: QualityLevel,
}

/// What is to be done for a factorization.
#[derive(Debug)]
pub enum FactorStep {
    /// The matrix is empty, and this is its inertia.
    Done(Inertia),
    /// The matrix is new: compress the entries at these rows and columns, analyze
    /// it, report by `analyzed`, factor, report by `finish_factor`.
    Analyze { rows: Vec<usize>, cols: Vec<usize> },
    /// Factor with these values at the places known, report by `finish_factor`.
    Refactor(Vec<u64>),
}

/// All places lie in the columns.
spec fn mapping_within(mapping: Seq<usize>, pattern: LowerPattern) -> bool {
    forall|k: int| 0 <= k < mapping.len() ==> (#[trigger] mapping[k]) < pattern.row_idx@.len()
}

/// The rows of the entries below the diagonal.
pub open spec fn lower_rows(s: SparseSymmetricMatrix) -> Seq<usize> {
    Seq::new(s.triplet_rows@.len(), |k: int| lower(s.triplet_rows@[k], s.triplet_cols@[k]).0)
}

/// The columns of the entries below the diagonal.
pub open spec fn lower_cols(s: SparseSymmetricMatrix) -> Seq<usize> {
    Seq::new(s.triplet_rows@.len(), |k: int| lower(s.triplet_rows@[k], s.triplet_cols@[k]).1)
}

fn lower_entries(s: &SparseSymmetricMatrix) -> (r: (Vec<usize>, Vec<usize>))
    requires
        s.aligned(),
    ensures
        r.0@ == lower_rows(*s),
        r.1@ == lower_cols(*s),
{
    let count: usize = s.triplet_rows.len();
    let mut rows: Vec<usize> = Vec::with_capacity(count);
    let mut cols: Vec<usize> = Vec::with_capacity(count);
    for k in 0..count
        invariant
            s.aligned(),
            count == s.triplet_rows@.len(),
            rows@ == lower_rows(*s).take(k as int),
            cols@ == lower_cols(*s).take(k as int),
    {
        let (r, c): (usize, usize) = FeralLdl::to_lower(s.triplet_rows[k], s.triplet_cols[k]);
        rows.push(r);
        cols.push(c);
        assert(rows@ =~= lower_rows(*s).take(k + 1));
        assert(cols@ =~= lower_cols(*s).take(k + 1));
    }
    assert(rows@ =~= lower_rows(*s));
    assert(cols@ =~= lower_cols(*s));
    (rows, cols)
}

/// What beginning to factor a sparse matrix does and answers.
pub open spec fn factor_begun<F: Fn(FloatOp, u64, u64) -> u64>(
    s: SparseSymmetricMatrix,
    was: LdlModel,
    now: LdlModel,
    r: Result<FactorStep, ErrorModel>,
    fpu: Fpu<F>,
) -> bool {
    let rows = lower_rows(s);
    let cols = lower_cols(s);
    let start = LdlModel { n: s.n, pending: None, ..was };
    if s.n == 0 {
        &&& r == Ok::<FactorStep, ErrorModel>(
            FactorStep::Done(Inertia { positive: 0, negative: 0, zero: 0 }),
        )
        &&& now == LdlModel { factored: true, ..start }
    } else if was.pattern is None {
        if triplets_lower(s.n as int, rows, cols) {
            &&& r matches Ok(FactorStep::Analyze { rows: a, cols: b }) && a@ == rows && b@ == cols
            &&& now.pending matches Some(p) && {
                &&& columns_of(s.n as int, rows, cols, p.0, p.1)
                &&& now.mapping.len() == rows.len()
                &&& maps_from(p.0, p.1, rows, cols, now.mapping, 0)
            }
            &&& now == LdlModel { pending: now.pending, mapping: now.mapping, ..start }
        } else {
            &&& r == Err::<FactorStep, ErrorModel>(
                ErrorModel::Failure("feral: "@ + refusal_text(s.n as nat, rows, cols)),
            )
            &&& now == start
        }
    } else {
        let p = was.pattern->Some_0;
        let known = was.mapping.len();
        &&& now == LdlModel { mapping: now.mapping, ..start }
        &&& if rows.len() > known {
            &&& now.mapping.len() == rows.len()
            &&& now.mapping.take(known as int) == was.mapping
            &&& maps_from(p.0, p.1, rows, cols, now.mapping, known as int)
        } else {
            now.mapping == was.mapping
        }
        &&& r matches Ok(FactorStep::Refactor(values)) && values@ == scattered_values(
            now.mapping,
            s.triplet_vals@,
            p.1.len(),
            fpu,
        )
    }
}

/// The next level of quality once the pivot threshold is `t`.
pub open spec fn level_at<F: Fn(FloatOp, u64, u64) -> u64>(t: u64, fpu: Fpu<F>) -> QualityLevel {
    if num_le(fpu.difference(HALF, TEN_M12), t) {
        QualityLevel::Exhausted
    } else {
        QualityLevel::PivotRaised
    }
}

/// The pivot threshold after `t`: at most a half.
pub open spec fn next_threshold<F: Fn(FloatOp, u64, u64) -> u64>(t: u64, fpu: Fpu<F>) -> u64 {
    if num_eq(t, ZERO) {
        FIRST_PIVOT_THRESHOLD
    } else {
        fpu.calc(FloatOp::Min, fpu.calc(FloatOp::Pow, t, PIVOT_EXPONENT), HALF)
    }
}

/// The state after the quality was raised. From the baseline the scaling comes
/// first, unless there is one already; then the pivot threshold.
pub open spec fn quality_raised<F: Fn(FloatOp, u64, u64) -> u64>(
    m: LdlModel,
    fpu: Fpu<F>,
) -> LdlModel {
    if m.quality == QualityLevel::Exhausted {
        m
    } else if m.quality == QualityLevel::Baseline && m.scaling == Scaling::Identity {
        LdlModel { scaling: Scaling::InfNorm, quality: QualityLevel::ScalingEnabled, ..m }
    } else {
        let t = next_threshold(m.pivot_threshold, fpu);
        LdlModel { pivot_threshold: t, quality: level_at(t, fpu), ..m }
    }
}

impl FeralLdl {
    pub closed spec fn model(&self) -> LdlModel {
        LdlModel {
            n: self.n,
            factored: self.factored,
            has_factors: self.has_factors,
            pattern: pattern_model(self.pattern),
            pending: pattern_model(self.pending),
            mapping: self.coo_to_csc@,
            scaling: self.scaling,
            pivot_threshold: self.pivot_threshold,
            quality: self.quality_level,
        }
    }

    /// The places lie in the columns that are kept.
    pub closed spec fn well_formed(&self) -> bool {
        &&& self.pattern matches Some(p) ==> p.well_formed() && mapping_within(
            self.coo_to_csc@,
            p,
        ) && self.pending is None
        &&& self.pending matches Some(p) ==> p.well_formed() && mapping_within(
            self.coo_to_csc@,
            p,
        )
    }

    /// The entries of the matrix that are beyond those known have a place.
    pub open spec fn has_places(&self, s: SparseSymmetricMatrix) -> bool {
        self.model().pattern matches Some(p) ==> forall|k: int|
            self.model().mapping.len() <= k < s.triplet_rows@.len() ==> has_place(
                p.0,
                p.1,
                #[trigger] lower_rows(s)[k],
                lower_cols(s)[k],
            )
    }

    /// A solver that starts with the given pivot threshold and without scaling.
    pub fn new(pivot_threshold: u64) -> (l: Self)
        ensures
            l.well_formed(),
            l.model() == (LdlModel {
                n: 0,
                factored: false,
                has_factors: false,
                pattern: None,
                pending: None,
                mapping: Seq::empty(),
                scaling: Scaling::Identity,
                pivot_threshold,
                quality: QualityLevel::Baseline,
            }),
    {
        FeralLdl {
            n: 0,
            factored: false,
            has_factors: false,
            pattern: None,
            pending: None,
            coo_to_csc: Vec::new(),
            scaling: Scaling::Identity,
            pivot_threshold,
            quality_level: QualityLevel::Baseline,
        }
    }

    /// The same as `new`, for systems with `n_primal` primal variables.
    pub fn new_kkt(n_primal: usize, pivot_threshold: u64) -> (l: Self)
        ensures
            l.well_formed(),
            l.model() == (LdlModel {
                n: 0,
                factored: false,
                has_factors: false,
                pattern: None,
                pending: None,
                mapping: Seq::empty(),
                scaling: Scaling::Identity,
                pivot_threshold,
                quality: QualityLevel::Baseline,
            }),
    {
        FeralLdl::new(pivot_threshold)
    }

    /// The scaling that factorizations are to use.
    pub fn scaling(&self) -> (s: Scaling)
        ensures
            s == self.model().scaling,
    {
        self.scaling
    }

    /// The pivot threshold that factorizations are to use.
    pub fn pivot_threshold(&self) -> (t: u64)
        ensures
            t == self.model().pivot_threshold,
    {
        self.pivot_threshold
    }

    /// Row and column of an entry below the diagonal.
    fn to_lower(i: usize, j: usize) -> (rc: (usize, usize))
        ensures
            rc == lower(i, j),
    {
        if i <= j {
            (j, i)
        } else {
            (i, j)
        }
    }

    /// Begins a factorization: says what is to be done for it.
    pub fn begin_factor<F: Fn(FloatOp, u64, u64) -> u64>(
        &mut self,
        matrix: &KktMatrix,
        fpu: &Fpu<F>,
    ) -> (r: Result<FactorStep, SolverError>)
        requires
            old(self).well_formed(),
            fpu.sound(),
            matrix matches KktMatrix::Sparse(s) ==> s.aligned() && addressable(s.n as int)
                && addressable(s.triplet_rows@.len() as int) && (s.n > 0 ==> old(self).has_places(
                *s,
            )),
        ensures
            final(self).well_formed(),
            match matrix {
                KktMatrix::Dense(_) => reply(r) == Err::<FactorStep, ErrorModel>(
                    ErrorModel::Failure("FeralLdl requires KktMatrix::Sparse"@),
                ) && final(self).model() == old(self).model(),
                KktMatrix::Sparse(s) => factor_begun(
                    *s,
                    old(self).model(),
                    final(self).model(),
                    reply(r),
                    *fpu,
                ),
            },
    {
        let s: &SparseSymmetricMatrix = match matrix {
            KktMatrix::Dense(_) => {
                return Err(failure("FeralLdl requires KktMatrix::Sparse"));
            },
            KktMatrix::Sparse(s) => s,
        };
        self.n = s.n;
        self.pending = None;
        if self.n == 0 {
            self.factored = true;
            return Ok(FactorStep::Done(Inertia { positive: 0, negative: 0, zero: 0 }));
        }
        let (rows, cols): (Vec<usize>, Vec<usize>) = lower_entries(s);
        if self.pattern.is_none() {
            self.begin_new(s.n, rows, cols)
        } else {
            self.begin_again(s, &rows, &cols, fpu)
        }
    }

    /// Begins with a matrix whose columns are to be analyzed.
    fn begin_new(&mut self, n: usize, rows: Vec<usize>, cols: Vec<usize>) -> (r: Result<
        FactorStep,
        SolverError,
    >)
        requires
            old(self).well_formed(),
            old(self).model().pattern is None,
            old(self).model().pending is None,
            addressable(n as int),
            addressable(rows@.len() as int),
            rows@.len() == cols@.len(),
        ensures
            final(self).well_formed(),
            ({
                let now = final(self).model();
                if triplets_lower(n as int, rows@, cols@) {
                    &&& r matches Ok(FactorStep::Analyze { rows: a, cols: b }) && a@ == rows@ && b@
                        == cols@
                    &&& now.pending matches Some(p) && {
                        &&& columns_of(n as int, rows@, cols@, p.0, p.1)
                        &&& now.mapping.len() == rows@.len()
                        &&& maps_from(p.0, p.1, rows@, cols@, now.mapping, 0)
                    }
                    &&& now == LdlModel {
                        pending: now.pending,
                        mapping: now.mapping,
                        ..old(self).model()
                    }
                } else {
                    &&& reply(r) == Err::<FactorStep, ErrorModel>(
                        ErrorModel::Failure("feral: "@ + refusal_text(n as nat, rows@, cols@)),
                    )
                    &&& now == old(self).model()
                }
            }),
    {
        let (col_ptr, row_idx): (Vec<usize>, Vec<usize>) = match compressed(n, &rows, &cols) {
            Ok(p) => p,
            Err(text) => {
                return Err(map_error(FeralFailure::Other(text)));
            },
        };
        let p = LowerPattern { col_ptr, row_idx };
        let mut mapping: Vec<usize> = Vec::with_capacity(rows.len());
        assert forall|k: int| 0 <= k < rows@.len() implies p.holds(
            #[trigger] rows@[k],
            cols@[k],
        ) by {
            assert(listed(rows@, cols@, rows@[k], cols@[k]));
        }
        build_coo_to_csc_mapping(&rows, &cols, &p, &mut mapping);
        self.coo_to_csc = mapping;
        self.pending = Some(p);
        Ok(FactorStep::Analyze { rows, cols })
    }

    /// Begins with a matrix whose columns are known.
    fn begin_again<F: Fn(FloatOp, u64, u64) -> u64>(
        &mut self,
        s: &SparseSymmetricMatrix,
        rows: &Vec<usize>,
        cols: &Vec<usize>,
        fpu: &Fpu<F>,
    ) -> (r: Result<FactorStep, SolverError>)
        requires
            old(self).well_formed(),
            old(self).model().pattern is Some,
            fpu.sound(),
            s.aligned(),
            old(self).has_places(*s),
            rows@ == lower_rows(*s),
            cols@ == lower_cols(*s),
        ensures
            final(self).well_formed(),
            ({
                let was = old(self).model();
                let now = final(self).model();
                let p = was.pattern->Some_0;
                let known = was.mapping.len();
                &&& now == LdlModel { mapping: now.mapping, ..was }
                &&& if rows@.len() > known {
                    &&& now.mapping.len() == rows@.len()
                    &&& now.mapping.take(known as int) == was.mapping
                    &&& maps_from(p.0, p.1, rows@, cols@, now.mapping, known as int)
                } else {
                    now.mapping == was.mapping
                }
                &&& r matches Ok(FactorStep::Refactor(values)) && values@ == scattered_values(
                    now.mapping,
                    s.triplet_vals@,
                    p.1.len(),
                    *fpu,
                )
            }),
    {
        let ghost was = self.coo_to_csc@;
        let mut mapping: Vec<usize> = copy_indices(&self.coo_to_csc);
        let nnz: usize = match &self.pattern {
            Some(p) => {
                if rows.len() > mapping.len() {
                    proof {
                        assert forall|k: int| mapping@.len() <= k < rows@.len() implies p.holds(
                            #[trigger] rows@[k],
                            cols@[k],
                        ) by {
                            assert(lower_rows(*s)[k] == rows@[k]);
                        }
                    }
                    build_coo_to_csc_mapping(rows, cols, p, &mut mapping);
                    proof {
                        assert forall|k: int| 0 <= k < mapping@.len() implies (
                        #[trigger] mapping@[k]) < p.row_idx@.len() by {
                            if k < was.len() {
                                assert(mapping@.take(was.len() as int)[k] == was[k]);
                            }
                        }
                    }
                }
                p.row_idx.len()
            },
            None => 0,
        };
        self.coo_to_csc = mapping;
        let values: Vec<u64> = scatter(&self.coo_to_csc, &s.triplet_vals, nnz, fpu);
        Ok(FactorStep::Refactor(values))
    }

    /// Reports how the analysis went. Where it succeeded its columns are kept.
    pub fn analyzed(&mut self, outcome: Result<(), FeralFailure>) -> (r: Result<(), SolverError>)
        requires
            old(self).well_formed(),
            old(self).model().pending is Some,
        ensures
            final(self).well_formed(),
            match outcome {
                Ok(()) => r is Ok && final(self).model() == (LdlModel {
                    pattern: old(self).model().pending,
                    pending: None,
                    ..old(self).model()
                }),
                Err(f) => reply(r) == Err::<(), ErrorModel>(failure_model(f))
                    && final(self).model() == (LdlModel { pending: None, ..old(self).model() }),
            },
    {
        let p: Option<LowerPattern> = self.pending.take();
        match outcome {
            Ok(()) => {
                self.pattern = p;
                Ok(())
            },
            Err(f) => Err(map_error(f)),
        }
    }

    /// Reports how the factorization went, and answers the caller of it.
    pub fn finish_factor(&mut self, outcome: Result<Inertia, FeralFailure>) -> (r: Result<
        Option<Inertia>,
        SolverError,
    >)
        requires
            old(self).well_formed(),
        ensures
            final(self).well_formed(),
            reply(r) == match outcome {
                Ok(i) => Ok::<Option<Inertia>, ErrorModel>(Some(i)),
                Err(f) => Err(failure_model(f)),
            },
            final(self).model() == (LdlModel {
                factored: outcome is Ok,
                has_factors: outcome is Ok,
                ..old(self).model()
            }),
    {
        match outcome {
            Ok(inertia) => {
                self.has_factors = true;
                self.factored = true;
                Ok(Some(inertia))
            },
            Err(f) => {
                self.has_factors = false;
                self.factored = false;
                Err(map_error(f))
            },
        }
    }

    /// Begins a solve with sides of the given lengths. Answers whether there is
    /// anything to solve.
    pub fn begin_solve(&self, rhs_len: usize, solution_len: usize) -> (r: Result<bool, SolverError>)
        ensures
            reply(r) == if !self.model().factored {
                Err::<bool, ErrorModel>(ErrorModel::Failure("matrix not factored"@))
            } else if rhs_len != self.model().n || solution_len != self.model().n {
                Err(ErrorModel::Mismatch(self.model().n, rhs_len))
            } else if self.model().n == 0 {
                Ok(false)
            } else if !self.model().has_factors {
                Err(ErrorModel::Failure("FeralLdl: factor cache lost"@))
            } else {
                Ok(true)
            },
    {
        if !self.factored {
            return Err(failure("matrix not factored"));
        }
        if rhs_len != self.n || solution_len != self.n {
            return Err(SolverError::DimensionMismatch { expected: self.n, got: rhs_len });
        }
        if self.n == 0 {
            return Ok(false);
        }
        if !self.has_factors {
            return Err(failure("FeralLdl: factor cache lost"));
        }
        Ok(true)
    }

    /// Hands over what a solve gave.
    pub fn finish_solve(
        &self,
        outcome: Result<Vec<u64>, FeralFailure>,
        solution: &mut Vec<u64>,
    ) -> (r: Result<(), SolverError>)
        ensures
            reply(r) == match outcome {
                Err(f) => Err::<(), ErrorModel>(failure_model(f)),
                Ok(x) => if x@.len() == old(solution)@.len() {
                    Ok(())
                } else {
                    Err(ErrorModel::Mismatch(old(solution)@.len() as usize, x@.len() as usize))
                },
            },
            final(solution)@ == match outcome {
                Ok(x) => if x@.len() == old(solution)@.len() {
                    x@
                } else {
                    old(solution)@
                },
                Err(f) => old(solution)@,
            },
    {
        match outcome {
            Err(f) => Err(map_error(f)),
            Ok(x) => {
                if x.len() != solution.len() {
                    return Err(
                        SolverError::DimensionMismatch { expected: solution.len(), got: x.len() },
                    );
                }
                *solution = copy_numbers(&x);
                Ok(())
            },
        }
    }

    /// Raises the quality of later factorizations, if it is not at its highest.
    pub fn increase_quality<F: Fn(FloatOp, u64, u64) -> u64>(&mut self, fpu: &Fpu<F>) -> (raised:
        bool)
        requires
            old(self).well_formed(),
            fpu.sound(),
        ensures
            final(self).well_formed(),
            raised == (old(self).model().quality != QualityLevel::Exhausted),
            final(self).model() == quality_raised(old(self).model(), *fpu),
    {
        match self.quality_level {
            QualityLevel::Exhausted => false,
            QualityLevel::Baseline => {
                match self.scaling {
                    Scaling::Identity => {
                        self.scaling = Scaling::InfNorm;
                        self.quality_level = QualityLevel::ScalingEnabled;
                    },
                    Scaling::InfNorm => {
                        self.bump_pivot_threshold(fpu);
                    },
                }
                true
            },
            QualityLevel::ScalingEnabled => {
                self.bump_pivot_threshold(fpu);
                true
            },
            QualityLevel::PivotRaised => {
                self.bump_pivot_threshold(fpu);
                true
            },
        }
    }

    /// Raises the pivot threshold.
    fn bump_pivot_threshold<F: Fn(FloatOp, u64, u64) -> u64>(&mut self, fpu: &Fpu<F>)
        requires
            old(self).well_formed(),
            fpu.sound(),
        ensures
            final(self).well_formed(),
            final(self).model() == ({
                let t = next_threshold(old(self).model().pivot_threshold, *fpu);
                LdlModel { pivot_threshold: t, quality: level_at(t, *fpu), ..old(self).model() }
            }),
    {
        let t: u64 = if eq(self.pivot_threshold, ZERO) {
            FIRST_PIVOT_THRESHOLD
        } else {
            fpu.min(fpu.run(FloatOp::Pow, self.pivot_threshold, PIVOT_EXPONENT), HALF)
        };
        self.pivot_threshold = t;
        self.quality_level = if le(fpu.sub(HALF, TEN_M12), t) {
            QualityLevel::Exhausted
        } else {
            QualityLevel::PivotRaised
        };
    }
}

proof fn lemma_place_unique(
    col_ptr: Seq<usize>,
    row_idx: Seq<usize>,
    r: usize,
    c: usize,
    p: int,
    r2: usize,
    c2: usize,
    q: int,
)
    requires
        columns(col_ptr, row_idx),
        placed(col_ptr, row_idx, r, c, p),
        placed(col_ptr, row_idx, r2, c2, q),
    ensures
        p == q <==> r == r2 && c == c2,
{
    if p == q {
        if c < c2 {
            assert(col_ptr[c + 1] <= col_ptr[c2 as int]);
        }
        if c2 < c {
            assert(col_ptr[c2 + 1] <= col_ptr[c as int]);
        }
    } else if c == c2 {
        assert(in_column(col_ptr, c as int, p));
        assert(in_column(col_ptr, c as int, q));
    }
}

proof fn lemma_place_sum<F: Fn(FloatOp, u64, u64) -> u64>(
    s: SparseSymmetricMatrix,
    col_ptr: Seq<usize>,
    row_idx: Seq<usize>,
    mapping: Seq<usize>,
    r: usize,
    c: usize,
    q: int,
    k: nat,
    fpu: Fpu<F>,
)
    requires
        s.well_formed(),
        columns(col_ptr, row_idx),
        maps_from(col_ptr, row_idx, lower_rows(s), lower_cols(s), mapping, 0),
        placed(col_ptr, row_idx, r, c, q),
        k <= s.triplet_vals@.len(),
    ensures
        place_sum(mapping, s.triplet_vals@, q, k, fpu) == entries_at(
            s.triplets(),
            c as int,
            r as int,
            k,
            fpu,
        ),
    decreases k,
{
    if k > 0 {
        lemma_place_sum(s, col_ptr, row_idx, mapping, r, c, q, (k - 1) as nat, fpu);
        let e = s.triplets()[k - 1];
        assert(0 <= e.row <= e.col < s.n);
        let at = mapping[k - 1];
        lemma_place_unique(
            col_ptr,
            row_idx,
            lower_rows(s)[k - 1],
            lower_cols(s)[k - 1],
            at as int,
            r,
            c,
            q,
        );
    }
}

/// Duplicates add up: the value that is factored at the place of row `r` and
/// column `c` is the sum of the entries of the matrix there.
pub proof fn duplicates_add_up<F: Fn(FloatOp, u64, u64) -> u64>(
    s: SparseSymmetricMatrix,
    col_ptr: Seq<usize>,
    row_idx: Seq<usize>,
    mapping: Seq<usize>,
    r: usize,
    c: usize,
    q: int,
    fpu: Fpu<F>,
)
    requires
        s.well_formed(),
        columns(col_ptr, row_idx),
        maps_from(col_ptr, row_idx, lower_rows(s), lower_cols(s), mapping, 0),
        placed(col_ptr, row_idx, r, c, q),
    ensures
        scattered_values(mapping, s.triplet_vals@, row_idx.len(), fpu)[q] == entries_at(
            s.triplets(),
            c as int,
            r as int,
            s.triplets().len(),
            fpu,
        ),
{
    lemma_place_sum(s, col_ptr, row_idx, mapping, r, c, q, s.triplet_vals@.len(), fpu);
}

/// The levels of quality in their order.
pub open spec fn quality_rank(q: QualityLevel) -> int {
    match q {
        QualityLevel::Baseline => 0,
        QualityLevel::ScalingEnabled => 1,
        QualityLevel::PivotRaised => 2,
        QualityLevel::Exhausted => 3,
    }
}

/// The quality never falls, a scaling once enabled stays, and a solver at its
/// highest quality stays as it is.
pub proof fn quality_never_falls<F: Fn(FloatOp, u64, u64) -> u64>(m: LdlModel, fpu: Fpu<F>)
    ensures
        quality_rank(quality_raised(m, fpu).quality) >= quality_rank(m.quality),
        m.quality != QualityLevel::PivotRaised && m.quality != QualityLevel::Exhausted
            ==> quality_rank(quality_raised(m, fpu).quality) > quality_rank(m.quality),
        m.scaling == Scaling::InfNorm ==> quality_raised(m, fpu).scaling == Scaling::InfNorm,
        m.quality == QualityLevel::Exhausted ==> quality_raised(m, fpu) == m,
{
}

} // verus!
