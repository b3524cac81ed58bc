//! Constraints that repeat another one.

use crate::float::{abs, absolute, lt, num_lt, FloatOp, Fpu, ONE, TEN_M10};
use crate::problem::pattern_within;
use vstd::prelude::*;

verus! {

/// The entries of row `r` in free columns among the first `k` entries of the
/// Jacobian.
pub open spec fn row_list(
    rows: Seq<usize>,
    cols: Seq<usize>,
    vals: Seq<u64>,
    free: Seq<bool>,
    r: int,
    k: nat,
) -> Seq<(usize, u64)>
    decreases k,
{
    if k == 0 {
        Seq::empty()
    } else {
        let before = row_list(rows, cols, vals, free, r, (k - 1) as nat);
        if rows[k - 1] == r && free[cols[k - 1] as int] {
            before.push((cols[k - 1], vals[k - 1]))
        } else {
            before
        }
    }
}

/// The list with `e` behind the entries of no greater column.
pub open spec fn inserted(s: Seq<(usize, u64)>, e: (usize, u64)) -> Seq<(usize, u64)>
    decreases s.len(),
{
    if s.len() == 0 || s.last().0 <= e.0 {
        s.push(e)
    } else {
        inserted(s.drop_last(), e).push(s.last())
    }
}

/// The entries by column; entries of one column keep their order.
pub open spec fn by_column(s: Seq<(usize, u64)>) -> Seq<(usize, u64)>
    decreases s.len(),
{
    if s.len() == 0 {
        s
    } else {
        inserted(by_column(s.drop_last()), s.last())
    }
}

pub open spec fn is_by_column(s: Seq<(usize, u64)>) -> bool {
    forall|i: int, j: int| 0 <= i <= j < s.len() ==> (#[trigger] s[i]).0 <= (#[trigger] s[j]).0
}

proof fn lemma_inserted(s: Seq<(usize, u64)>, e: (usize, u64))
    requires
        is_by_column(s),
    ensures
        is_by_column(inserted(s, e)),
        inserted(s, e).len() == s.len() + 1,
        inserted(s, e).to_multiset() =~= s.to_multiset().insert(e),
        s.len() > 0 ==> inserted(s, e).last().0 == if s.last().0 <= e.0 {
            e.0
        } else {
            s.last().0
        },
    decreases s.len(),
{
    broadcast use vstd::seq_lib::group_to_multiset_ensures;

    if s.len() == 0 || s.last().0 <= e.0 {
        assert(is_by_column(s.push(e)));
    } else {
        let rest = s.drop_last();
        lemma_inserted(rest, e);
        let mid = inserted(rest, e);
        assert(s =~= rest.push(s.last()));
        assert forall|i: int| 0 <= i < mid.len() implies (#[trigger] mid[i]).0 <= s.last().0 by {
            if rest.len() > 0 {
                assert(mid[i].0 <= mid[mid.len() - 1].0);
                assert(s[s.len() - 2].0 <= s[s.len() - 1].0);
            } else {
                assert(mid =~= seq![e]);
            }
        }
        assert(s.to_multiset() =~= rest.to_multiset().insert(s.last()));
        assert(inserted(s, e) == mid.push(s.last()));
    }
}

/// Ordering by column gives the same entries in columns that do not fall.
pub proof fn by_column_sorts(s: Seq<(usize, u64)>)
    ensures
        is_by_column(by_column(s)),
        by_column(s).len() == s.len(),
        by_column(s).to_multiset() =~= s.to_multiset(),
    decreases s.len(),
{
    broadcast use vstd::seq_lib::group_to_multiset_ensures;

    if s.len() > 0 {
        by_column_sorts(s.drop_last());
        lemma_inserted(by_column(s.drop_last()), s.last());
        assert(s =~= s.drop_last().push(s.last()));
    }
}

/// The lists have the same columns and nearly the same values.
pub open spec fn rows_agree<F: Fn(FloatOp, u64, u64) -> u64>(
    a: Seq<(usize, u64)>,
    b: Seq<(usize, u64)>,
    fpu: Fpu<F>,
) -> bool {
    &&& a.len() == b.len()
    &&& forall|k: int|
        0 <= k < a.len() ==> (#[trigger] a[k]).0 == b[k].0 && num_lt(
            absolute(fpu.difference(a[k].1, b[k].1)),
            TEN_M10,
        )
}

/// The two bounds do not differ, as far as they can be compared.
pub open spec fn bounds_agree<F: Fn(FloatOp, u64, u64) -> u64>(
    a: u64,
    b: u64,
    fpu: Fpu<F>,
) -> bool {
    !num_lt(TEN_M10, absolute(fpu.difference(a, b)))
}

/// The constraint values agree at both points.
pub open spec fn values_agree<F: Fn(FloatOp, u64, u64) -> u64>(
    a0: u64,
    b0: u64,
    a1: u64,
    b1: u64,
    fpu: Fpu<F>,
) -> bool {
    let gap = fpu.calc(
        FloatOp::Max,
        absolute(fpu.difference(a0, b0)),
        absolute(fpu.difference(a1, b1)),
    );
    let scale = fpu.calc(
        FloatOp::Max,
        fpu.calc(FloatOp::Max, absolute(a0), absolute(b0)),
        ONE,
    );
    !num_lt(fpu.product(TEN_M10, scale), gap)
}

/// What the search for repeated constraints reads: the Jacobian and the
/// constraint values at two points.
pub struct RedundancyData {
    pub rows: Seq<usize>,
    pub cols: Seq<usize>,
    pub free: Seq<bool>,
    pub v0: Seq<u64>,
    pub v1: Seq<u64>,
    pub g0: Seq<u64>,
    pub g1: Seq<u64>,
    pub g_l: Seq<u64>,
    pub g_u: Seq<u64>,
}

impl RedundancyData {
    /// Row `i` at the first point.
    pub open spec fn row0(self, i: int) -> Seq<(usize, u64)> {
        by_column(row_list(self.rows, self.cols, self.v0, self.free, i, self.rows.len()))
    }

    /// Row `i` at the second point.
    pub open spec fn row1(self, i: int) -> Seq<(usize, u64)> {
        by_column(row_list(self.rows, self.cols, self.v1, self.free, i, self.rows.len()))
    }

    /// Constraint `j` has the bounds, the Jacobian row and the values of
    /// constraint `i`.
    pub open spec fn repeats<F: Fn(FloatOp, u64, u64) -> u64>(
        self,
        i: int,
        j: int,
        fpu: Fpu<F>,
    ) -> bool {
        &&& bounds_agree(self.g_l[i], self.g_l[j], fpu)
        &&& bounds_agree(self.g_u[i], self.g_u[j], fpu)
        &&& rows_agree(self.row0(i), self.row0(j), fpu)
        &&& rows_agree(self.row1(i), self.row1(j), fpu)
        &&& values_agree(self.g0[i], self.g0[j], self.g1[i], self.g1[j], fpu)
    }

    /// Constraint `j` repeats one of the first `i` constraints that is not
    /// itself redundant.
    pub open spec fn repeats_one_of<F: Fn(FloatOp, u64, u64) -> u64>(
        self,
        j: int,
        i: int,
        fpu: Fpu<F>,
    ) -> bool
        decreases j, 0int, i,
    {
        if i <= 0 || i > j {
            false
        } else {
            self.repeats_one_of(j, i - 1, fpu) || (!self.redundant(i - 1, fpu) && self.repeats(
                i - 1,
                j,
                fpu,
            ))
        }
    }

    /// Constraint `j` repeats an earlier one that is kept.
    pub open spec fn redundant<F: Fn(FloatOp, u64, u64) -> u64>(
        self,
        j: int,
        fpu: Fpu<F>,
    ) -> bool
        decreases j, 1int, 0int,
    {
        self.repeats_one_of(j, j, fpu)
    }

    pub open spec fn well_formed(self) -> bool {
        &&& pattern_within(self.rows, self.cols, self.g_l.len(), self.free.len())
        &&& self.v0.len() == self.rows.len()
        &&& self.v1.len() == self.rows.len()
        &&& self.g0.len() == self.g_l.len()
        &&& self.g1.len() == self.g_l.len()
        &&& self.g_u.len() == self.g_l.len()
    }
}

/// Which constraints are kept.
pub open spec fn kept_constraints<F: Fn(FloatOp, u64, u64) -> u64>(
    d: RedundancyData,
    fpu: Fpu<F>,
) -> Seq<bool> {
    Seq::new(d.g_l.len(), |j: int| !d.redundant(j, fpu))
}

proof fn lemma_repeats_one<F: Fn(FloatOp, u64, u64) -> u64>(
    d: RedundancyData,
    j: int,
    i: int,
    fpu: Fpu<F>,
) -> (w: int)
    requires
        0 <= i <= j,
        d.repeats_one_of(j, i, fpu),
    ensures
        0 <= w < i,
        !d.redundant(w, fpu),
        d.repeats(w, j, fpu),
    decreases i,
{
    if !d.redundant(i - 1, fpu) && d.repeats(i - 1, j, fpu) {
        i - 1
    } else {
        lemma_repeats_one(d, j, i - 1, fpu)
    }
}

proof fn lemma_repeats_any<F: Fn(FloatOp, u64, u64) -> u64>(
    d: RedundancyData,
    j: int,
    i: int,
    w: int,
    fpu: Fpu<F>,
)
    requires
        0 <= w < i <= j,
        !d.redundant(w, fpu),
        d.repeats(w, j, fpu),
    ensures
        d.repeats_one_of(j, i, fpu),
    decreases i,
{
    if w < i - 1 {
        lemma_repeats_any(d, j, i - 1, w, fpu);
    }
}

/// A constraint is left out if and only if it repeats an earlier one that is
/// kept.
pub proof fn redundant_repeats_kept<F: Fn(FloatOp, u64, u64) -> u64>(
    d: RedundancyData,
    j: int,
    fpu: Fpu<F>,
)
    requires
        0 <= j < d.g_l.len(),
    ensures
        !kept_constraints(d, fpu)[j] <==> exists|i: int|
            0 <= i < j && kept_constraints(d, fpu)[i] && #[trigger] d.repeats(i, j, fpu),
{
    if d.redundant(j, fpu) {
        let w = lemma_repeats_one(d, j, j, fpu);
        assert(kept_constraints(d, fpu)[w]);
    } else {
        if exists|i: int|
            0 <= i < j && kept_constraints(d, fpu)[i] && #[trigger] d.repeats(i, j, fpu) {
            let w = choose|i: int|
                0 <= i < j && kept_constraints(d, fpu)[i] && #[trigger] d.repeats(i, j, fpu);
            lemma_repeats_any(d, j, j, w, fpu);
        }
    }
}

/// Inserts an entry behind those of no greater column.
fn insert_entry(list: &mut Vec<(usize, u64)>, e: (usize, u64))
    ensures
        final(list)@ == inserted(old(list)@, e),
{
    let ghost start = list@;
    let mut at: usize = list.len();
    proof {
        assert(start.take(at as int) =~= start);
        assert(start.skip(at as int) =~= Seq::empty());
        assert(inserted(start, e) =~= inserted(start.take(at as int), e) + start.skip(at as int));
    }
    while at > 0 && list[at - 1].0 > e.0
        invariant
            list@ == start,
            at <= start.len(),
            inserted(start, e) == inserted(start.take(at as int), e) + start.skip(at as int),
        decreases at,
    {
        proof {
            let head = start.take(at as int);
            assert(head.drop_last() =~= start.take(at - 1));
            assert(head.last() == start[at - 1]);
            assert(inserted(head, e) == inserted(start.take(at - 1), e).push(start[at - 1]));
            assert(inserted(start.take(at - 1), e).push(start[at - 1]) + start.skip(at as int)
                =~= inserted(start.take(at - 1), e) + start.skip(at - 1));
        }
        at = at - 1;
    }
    proof {
        let head = start.take(at as int);
        if at > 0 {
            assert(head.last() == start[at - 1]);
        }
        assert(inserted(head, e) == head.push(e));
        assert(start.insert(at as int, e) =~= head.push(e) + start.skip(at as int));
    }
    list.insert(at, e);
}

/// The entries by column.
fn order_by_column(list: &Vec<(usize, u64)>) -> (r: Vec<(usize, u64)>)
    ensures
        r@ == by_column(list@),
{
    let mut r: Vec<(usize, u64)> = Vec::with_capacity(list.len());
    for i in 0..list.len()
        invariant
            r@ == by_column(list@.take(i as int)),
    {
        insert_entry(&mut r, list[i]);
        assert(list@.take(i + 1).drop_last() =~= list@.take(i as int));
    }
    assert(list@.take(list@.len() as int) =~= list@);
    r
}

/// The rows of the Jacobian in the free columns, each by column.
fn row_lists(
    m: usize,
    rows: &Vec<usize>,
    cols: &Vec<usize>,
    vals: &Vec<u64>,
    free: &Vec<bool>,
) -> (lists: Vec<Vec<(usize, u64)>>)
    requires
        pattern_within(rows@, cols@, m as nat, free@.len()),
        vals@.len() == rows@.len(),
    ensures
        lists@.len() == m,
        forall|i: int|
            0 <= i < m ==> (#[trigger] lists@[i])@ == by_column(
                row_list(rows@, cols@, vals@, free@, i, rows@.len()),
            ),
{
    let mut lists: Vec<Vec<(usize, u64)>> = Vec::with_capacity(m);
    for i in 0..m
        invariant
            lists@.len() == i,
            forall|q: int| 0 <= q < i ==> (#[trigger] lists@[q])@ == Seq::<(usize, u64)>::empty(),
    {
        lists.push(Vec::new());
    }
    for k in 0..rows.len()
        invariant
            pattern_within(rows@, cols@, m as nat, free@.len()),
            vals@.len() == rows@.len(),
            lists@.len() == m,
            forall|i: int|
                0 <= i < m ==> (#[trigger] lists@[i])@ == row_list(
                    rows@,
                    cols@,
                    vals@,
                    free@,
                    i,
                    k as nat,
                ),
    {
        let r: usize = rows[k];
        let c: usize = cols[k];
        if free[c] {
            lists[r].push((c, vals[k]));
        }
    }
    let mut ordered: Vec<Vec<(usize, u64)>> = Vec::with_capacity(m);
    for i in 0..m
        invariant
            lists@.len() == m,
            forall|i: int|
                0 <= i < m ==> (#[trigger] lists@[i])@ == row_list(
                    rows@,
                    cols@,
                    vals@,
                    free@,
                    i,
                    rows@.len(),
                ),
            ordered@.len() == i,
            forall|q: int|
                0 <= q < i ==> (#[trigger] ordered@[q])@ == by_column(
                    row_list(rows@, cols@, vals@, free@, q, rows@.len()),
                ),
    {
        ordered.push(order_by_column(&lists[i]));
    }
    ordered
}

fn same_rows<F: Fn(FloatOp, u64, u64) -> u64>(
    a: &Vec<(usize, u64)>,
    b: &Vec<(usize, u64)>,
    fpu: &Fpu<F>,
) -> (same: bool)
    requires
        fpu.sound(),
    ensures
        same == rows_agree(a@, b@, *fpu),
{
    if a.len() != b.len() {
        return false;
    }
    for k in 0..a.len()
        invariant
            fpu.sound(),
            a@.len() == b@.len(),
            forall|q: int|
                0 <= q < k ==> (#[trigger] a@[q]).0 == b@[q].0 && num_lt(
                    absolute(fpu.difference(a@[q].1, b@[q].1)),
                    TEN_M10,
                ),
    {
        if a[k].0 != b[k].0 || !lt(abs(fpu.sub(a[k].1, b[k].1)), TEN_M10) {
            assert(!(a@[k as int].0 == b@[k as int].0 && num_lt(
                absolute(fpu.difference(a@[k as int].1, b@[k as int].1)),
                TEN_M10,
            )));
            return false;
        }
    }
    true
}

fn same_bounds<F: Fn(FloatOp, u64, u64) -> u64>(a: u64, b: u64, fpu: &Fpu<F>) -> (same: bool)
    requires
        fpu.sound(),
    ensures
        same == bounds_agree(a, b, *fpu),
{
    !lt(TEN_M10, abs(fpu.sub(a, b)))
}

fn same_values<F: Fn(FloatOp, u64, u64) -> u64>(
    a0: u64,
    b0: u64,
    a1: u64,
    b1: u64,
    fpu: &Fpu<F>,
) -> (same: bool)
    requires
        fpu.sound(),
    ensures
        same == values_agree(a0, b0, a1, b1, *fpu),
{
    let gap: u64 = fpu.max(abs(fpu.sub(a0, b0)), abs(fpu.sub(a1, b1)));
    let scale: u64 = fpu.max(fpu.max(abs(a0), abs(b0)), ONE);
    !lt(fpu.mul(TEN_M10, scale), gap)
}

/// Which constraints are kept.
pub(crate) fn find_kept<F: Fn(FloatOp, u64, u64) -> u64>(
    rows: &Vec<usize>,
    cols: &Vec<usize>,
    free: &Vec<bool>,
    v0: &Vec<u64>,
    v1: &Vec<u64>,
    g0: &Vec<u64>,
    g1: &Vec<u64>,
    g_l: &Vec<u64>,
    g_u: &Vec<u64>,
    fpu: &Fpu<F>,
) -> (keep: Vec<bool>)
    requires
        fpu.sound(),
        (RedundancyData {
            rows: rows@,
            cols: cols@,
            free: free@,
            v0: v0@,
            v1: v1@,
            g0: g0@,
            g1: g1@,
            g_l: g_l@,
            g_u: g_u@,
        }).well_formed(),
    ensures
        keep@ == kept_constraints(
            RedundancyData {
                rows: rows@,
                cols: cols@,
                free: free@,
                v0: v0@,
                v1: v1@,
                g0: g0@,
                g1: g1@,
                g_l: g_l@,
                g_u: g_u@,
            },
            *fpu,
        ),
{
    let ghost d = RedundancyData {
        rows: rows@,
        cols: cols@,
        free: free@,
        v0: v0@,
        v1: v1@,
        g0: g0@,
        g1: g1@,
        g_l: g_l@,
        g_u: g_u@,
    };
    let m: usize = g_l.len();
    let lists0: Vec<Vec<(usize, u64)>> = row_lists(m, rows, cols, v0, free);
    let lists1: Vec<Vec<(usize, u64)>> = row_lists(m, rows, cols, v1, free);
    let mut gone: Vec<bool> = vec![false; m];
    for i in 0..m
        invariant
            fpu.sound(),
            m == g_l@.len(),
            g_u@.len() == m,
            g0@.len() == m,
            g1@.len() == m,
            d.g_l == g_l@,
            d.g_u == g_u@,
            d.g0 == g0@,
            d.g1 == g1@,
            lists0@.len() == m,
            lists1@.len() == m,
            forall|q: int| 0 <= q < m ==> (#[trigger] lists0@[q])@ == d.row0(q),
            forall|q: int| 0 <= q < m ==> (#[trigger] lists1@[q])@ == d.row1(q),
            gone@.len() == m,
            forall|j: int|
                0 <= j < m ==> #[trigger] gone@[j] == if j < i {
                    d.redundant(j, *fpu)
                } else {
                    d.repeats_one_of(j, i as int, *fpu)
                },
    {
        let ghost was = gone@;
        assert(was[i as int] == d.redundant(i as int, *fpu));
        if !gone[i] {
            for j in (i + 1)..m
                invariant
                    fpu.sound(),
                    i < m,
                    m == g_l@.len(),
                    g_u@.len() == m,
                    g0@.len() == m,
                    g1@.len() == m,
                    d.g_l == g_l@,
                    d.g_u == g_u@,
                    d.g0 == g0@,
                    d.g1 == g1@,
                    lists0@.len() == m,
                    lists1@.len() == m,
                    forall|q: int| 0 <= q < m ==> (#[trigger] lists0@[q])@ == d.row0(q),
                    forall|q: int| 0 <= q < m ==> (#[trigger] lists1@[q])@ == d.row1(q),
                    gone@.len() == m,
                    !d.redundant(i as int, *fpu),
                    forall|q: int|
                        0 <= q < m ==> #[trigger] gone@[q] == if q <= i {
                            d.redundant(q, *fpu)
                        } else if q < j {
                            d.repeats_one_of(q, i + 1, *fpu)
                        } else {
                            d.repeats_one_of(q, i as int, *fpu)
                        },
            {
                if !gone[j] && same_bounds(g_l[i], g_l[j], fpu) && same_bounds(
                    g_u[i],
                    g_u[j],
                    fpu,
                ) && same_rows(&lists0[i], &lists0[j], fpu) && same_rows(
                    &lists1[i],
                    &lists1[j],
                    fpu,
                ) && same_values(g0[i], g0[j], g1[i], g1[j], fpu) {
                    gone.set(j, true);
                }
            }
        }
        proof {
            assert forall|j: int| 0 <= j < m implies #[trigger] gone@[j] == if j < i + 1 {
                d.redundant(j, *fpu)
            } else {
                d.repeats_one_of(j, i + 1, *fpu)
            } by {
                if was[i as int] {
                    assert(gone@[j] == was[j]);
                    if j > i {
                        assert(d.repeats_one_of(j, i + 1, *fpu) == d.repeats_one_of(
                            j,
                            i as int,
                            *fpu,
                        ));
                    }
                }
            }
        }
    }
    let mut keep: Vec<bool> = Vec::with_capacity(m);
    for j in 0..m
        invariant
            m == d.g_l.len(),
            gone@.len() == m,
            forall|q: int| 0 <= q < m ==> #[trigger] gone@[q] == d.redundant(q, *fpu),
            keep@ == kept_constraints(d, *fpu).take(j as int),
    {
        keep.push(!gone[j]);
        assert(keep@ =~= kept_constraints(d, *fpu).take(j + 1));
    }
    assert(keep@ =~= kept_constraints(d, *fpu));
    keep
}

} // verus!
