//! Square tables in row-major lists.

use vstd::prelude::*;

verus! {

/// The square table of `f`, row by row.
pub open spec fn flat(k: int, f: spec_fn(int, int) -> u64) -> Seq<u64> {
    Seq::new((k * k) as nat, |t: int| f(t / k, t % k))
}

pub proof fn lemma_cell(k: int, i: int, j: int, rows: int)
    requires
        0 <= i < rows,
        0 <= j < k,
    ensures
        0 <= i * k,
        0 <= i * k + j < rows * k,
        i * k + k <= rows * k,
        (i * k + j) / k == i,
        (i * k + j) % k == j,
{
    assert(0 <= i * k && i * k + k <= rows * k) by (nonlinear_arith)
        requires
            0 <= i < rows,
            0 < k,
    ;
    vstd::arithmetic::div_mod::lemma_fundamental_div_mod_converse(i * k + j, k, i, j);
}

pub proof fn lemma_split(k: int, t: int, rows: int)
    requires
        0 < k,
        0 <= t < rows * k,
    ensures
        0 <= t / k < rows,
        0 <= t % k < k,
        (t / k) * k + t % k == t,
{
    vstd::arithmetic::div_mod::lemma_fundamental_div_mod(t, k);
    vstd::arithmetic::mul::lemma_mul_is_commutative(t / k, k);
    assert(0 <= t / k) by {
        vstd::arithmetic::div_mod::lemma_div_pos_is_pos(t, k);
    }
    if t / k >= rows {
        assert((t / k) * k >= rows * k) by (nonlinear_arith)
            requires
                t / k >= rows,
                0 < k,
        ;
    }
}

/// A square table whose cells are those of `f` is the table of `f`.
pub proof fn lemma_is_flat(v: Seq<u64>, k: int, f: spec_fn(int, int) -> u64)
    requires
        0 <= k,
        v.len() == k * k,
        forall|i: int, j: int| 0 <= i < k && 0 <= j < k ==> #[trigger] v[i * k + j] == f(i, j),
    ensures
        v == flat(k, f),
{
    assert forall|t: int| 0 <= t < v.len() implies v[t] == #[trigger] flat(k, f)[t] by {
        if k > 0 {
            lemma_split(k, t, k);
            assert(v[(t / k) * k + t % k] == f(t / k, t % k));
        } else {
            assert(k * k == 0) by (nonlinear_arith)
                requires
                    k == 0,
            ;
        }
    }
    assert(v =~= flat(k, f));
}

/// Cell `(i, j)` of a square table.
pub open spec fn cell(v: Seq<u64>, k: int, i: int, j: int) -> u64 {
    v[i * k + j]
}

pub proof fn lemma_cells_are_flat(v: Seq<u64>, k: int, f: spec_fn(int, int) -> u64)
    requires
        0 <= k,
        v.len() == k * k,
        forall|i: int, j: int| 0 <= i < k && 0 <= j < k ==> #[trigger] cell(v, k, i, j) == f(i, j),
    ensures
        v == flat(k, f),
{
    assert forall|i: int, j: int| 0 <= i < k && 0 <= j < k implies #[trigger] v[i * k + j] == f(
        i,
        j,
    ) by {
        assert(cell(v, k, i, j) == f(i, j));
    }
    lemma_is_flat(v, k, f);
}

pub fn get_cell(v: &Vec<u64>, k: usize, i: usize, j: usize) -> (r: u64)
    requires
        v@.len() >= k * k,
        i < k,
        j < k,
    ensures
        r == cell(v@, k as int, i as int, j as int),
        r == v@[i * k + j],
{
    let size: usize = v.len();
    proof {
        lemma_cell(k as int, i as int, j as int, k as int);
    }
    v[i * k + j]
}

pub fn set_cell(v: &mut Vec<u64>, k: usize, i: usize, j: usize, x: u64)
    requires
        old(v)@.len() == k * k,
        i < k,
        j < k,
    ensures
        final(v)@.len() == k * k,
        forall|r: int, c: int|
            0 <= r < k && 0 <= c < k ==> #[trigger] cell(final(v)@, k as int, r, c) == if r == i
                && c == j {
                x
            } else {
                cell(old(v)@, k as int, r, c)
            },
{
    let size: usize = v.len();
    proof {
        lemma_cell(k as int, i as int, j as int, k as int);
    }
    let ghost was = v@;
    v.set(i * k + j, x);
    proof {
        assert forall|r: int, c: int| 0 <= r < k && 0 <= c < k implies #[trigger] cell(
            v@,
            k as int,
            r,
            c,
        ) == if r == i && c == j {
            x
        } else {
            cell(was, k as int, r, c)
        } by {
            lemma_cell(k as int, r, c, k as int);
        }
    }
}

} // verus!
