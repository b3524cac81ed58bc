//! Small dense systems.

use crate::float::{
    abs, absolute, eq, le, lt, num_eq, num_le, num_lt, FloatOp, Fpu, ONE, TEN_M10, TEN_M8,
    ZERO,
};
use crate::kkt::direction::{amax, inf_norm};
use crate::kkt::factor::{all_finite, is_all_finite};
use crate::linear_solver::copy_numbers;
use crate::linear_solver::table::{cell, flat, get_cell, lemma_cells_are_flat, set_cell};
use vstd::prelude::*;

verus! {

/// The row among `col..k` with the greatest magnitude in column `col`; the last
/// one of equals.
pub open spec fn pivot_row(m: Seq<u64>, dim: int, col: int, k: int) -> int
    decreases k - col,
{
    if k <= col + 1 {
        col
    } else {
        let best = pivot_row(m, dim, col, k - 1);
        if num_lt(absolute(cell(m, dim, k - 1, col)), absolute(cell(m, dim, best, col))) {
            best
        } else {
            k - 1
        }
    }
}

/// The table with two rows exchanged from column `from` on.
pub open spec fn rows_swapped(m: Seq<u64>, dim: int, a: int, b: int, from: int) -> Seq<u64> {
    flat(
        dim,
        |i: int, j: int|
            if j < from {
                cell(m, dim, i, j)
            } else if i == a {
                cell(m, dim, b, j)
            } else if i == b {
                cell(m, dim, a, j)
            } else {
                cell(m, dim, i, j)
            },
    )
}

pub open spec fn numbers_swapped(r: Seq<u64>, a: int, b: int) -> Seq<u64> {
    r.update(a, r[b]).update(b, r[a])
}

/// What row `i` takes of the pivot row.
pub open spec fn factor_of<F: Fn(FloatOp, u64, u64) -> u64>(
    m: Seq<u64>,
    dim: int,
    col: int,
    i: int,
    fpu: Fpu<F>,
) -> u64 {
    fpu.quotient(cell(m, dim, i, col), cell(m, dim, col, col))
}

/// The table with column `col` eliminated below the diagonal.
pub open spec fn eliminated<F: Fn(FloatOp, u64, u64) -> u64>(
    m: Seq<u64>,
    dim: int,
    col: int,
    fpu: Fpu<F>,
) -> Seq<u64> {
    flat(
        dim,
        |i: int, j: int|
            if i <= col || j < col {
                cell(m, dim, i, j)
            } else if j == col {
                ZERO
            } else {
                fpu.difference(
                    cell(m, dim, i, j),
                    fpu.product(factor_of(m, dim, col, i, fpu), cell(m, dim, col, j)),
                )
            },
    )
}

pub open spec fn rhs_eliminated<F: Fn(FloatOp, u64, u64) -> u64>(
    m: Seq<u64>,
    r: Seq<u64>,
    dim: int,
    col: int,
    fpu: Fpu<F>,
) -> Seq<u64> {
    Seq::new(
        dim as nat,
        |i: int|
            if i <= col {
                r[i]
            } else {
                fpu.difference(r[i], fpu.product(factor_of(m, dim, col, i, fpu), r[col]))
            },
    )
}

/// The system after the elimination of the first `k` columns, or nothing where a
/// pivot is at most `tol`.
pub open spec fn triangular<F: Fn(FloatOp, u64, u64) -> u64>(
    m: Seq<u64>,
    r: Seq<u64>,
    dim: int,
    tol: u64,
    k: nat,
    fpu: Fpu<F>,
) -> Option<(Seq<u64>, Seq<u64>)>
    decreases k,
{
    if k == 0 {
        Some((m, r))
    } else {
        match triangular(m, r, dim, tol, (k - 1) as nat, fpu) {
            None => None,
            Some((a, b)) => {
                let p = pivot_row(a, dim, k - 1, dim);
                let a1 = rows_swapped(a, dim, k - 1, p, k - 1);
                let b1 = numbers_swapped(b, k - 1, p);
                if num_le(absolute(cell(a, dim, p, k - 1)), tol) {
                    None
                } else {
                    Some(
                        (
                            eliminated(a1, dim, k - 1, fpu),
                            rhs_eliminated(a1, b1, dim, k - 1, fpu),
                        ),
                    )
                }
            },
        }
    }
}

/// Element `i` of the solution of the triangular system.
pub open spec fn back_element<F: Fn(FloatOp, u64, u64) -> u64>(
    m: Seq<u64>,
    r: Seq<u64>,
    dim: int,
    i: int,
    fpu: Fpu<F>,
) -> u64
    decreases dim - i, 1int, 0int,
{
    fpu.quotient(back_rest(m, r, dim, i, dim, fpu), cell(m, dim, i, i))
}

pub open spec fn back_rest<F: Fn(FloatOp, u64, u64) -> u64>(
    m: Seq<u64>,
    r: Seq<u64>,
    dim: int,
    i: int,
    p: int,
    fpu: Fpu<F>,
) -> u64
    decreases dim - i, 0int, p,
{
    if p <= i + 1 || p > dim || i < 0 {
        r[i]
    } else {
        fpu.difference(
            back_rest(m, r, dim, i, p - 1, fpu),
            fpu.product(cell(m, dim, i, p - 1), back_element(m, r, dim, p - 1, fpu)),
        )
    }
}

pub open spec fn back_solution<F: Fn(FloatOp, u64, u64) -> u64>(
    m: Seq<u64>,
    r: Seq<u64>,
    dim: int,
    fpu: Fpu<F>,
) -> Seq<u64> {
    Seq::new(dim as nat, |i: int| back_element(m, r, dim, i, fpu))
}

/// All diagonal entries exceed `tol` in magnitude.
pub open spec fn pivots_hold(m: Seq<u64>, dim: int, tol: u64) -> bool {
    forall|i: int| 0 <= i < dim ==> !num_le(absolute(#[trigger] cell(m, dim, i, i)), tol)
}

/// Product of row `row` and the first `k` elements of `x`.
pub open spec fn row_times<F: Fn(FloatOp, u64, u64) -> u64>(
    m: Seq<u64>,
    dim: int,
    row: int,
    x: Seq<u64>,
    k: nat,
    fpu: Fpu<F>,
) -> u64
    decreases k,
{
    if k == 0 {
        ZERO
    } else {
        fpu.sum(
            row_times(m, dim, row, x, (k - 1) as nat, fpu),
            fpu.product(cell(m, dim, row, k - 1), x[k - 1]),
        )
    }
}

/// Greatest magnitude of the residual over the first `k` rows.
pub open spec fn residual_max<F: Fn(FloatOp, u64, u64) -> u64>(
    m: Seq<u64>,
    x: Seq<u64>,
    rhs: Seq<u64>,
    dim: int,
    k: nat,
    fpu: Fpu<F>,
) -> u64
    decreases k,
{
    if k == 0 {
        ZERO
    } else {
        fpu.calc(
            FloatOp::Max,
            residual_max(m, x, rhs, dim, (k - 1) as nat, fpu),
            absolute(
                fpu.difference(row_times(m, dim, k - 1, x, dim as nat, fpu), rhs[k - 1]),
            ),
        )
    }
}

/// The least pivot magnitude that is not accepted.
pub open spec fn pivot_limit<F: Fn(FloatOp, u64, u64) -> u64>(
    m: Seq<u64>,
    dim: int,
    fpu: Fpu<F>,
) -> u64 {
    fpu.product(
        fpu.product(fpu.calc(FloatOp::FromCount, dim as u64, ZERO), amax(m, fpu)),
        TEN_M10,
    )
}

/// The solution of a finite square system that is not zero, or why there is
/// none.
pub open spec fn elimination<F: Fn(FloatOp, u64, u64) -> u64>(
    m: Seq<u64>,
    rhs: Seq<u64>,
    dim: int,
    fpu: Fpu<F>,
) -> Result<Seq<u64>, Seq<char>> {
    let tol = pivot_limit(m, dim, fpu);
    match triangular(m, rhs, dim, tol, dim as nat, fpu) {
        None => Err("dense system is singular or ill-conditioned"@),
        Some((a, b)) => {
            let x = back_solution(a, b, dim, fpu);
            let scale = fpu.calc(FloatOp::Max, amax(rhs, fpu), ONE);
            if !pivots_hold(a, dim, tol) {
                Err("dense system is singular or ill-conditioned"@)
            } else if !all_finite(x) {
                Err("dense system solution is non-finite"@)
            } else if num_lt(
                fpu.product(TEN_M8, scale),
                residual_max(m, x, rhs, dim, dim as nat, fpu),
            ) {
                Err("dense system residual is too large"@)
            } else {
                Ok(x)
            }
        },
    }
}

/// The solution of a square system, or why there is none.
pub open spec fn dense_solution<F: Fn(FloatOp, u64, u64) -> u64>(
    m: Seq<u64>,
    rhs: Seq<u64>,
    dim: int,
    fpu: Fpu<F>,
) -> Result<Seq<u64>, Seq<char>> {
    if dim == 0 {
        Ok(Seq::empty())
    } else if m.len() != dim * dim || rhs.len() != dim {
        Err("dense system dimensions are inconsistent"@)
    } else if !all_finite(m) {
        Err("dense system matrix contains a non-finite value"@)
    } else if !all_finite(rhs) {
        Err("dense system RHS contains a non-finite value"@)
    } else if num_eq(amax(m, fpu), ZERO) {
        Err("dense system matrix is zero"@)
    } else {
        elimination(m, rhs, dim, fpu)
    }
}

/// A result with its message as a mathematical value.
pub open spec fn told(r: Result<Vec<u64>, &'static str>) -> Result<Seq<u64>, Seq<char>> {
    match r {
        Ok(x) => Ok(x@),
        Err(e) => Err(e@),
    }
}

fn find_pivot(m: &Vec<u64>, dim: usize, col: usize) -> (p: usize)
    requires
        m@.len() == dim * dim,
        col < dim,
    ensures
        p == pivot_row(m@, dim as int, col as int, dim as int),
        col <= p < dim,
{
    let mut best: usize = col;
    for r in (col + 1)..dim
        invariant
            m@.len() == dim * dim,
            col < dim,
            col <= best < dim,
            best == pivot_row(m@, dim as int, col as int, r as int),
    {
        if !lt(abs(get_cell(m, dim, r, col)), abs(get_cell(m, dim, best, col))) {
            best = r;
        }
    }
    best
}

fn swap_rows(m: &mut Vec<u64>, dim: usize, a: usize, b: usize)
    requires
        old(m)@.len() == dim * dim,
        a <= b < dim,
    ensures
        final(m)@ == rows_swapped(old(m)@, dim as int, a as int, b as int, a as int),
        final(m)@.len() == dim * dim,
{
    let ghost m0 = m@;
    let ghost d = dim as int;
    for j in a..dim
        invariant
            a <= b < dim,
            d == dim,
            m@.len() == dim * dim,
            forall|r: int, c: int|
                0 <= r < d && 0 <= c < d ==> #[trigger] cell(m@, d, r, c) == if a <= c < j && r
                    == a {
                    cell(m0, d, b as int, c)
                } else if a <= c < j && r == b {
                    cell(m0, d, a as int, c)
                } else {
                    cell(m0, d, r, c)
                },
    {
        let u: u64 = get_cell(m, dim, a, j);
        let v: u64 = get_cell(m, dim, b, j);
        set_cell(m, dim, a, j, v);
        set_cell(m, dim, b, j, u);
    }
    proof {
        let f = |i: int, j: int|
            if j < a {
                cell(m0, d, i, j)
            } else if i == a {
                cell(m0, d, b as int, j)
            } else if i == b {
                cell(m0, d, a as int, j)
            } else {
                cell(m0, d, i, j)
            };
        lemma_cells_are_flat(m@, d, f);
        assert(f =~= (|i: int, j: int|
            if j < a as int {
                cell(m0, d, i, j)
            } else if i == a as int {
                cell(m0, d, b as int, j)
            } else if i == b as int {
                cell(m0, d, a as int, j)
            } else {
                cell(m0, d, i, j)
            }));
    }
}

/// Eliminates column `col` below the diagonal.
fn eliminate<F: Fn(FloatOp, u64, u64) -> u64>(
    m: &mut Vec<u64>,
    rhs: &mut Vec<u64>,
    dim: usize,
    col: usize,
    fpu: &Fpu<F>,
)
    requires
        fpu.sound(),
        old(m)@.len() == dim * dim,
        old(rhs)@.len() == dim,
        col < dim,
    ensures
        final(m)@ == eliminated(old(m)@, dim as int, col as int, *fpu),
        final(m)@.len() == dim * dim,
        final(rhs)@ == rhs_eliminated(old(m)@, old(rhs)@, dim as int, col as int, *fpu),
{
    let ghost m0 = m@;
    let ghost r0 = rhs@;
    let ghost d = dim as int;
    let ghost k = col as int;
    let ghost f = |i: int, j: int|
        if i <= k || j < k {
            cell(m0, d, i, j)
        } else if j == k {
            ZERO
        } else {
            fpu.difference(
                cell(m0, d, i, j),
                fpu.product(factor_of(m0, d, k, i, *fpu), cell(m0, d, k, j)),
            )
        };
    let pivot: u64 = get_cell(m, dim, col, col);
    for row in (col + 1)..dim
        invariant
            fpu.sound(),
            col < dim,
            d == dim,
            k == col,
            m@.len() == dim * dim,
            rhs@.len() == dim,
            r0.len() == dim,
            pivot == cell(m0, d, k, k),
            f == (|i: int, j: int|
                if i <= k || j < k {
                    cell(m0, d, i, j)
                } else if j == k {
                    ZERO
                } else {
                    fpu.difference(
                        cell(m0, d, i, j),
                        fpu.product(factor_of(m0, d, k, i, *fpu), cell(m0, d, k, j)),
                    )
                }),
            forall|i: int, j: int|
                0 <= i < d && 0 <= j < d ==> #[trigger] cell(m@, d, i, j) == if i < row {
                    f(i, j)
                } else {
                    cell(m0, d, i, j)
                },
            forall|i: int|
                0 <= i < d ==> #[trigger] rhs@[i] == if k < i < row {
                    fpu.difference(r0[i], fpu.product(factor_of(m0, d, k, i, *fpu), r0[k]))
                } else {
                    r0[i]
                },
    {
        let factor: u64 = fpu.div(get_cell(m, dim, row, col), pivot);
        assert(factor == factor_of(m0, d, k, row as int, *fpu));
        set_cell(m, dim, row, col, ZERO);
        for j in (col + 1)..dim
            invariant
                fpu.sound(),
                col < row < dim,
                d == dim,
                k == col,
                m@.len() == dim * dim,
                factor == factor_of(m0, d, k, row as int, *fpu),
                f == (|i: int, j: int|
                    if i <= k || j < k {
                        cell(m0, d, i, j)
                    } else if j == k {
                        ZERO
                    } else {
                        fpu.difference(
                            cell(m0, d, i, j),
                            fpu.product(factor_of(m0, d, k, i, *fpu), cell(m0, d, k, j)),
                        )
                    }),
                forall|i: int, c: int|
                    0 <= i < d && 0 <= c < d ==> #[trigger] cell(m@, d, i, c) == if i < row || (i
                        == row && c < j) {
                        f(i, c)
                    } else {
                        cell(m0, d, i, c)
                    },
        {
            let v: u64 = fpu.sub(
                get_cell(m, dim, row, j),
                fpu.mul(factor, get_cell(m, dim, col, j)),
            );
            set_cell(m, dim, row, j, v);
        }
        let v: u64 = fpu.sub(rhs[row], fpu.mul(factor, rhs[col]));
        rhs.set(row, v);
    }
    proof {
        lemma_cells_are_flat(m@, d, f);
        assert(rhs@ =~= rhs_eliminated(m0, r0, d, k, *fpu));
    }
}

/// The solution of a triangular system, or nothing where a pivot is at most
/// `tol`.
fn substitute_back<F: Fn(FloatOp, u64, u64) -> u64>(
    m: &Vec<u64>,
    rhs: &Vec<u64>,
    dim: usize,
    tol: u64,
    fpu: &Fpu<F>,
) -> (x: Option<Vec<u64>>)
    requires
        fpu.sound(),
        m@.len() == dim * dim,
        rhs@.len() == dim,
    ensures
        x is Some <==> pivots_hold(m@, dim as int, tol),
        x matches Some(v) ==> v@ == back_solution(m@, rhs@, dim as int, *fpu),
{
    let ghost d = dim as int;
    let mut x: Vec<u64> = vec![ZERO; dim];
    let mut done: usize = dim;
    while done > 0
        invariant
            fpu.sound(),
            d == dim,
            m@.len() == dim * dim,
            rhs@.len() == dim,
            x@.len() == dim,
            done <= dim,
            forall|q: int|
                done <= q < dim ==> #[trigger] x@[q] == back_element(m@, rhs@, d, q, *fpu),
            forall|q: int|
                done <= q < dim ==> !num_le(absolute(#[trigger] cell(m@, d, q, q)), tol),
        decreases done,
    {
        let i: usize = done - 1;
        let mut s: u64 = rhs[i];
        for j in (i + 1)..dim
            invariant
                fpu.sound(),
                d == dim,
                i < dim,
                m@.len() == dim * dim,
                x@.len() == dim,
                forall|q: int|
                    i < q < dim ==> #[trigger] x@[q] == back_element(m@, rhs@, d, q, *fpu),
                s == back_rest(m@, rhs@, d, i as int, j as int, *fpu),
        {
            s = fpu.sub(s, fpu.mul(get_cell(m, dim, i, j), x[j]));
        }
        let pivot: u64 = get_cell(m, dim, i, i);
        if le(abs(pivot), tol) {
            return None;
        }
        x.set(i, fpu.div(s, pivot));
        done = i;
    }
    assert(x@ =~= back_solution(m@, rhs@, d, *fpu));
    Some(x)
}

/// Greatest magnitude of the residual.
fn dense_residual_inf<F: Fn(FloatOp, u64, u64) -> u64>(
    m: &Vec<u64>,
    x: &Vec<u64>,
    rhs: &Vec<u64>,
    dim: usize,
    fpu: &Fpu<F>,
) -> (r: u64)
    requires
        fpu.sound(),
        m@.len() == dim * dim,
        x@.len() == dim,
        rhs@.len() == dim,
    ensures
        r == residual_max(m@, x@, rhs@, dim as int, dim as nat, *fpu),
{
    let mut r: u64 = ZERO;
    for row in 0..dim
        invariant
            fpu.sound(),
            m@.len() == dim * dim,
            x@.len() == dim,
            rhs@.len() == dim,
            r == residual_max(m@, x@, rhs@, dim as int, row as nat, *fpu),
    {
        let mut ax: u64 = ZERO;
        for col in 0..dim
            invariant
                fpu.sound(),
                row < dim,
                m@.len() == dim * dim,
                x@.len() == dim,
                ax == row_times(m@, dim as int, row as int, x@, col as nat, *fpu),
        {
            ax = fpu.add(ax, fpu.mul(get_cell(m, dim, row, col), x[col]));
        }
        r = fpu.max(r, abs(fpu.sub(ax, rhs[row])));
    }
    r
}

/// Solves a square system by elimination with row pivoting. The solution is
/// refused where a pivot is small, a number is not finite, or the residual is
/// large.
pub fn solve_dense_square_system<F: Fn(FloatOp, u64, u64) -> u64>(
    matrix: &Vec<u64>,
    rhs: &Vec<u64>,
    dim: usize,
    fpu: &Fpu<F>,
) -> (r: Result<Vec<u64>, &'static str>)
    requires
        fpu.sound(),
        dim * dim <= usize::MAX,
    ensures
        told(r) == dense_solution(matrix@, rhs@, dim as int, *fpu),
{
    if dim == 0 {
        return Ok(Vec::new());
    }
    if matrix.len() != dim * dim || rhs.len() != dim {
        return Err("dense system dimensions are inconsistent");
    }
    if !is_all_finite(matrix) {
        return Err("dense system matrix contains a non-finite value");
    }
    if !is_all_finite(rhs) {
        return Err("dense system RHS contains a non-finite value");
    }
    let norm: u64 = inf_norm(matrix, fpu);
    if eq(norm, ZERO) {
        return Err("dense system matrix is zero");
    }
    let count: u64 = fpu.run(FloatOp::FromCount, dim as u64, ZERO);
    let tol: u64 = fpu.mul(fpu.mul(count, norm), TEN_M10);
    let ghost m0 = matrix@;
    let ghost r0 = rhs@;
    let mut a: Vec<u64> = copy_numbers(matrix);
    let mut b: Vec<u64> = copy_numbers(rhs);
    for col in 0..dim
        invariant
            fpu.sound(),
            a@.len() == dim * dim,
            b@.len() == dim,
            m0 == matrix@,
            r0 == rhs@,
            dim > 0,
            m0.len() == dim * dim,
            r0.len() == dim,
            all_finite(m0),
            all_finite(r0),
            !num_eq(amax(m0, *fpu), ZERO),
            tol == pivot_limit(m0, dim as int, *fpu),
            triangular(m0, r0, dim as int, tol, col as nat, *fpu) == Some((a@, b@)),
    {
        let p: usize = find_pivot(&a, dim, col);
        let pivot: u64 = get_cell(&a, dim, p, col);
        if le(abs(pivot), tol) {
            proof {
                lemma_stuck(m0, r0, dim as int, tol, (col + 1) as nat, dim as nat, *fpu);
            }
            return Err("dense system is singular or ill-conditioned");
        }
        let ghost a0 = a@;
        let ghost b0 = b@;
        if p != col {
            swap_rows(&mut a, dim, col, p);
            let u: u64 = b[col];
            let v: u64 = b[p];
            b.set(col, v);
            b.set(p, u);
        } else {
            proof {
                let f = |i: int, j: int|
                    if j < col as int {
                        cell(a0, dim as int, i, j)
                    } else if i == col as int {
                        cell(a0, dim as int, p as int, j)
                    } else if i == p as int {
                        cell(a0, dim as int, col as int, j)
                    } else {
                        cell(a0, dim as int, i, j)
                    };
                lemma_cells_are_flat(a@, dim as int, f);
                assert(b@ =~= numbers_swapped(b0, col as int, p as int));
            }
        }
        assert(a@ == rows_swapped(a0, dim as int, col as int, p as int, col as int));
        assert(b@ =~= numbers_swapped(b0, col as int, p as int));
        eliminate(&mut a, &mut b, dim, col, fpu);
    }
    let x: Vec<u64> = match substitute_back(&a, &b, dim, tol, fpu) {
        None => {
            return Err("dense system is singular or ill-conditioned");
        },
        Some(x) => x,
    };
    if !is_all_finite(&x) {
        return Err("dense system solution is non-finite");
    }
    let residual: u64 = dense_residual_inf(matrix, &x, rhs, dim, fpu);
    let scale: u64 = fpu.max(inf_norm(rhs, fpu), ONE);
    if lt(fpu.mul(TEN_M8, scale), residual) {
        return Err("dense system residual is too large");
    }
    Ok(x)
}

/// An elimination that stops stays stopped.
proof fn lemma_stuck<F: Fn(FloatOp, u64, u64) -> u64>(
    m: Seq<u64>,
    r: Seq<u64>,
    dim: int,
    tol: u64,
    k: nat,
    n: nat,
    fpu: Fpu<F>,
)
    requires
        k <= n,
        triangular(m, r, dim, tol, k, fpu) is None,
    ensures
        triangular(m, r, dim, tol, n, fpu) is None,
    decreases n,
{
    if k < n {
        lemma_stuck(m, r, dim, tol, k, (n - 1) as nat, fpu);
    }
}

} // verus!
