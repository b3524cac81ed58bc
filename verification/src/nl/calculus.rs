//! The derivatives of the operations of a tape.

use crate::float::{
    negated, num_eq, num_le, num_lt, FloatOp, Fpu, HALF, MINUS_ONE, ONE, TWO, ZERO,
};
use crate::nl::expr::{BinaryOp, UnaryOp};
use crate::nl::sweeps::{
    first_binary, first_unary, second_binary, second_unary, tangent_binary, tangent_unary,
    UpdateModel, LN_10, MINUS_QUARTER, MINUS_TWO,
};
use vstd::prelude::*;

verus! {

/// The arithmetic computes as numbers do: products do not depend on order and grouping, a sign moves out of
/// them, a quotient is the product with the inverse, a difference the sum with the opposite, a product with a sum is the sum of the
/// products, and the one and the zero are neutral.
#[verifier::opaque]
pub open spec fn computes<F: Fn(FloatOp, u64, u64) -> u64>(fpu: Fpu<F>) -> bool {
    &&& forall|a: u64, b: u64| #[trigger] fpu.product(a, b) == fpu.product(b, a)
    &&& forall|a: u64, b: u64, c: u64|
        #[trigger] fpu.product(fpu.product(a, b), c) == fpu.product(a, fpu.product(b, c))
    &&& forall|a: u64, b: u64|
        #[trigger] fpu.product(negated(a), b) == negated(fpu.product(a, b))
    &&& forall|a: u64, b: u64|
        #[trigger] fpu.quotient(a, b) == fpu.product(a, fpu.quotient(ONE, b))
    &&& forall|a: u64| #[trigger] fpu.product(ONE, a) == a
    &&& forall|a: u64| #[trigger] fpu.sum(ZERO, a) == a
    &&& forall|a: u64, b: u64| #[trigger] fpu.difference(a, b) == fpu.sum(a, negated(b))
    &&& forall|a: u64, b: u64, c: u64|
        #[trigger] fpu.product(fpu.sum(a, b), c) == fpu.sum(fpu.product(a, c), fpu.product(b, c))
}

proof fn lemma_signs<F: Fn(FloatOp, u64, u64) -> u64>(fpu: Fpu<F>, a: u64, b: u64)
    requires
        computes(fpu),
    ensures
        fpu.product(negated(a), b) == negated(fpu.product(a, b)),
        fpu.product(a, negated(b)) == negated(fpu.product(a, b)),
{
    reveal(computes);
    assert(fpu.product(negated(b), a) == negated(fpu.product(b, a)));
    assert(fpu.product(a, negated(b)) == fpu.product(negated(b), a));
    assert(fpu.product(a, b) == fpu.product(b, a));
}

proof fn lemma_neutral<F: Fn(FloatOp, u64, u64) -> u64>(fpu: Fpu<F>, a: u64)
    requires
        computes(fpu),
    ensures
        fpu.product(ONE, a) == a,
        fpu.product(a, ONE) == a,
        fpu.product(a, negated(ONE)) == negated(a),
{
    reveal(computes);
    assert(fpu.product(a, ONE) == fpu.product(ONE, a));
    lemma_signs(fpu, a, ONE);
}

proof fn lemma_inverse<F: Fn(FloatOp, u64, u64) -> u64>(fpu: Fpu<F>, a: u64, b: u64)
    requires
        computes(fpu),
    ensures
        fpu.quotient(a, b) == fpu.product(a, fpu.quotient(ONE, b)),
        fpu.quotient(negated(a), b) == negated(fpu.quotient(a, b)),
{
    reveal(computes);
    lemma_signs(fpu, a, fpu.quotient(ONE, b));
    assert(fpu.quotient(negated(a), b) == fpu.product(negated(a), fpu.quotient(ONE, b)));
}

proof fn lemma_groups<F: Fn(FloatOp, u64, u64) -> u64>(fpu: Fpu<F>, a: u64, b: u64, c: u64)
    requires
        computes(fpu),
    ensures
        fpu.product(fpu.product(a, b), c) == fpu.product(a, fpu.product(b, c)),
        fpu.product(a, b) == fpu.product(b, a),
        fpu.quotient(fpu.product(a, b), c) == fpu.product(a, fpu.quotient(b, c)),
{
    reveal(computes);
    let i = fpu.quotient(ONE, c);
    assert(fpu.quotient(fpu.product(a, b), c) == fpu.product(fpu.product(a, b), i));
    assert(fpu.product(fpu.product(a, b), i) == fpu.product(a, fpu.product(b, i)));
    assert(fpu.quotient(b, c) == fpu.product(b, i));
}

/// A difference over a number is the difference of the quotients.
proof fn lemma_difference<F: Fn(FloatOp, u64, u64) -> u64>(fpu: Fpu<F>, a: u64, b: u64, c: u64)
    requires
        computes(fpu),
    ensures
        fpu.difference(a, b) == fpu.sum(a, negated(b)),
        fpu.quotient(fpu.difference(a, b), c) == fpu.sum(
            fpu.quotient(a, c),
            negated(fpu.quotient(b, c)),
        ),
        fpu.sum(ZERO, a) == a,
{
    reveal(computes);
    let i = fpu.quotient(ONE, c);
    let n = negated(b);
    lemma_inverse(fpu, b, c);
    assert(fpu.difference(a, b) == fpu.sum(a, n));
    assert(fpu.quotient(fpu.sum(a, n), c) == fpu.product(fpu.sum(a, n), i));
    assert(fpu.product(fpu.sum(a, n), i) == fpu.sum(fpu.product(a, i), fpu.product(n, i)));
    assert(fpu.quotient(a, c) == fpu.product(a, i));
    assert(fpu.quotient(n, c) == fpu.product(n, i));
}

/// The square of a number.
pub open spec fn square<F: Fn(FloatOp, u64, u64) -> u64>(a: u64, fpu: Fpu<F>) -> u64 {
    fpu.product(a, a)
}

/// The inverse of a number.
pub open spec fn inverse<F: Fn(FloatOp, u64, u64) -> u64>(a: u64, fpu: Fpu<F>) -> u64 {
    fpu.quotient(ONE, a)
}

/// The derivative at `x` of a function of one operand, where its value is `y`.
pub open spec fn slope<F: Fn(FloatOp, u64, u64) -> u64>(
    op: UnaryOp,
    x: u64,
    y: u64,
    fpu: Fpu<F>,
) -> u64 {
    match op {
        UnaryOp::Abs => if num_le(ZERO, x) {
            ONE
        } else {
            negated(ONE)
        },
        UnaryOp::Neg => negated(ONE),
        UnaryOp::Floor => ZERO,
        UnaryOp::Ceil => ZERO,
        UnaryOp::Tanh => fpu.difference(ONE, square(y, fpu)),
        UnaryOp::Tan => inverse(square(fpu.calc(FloatOp::Cos, x, ZERO), fpu), fpu),
        UnaryOp::Sqrt => fpu.quotient(HALF, y),
        UnaryOp::Sinh => fpu.calc(FloatOp::Cosh, x, ZERO),
        UnaryOp::Sin => fpu.calc(FloatOp::Cos, x, ZERO),
        UnaryOp::Log10 => inverse(fpu.product(x, LN_10), fpu),
        UnaryOp::Log => inverse(x, fpu),
        UnaryOp::Exp => y,
        UnaryOp::Cosh => fpu.calc(FloatOp::Sinh, x, ZERO),
        UnaryOp::Cos => negated(fpu.calc(FloatOp::Sin, x, ZERO)),
        UnaryOp::Atanh => inverse(fpu.difference(ONE, square(x, fpu)), fpu),
        UnaryOp::Atan => inverse(fpu.sum(ONE, square(x, fpu)), fpu),
        UnaryOp::Asinh => inverse(
            fpu.calc(FloatOp::Sqrt, fpu.sum(square(x, fpu), ONE), ZERO),
            fpu,
        ),
        UnaryOp::Asin => inverse(
            fpu.calc(FloatOp::Sqrt, fpu.difference(ONE, square(x, fpu)), ZERO),
            fpu,
        ),
        UnaryOp::Acosh => inverse(
            fpu.calc(FloatOp::Sqrt, fpu.difference(square(x, fpu), ONE), ZERO),
            fpu,
        ),
        UnaryOp::Acos => negated(
            inverse(fpu.calc(FloatOp::Sqrt, fpu.difference(ONE, square(x, fpu)), ZERO), fpu),
        ),
    }
}

/// What an update adds.
pub open spec fn gives(u: UpdateModel) -> u64 {
    if u.subtract {
        negated(u.amount)
    } else {
        u.amount
    }
}

/// An operation of one operand hands on its adjoint times its derivative: nothing where that is zero or,
/// for a root, where the value is not positive.
pub proof fn functions_hand_on_their_slope<F: Fn(FloatOp, u64, u64) -> u64>(
    op: UnaryOp,
    j: int,
    a: u64,
    y: u64,
    u: u64,
    fpu: Fpu<F>,
)
    requires
        computes(fpu),
    ensures
        ({
            let ups = first_unary(op, j, a, y, u, fpu);
            if op is Floor || op is Ceil || (op is Sqrt && !num_lt(ZERO, y)) {
                ups.len() == 0
            } else {
                &&& ups.len() == 1
                &&& ups[0].target == j
                &&& !ups[0].second
                &&& gives(ups[0]) == fpu.product(a, slope(op, u, y, fpu))
            }
        }),
{
    lemma_scaled(op, a, y, u, fpu);
}

/// A number times the derivative, in the forms that the sweeps have it.
proof fn lemma_scaled<F: Fn(FloatOp, u64, u64) -> u64>(
    op: UnaryOp,
    a: u64,
    y: u64,
    u: u64,
    fpu: Fpu<F>,
)
    requires
        computes(fpu),
    ensures
        fpu.product(a, ONE) == a,
        fpu.product(a, negated(ONE)) == negated(a),
        negated(ONE) == MINUS_ONE,
        negated(negated(a)) == a,
        op is Cos ==> fpu.product(a, slope(op, u, y, fpu)) == negated(
            fpu.product(a, fpu.calc(FloatOp::Sin, u, ZERO)),
        ),
        op is Cos ==> fpu.product(a, slope(op, u, y, fpu)) == fpu.product(
            negated(a),
            fpu.calc(FloatOp::Sin, u, ZERO),
        ),
        op is Tan ==> fpu.product(a, slope(op, u, y, fpu)) == fpu.quotient(
            a,
            square(fpu.calc(FloatOp::Cos, u, ZERO), fpu),
        ),
        op is Sqrt ==> fpu.product(a, slope(op, u, y, fpu)) == fpu.quotient(
            fpu.product(a, HALF),
            y,
        ),
        op is Log10 ==> fpu.product(a, slope(op, u, y, fpu)) == fpu.quotient(
            a,
            fpu.product(u, LN_10),
        ),
        op is Log ==> fpu.product(a, slope(op, u, y, fpu)) == fpu.quotient(a, u),
        op is Atanh ==> fpu.product(a, slope(op, u, y, fpu)) == fpu.quotient(
            a,
            fpu.difference(ONE, square(u, fpu)),
        ),
        op is Atan ==> fpu.product(a, slope(op, u, y, fpu)) == fpu.quotient(
            a,
            fpu.sum(ONE, square(u, fpu)),
        ),
        op is Asinh ==> fpu.product(a, slope(op, u, y, fpu)) == fpu.quotient(
            a,
            fpu.calc(FloatOp::Sqrt, fpu.sum(square(u, fpu), ONE), ZERO),
        ),
        op is Asin ==> fpu.product(a, slope(op, u, y, fpu)) == fpu.quotient(
            a,
            fpu.calc(FloatOp::Sqrt, fpu.difference(ONE, square(u, fpu)), ZERO),
        ),
        op is Acosh ==> fpu.product(a, slope(op, u, y, fpu)) == fpu.quotient(
            a,
            fpu.calc(FloatOp::Sqrt, fpu.difference(square(u, fpu), ONE), ZERO),
        ),
        op is Acos ==> ({
            let s = fpu.calc(FloatOp::Sqrt, fpu.difference(ONE, square(u, fpu)), ZERO);
            &&& fpu.product(a, slope(op, u, y, fpu)) == negated(fpu.quotient(a, s))
            &&& fpu.product(a, slope(op, u, y, fpu)) == fpu.quotient(negated(a), s)
            &&& fpu.quotient(negated(ONE), s) == slope(op, u, y, fpu)
        }),
{
    lemma_neutral(fpu, a);
    if op is Cos {
        lemma_signs(fpu, a, fpu.calc(FloatOp::Sin, u, ZERO));
    } else if op is Tan {
        lemma_inverse(fpu, a, square(fpu.calc(FloatOp::Cos, u, ZERO), fpu));
    } else if op is Sqrt {
        lemma_groups(fpu, a, HALF, y);
    } else if op is Log10 {
        lemma_inverse(fpu, a, fpu.product(u, LN_10));
    } else if op is Log {
        lemma_inverse(fpu, a, u);
    } else if op is Atanh {
        lemma_inverse(fpu, a, fpu.difference(ONE, square(u, fpu)));
    } else if op is Atan {
        lemma_inverse(fpu, a, fpu.sum(ONE, square(u, fpu)));
    } else if op is Asinh {
        lemma_inverse(fpu, a, fpu.calc(FloatOp::Sqrt, fpu.sum(square(u, fpu), ONE), ZERO));
    } else if op is Asin || op is Acos {
        let s = fpu.calc(FloatOp::Sqrt, fpu.difference(ONE, square(u, fpu)), ZERO);
        lemma_inverse(fpu, a, s);
        lemma_inverse(fpu, ONE, s);
        lemma_signs(fpu, a, inverse(s, fpu));
    } else if op is Acosh {
        lemma_inverse(fpu, a, fpu.calc(FloatOp::Sqrt, fpu.difference(square(u, fpu), ONE), ZERO));
    }
}

/// Along a direction an operation of one operand moves by its derivative times what the operand moves; not at
/// all where that is zero or, for a root, where the value is not positive.
pub proof fn functions_move_by_their_slope<F: Fn(FloatOp, u64, u64) -> u64>(
    op: UnaryOp,
    y: u64,
    u: u64,
    du: u64,
    fpu: Fpu<F>,
)
    requires
        computes(fpu),
    ensures
        if op is Floor || op is Ceil || (op is Sqrt && !num_lt(ZERO, y)) {
            tangent_unary(op, y, u, du, fpu) == ZERO
        } else {
            tangent_unary(op, y, u, du, fpu) == fpu.product(du, slope(op, u, y, fpu))
        },
{
    lemma_scaled(op, du, y, u, fpu);
}

/// The second derivative at `x` of a function of one operand, where its value is `y`.
pub open spec fn bend<F: Fn(FloatOp, u64, u64) -> u64>(
    op: UnaryOp,
    x: u64,
    y: u64,
    fpu: Fpu<F>,
) -> u64 {
    let s = slope(op, x, y, fpu);
    match op {
        UnaryOp::Tanh => fpu.product(fpu.product(MINUS_TWO, y), s),
        UnaryOp::Tan => fpu.product(fpu.product(TWO, fpu.calc(FloatOp::Tan, x, ZERO)), s),
        UnaryOp::Sqrt => fpu.quotient(MINUS_QUARTER, fpu.product(x, y)),
        UnaryOp::Sinh => fpu.calc(FloatOp::Sinh, x, ZERO),
        UnaryOp::Sin => negated(fpu.calc(FloatOp::Sin, x, ZERO)),
        UnaryOp::Log10 => negated(inverse(fpu.product(square(x, fpu), LN_10), fpu)),
        UnaryOp::Log => negated(inverse(square(x, fpu), fpu)),
        UnaryOp::Exp => y,
        UnaryOp::Cosh => fpu.calc(FloatOp::Cosh, x, ZERO),
        UnaryOp::Cos => negated(fpu.calc(FloatOp::Cos, x, ZERO)),
        UnaryOp::Atanh => fpu.quotient(
            fpu.product(TWO, x),
            square(fpu.difference(ONE, square(x, fpu)), fpu),
        ),
        UnaryOp::Atan => fpu.quotient(
            fpu.product(MINUS_TWO, x),
            square(fpu.sum(ONE, square(x, fpu)), fpu),
        ),
        UnaryOp::Asinh => {
            let r = fpu.calc(FloatOp::Sqrt, fpu.sum(square(x, fpu), ONE), ZERO);
            negated(fpu.quotient(x, fpu.product(square(r, fpu), r)))
        },
        UnaryOp::Asin => {
            let r = fpu.calc(FloatOp::Sqrt, fpu.difference(ONE, square(x, fpu)), ZERO);
            fpu.quotient(x, fpu.product(square(r, fpu), r))
        },
        UnaryOp::Acosh => {
            let r = fpu.calc(FloatOp::Sqrt, fpu.difference(square(x, fpu), ONE), ZERO);
            negated(fpu.quotient(x, fpu.product(square(r, fpu), r)))
        },
        UnaryOp::Acos => {
            let r = fpu.calc(FloatOp::Sqrt, fpu.difference(ONE, square(x, fpu)), ZERO);
            negated(fpu.quotient(x, fpu.product(square(r, fpu), r)))
        },
        _ => ZERO,
    }
}

/// Along a direction, the adjoint that an operation of one operand hands on moves by what its own adjoint moves,
/// times its derivative, and by what the derivative moves: the second derivative times what the operand moves.
/// That is none for a magnitude and a change of sign.
pub proof fn functions_curve_by_their_bend<F: Fn(FloatOp, u64, u64) -> u64>(
    op: UnaryOp,
    j: int,
    w: u64,
    wd: u64,
    y: u64,
    u: u64,
    du: u64,
    fpu: Fpu<F>,
)
    requires
        computes(fpu),
    ensures
        ({
            let ups = second_unary(op, j, w, wd, y, u, du, fpu);
            if op is Floor || op is Ceil || (op is Sqrt && !num_lt(ZERO, y)) {
                ups.len() == 0
            } else {
                let s = slope(op, u, y, fpu);
                &&& ups.len() == 2
                &&& ups[0].target == j && ups[1].target == j
                &&& !ups[0].second && ups[1].second
                &&& gives(ups[0]) == fpu.product(w, s)
                &&& op is Abs || op is Neg ==> gives(ups[1]) == fpu.product(wd, s)
                &&& !(op is Abs || op is Neg) ==> gives(ups[1]) == fpu.sum(
                    fpu.product(wd, s),
                    fpu.product(fpu.product(w, bend(op, u, y, fpu)), du),
                )
            }
        }),
{
    lemma_scaled(op, w, y, u, fpu);
    lemma_scaled(op, wd, y, u, fpu);
    if op is Tan {
        let t = fpu.calc(FloatOp::Tan, u, ZERO);
        let s = slope(op, u, y, fpu);
        lemma_groups(fpu, w, TWO, t);
        lemma_groups(fpu, w, fpu.product(TWO, t), s);
    } else if op is Log10 {
        lemma_inverse(fpu, ONE, fpu.product(square(u, fpu), LN_10));
    } else if op is Log {
        lemma_inverse(fpu, ONE, square(u, fpu));
    } else if op is Asinh {
        let r = fpu.calc(FloatOp::Sqrt, fpu.sum(square(u, fpu), ONE), ZERO);
        lemma_inverse(fpu, u, fpu.product(square(r, fpu), r));
    } else if op is Acosh {
        let r = fpu.calc(FloatOp::Sqrt, fpu.difference(square(u, fpu), ONE), ZERO);
        lemma_inverse(fpu, u, fpu.product(square(r, fpu), r));
    } else if op is Acos {
        let r = fpu.calc(FloatOp::Sqrt, fpu.difference(ONE, square(u, fpu)), ZERO);
        lemma_inverse(fpu, u, fpu.product(square(r, fpu), r));
    }
}

/// The derivatives of an operation of two operands by each of them. That of a remainder and of a quotient of
/// whole numbers is taken by the first operand alone.
pub open spec fn slopes_of<F: Fn(FloatOp, u64, u64) -> u64>(
    op: BinaryOp,
    l: u64,
    r: u64,
    y: u64,
    fpu: Fpu<F>,
) -> (u64, u64) {
    match op {
        BinaryOp::Add => (ONE, ONE),
        BinaryOp::Sub => (ONE, negated(ONE)),
        BinaryOp::Mul => (r, l),
        BinaryOp::Div => (inverse(r, fpu), negated(fpu.quotient(l, square(r, fpu)))),
        BinaryOp::Pow => (
            fpu.product(r, fpu.calc(FloatOp::Pow, l, fpu.difference(r, ONE))),
            fpu.product(y, fpu.calc(FloatOp::Ln, l, ZERO)),
        ),
        BinaryOp::Atan2 => (
            fpu.quotient(r, fpu.sum(square(l, fpu), square(r, fpu))),
            negated(fpu.quotient(l, fpu.sum(square(l, fpu), square(r, fpu)))),
        ),
        BinaryOp::Less => if num_lt(l, r) {
            (ONE, ZERO)
        } else {
            (ZERO, ONE)
        },
        BinaryOp::Mod => (ONE, ZERO),
        BinaryOp::IntDiv => (ONE, ZERO),
    }
}

/// The value is that of the first operand alone, up to a constant.
pub open spec fn follows_first(op: BinaryOp, l: u64, r: u64) -> bool {
    op is Mod || op is IntDiv || (op is Less && num_lt(l, r))
}

/// The operation has both derivatives: a power has a positive base and an exponent that is not zero, and an
/// angle does not belong to the origin.
pub open spec fn has_slopes<F: Fn(FloatOp, u64, u64) -> u64>(
    op: BinaryOp,
    l: u64,
    r: u64,
    fpu: Fpu<F>,
) -> bool {
    &&& op is Pow ==> !num_eq(r, ZERO) && num_lt(ZERO, l)
    &&& op is Atan2 ==> num_lt(ZERO, fpu.sum(square(l, fpu), square(r, fpu)))
}

/// An operation of two operands hands on its adjoint times its derivatives: to the first operand, then to the
/// second one. Where the value follows one operand alone, only that one gets it.
pub proof fn operations_hand_on_their_slopes<F: Fn(FloatOp, u64, u64) -> u64>(
    op: BinaryOp,
    l: int,
    r: int,
    a: u64,
    y: u64,
    lv: u64,
    rv: u64,
    fpu: Fpu<F>,
)
    requires
        computes(fpu),
        has_slopes(op, lv, rv, fpu),
    ensures
        ({
            let ups = first_binary(op, l, r, a, y, lv, rv, fpu);
            let (sl, sr) = slopes_of(op, lv, rv, y, fpu);
            if follows_first(op, lv, rv) {
                ups.len() == 1 && ups[0].target == l && gives(ups[0]) == fpu.product(a, sl)
            } else if op is Less {
                ups.len() == 1 && ups[0].target == r && gives(ups[0]) == fpu.product(a, sr)
            } else {
                &&& ups.len() == 2
                &&& ups[0].target == l && ups[1].target == r
                &&& gives(ups[0]) == fpu.product(a, sl)
                &&& gives(ups[1]) == fpu.product(a, sr)
            }
        }),
{
    lemma_neutral(fpu, a);
    if op is Div {
        lemma_inverse(fpu, a, rv);
        lemma_groups(fpu, a, lv, square(rv, fpu));
        lemma_signs(fpu, a, fpu.quotient(lv, square(rv, fpu)));
    } else if op is Pow {
        lemma_groups(fpu, a, rv, fpu.calc(FloatOp::Pow, lv, fpu.difference(rv, ONE)));
        lemma_groups(fpu, a, y, fpu.calc(FloatOp::Ln, lv, ZERO));
    } else if op is Atan2 {
        let d = fpu.sum(square(lv, fpu), square(rv, fpu));
        lemma_groups(fpu, a, rv, d);
        lemma_groups(fpu, a, lv, d);
        lemma_signs(fpu, a, fpu.quotient(lv, d));
    }
}

/// Along a direction an operation of two operands moves by each derivative times what the operand moves. For a
/// quotient, a number over its own square has to be its inverse.
pub proof fn operations_move_by_their_slopes<F: Fn(FloatOp, u64, u64) -> u64>(
    op: BinaryOp,
    y: u64,
    lv: u64,
    rv: u64,
    dl: u64,
    dr: u64,
    fpu: Fpu<F>,
)
    requires
        computes(fpu),
        has_slopes(op, lv, rv, fpu),
        op is Div ==> fpu.quotient(rv, square(rv, fpu)) == inverse(rv, fpu),
    ensures
        ({
            let (sl, sr) = slopes_of(op, lv, rv, y, fpu);
            let moved = tangent_binary(op, y, lv, rv, dl, dr, fpu);
            if follows_first(op, lv, rv) {
                moved == fpu.product(dl, sl)
            } else if op is Less {
                moved == fpu.product(dr, sr)
            } else {
                moved == fpu.sum(fpu.product(dl, sl), fpu.product(dr, sr))
            }
        }),
{
    lemma_neutral(fpu, dl);
    lemma_neutral(fpu, dr);
    lemma_difference(fpu, dl, dr, ONE);
    lemma_groups(fpu, lv, dr, ONE);
    if op is Div || op is Atan2 {
        let d = if op is Div {
            square(rv, fpu)
        } else {
            fpu.sum(square(lv, fpu), square(rv, fpu))
        };
        lemma_difference(fpu, fpu.product(dl, rv), fpu.product(lv, dr), d);
        lemma_groups(fpu, dl, rv, d);
        lemma_groups(fpu, dr, lv, d);
        lemma_signs(fpu, dr, fpu.quotient(lv, d));
    } else if op is Pow {
        let (sl, sr) = slopes_of(op, lv, rv, y, fpu);
        lemma_groups(fpu, sl, dl, ONE);
        lemma_groups(fpu, sr, dr, ONE);
        lemma_difference(fpu, fpu.product(sl, dl), dr, ONE);
    }
}

/// What the derivatives of an operation of two operands move along a direction.
pub open spec fn bends_of<F: Fn(FloatOp, u64, u64) -> u64>(
    op: BinaryOp,
    l: u64,
    r: u64,
    dl: u64,
    dr: u64,
    y: u64,
    fpu: Fpu<F>,
) -> (u64, u64) {
    match op {
        BinaryOp::Mul => (dr, dl),
        BinaryOp::Div => {
            let r2 = square(r, fpu);
            let r3 = fpu.product(r2, r);
            (
                negated(fpu.quotient(dr, r2)),
                fpu.sum(
                    negated(fpu.quotient(dl, r2)),
                    fpu.quotient(fpu.product(fpu.product(TWO, l), dr), r3),
                ),
            )
        },
        BinaryOp::Pow => {
            let p = fpu.calc(FloatOp::Pow, l, fpu.difference(r, ONE));
            let ln = fpu.calc(FloatOp::Ln, l, ZERO);
            // a power grows by the relative change of its base times the exponent, and by
            // the change of the exponent times the logarithm
            let rate = |e: u64| fpu.sum(fpu.quotient(fpu.product(e, dl), l), fpu.product(dr, ln));
            (
                fpu.sum(
                    fpu.product(dr, p),
                    fpu.product(fpu.product(r, p), rate(fpu.difference(r, ONE))),
                ),
                fpu.sum(
                    fpu.product(fpu.product(y, rate(r)), ln),
                    fpu.quotient(fpu.product(y, dl), l),
                ),
            )
        },
        BinaryOp::Atan2 => {
            let d = fpu.sum(square(l, fpu), square(r, fpu));
            let dd = fpu.sum(
                fpu.product(fpu.product(TWO, l), dl),
                fpu.product(fpu.product(TWO, r), dr),
            );
            (
                fpu.quotient(
                    fpu.difference(fpu.product(dr, d), fpu.product(r, dd)),
                    square(d, fpu),
                ),
                fpu.quotient(
                    fpu.sum(negated(fpu.product(dl, d)), fpu.product(l, dd)),
                    square(d, fpu),
                ),
            )
        },
        _ => (ZERO, ZERO),
    }
}

/// One of the updates gives `amount` to `target`.
pub open spec fn hands(ups: Seq<UpdateModel>, target: int, second: bool, amount: u64) -> bool {
    exists|k: int|
        0 <= k < ups.len() && (#[trigger] ups[k]).target == target && ups[k].second == second
            && gives(ups[k]) == amount
}

proof fn lemma_hands(ups: Seq<UpdateModel>, k: int)
    requires
        0 <= k < ups.len(),
    ensures
        hands(ups, ups[k].target, ups[k].second, gives(ups[k])),
{
}

/// The operation is as straight as its operands.
pub open spec fn straight(op: BinaryOp) -> bool {
    op is Add || op is Sub || op is Less || op is Mod || op is IntDiv
}

/// Along a direction, the adjoints that an operation of two operands hands on move by what its own adjoint moves,
/// times its derivatives, and by its adjoint times what the derivatives move. Nothing else is handed on.
pub proof fn operations_curve_by_their_bends<F: Fn(FloatOp, u64, u64) -> u64>(
    op: BinaryOp,
    l: int,
    r: int,
    w: u64,
    wd: u64,
    y: u64,
    lv: u64,
    rv: u64,
    dl: u64,
    dr: u64,
    fpu: Fpu<F>,
)
    requires
        computes(fpu),
        has_slopes(op, lv, rv, fpu),
        op is Pow ==> !num_eq(lv, ZERO),
    ensures
        ({
            let ups = second_binary(op, l, r, w, wd, y, lv, rv, dl, dr, fpu);
            let (sl, sr) = slopes_of(op, lv, rv, y, fpu);
            let (bl, br) = bends_of(op, lv, rv, dl, dr, y, fpu);
            if follows_first(op, lv, rv) {
                &&& ups.len() == 2
                &&& hands(ups, l, false, fpu.product(w, sl))
                &&& hands(ups, l, true, fpu.product(wd, sl))
            } else if op is Less {
                &&& ups.len() == 2
                &&& hands(ups, r, false, fpu.product(w, sr))
                &&& hands(ups, r, true, fpu.product(wd, sr))
            } else {
                &&& ups.len() == 4
                &&& hands(ups, l, false, fpu.product(w, sl))
                &&& hands(ups, r, false, fpu.product(w, sr))
                &&& straight(op) ==> hands(ups, l, true, fpu.product(wd, sl))
                &&& straight(op) ==> hands(ups, r, true, fpu.product(wd, sr))
                &&& !straight(op) ==> hands(
                    ups,
                    l,
                    true,
                    fpu.sum(fpu.product(wd, sl), fpu.product(w, bl)),
                )
                &&& !straight(op) ==> hands(
                    ups,
                    r,
                    true,
                    fpu.sum(fpu.product(wd, sr), fpu.product(w, br)),
                )
            }
        }),
{
    let ups = second_binary(op, l, r, w, wd, y, lv, rv, dl, dr, fpu);
    lemma_neutral(fpu, w);
    lemma_neutral(fpu, wd);
    if op is Div {
        let r2 = square(rv, fpu);
        lemma_inverse(fpu, w, rv);
        lemma_inverse(fpu, wd, rv);
        lemma_inverse(fpu, dr, r2);
        lemma_inverse(fpu, dl, r2);
        lemma_inverse(fpu, lv, r2);
    } else if op is Atan2 {
        let d = fpu.sum(square(lv, fpu), square(rv, fpu));
        lemma_groups(fpu, w, rv, d);
        lemma_groups(fpu, wd, rv, d);
        lemma_inverse(fpu, lv, d);
        lemma_signs(fpu, dl, d);
    }
    lemma_hands(ups, 0);
    lemma_hands(ups, 1);
    if ups.len() == 4 {
        lemma_hands(ups, 2);
        lemma_hands(ups, 3);
    }
}

} // verus!
