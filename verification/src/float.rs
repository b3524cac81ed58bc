//! Binary64 numbers as bit patterns.
//!
//! A number is held as its IEEE 754 bit pattern. Classification, comparison
//! and sign are read off the pattern; rounding arithmetic is a parameter of
//! the code that needs it (see [`Fpu`]).

use vstd::prelude::*;

verus! {

/// The sign bit.
pub const SIGN: u64 = 0x8000_0000_0000_0000;

/// Positive zero.
pub const ZERO: u64 = 0;

/// One.
pub const ONE: u64 = 0x3ff0_0000_0000_0000;

/// Minus one.
pub const MINUS_ONE: u64 = 0xbff0_0000_0000_0000;

/// Two.
pub const TWO: u64 = 0x4000_0000_0000_0000;

/// Positive infinity.
pub const INFINITY: u64 = 0x7ff0_0000_0000_0000;

/// A quiet NaN.
pub const NAN: u64 = 0x7ff8_0000_0000_0000;

/// Negative infinity.
pub const NEG_INFINITY: u64 = 0xfff0_0000_0000_0000;

/// `0.1`.
pub const TENTH: u64 = 0x3fb9_9999_9999_999a;

/// `0.25`.
pub const QUARTER: u64 = 0x3fd0_0000_0000_0000;

/// `0.5`.
pub const HALF: u64 = 0x3fe0_0000_0000_0000;

/// `8.0`.
pub const EIGHT: u64 = 0x4020_0000_0000_0000;

/// `100.0`.
pub const HUNDRED: u64 = 0x4059_0000_0000_0000;

/// `1.0 / 3.0`.
pub const THIRD: u64 = 0x3fd5_5555_5555_5555;

/// `1e-30`.
pub const TEN_M30: u64 = 0x39b4_484b_feeb_c2a0;

/// `1e-20`.
pub const TEN_M20: u64 = 0x3bc7_9ca1_0c92_4223;

/// `1e-14`.
pub const TEN_M14: u64 = 0x3d06_849b_86a1_2b9b;

/// `1e-12`.
pub const TEN_M12: u64 = 0x3d71_9799_812d_ea11;

/// `1e-10`.
pub const TEN_M10: u64 = 0x3ddb_7cdf_d9d7_bdbb;

/// `1e-8`.
pub const TEN_M8: u64 = 0x3e45_798e_e230_8c3a;

/// `1e-5`.
pub const TEN_M5: u64 = 0x3ee4_f8b5_88e3_68f1;

/// `1e-4`.
pub const TEN_M4: u64 = 0x3f1a_36e2_eb1c_432d;

/// `1e5`.
pub const TEN_P5: u64 = 0x40f8_6a00_0000_0000;

/// `1e6`.
pub const TEN_P6: u64 = 0x412e_8480_0000_0000;

/// `1e10`.
pub const TEN_P10: u64 = 0x4202_a05f_2000_0000;

/// `1e20`.
pub const TEN_P20: u64 = 0x4415_af1d_78b5_8c40;

/// `0.999999999`.
pub const NEARLY_ONE: u64 = 0x3fef_ffff_ff76_8fa1;

/// `-1e-8`.
pub const MINUS_TEN_M8: u64 = 0xbe45_798e_e230_8c3a;

/// The pattern without its sign bit.
pub open spec fn magnitude(b: u64) -> int {
    if b >= SIGN {
        b - SIGN
    } else {
        b as int
    }
}

pub open spec fn nan(b: u64) -> bool {
    magnitude(b) > INFINITY
}

pub open spec fn finite(b: u64) -> bool {
    magnitude(b) < INFINITY
}

/// Position of a number that is not a NaN in the order of all of them; the
/// two zeros share one position.
pub open spec fn position(b: u64) -> int {
    if b >= SIGN {
        -magnitude(b)
    } else {
        magnitude(b)
    }
}

pub open spec fn num_eq(a: u64, b: u64) -> bool {
    !nan(a) && !nan(b) && position(a) == position(b)
}

pub open spec fn num_lt(a: u64, b: u64) -> bool {
    !nan(a) && !nan(b) && position(a) < position(b)
}

pub open spec fn num_le(a: u64, b: u64) -> bool {
    !nan(a) && !nan(b) && position(a) <= position(b)
}

/// The number with its sign flipped.
pub open spec fn negated(b: u64) -> u64 {
    if b >= SIGN {
        (b - SIGN) as u64
    } else {
        (b + SIGN) as u64
    }
}

/// The number without its sign.
pub open spec fn absolute(b: u64) -> u64 {
    if b >= SIGN {
        (b - SIGN) as u64
    } else {
        b
    }
}

pub fn abs(b: u64) -> (r: u64)
    ensures
        r == absolute(b),
{
    if b >= SIGN {
        b - SIGN
    } else {
        b
    }
}

pub fn neg(b: u64) -> (r: u64)
    ensures
        r == negated(b),
{
    if b >= SIGN {
        b - SIGN
    } else {
        b + SIGN
    }
}

pub fn is_nan(b: u64) -> (r: bool)
    ensures
        r == nan(b),
{
    abs(b) > INFINITY
}

pub fn is_finite(b: u64) -> (r: bool)
    ensures
        r == finite(b),
{
    abs(b) < INFINITY
}

/// Equality of numbers: a NaN equals nothing, the two zeros are equal.
pub fn eq(a: u64, b: u64) -> (r: bool)
    ensures
        r == num_eq(a, b),
{
    !is_nan(a) && !is_nan(b) && (a == b || (abs(a) == 0 && abs(b) == 0))
}

/// `a < b`; false where one of them is a NaN.
pub fn lt(a: u64, b: u64) -> (r: bool)
    ensures
        r == num_lt(a, b),
{
    if is_nan(a) || is_nan(b) {
        false
    } else if a >= SIGN {
        if b >= SIGN {
            a > b
        } else {
            a > SIGN || b > 0
        }
    } else {
        b < SIGN && a < b
    }
}

/// `a <= b`; false where one of them is a NaN.
pub fn le(a: u64, b: u64) -> (r: bool)
    ensures
        r == num_le(a, b),
{
    lt(a, b) || eq(a, b)
}

/// The rounding operations that the numerical code uses.
#[derive(Debug, Clone, Copy, PartialEq, Eq, Structural)]
pub enum FloatOp {
    Add,
    Sub,
    Mul,
    Div,
    /// Remainder of the truncated quotient.
    Rem,
    /// First operand to the power of the second.
    Pow,
    Atan2,
    /// The larger operand; the other one where one is a NaN.
    Max,
    /// The smaller operand; the other one where one is a NaN.
    Min,
    /// The following take their first operand only.
    Floor,
    Ceil,
    Sqrt,
    Exp,
    Ln,
    Log10,
    Sin,
    Cos,
    Tan,
    Asin,
    Acos,
    Atan,
    Sinh,
    Cosh,
    Tanh,
    Asinh,
    Acosh,
    Atanh,
    /// The number nearest to the first operand read as an integer.
    FromCount,
}

/// Arithmetic on bit patterns, as a function from an operation and its two
/// operands to the result. An operation of one operand ignores the second.
pub struct Fpu<F> {
    pub f: F,
}

impl<F: Fn(FloatOp, u64, u64) -> u64> Fpu<F> {
    /// The arithmetic accepts every operand, and equal operands have one
    /// result.
    pub open spec fn sound(&self) -> bool {
        &&& forall|op: FloatOp, a: u64, b: u64| call_requires(self.f, (op, a, b))
        &&& forall|op: FloatOp, a: u64, b: u64, r: u64, s: u64|
            #![trigger call_ensures(self.f, (op, a, b), r), call_ensures(self.f, (op, a, b), s)]
            call_ensures(self.f, (op, a, b), r) && call_ensures(self.f, (op, a, b), s) ==> r == s
    }

    /// The result of one operation.
    pub open spec fn calc(&self, op: FloatOp, a: u64, b: u64) -> u64 {
        choose|r: u64| call_ensures(self.f, (op, a, b), r)
    }

    pub open spec fn sum(&self, a: u64, b: u64) -> u64 {
        self.calc(FloatOp::Add, a, b)
    }

    pub open spec fn difference(&self, a: u64, b: u64) -> u64 {
        self.calc(FloatOp::Sub, a, b)
    }

    pub open spec fn product(&self, a: u64, b: u64) -> u64 {
        self.calc(FloatOp::Mul, a, b)
    }

    pub open spec fn quotient(&self, a: u64, b: u64) -> u64 {
        self.calc(FloatOp::Div, a, b)
    }

    pub fn run(&self, op: FloatOp, a: u64, b: u64) -> (r: u64)
        requires
            self.sound(),
        ensures
            r == self.calc(op, a, b),
    {
        (self.f)(op, a, b)
    }

    pub fn add(&self, a: u64, b: u64) -> (r: u64)
        requires
            self.sound(),
        ensures
            r == self.sum(a, b),
    {
        self.run(FloatOp::Add, a, b)
    }

    pub fn sub(&self, a: u64, b: u64) -> (r: u64)
        requires
            self.sound(),
        ensures
            r == self.difference(a, b),
    {
        self.run(FloatOp::Sub, a, b)
    }

    pub fn mul(&self, a: u64, b: u64) -> (r: u64)
        requires
            self.sound(),
        ensures
            r == self.product(a, b),
    {
        self.run(FloatOp::Mul, a, b)
    }

    pub fn div(&self, a: u64, b: u64) -> (r: u64)
        requires
            self.sound(),
        ensures
            r == self.quotient(a, b),
    {
        self.run(FloatOp::Div, a, b)
    }

    pub fn max(&self, a: u64, b: u64) -> (r: u64)
        requires
            self.sound(),
        ensures
            r == self.calc(FloatOp::Max, a, b),
    {
        self.run(FloatOp::Max, a, b)
    }

    pub fn min(&self, a: u64, b: u64) -> (r: u64)
        requires
            self.sound(),
        ensures
            r == self.calc(FloatOp::Min, a, b),
    {
        self.run(FloatOp::Min, a, b)
    }
}

/// Numbers as text, as a function from a bit pattern to its notation.
pub struct Notation<D> {
    pub d: D,
}

impl<D: Fn(u64) -> String> Notation<D> {
    /// Every number has a notation, and only one.
    pub open spec fn sound(&self) -> bool {
        &&& forall|b: u64| call_requires(self.d, (b,))
        &&& forall|b: u64, s: String, t: String|
            #![trigger call_ensures(self.d, (b,), s), call_ensures(self.d, (b,), t)]
            call_ensures(self.d, (b,), s) && call_ensures(self.d, (b,), t) ==> s@ == t@
    }

    /// The notation of a number.
    pub open spec fn text(&self, b: u64) -> Seq<char> {
        (choose|s: String| call_ensures(self.d, (b,), s))@
    }

    pub fn show(&self, b: u64) -> (s: String)
        requires
            self.sound(),
        ensures
            s@ == self.text(b),
    {
        (self.d)(b)
    }
}

} // verus!
