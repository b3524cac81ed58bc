//! Expression trees of an `.nl` problem.

use vstd::prelude::*;

verus! {

/// Operators of two operands.
#[derive(Debug, Clone, Copy, PartialEq, Eq, Structural)]
pub enum BinaryOp {
    Add,
    Sub,
    Mul,
    Div,
    Mod,
    Pow,
    Atan2,
    /// The smaller of the two operands.
    Less,
    IntDiv,
}

/// Operators of one operand.
#[derive(Debug, Clone, Copy, PartialEq, Eq, Structural)]
pub enum UnaryOp {
    Abs,
    Neg,
    Floor,
    Ceil,
    Tanh,
    Tan,
    Sqrt,
    Sinh,
    Sin,
    Log10,
    Log,
    Exp,
    Cosh,
    Cos,
    Atanh,
    Atan,
    Asinh,
    Asin,
    Acosh,
    Acos,
}

/// Operators of any number of operands.
#[derive(Debug, Clone, Copy, PartialEq, Eq, Structural)]
pub enum NaryOp {
    Sum,
    Min,
    Max,
}

/// An expression tree. `Const` holds the bit pattern of a binary64 number.
///
/// `Var(i)` with `i` below the number of problem variables is a problem
/// variable; a larger `i` names the common expression `i - n_vars`.
#[derive(Debug)]
pub enum ExprNode {
    Const(u64),
    Var(usize),
    Binary(BinaryOp, Box<ExprNode>, Box<ExprNode>),
    Unary(UnaryOp, Box<ExprNode>),
    Nary(NaryOp, Vec<ExprNode>),
    /// Condition, value where it holds, value where it does not.
    If(Box<ExprNode>, Box<ExprNode>, Box<ExprNode>),
    StringLiteral(String),
    /// Call of an imported function, with its declared id.
    Funcall { id: usize, args: Vec<ExprNode> },
}

} // verus!
