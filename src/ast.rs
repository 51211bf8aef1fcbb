use vstd::prelude::*;

verus! {

/// A binary (infix) operator.
#[derive(Debug, Clone, Copy, PartialEq, Eq, Structural)]
pub enum Operator {
    Add,
    Sub,
    Mul,
    Div,
    Rem,
}

/// A unary operator written before its operand.
#[derive(Debug, Clone, Copy, PartialEq, Eq, Structural)]
pub enum PrefixOperator {
    Plus,
    Minus,
}

/// A unary operator written after its operand; the exponent of `^` is
/// carried in the operator itself.
#[derive(Debug, Clone, Copy, PartialEq, Eq, Structural)]
pub enum PostfixOperator {
    Factorial,
    Exponential(u32),
}

/// An expression tree. Each node owns its children.
#[derive(Debug, PartialEq)]
pub enum Expr {
    PrefixExpr(PrefixOperator, Box<Expr>),
    PostfixExpr(PostfixOperator, Box<Expr>),
    UnaryExpr(i64),
    BinaryExpr { left: Box<Expr>, right: Box<Expr>, op: Operator },
}

impl Clone for Expr {
    fn clone(&self) -> (r: Self)
        ensures
            r == *self,
        decreases self,
    {
        match self {
            Expr::PrefixExpr(op, a) => Expr::PrefixExpr(*op, Box::new((**a).clone())),
            Expr::PostfixExpr(op, a) => Expr::PostfixExpr(*op, Box::new((**a).clone())),
            Expr::UnaryExpr(n) => Expr::UnaryExpr(*n),
            Expr::BinaryExpr { left, right, op } => Expr::BinaryExpr {
                left: Box::new((**left).clone()),
                right: Box::new((**right).clone()),
                op: *op,
            },
        }
    }
}

} // verus!
