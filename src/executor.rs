use vstd::arithmetic::power::pow;
use vstd::prelude::*;

use crate::ast::{Expr, Operator, PostfixOperator, PrefixOperator};

verus! {

/// Whether a mathematical integer is representable as an `i64`.
pub open spec fn fits_i64(x: int) -> bool {
    i64::MIN <= x <= i64::MAX
}

/// `Some(x)` when `x` fits in an `i64`, `None` (an overflow) otherwise.
pub open spec fn checked(x: int) -> Option<i64> {
    if fits_i64(x) {
        Some(x as i64)
    } else {
        None
    }
}

pub open spec fn abs(x: int) -> int {
    if x < 0 {
        -x
    } else {
        x
    }
}

/// Integer division rounding toward zero.
pub open spec fn trunc_div(x: int, d: int) -> int {
    let q = abs(x) / abs(d);
    if (x < 0) != (d < 0) {
        -q
    } else {
        q
    }
}

/// Remainder of the division rounding toward zero: it has the sign of `x`.
pub open spec fn trunc_rem(x: int, d: int) -> int {
    let r = abs(x) % abs(d);
    if x < 0 {
        -r
    } else {
        r
    }
}

/// `1 * 2 * ... * n`, which is 1 for every `n < 2`.
pub open spec fn factorial(n: int) -> int
    decreases n,
{
    if n < 2 {
        1
    } else {
        n * factorial(n - 1)
    }
}

/// What a binary operator yields on two values; `None` on overflow or on a
/// zero divisor.
pub open spec fn apply_binary(op: Operator, l: i64, r: i64) -> Option<i64> {
    match op {
        Operator::Add => checked(l + r),
        Operator::Sub => checked(l - r),
        Operator::Mul => checked(l * r),
        Operator::Div => if r == 0 {
            None
        } else {
            checked(trunc_div(l as int, r as int))
        },
        Operator::Rem => if r == 0 || (l == i64::MIN && r == -1) {
            None
        } else {
            checked(trunc_rem(l as int, r as int))
        },
    }
}

/// What a prefix operator yields on a value.
pub open spec fn apply_prefix(op: PrefixOperator, n: i64) -> Option<i64> {
    match op {
        PrefixOperator::Plus => Some(n),
        PrefixOperator::Minus => checked(-n),
    }
}

/// What a postfix operator yields on a value.
pub open spec fn apply_postfix(op: PostfixOperator, n: i64) -> Option<i64> {
    match op {
        PostfixOperator::Factorial => checked(factorial(n as int)),
        PostfixOperator::Exponential(e) => checked(pow(n as int, e as nat)),
    }
}

/// The value of an expression tree, or `None` where some step fails.
pub open spec fn value_of(e: Expr) -> Option<i64>
    decreases e,
{
    match e {
        Expr::UnaryExpr(n) => Some(n),
        Expr::PrefixExpr(op, a) => match value_of(*a) {
            Some(n) => apply_prefix(op, n),
            None => None,
        },
        Expr::PostfixExpr(op, a) => match value_of(*a) {
            Some(n) => apply_postfix(op, n),
            None => None,
        },
        Expr::BinaryExpr { left, right, op } => match value_of(*left) {
            Some(l) => match value_of(*right) {
                Some(r) => apply_binary(op, l, r),
                None => None,
            },
            None => None,
        },
    }
}

/// Relies on `i64::checked_pow`: `n` to the power `e`, or `None` when that
/// power does not fit in an `i64`.
#[verifier::external_body]
fn checked_power(n: i64, e: u32) -> (r: Option<i64>)
    ensures
        r == checked(pow(n as int, e as nat)),
{
    n.checked_pow(e)
}

proof fn lemma_factorial_positive(n: int)
    ensures
        factorial(n) >= 1,
    decreases n,
{
    if n >= 2 {
        lemma_factorial_positive(n - 1);
        assert(n * factorial(n - 1) >= 1) by (nonlinear_arith)
            requires
                n >= 2,
                factorial(n - 1) >= 1,
        ;
    }
}

proof fn lemma_factorial_monotonic(a: int, b: int)
    requires
        a <= b,
    ensures
        factorial(a) <= factorial(b),
    decreases b - a,
{
    if a < b {
        lemma_factorial_monotonic(a, b - 1);
        lemma_factorial_positive(b - 1);
        if b >= 2 {
            assert(factorial(b - 1) <= b * factorial(b - 1)) by (nonlinear_arith)
                requires
                    b >= 2,
                    factorial(b - 1) >= 1,
            ;
        }
    }
}

/// `n!` by checked multiplication; 1 for every `n < 2`.
fn factorial_checked(n: i64) -> (r: Option<i64>)
    ensures
        r == checked(factorial(n as int)),
{
    if n < 2 {
        return Some(1);
    }
    let mut sum: i64 = 1;
    let mut i: i64 = 2;
    loop
        invariant
            2 <= i <= n,
            sum as int == factorial(i - 1),
        decreases n - i,
    {
        assert(factorial(i as int) == i * factorial(i - 1));
        match i.checked_mul(sum) {
            Some(v) => {
                sum = v;
            },
            None => {
                proof {
                    lemma_factorial_positive(i - 1);
                    lemma_factorial_monotonic(i as int, n as int);
                    assert(i * sum > 0) by (nonlinear_arith)
                        requires
                            sum >= 1,
                            i >= 2,
                    ;
                }
                return None;
            },
        }
        if i == n {
            return Some(sum);
        }
        i = i + 1;
    }
}

/// Reduces an expression tree to its value; `None` on any overflow or
/// division by zero, the first failure deciding the outcome.
pub fn eval(expr: Expr) -> (r: Option<i64>)
    ensures
        r == value_of(expr),
    decreases expr,
{
    match expr {
        Expr::UnaryExpr(n) => Some(n),
        Expr::PrefixExpr(op, a) => {
            let n = match eval(*a) {
                Some(n) => n,
                None => return None,
            };
            match op {
                PrefixOperator::Plus => Some(n),
                PrefixOperator::Minus => if n == i64::MIN {
                    None
                } else {
                    Some(-n)
                },
            }
        },
        Expr::PostfixExpr(op, a) => {
            let n = match eval(*a) {
                Some(n) => n,
                None => return None,
            };
            match op {
                PostfixOperator::Factorial => factorial_checked(n),
                PostfixOperator::Exponential(e) => checked_power(n, e),
            }
        },
        Expr::BinaryExpr { left, right, op } => {
            let l = match eval(*left) {
                Some(l) => l,
                None => return None,
            };
            let r = match eval(*right) {
                Some(r) => r,
                None => return None,
            };
            match op {
                Operator::Add => l.checked_add(r),
                Operator::Sub => l.checked_sub(r),
                Operator::Mul => l.checked_mul(r),
                Operator::Div => l.checked_div(r),
                Operator::Rem => l.checked_rem(r),
            }
        },
    }
}

} // verus!
