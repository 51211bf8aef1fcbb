use vstd::prelude::*;

use crate::ast::{Expr, Operator, PostfixOperator, PrefixOperator};
use crate::executor::value_of;
use crate::parser::{
    expr_at, infix_at, infix_loop, parse_tokens, postfix_at, prefix_at, token_at, Precedence,
};
use crate::token::Token;

verus! {

pub open spec fn lit(n: i64) -> Expr {
    Expr::UnaryExpr(n)
}

pub open spec fn bin(l: Expr, op: Operator, r: Expr) -> Expr {
    Expr::BinaryExpr { left: Box::new(l), right: Box::new(r), op }
}

/// Subtraction is left-associative: `a - b - c` parses as `(a - b) - c`.
pub proof fn lemma_subtraction_left_associative(a: i64, b: i64, c: i64)
    ensures
        parse_tokens(
            seq![Token::Num(a), Token::Minus, Token::Num(b), Token::Minus, Token::Num(c)],
        ) == Some(bin(bin(lit(a), Operator::Sub, lit(b)), Operator::Sub, lit(c))),
{
    let s = seq![Token::Num(a), Token::Minus, Token::Num(b), Token::Minus, Token::Num(c)];
    let ab = bin(lit(a), Operator::Sub, lit(b));
    assert(prefix_at(s, 4) == Some((lit(c), 4int)));
    assert(postfix_at(s, lit(c), 4) == Some((lit(c), 4int)));
    assert(infix_loop(s, Precedence::Sum, lit(c), 4) == Some((lit(c), 4int)));
    assert(expr_at(s, 4, Precedence::Sum) == Some((lit(c), 4int)));
    assert(infix_at(s, ab, 3) == Some((bin(ab, Operator::Sub, lit(c)), 4int)));
    assert(infix_loop(s, Precedence::Lowest, bin(ab, Operator::Sub, lit(c)), 4) == Some(
        (bin(ab, Operator::Sub, lit(c)), 4int),
    ));
    assert(infix_loop(s, Precedence::Lowest, ab, 2) == Some(
        (bin(ab, Operator::Sub, lit(c)), 4int),
    ));
    assert(prefix_at(s, 2) == Some((lit(b), 2int)));
    assert(postfix_at(s, lit(b), 2) == Some((lit(b), 2int)));
    assert(infix_loop(s, Precedence::Sum, lit(b), 2) == Some((lit(b), 2int)));
    assert(expr_at(s, 2, Precedence::Sum) == Some((lit(b), 2int)));
    assert(infix_at(s, lit(a), 1) == Some((ab, 2int)));
    assert(infix_loop(s, Precedence::Lowest, lit(a), 0) == Some(
        (bin(ab, Operator::Sub, lit(c)), 4int),
    ));
    assert(prefix_at(s, 0) == Some((lit(a), 0int)));
    assert(postfix_at(s, lit(a), 0) == Some((lit(a), 0int)));
}

/// Multiplication binds more tightly than addition: `a + b * c` parses as
/// `a + (b * c)`.
pub proof fn lemma_product_binds_tighter_than_sum(a: i64, b: i64, c: i64)
    ensures
        parse_tokens(
            seq![Token::Num(a), Token::Plus, Token::Num(b), Token::Asterisk, Token::Num(c)],
        ) == Some(bin(lit(a), Operator::Add, bin(lit(b), Operator::Mul, lit(c)))),
{
    let s = seq![Token::Num(a), Token::Plus, Token::Num(b), Token::Asterisk, Token::Num(c)];
    let bc = bin(lit(b), Operator::Mul, lit(c));
    let whole = bin(lit(a), Operator::Add, bc);
    assert(prefix_at(s, 4) == Some((lit(c), 4int)));
    assert(postfix_at(s, lit(c), 4) == Some((lit(c), 4int)));
    assert(infix_loop(s, Precedence::Product, lit(c), 4) == Some((lit(c), 4int)));
    assert(expr_at(s, 4, Precedence::Product) == Some((lit(c), 4int)));
    assert(infix_at(s, lit(b), 3) == Some((bc, 4int)));
    assert(infix_loop(s, Precedence::Sum, bc, 4) == Some((bc, 4int)));
    assert(infix_loop(s, Precedence::Sum, lit(b), 2) == Some((bc, 4int)));
    assert(prefix_at(s, 2) == Some((lit(b), 2int)));
    assert(postfix_at(s, lit(b), 2) == Some((lit(b), 2int)));
    assert(expr_at(s, 2, Precedence::Sum) == Some((bc, 4int)));
    assert(infix_at(s, lit(a), 1) == Some((whole, 4int)));
    assert(infix_loop(s, Precedence::Lowest, whole, 4) == Some((whole, 4int)));
    assert(infix_loop(s, Precedence::Lowest, lit(a), 0) == Some((whole, 4int)));
    assert(prefix_at(s, 0) == Some((lit(a), 0int)));
    assert(postfix_at(s, lit(a), 0) == Some((lit(a), 0int)));
}

/// A unary minus binds more tightly than a binary operator: `-a * b` parses
/// as `(-a) * b`.
pub proof fn lemma_unary_binds_tighter_than_binary(a: i64, b: i64)
    ensures
        parse_tokens(seq![Token::Minus, Token::Num(a), Token::Asterisk, Token::Num(b)]) == Some(
            bin(Expr::PrefixExpr(PrefixOperator::Minus, Box::new(lit(a))), Operator::Mul, lit(b)),
        ),
{
    let s = seq![Token::Minus, Token::Num(a), Token::Asterisk, Token::Num(b)];
    let neg = Expr::PrefixExpr(PrefixOperator::Minus, Box::new(lit(a)));
    let whole = bin(neg, Operator::Mul, lit(b));
    assert(prefix_at(s, 1) == Some((lit(a), 1int)));
    assert(postfix_at(s, lit(a), 1) == Some((lit(a), 1int)));
    assert(infix_loop(s, Precedence::Prefix, lit(a), 1) == Some((lit(a), 1int)));
    assert(expr_at(s, 1, Precedence::Prefix) == Some((lit(a), 1int)));
    assert(prefix_at(s, 0) == Some((neg, 1int)));
    assert(postfix_at(s, neg, 1) == Some((neg, 1int)));
    assert(prefix_at(s, 3) == Some((lit(b), 3int)));
    assert(postfix_at(s, lit(b), 3) == Some((lit(b), 3int)));
    assert(infix_loop(s, Precedence::Product, lit(b), 3) == Some((lit(b), 3int)));
    assert(expr_at(s, 3, Precedence::Product) == Some((lit(b), 3int)));
    assert(infix_at(s, neg, 2) == Some((whole, 3int)));
    assert(infix_loop(s, Precedence::Lowest, whole, 3) == Some((whole, 3int)));
    assert(infix_loop(s, Precedence::Lowest, neg, 1) == Some((whole, 3int)));
}

/// A postfix operator binds more tightly than a prefix one on the same
/// operand: `-a!` parses as `-(a!)`.
pub proof fn lemma_postfix_binds_tighter_than_prefix(a: i64)
    ensures
        parse_tokens(seq![Token::Minus, Token::Num(a), Token::Exclamation]) == Some(
            Expr::PrefixExpr(
                PrefixOperator::Minus,
                Box::new(Expr::PostfixExpr(PostfixOperator::Factorial, Box::new(lit(a)))),
            ),
        ),
{
    let s = seq![Token::Minus, Token::Num(a), Token::Exclamation];
    let fact = Expr::PostfixExpr(PostfixOperator::Factorial, Box::new(lit(a)));
    let whole = Expr::PrefixExpr(PrefixOperator::Minus, Box::new(fact));
    assert(prefix_at(s, 1) == Some((lit(a), 1int)));
    assert(postfix_at(s, lit(a), 1) == Some((fact, 2int)));
    assert(infix_loop(s, Precedence::Prefix, fact, 2) == Some((fact, 2int)));
    assert(expr_at(s, 1, Precedence::Prefix) == Some((fact, 2int)));
    assert(prefix_at(s, 0) == Some((whole, 2int)));
    assert(postfix_at(s, whole, 2) == Some((whole, 2int)));
    assert(infix_loop(s, Precedence::Lowest, whole, 2) == Some((whole, 2int)));
}

/// Evaluation is a function of the tree alone: equal trees, and so two
/// evaluations of one tree, give the same outcome.
pub proof fn lemma_evaluation_deterministic(e1: Expr, e2: Expr)
    requires
        e1 == e2,
    ensures
        value_of(e1) == value_of(e2),
{
}

/// The largest `i64` evaluates to itself, and adding any positive value to
/// it fails.
pub proof fn lemma_overflow_boundary(x: i64)
    requires
        x > 0,
    ensures
        value_of(lit(i64::MAX)) == Some(i64::MAX),
        value_of(bin(lit(i64::MAX), Operator::Add, lit(x))) is None,
{
    assert(value_of(lit(x)) == Some(x));
}

/// Division and remainder fail whenever the divisor evaluates to zero,
/// whatever the dividend.
pub proof fn lemma_division_by_zero_fails(left: Expr, right: Expr, op: Operator)
    requires
        value_of(right) == Some(0i64),
        op == Operator::Div || op == Operator::Rem,
    ensures
        value_of(bin(left, op, right)) is None,
{
}

/// The token of a prefix operator.
pub open spec fn prefix_token(op: PrefixOperator) -> Token {
    match op {
        PrefixOperator::Plus => Token::Plus,
        PrefixOperator::Minus => Token::Minus,
    }
}

/// The token of a binary operator.
pub open spec fn operator_token(op: Operator) -> Token {
    match op {
        Operator::Add => Token::Plus,
        Operator::Sub => Token::Minus,
        Operator::Mul => Token::Asterisk,
        Operator::Div => Token::Slash,
        Operator::Rem => Token::Percent,
    }
}

/// Tokens enclosed in one pair of parentheses.
pub open spec fn wrap(ts: Seq<Token>) -> Seq<Token> {
    seq![Token::Lparen].add(ts).add(seq![Token::Rparen])
}

/// A tree written out with every operand of an operator in parentheses, so
/// that the text alone fixes the tree.
pub open spec fn parenthesized(e: Expr) -> Seq<Token>
    decreases e,
{
    match e {
        Expr::UnaryExpr(n) => seq![Token::Num(n)],
        Expr::PrefixExpr(op, a) => seq![prefix_token(op)].add(wrap(parenthesized(*a))),
        Expr::PostfixExpr(PostfixOperator::Factorial, a) => wrap(parenthesized(*a)).add(
            seq![Token::Exclamation],
        ),
        Expr::PostfixExpr(PostfixOperator::Exponential(k), a) => wrap(parenthesized(*a)).add(
            seq![Token::Circumflex, Token::Num(k as i64)],
        ),
        Expr::BinaryExpr { left, right, op } => wrap(parenthesized(*left)).add(
            seq![operator_token(op)],
        ).add(wrap(parenthesized(*right))),
    }
}

/// `t` stands in `s` from index `i` on.
pub open spec fn occurs_at(s: Seq<Token>, i: int, t: Seq<Token>) -> bool {
    0 <= i && i + t.len() <= s.len() && s.subrange(i, i + t.len()) == t
}

/// Nothing but a closing parenthesis or the end of input stands at `j`.
pub open spec fn closes(s: Seq<Token>, j: int) -> bool {
    token_at(s, j) is None || token_at(s, j) == Some(Token::Rparen)
}

proof fn lemma_occurs_split(s: Seq<Token>, i: int, t1: Seq<Token>, t2: Seq<Token>)
    requires
        occurs_at(s, i, t1.add(t2)),
    ensures
        occurs_at(s, i, t1),
        occurs_at(s, i + t1.len(), t2),
{
    let t = t1.add(t2);
    assert(s.subrange(i, i + t1.len()) == t.subrange(0, t1.len() as int));
    assert(t.subrange(0, t1.len() as int) == t1);
    assert(s.subrange(i + t1.len(), i + t.len()) == t.subrange(t1.len() as int, t.len() as int));
    assert(t.subrange(t1.len() as int, t.len() as int) == t2);
}

proof fn lemma_occurs_token(s: Seq<Token>, i: int, t: Seq<Token>, k: int)
    requires
        occurs_at(s, i, t),
        0 <= k < t.len(),
    ensures
        token_at(s, i + k) == Some(t[k]),
{
    assert(s.subrange(i, i + t.len())[k] == s[i + k]);
}

proof fn lemma_occurs_wrap(s: Seq<Token>, i: int, ts: Seq<Token>)
    requires
        occurs_at(s, i, wrap(ts)),
    ensures
        token_at(s, i) == Some(Token::Lparen),
        occurs_at(s, i + 1, ts),
        token_at(s, i + ts.len() + 1) == Some(Token::Rparen),
{
    lemma_occurs_split(s, i, seq![Token::Lparen].add(ts), seq![Token::Rparen]);
    lemma_occurs_split(s, i, seq![Token::Lparen], ts);
    lemma_occurs_token(s, i, seq![Token::Lparen], 0);
    lemma_occurs_token(s, i + ts.len() + 1, seq![Token::Rparen], 0);
}

proof fn lemma_closed_tail(s: Seq<Token>, e: Expr, j: int, p: Precedence)
    requires
        0 <= j < s.len(),
        closes(s, j + 1),
    ensures
        postfix_at(s, e, j) == Some((e, j)),
        infix_loop(s, p, e, j) == Some((e, j)),
{
}

proof fn lemma_expr_from_prefix(s: Seq<Token>, i: int, p: Precedence, e: Expr, j: int)
    requires
        prefix_at(s, i) == Some((e, j)),
        i <= j < s.len(),
        closes(s, j + 1),
    ensures
        expr_at(s, i, p) == Some((e, j)),
{
    lemma_closed_tail(s, e, j, p);
}

/// A group `( x )` at `i` whose inside parses to `x`.
proof fn lemma_group(s: Seq<Token>, i: int, x: Expr)
    requires
        occurs_at(s, i, wrap(parenthesized(x))),
        expr_at(s, i + 1, Precedence::Lowest) == Some((x, i + parenthesized(x).len())),
    ensures
        prefix_at(s, i) == Some((x, i + parenthesized(x).len() + 1)),
{
    lemma_occurs_wrap(s, i, parenthesized(x));
}

proof fn lemma_prefix_case(s: Seq<Token>, i: int, op: PrefixOperator, a: Expr)
    requires
        occurs_at(s, i, parenthesized(Expr::PrefixExpr(op, Box::new(a)))),
        closes(s, i + parenthesized(Expr::PrefixExpr(op, Box::new(a))).len()),
        occurs_at(s, i + 2, parenthesized(a)),
        expr_at(s, i + 2, Precedence::Lowest) == Some((a, i + 1 + parenthesized(a).len())),
    ensures
        expr_at(s, i, Precedence::Lowest) == Some(
            (
                Expr::PrefixExpr(op, Box::new(a)),
                i + parenthesized(Expr::PrefixExpr(op, Box::new(a))).len() - 1,
            ),
        ),
{
    let e = Expr::PrefixExpr(op, Box::new(a));
    let ta = parenthesized(a);
    let na = ta.len() as int;
    assert(parenthesized(e) == seq![prefix_token(op)].add(wrap(ta)));
    lemma_occurs_split(s, i, seq![prefix_token(op)], wrap(ta));
    lemma_occurs_token(s, i, seq![prefix_token(op)], 0);
    lemma_group(s, i + 1, a);
    lemma_expr_from_prefix(s, i + 1, Precedence::Prefix, a, i + na + 2);
    assert(prefix_at(s, i) == Some((e, i + na + 2)));
    lemma_expr_from_prefix(s, i, Precedence::Lowest, e, i + na + 2);
}

proof fn lemma_postfix_case(s: Seq<Token>, i: int, op: PostfixOperator, a: Expr)
    requires
        occurs_at(s, i, parenthesized(Expr::PostfixExpr(op, Box::new(a)))),
        closes(s, i + parenthesized(Expr::PostfixExpr(op, Box::new(a))).len()),
        occurs_at(s, i, wrap(parenthesized(a))),
        expr_at(s, i + 1, Precedence::Lowest) == Some((a, i + parenthesized(a).len())),
    ensures
        expr_at(s, i, Precedence::Lowest) == Some(
            (
                Expr::PostfixExpr(op, Box::new(a)),
                i + parenthesized(Expr::PostfixExpr(op, Box::new(a))).len() - 1,
            ),
        ),
{
    let e = Expr::PostfixExpr(op, Box::new(a));
    let ta = parenthesized(a);
    let na = ta.len() as int;
    let n = parenthesized(e).len() as int;
    let tail = match op {
        PostfixOperator::Factorial => seq![Token::Exclamation],
        PostfixOperator::Exponential(k) => seq![Token::Circumflex, Token::Num(k as i64)],
    };
    assert(parenthesized(e) == wrap(ta).add(tail));
    lemma_occurs_split(s, i, wrap(ta), tail);
    lemma_group(s, i, a);
    let j = i + na + 1;
    lemma_occurs_token(s, j + 1, tail, 0);
    if tail.len() == 2 {
        lemma_occurs_token(s, j + 1, tail, 1);
    }
    assert(postfix_at(s, a, j) == Some((e, i + n - 1)));
    lemma_closed_tail(s, e, i + n - 1, Precedence::Lowest);
}

proof fn lemma_binary_case(s: Seq<Token>, i: int, l: Expr, op: Operator, r: Expr)
    requires
        occurs_at(s, i, parenthesized(bin(l, op, r))),
        closes(s, i + parenthesized(bin(l, op, r)).len()),
        occurs_at(s, i, wrap(parenthesized(l))),
        token_at(s, i + parenthesized(l).len() + 2) == Some(operator_token(op)),
        occurs_at(s, i + parenthesized(l).len() + 3, wrap(parenthesized(r))),
        i + parenthesized(l).len() + parenthesized(r).len() + 5 == i + parenthesized(
            bin(l, op, r),
        ).len(),
        expr_at(s, i + 1, Precedence::Lowest) == Some((l, i + parenthesized(l).len())),
        expr_at(s, i + parenthesized(l).len() + 4, Precedence::Lowest) == Some(
            (r, i + parenthesized(l).len() + 3 + parenthesized(r).len()),
        ),
    ensures
        expr_at(s, i, Precedence::Lowest) == Some(
            (bin(l, op, r), i + parenthesized(bin(l, op, r)).len() - 1),
        ),
{
    let e = bin(l, op, r);
    let nl = parenthesized(l).len() as int;
    let n = parenthesized(e).len() as int;
    lemma_group(s, i, l);
    lemma_group(s, i + nl + 3, r);
    let j = i + nl + 1;
    let m = i + n - 1;
    let rp = if op == Operator::Add || op == Operator::Sub {
        Precedence::Sum
    } else {
        Precedence::Product
    };
    lemma_expr_from_prefix(s, i + nl + 3, rp, r, m);
    assert(infix_at(s, l, j + 1) == Some((e, m)));
    lemma_closed_tail(s, e, m, Precedence::Lowest);
    assert(infix_loop(s, Precedence::Lowest, l, j) == Some((e, m)));
    assert(postfix_at(s, l, j) == Some((l, j)));
}

/// A parenthesized tree at `i`, followed by a closing parenthesis or by the
/// end of input, parses back to that tree.
pub proof fn lemma_parenthesized_parses_at(s: Seq<Token>, i: int, e: Expr)
    requires
        occurs_at(s, i, parenthesized(e)),
        closes(s, i + parenthesized(e).len()),
    ensures
        expr_at(s, i, Precedence::Lowest) == Some((e, i + parenthesized(e).len() - 1)),
    decreases e,
{
    match e {
        Expr::UnaryExpr(_) => {
            lemma_occurs_token(s, i, parenthesized(e), 0);
            lemma_expr_from_prefix(s, i, Precedence::Lowest, e, i);
        },
        Expr::PrefixExpr(op, a) => {
            let ta = parenthesized(*a);
            lemma_occurs_split(s, i, seq![prefix_token(op)], wrap(ta));
            lemma_occurs_wrap(s, i + 1, ta);
            lemma_parenthesized_parses_at(s, i + 2, *a);
            lemma_prefix_case(s, i, op, *a);
        },
        Expr::PostfixExpr(op, a) => {
            let ta = parenthesized(*a);
            let tail = match op {
                PostfixOperator::Factorial => seq![Token::Exclamation],
                PostfixOperator::Exponential(k) => seq![Token::Circumflex, Token::Num(k as i64)],
            };
            assert(parenthesized(e) == wrap(ta).add(tail));
            lemma_occurs_split(s, i, wrap(ta), tail);
            lemma_occurs_wrap(s, i, ta);
            lemma_parenthesized_parses_at(s, i + 1, *a);
            lemma_postfix_case(s, i, op, *a);
        },
        Expr::BinaryExpr { left, right, op } => {
            let tl = parenthesized(*left);
            let tr = parenthesized(*right);
            let nl = tl.len() as int;
            assert(parenthesized(e) == wrap(tl).add(seq![operator_token(op)]).add(wrap(tr)));
            lemma_occurs_split(s, i, wrap(tl).add(seq![operator_token(op)]), wrap(tr));
            lemma_occurs_split(s, i, wrap(tl), seq![operator_token(op)]);
            lemma_occurs_wrap(s, i, tl);
            lemma_occurs_token(s, i + nl + 2, seq![operator_token(op)], 0);
            lemma_occurs_wrap(s, i + nl + 3, tr);
            lemma_parenthesized_parses_at(s, i + 1, *left);
            lemma_parenthesized_parses_at(s, i + nl + 4, *right);
            lemma_binary_case(s, i, *left, op, *right);
        },
    }
}

/// Parsing undoes full parenthesization: the parenthesized tokens of any tree
/// parse to exactly that tree.
pub proof fn lemma_parenthesized_round_trip(e: Expr)
    ensures
        parse_tokens(parenthesized(e)) == Some(e),
{
    let s = parenthesized(e);
    assert(s.subrange(0, s.len() as int) == s);
    lemma_parenthesized_parses_at(s, 0, e);
}

} // verus!
