use vstd::prelude::*;

use crate::ast::{Expr, Operator, PostfixOperator, PrefixOperator};
use crate::token::Token;

verus! {

/// Binding power used while parsing, from weakest to strongest.
#[derive(Debug, Clone, Copy, PartialEq, Eq, Structural)]
pub enum Precedence {
    Lowest,
    Sum,
    Product,
    Prefix,
}

impl Precedence {
    pub open spec fn rank(self) -> int {
        match self {
            Precedence::Lowest => 0,
            Precedence::Sum => 1,
            Precedence::Product => 2,
            Precedence::Prefix => 3,
        }
    }

    fn level(&self) -> (r: u8)
        ensures
            r as int == self.rank(),
    {
        match self {
            Precedence::Lowest => 0,
            Precedence::Sum => 1,
            Precedence::Product => 2,
            Precedence::Prefix => 3,
        }
    }
}

pub open spec fn token_at(s: Seq<Token>, i: int) -> Option<Token> {
    if 0 <= i < s.len() {
        Some(s[i])
    } else {
        None
    }
}

/// How strongly a token binds as an infix operator; `Lowest` for anything
/// that is no infix operator, and for the end of input.
pub open spec fn infix_precedence(t: Option<Token>) -> Precedence {
    match t {
        Some(Token::Plus) | Some(Token::Minus) => Precedence::Sum,
        Some(Token::Asterisk) | Some(Token::Slash) | Some(Token::Percent) => Precedence::Product,
        _ => Precedence::Lowest,
    }
}

/// The binary operator that a token stands for.
pub open spec fn infix_operator(t: Token) -> Option<Operator> {
    match t {
        Token::Plus => Some(Operator::Add),
        Token::Minus => Some(Operator::Sub),
        Token::Asterisk => Some(Operator::Mul),
        Token::Slash => Some(Operator::Div),
        Token::Percent => Some(Operator::Rem),
        _ => None,
    }
}

/// The precedence at which the right operand of an operator is parsed.
pub open spec fn operand_precedence(op: Operator) -> Precedence {
    match op {
        Operator::Add | Operator::Sub => Precedence::Sum,
        _ => Precedence::Product,
    }
}

/// An expression parsed at `i` with minimum precedence `p`: the tree and the
/// index of its last token. The cursor never moves backwards, so the index
/// checks below never fail: they only make the recursion visibly well founded.
pub open spec fn expr_at(s: Seq<Token>, i: int, p: Precedence) -> Option<(Expr, int)>
    decreases s.len() - i, 3int,
{
    match prefix_at(s, i) {
        Some((lhs, j)) => if j < i || j >= s.len() {
            None
        } else {
            match postfix_at(s, lhs, j) {
                Some((lhs2, k)) => if k < i || k >= s.len() {
                    None
                } else {
                    infix_loop(s, p, lhs2, k)
                },
                None => None,
            }
        },
        None => None,
    }
}

/// A prefix expression at `i`: a signed operand, a literal or a group.
pub open spec fn prefix_at(s: Seq<Token>, i: int) -> Option<(Expr, int)>
    decreases s.len() - i, 2int,
{
    match token_at(s, i) {
        Some(Token::Plus) => match expr_at(s, i + 1, Precedence::Prefix) {
            Some((e, j)) => Some((Expr::PrefixExpr(PrefixOperator::Plus, Box::new(e)), j)),
            None => None,
        },
        Some(Token::Minus) => match expr_at(s, i + 1, Precedence::Prefix) {
            Some((e, j)) => Some((Expr::PrefixExpr(PrefixOperator::Minus, Box::new(e)), j)),
            None => None,
        },
        Some(Token::Num(n)) => Some((Expr::UnaryExpr(n), i)),
        Some(Token::Lparen) => match expr_at(s, i + 1, Precedence::Lowest) {
            Some((e, j)) => if token_at(s, j + 1) == Some(Token::Rparen) {
                Some((e, j + 1))
            } else {
                None
            },
            None => None,
        },
        _ => None,
    }
}

/// The optional postfix operator after the expression `lhs` that ends at `j`.
pub open spec fn postfix_at(s: Seq<Token>, lhs: Expr, j: int) -> Option<(Expr, int)> {
    match token_at(s, j + 1) {
        Some(Token::Exclamation) => Some(
            (Expr::PostfixExpr(PostfixOperator::Factorial, Box::new(lhs)), j + 1),
        ),
        Some(Token::Circumflex) => match token_at(s, j + 2) {
            Some(Token::Num(n)) => Some(
                (Expr::PostfixExpr(PostfixOperator::Exponential(n as u32), Box::new(lhs)), j + 2),
            ),
            _ => None,
        },
        _ => Some((lhs, j)),
    }
}

/// Folds the infix operators that bind more strongly than `p` into `lhs`,
/// which ends at `k`.
pub open spec fn infix_loop(s: Seq<Token>, p: Precedence, lhs: Expr, k: int) -> Option<
    (Expr, int),
>
    decreases s.len() - k, 1int,
{
    if token_at(s, k + 1) is Some && p.rank() < infix_precedence(token_at(s, k + 1)).rank() {
        match infix_at(s, lhs, k + 1) {
            Some((e, m)) => if m <= k || m >= s.len() {
                None
            } else {
                infix_loop(s, p, e, m)
            },
            None => None,
        }
    } else {
        Some((lhs, k))
    }
}

/// The binary expression whose operator is at `i` and whose left operand is
/// `lhs`.
pub open spec fn infix_at(s: Seq<Token>, lhs: Expr, i: int) -> Option<(Expr, int)>
    decreases s.len() - i, 0int,
{
    match token_at(s, i) {
        Some(t) => match infix_operator(t) {
            Some(op) => if i < s.len() {
                match expr_at(s, i + 1, operand_precedence(op)) {
                    Some((rhs, j)) => Some(
                        (Expr::BinaryExpr { left: Box::new(lhs), right: Box::new(rhs), op }, j),
                    ),
                    None => None,
                }
            } else {
                None
            },
            None => None,
        },
        None => None,
    }
}

/// The tree that a token sequence parses to; tokens after the first complete
/// expression are not read.
pub open spec fn parse_tokens(s: Seq<Token>) -> Option<Expr> {
    match expr_at(s, 0, Precedence::Lowest) {
        Some((e, _)) => Some(e),
        None => None,
    }
}

/// Whether an executable parse agrees with the spec result: the same tree,
/// and the cursor on its last token.
pub open spec fn agrees(spec: Option<(Expr, int)>, r: Option<Expr>, cursor: int) -> bool {
    match spec {
        Some((e, j)) => r == Some(e) && cursor == j,
        None => r is None,
    }
}

/// Parses a token sequence into one expression tree by precedence climbing.
pub struct Parser {
    tokens: Vec<Token>,
    index: usize,
}

impl Parser {
    pub closed spec fn tokens(&self) -> Seq<Token> {
        self.tokens@
    }

    /// The index of the token under the cursor.
    pub closed spec fn cursor(&self) -> int {
        self.index as int
    }

    pub open spec fn wf(&self) -> bool {
        0 <= self.cursor() <= self.tokens().len()
    }

    pub fn new(tokens: Vec<Token>) -> (r: Self)
        ensures
            r.tokens() == tokens@,
            r.cursor() == 0,
            r.wf(),
    {
        Parser { tokens, index: 0 }
    }

    /// Parses one expression from the cursor on.
    pub fn parse(&mut self) -> (r: Option<Expr>)
        requires
            old(self).wf(),
        ensures
            final(self).tokens() == old(self).tokens(),
            final(self).wf(),
            agrees(
                expr_at(old(self).tokens(), old(self).cursor(), Precedence::Lowest),
                r,
                final(self).cursor(),
            ),
            old(self).cursor() == 0 ==> r == parse_tokens(old(self).tokens()),
    {
        self.parse_expr(Precedence::Lowest)
    }

    fn parse_expr(&mut self, p: Precedence) -> (r: Option<Expr>)
        requires
            old(self).wf(),
        ensures
            final(self).tokens() == old(self).tokens(),
            final(self).wf(),
            final(self).cursor() >= old(self).cursor(),
            agrees(expr_at(old(self).tokens(), old(self).cursor(), p), r, final(self).cursor()),
            r is Some ==> final(self).cursor() < final(self).tokens().len(),
        decreases old(self).tokens().len() - old(self).cursor(), 3int,
    {
        let ghost s = self.tokens@;
        let ghost i = self.index as int;
        let lhs = match self.parse_prefix_expr() {
            Some(e) => e,
            None => return None,
        };
        let mut lhs = match self.parse_postfix_expr(lhs) {
            Some(e) => e,
            None => return None,
        };
        while self.peek_token().is_some() && p.level() < self.peek_token_to_precedence().level()
            invariant
                self.tokens@ == s,
                i == old(self).index,
                s == old(self).tokens@,
                i <= self.index < s.len(),
                expr_at(s, i, p) == infix_loop(s, p, lhs, self.index as int),
            decreases s.len() - self.index,
        {
            self.next();
            lhs = match self.parse_infix_expr(lhs) {
                Some(e) => e,
                None => return None,
            };
        }
        Some(lhs)
    }

    fn parse_prefix_expr(&mut self) -> (r: Option<Expr>)
        requires
            old(self).wf(),
        ensures
            final(self).tokens() == old(self).tokens(),
            final(self).wf(),
            final(self).cursor() >= old(self).cursor(),
            agrees(prefix_at(old(self).tokens(), old(self).cursor()), r, final(self).cursor()),
            r is Some ==> final(self).cursor() < final(self).tokens().len(),
        decreases old(self).tokens().len() - old(self).cursor(), 2int,
    {
        match self.current_token() {
            Some(Token::Plus) => {
                self.next();
                let rhs = match self.parse_expr(Precedence::Prefix) {
                    Some(e) => e,
                    None => return None,
                };
                Some(Expr::PrefixExpr(PrefixOperator::Plus, Box::new(rhs)))
            },
            Some(Token::Minus) => {
                self.next();
                let rhs = match self.parse_expr(Precedence::Prefix) {
                    Some(e) => e,
                    None => return None,
                };
                Some(Expr::PrefixExpr(PrefixOperator::Minus, Box::new(rhs)))
            },
            Some(Token::Num(n)) => Some(Expr::UnaryExpr(n)),
            Some(Token::Lparen) => self.parse_grouped_expr(),
            _ => None,
        }
    }

    fn parse_infix_expr(&mut self, lhs: Expr) -> (r: Option<Expr>)
        requires
            old(self).wf(),
        ensures
            final(self).tokens() == old(self).tokens(),
            final(self).wf(),
            final(self).cursor() >= old(self).cursor(),
            agrees(infix_at(old(self).tokens(), lhs, old(self).cursor()), r, final(self).cursor()),
            r is Some ==> final(self).cursor() < final(self).tokens().len(),
        decreases old(self).tokens().len() - old(self).cursor(), 0int,
    {
        let op = match self.current_token() {
            Some(Token::Plus) => Operator::Add,
            Some(Token::Minus) => Operator::Sub,
            Some(Token::Asterisk) => Operator::Mul,
            Some(Token::Slash) => Operator::Div,
            Some(Token::Percent) => Operator::Rem,
            _ => return None,
        };
        let p = match op {
            Operator::Add | Operator::Sub => Precedence::Sum,
            _ => Precedence::Product,
        };
        self.next();
        let rhs = match self.parse_expr(p) {
            Some(e) => e,
            None => return None,
        };
        Some(Expr::BinaryExpr { left: Box::new(lhs), right: Box::new(rhs), op })
    }

    fn parse_postfix_expr(&mut self, lhs: Expr) -> (r: Option<Expr>)
        requires
            old(self).wf(),
            old(self).cursor() < old(self).tokens().len(),
        ensures
            final(self).tokens() == old(self).tokens(),
            final(self).wf(),
            final(self).cursor() >= old(self).cursor(),
            agrees(postfix_at(old(self).tokens(), lhs, old(self).cursor()), r, final(self).cursor()),
            r is Some ==> final(self).cursor() < final(self).tokens().len(),
    {
        match self.peek_token() {
            Some(Token::Exclamation) => {
                self.next();
                Some(Expr::PostfixExpr(PostfixOperator::Factorial, Box::new(lhs)))
            },
            Some(Token::Circumflex) => {
                self.next();
                self.next();
                if let Some(Token::Num(n)) = self.current_token() {
                    Some(Expr::PostfixExpr(PostfixOperator::Exponential(n as u32), Box::new(lhs)))
                } else {
                    None
                }
            },
            _ => Some(lhs),
        }
    }

    fn parse_grouped_expr(&mut self) -> (r: Option<Expr>)
        requires
            old(self).wf(),
            token_at(old(self).tokens(), old(self).cursor()) == Some(Token::Lparen),
        ensures
            final(self).tokens() == old(self).tokens(),
            final(self).wf(),
            final(self).cursor() >= old(self).cursor(),
            agrees(prefix_at(old(self).tokens(), old(self).cursor()), r, final(self).cursor()),
            r is Some ==> final(self).cursor() < final(self).tokens().len(),
        decreases old(self).tokens().len() - old(self).cursor(), 1int,
    {
        self.next();
        let lhs = match self.parse_expr(Precedence::Lowest) {
            Some(e) => e,
            None => return None,
        };
        if self.peek_token_is(&Token::Rparen) {
            self.next();
            Some(lhs)
        } else {
            None
        }
    }

    fn next(&mut self)
        requires
            old(self).cursor() < old(self).tokens().len(),
        ensures
            final(self).tokens() == old(self).tokens(),
            final(self).cursor() == old(self).cursor() + 1,
    {
        assert(self.index < self.tokens.len());
        self.index = self.index + 1;
    }

    fn current_token(&self) -> (r: Option<Token>)
        ensures
            r == token_at(self.tokens(), self.cursor()),
    {
        if self.index < self.tokens.len() {
            Some(self.tokens[self.index])
        } else {
            None
        }
    }

    fn peek_token(&self) -> (r: Option<Token>)
        requires
            self.wf(),
        ensures
            r == token_at(self.tokens(), self.cursor() + 1),
    {
        if self.index < self.tokens.len() && self.index + 1 < self.tokens.len() {
            Some(self.tokens[self.index + 1])
        } else {
            None
        }
    }

    fn peek_token_to_precedence(&self) -> (r: Precedence)
        requires
            self.wf(),
        ensures
            r == infix_precedence(token_at(self.tokens(), self.cursor() + 1)),
    {
        match self.peek_token() {
            Some(Token::Minus) | Some(Token::Plus) => Precedence::Sum,
            Some(Token::Slash) | Some(Token::Asterisk) | Some(Token::Percent) => Precedence::Product,
            _ => Precedence::Lowest,
        }
    }

    fn peek_token_is(&self, token: &Token) -> (r: bool)
        requires
            self.wf(),
        ensures
            r == (token_at(self.tokens(), self.cursor() + 1) == Some(*token)),
    {
        match self.peek_token() {
            Some(t) => t == *token,
            None => false,
        }
    }
}

} // verus!
