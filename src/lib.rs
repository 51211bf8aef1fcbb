//! Evaluation of integer arithmetic expressions: text is split into tokens,
//! the tokens are parsed by precedence climbing into a tree, and the tree is
//! reduced to one signed 64-bit integer with every overflow reported.
use vstd::prelude::*;

pub mod ast;
pub mod executor;
pub mod laws;
pub mod lexer;
pub mod parser;
pub mod token;

use crate::executor::{eval, value_of};
use crate::lexer::{tokens_of, Lexer};
use crate::parser::{parse_tokens, Parser};

verus! {

/// What a line of text evaluates to: `None` where it does not tokenize, does
/// not parse, or fails to evaluate.
pub open spec fn line_value(line: Seq<char>) -> Option<i64> {
    match tokens_of(line) {
        Some(ts) => match parse_tokens(ts) {
            Some(e) => value_of(e),
            None => None,
        },
        None => None,
    }
}

/// Tokenizes, parses and evaluates one line of text, stopping at the first
/// stage that fails.
pub fn evaluate_line(line: &str) -> (r: Option<i64>)
    ensures
        r == line_value(line@),
{
    let mut lexer = Lexer::new(line);
    let tokens = match lexer.tokenize() {
        Some(ts) => ts,
        None => return None,
    };
    let mut parser = Parser::new(tokens);
    let expr = match parser.parse() {
        Some(e) => e,
        None => return None,
    };
    eval(expr)
}

} // verus!
