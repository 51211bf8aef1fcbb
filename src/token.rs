use vstd::prelude::*;

verus! {

/// One lexical unit of an expression line.
#[derive(Debug, Clone, Copy, PartialEq, Eq, Structural)]
pub enum Token {
    Num(i64),
    Plus,
    Minus,
    Asterisk,
    Slash,
    Percent,
    Lparen,
    Rparen,
    Exclamation,
    Circumflex,
}

} // verus!
