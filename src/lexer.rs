use vstd::prelude::*;

use crate::token::Token;

verus! {

/// The characters with the Unicode `White_Space` property.
pub open spec fn white_space(c: char) -> bool {
    let u = c as u32;
    ||| 0x09 <= u <= 0x0d
    ||| u == 0x20
    ||| u == 0x85
    ||| u == 0xa0
    ||| u == 0x1680
    ||| 0x2000 <= u <= 0x200a
    ||| u == 0x2028
    ||| u == 0x2029
    ||| u == 0x202f
    ||| u == 0x205f
    ||| u == 0x3000
}

pub open spec fn is_digit(c: char) -> bool {
    '0' <= c <= '9'
}

pub open spec fn digit_value(c: char) -> int {
    c as u32 - '0' as u32
}

/// The token that a one-character symbol stands for.
pub open spec fn symbol_token(c: char) -> Option<Token> {
    if c == '+' {
        Some(Token::Plus)
    } else if c == '-' {
        Some(Token::Minus)
    } else if c == '*' {
        Some(Token::Asterisk)
    } else if c == '/' {
        Some(Token::Slash)
    } else if c == '%' {
        Some(Token::Percent)
    } else if c == '(' {
        Some(Token::Lparen)
    } else if c == ')' {
        Some(Token::Rparen)
    } else if c == '!' {
        Some(Token::Exclamation)
    } else if c == '^' {
        Some(Token::Circumflex)
    } else {
        None
    }
}

/// The end of the run of decimal digits that starts at `i`.
pub open spec fn digits_end(cs: Seq<char>, i: int) -> int
    decreases cs.len() - i,
{
    if 0 <= i < cs.len() && is_digit(cs[i]) {
        digits_end(cs, i + 1)
    } else {
        i
    }
}

/// The decimal value of the digits `cs[i..e]`.
pub open spec fn decimal_value(cs: Seq<char>, i: int, e: int) -> int
    decreases e - i,
{
    if e <= i {
        0
    } else {
        decimal_value(cs, i, e - 1) * 10 + digit_value(cs[e - 1])
    }
}

/// The tokens of `cs[i..]`, or `None` where it holds a character that is no
/// token or a number that does not fit in an `i64`.
pub open spec fn tokens_from(cs: Seq<char>, i: int) -> Option<Seq<Token>>
    decreases cs.len() - i, 1int,
{
    if i < 0 || i >= cs.len() {
        Some(Seq::empty())
    } else if white_space(cs[i]) {
        tokens_from(cs, i + 1)
    } else if symbol_token(cs[i]) is Some {
        match tokens_from(cs, i + 1) {
            Some(rest) => Some(seq![symbol_token(cs[i])->0].add(rest)),
            None => None,
        }
    } else if is_digit(cs[i]) {
        number_then_rest(cs, i)
    } else {
        None
    }
}

/// The number that starts at `i`, followed by the tokens after it.
pub open spec fn number_then_rest(cs: Seq<char>, i: int) -> Option<Seq<Token>>
    decreases cs.len() - i, 0int,
{
    let e = digits_end(cs, i);
    let v = decimal_value(cs, i, e);
    if 0 <= i < e <= cs.len() && 0 <= v <= i64::MAX {
        match tokens_from(cs, e) {
            Some(rest) => Some(seq![Token::Num(v as i64)].add(rest)),
            None => None,
        }
    } else {
        None
    }
}

/// The tokens of a whole line.
pub open spec fn tokens_of(cs: Seq<char>) -> Option<Seq<Token>> {
    tokens_from(cs, 0)
}

/// Relies on `char::is_whitespace`: true exactly for the characters with the
/// Unicode `White_Space` property.
#[verifier::external_body]
fn is_space(c: char) -> (r: bool)
    ensures
        r == white_space(c),
{
    c.is_whitespace()
}

/// Splits a line of text into tokens.
pub struct Lexer {
    input: Vec<char>,
    pos: usize,
}

impl Lexer {
    /// The characters of the line.
    pub closed spec fn chars(&self) -> Seq<char> {
        self.input@
    }

    /// Where the next token is read from.
    pub closed spec fn position(&self) -> int {
        self.pos as int
    }

    pub open spec fn wf(&self) -> bool {
        0 <= self.position() <= self.chars().len()
    }

    pub fn new(input: &str) -> (r: Self)
        ensures
            r.chars() == input@,
            r.position() == 0,
            r.wf(),
    {
        let n = input.unicode_len();
        let mut chars: Vec<char> = Vec::new();
        let mut i: usize = 0;
        while i < n
            invariant
                i <= n,
                n == input@.len(),
                chars@ == input@.subrange(0, i as int),
            decreases n - i,
        {
            chars.push(input.get_char(i));
            i = i + 1;
        }
        assert(chars@ == input@);
        Lexer { input: chars, pos: 0 }
    }

    /// Tokenizes what is left of the line: all of its tokens, or `None` when
    /// some character is no token or some number does not fit in an `i64`.
    pub fn tokenize(&mut self) -> (r: Option<Vec<Token>>)
        requires
            old(self).wf(),
        ensures
            final(self).chars() == old(self).chars(),
            final(self).wf(),
            match tokens_from(old(self).chars(), old(self).position()) {
                Some(ts) => r is Some && r->0@ == ts && final(self).position()
                    == final(self).chars().len(),
                None => r is None,
            },
    {
        let ghost start = self.pos as int;
        let mut tokens: Vec<Token> = Vec::new();
        while self.pos < self.input.len()
            invariant
                self.input@ == old(self).input@,
                start == old(self).pos,
                start <= self.pos <= self.input@.len(),
                tokens_from(self.input@, start) == match tokens_from(self.input@, self.pos as int) {
                    Some(rest) => Some(tokens@.add(rest)),
                    None => None,
                },
            decreases self.input@.len() - self.pos,
        {
            let ch = self.input[self.pos];
            if is_space(ch) {
                self.pos = self.pos + 1;
                continue;
            }
            let token = if ch == '+' {
                Token::Plus
            } else if ch == '-' {
                Token::Minus
            } else if ch == '*' {
                Token::Asterisk
            } else if ch == '/' {
                Token::Slash
            } else if ch == '%' {
                Token::Percent
            } else if ch == '(' {
                Token::Lparen
            } else if ch == ')' {
                Token::Rparen
            } else if ch == '!' {
                Token::Exclamation
            } else if ch == '^' {
                Token::Circumflex
            } else if '0' <= ch && ch <= '9' {
                proof {
                    lemma_digits_end(self.input@, self.pos as int);
                    lemma_decimal_value_nonneg(
                        self.input@,
                        self.pos as int,
                        digits_end(self.input@, self.pos as int),
                    );
                    assert(tokens_from(self.input@, self.pos as int) == number_then_rest(
                        self.input@,
                        self.pos as int,
                    ));
                }
                match self.consume_num() {
                    Some(t) => {
                        let ghost before = tokens@;
                        tokens.push(t);
                        proof {
                            match tokens_from(self.input@, self.pos as int) {
                                Some(rest) => {
                                    assert(before.add(seq![t].add(rest)) == tokens@.add(rest));
                                },
                                None => {},
                            }
                        }
                        continue;
                    },
                    None => return None,
                }
            } else {
                return None;
            };
            self.pos = self.pos + 1;
            let ghost before = tokens@;
            tokens.push(token);
            proof {
                assert(before.add(seq![token]) == tokens@);
                match tokens_from(self.input@, self.pos as int) {
                    Some(rest) => {
                        assert(before.add(seq![token].add(rest)) == tokens@.add(rest));
                    },
                    None => {},
                }
            }
        }
        assert(tokens@.add(Seq::empty()) == tokens@);
        Some(tokens)
    }

    /// Reads the run of digits at the current position as one number token.
    fn consume_num(&mut self) -> (r: Option<Token>)
        requires
            old(self).wf(),
            old(self).position() < old(self).chars().len(),
            is_digit(old(self).chars()[old(self).position()]),
        ensures
            final(self).chars() == old(self).chars(),
            final(self).wf(),
            ({
                let cs = old(self).chars();
                let i = old(self).position();
                let e = digits_end(cs, i);
                if decimal_value(cs, i, e) <= i64::MAX {
                    r == Some(Token::Num(decimal_value(cs, i, e) as i64)) && final(self).position()
                        == e
                } else {
                    r is None
                }
            }),
    {
        let ghost start = self.pos as int;
        let ghost cs = self.input@;
        let mut sum: i64 = 0;
        proof {
            lemma_digits_end(cs, start);
        }
        while self.pos < self.input.len() && '0' <= self.input[self.pos] && self.input[self.pos]
            <= '9'
            invariant
                self.input@ == cs,
                cs == old(self).input@,
                start == old(self).pos,
                start <= self.pos <= digits_end(cs, start) <= cs.len(),
                sum as int == decimal_value(cs, start, self.pos as int),
                forall|k: int| start <= k < digits_end(cs, start) ==> is_digit(#[trigger] cs[k]),
                digits_end(cs, start) < cs.len() ==> !is_digit(cs[digits_end(cs, start)]),
            decreases cs.len() - self.pos,
        {
            let ch = self.input[self.pos];
            let d = (ch as u32 - '0' as u32) as i64;
            proof {
                lemma_decimal_value_nonneg(cs, start, self.pos + 1);
                lemma_decimal_value_monotonic(cs, start, self.pos + 1, digits_end(cs, start));
            }
            let temp = match sum.checked_mul(10) {
                Some(t) => t,
                None => return None,
            };
            sum = match temp.checked_add(d) {
                Some(s) => s,
                None => return None,
            };
            self.pos = self.pos + 1;
        }
        Some(Token::Num(sum))
    }
}

proof fn lemma_digits_end(cs: Seq<char>, i: int)
    requires
        0 <= i <= cs.len(),
    ensures
        i <= digits_end(cs, i) <= cs.len(),
        forall|k: int| i <= k < digits_end(cs, i) ==> is_digit(#[trigger] cs[k]),
        digits_end(cs, i) < cs.len() ==> !is_digit(cs[digits_end(cs, i)]),
    decreases cs.len() - i,
{
    if i < cs.len() && is_digit(cs[i]) {
        lemma_digits_end(cs, i + 1);
    }
}

proof fn lemma_decimal_value_nonneg(cs: Seq<char>, i: int, e: int)
    requires
        forall|k: int| i <= k < e ==> is_digit(#[trigger] cs[k]),
    ensures
        decimal_value(cs, i, e) >= 0,
    decreases e - i,
{
    if e > i {
        lemma_decimal_value_nonneg(cs, i, e - 1);
    }
}

proof fn lemma_decimal_value_monotonic(cs: Seq<char>, i: int, a: int, b: int)
    requires
        i <= a <= b,
        forall|k: int| i <= k < b ==> is_digit(#[trigger] cs[k]),
    ensures
        decimal_value(cs, i, a) <= decimal_value(cs, i, b),
    decreases b - a,
{
    if a < b {
        lemma_decimal_value_monotonic(cs, i, a, b - 1);
        lemma_decimal_value_nonneg(cs, i, b - 1);
    }
}

} // verus!
