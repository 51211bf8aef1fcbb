use calculator::lexer::Lexer;
use calculator::token::Token;

#[test]
fn lexer1_test() {
    let mut lexer = Lexer::new("1 + 2 - (3 * 4 / 5)! % 6^2");
    let tokens = &lexer.tokenize().unwrap()[..];

    assert_eq!(tokens[0], Token::Num(1));
    assert_eq!(tokens[1], Token::Plus);
    assert_eq!(tokens[2], Token::Num(2));
    assert_eq!(tokens[3], Token::Minus);
    assert_eq!(tokens[4], Token::Lparen);
    assert_eq!(tokens[5], Token::Num(3));
    assert_eq!(tokens[6], Token::Asterisk);
    assert_eq!(tokens[7], Token::Num(4));
    assert_eq!(tokens[8], Token::Slash);
    assert_eq!(tokens[9], Token::Num(5));
    assert_eq!(tokens[10], Token::Rparen);
    assert_eq!(tokens[11], Token::Exclamation);
    assert_eq!(tokens[12], Token::Percent);
    assert_eq!(tokens[13], Token::Num(6));
    assert_eq!(tokens[14], Token::Circumflex);
    assert_eq!(tokens[15], Token::Num(2));
}

#[test]
fn lexer2_test() {
    let mut lexer = Lexer::new("9223372036854775808");
    let tokens = &lexer.tokenize();
    assert!(tokens.is_none());
}

#[test]
fn lexer_blank_line_gives_no_tokens() {
    let mut lexer = Lexer::new("   \n");
    assert_eq!(lexer.tokenize(), Some(vec![]));
    let mut lexer = Lexer::new("");
    assert_eq!(lexer.tokenize(), Some(vec![]));
}

#[test]
fn lexer_largest_literal() {
    let mut lexer = Lexer::new("9223372036854775807");
    assert_eq!(lexer.tokenize(), Some(vec![Token::Num(i64::MAX)]));
}

#[test]
fn lexer_rejects_unknown_character() {
    let mut lexer = Lexer::new("1 + a");
    assert!(lexer.tokenize().is_none());
    let mut lexer = Lexer::new("1.5");
    assert!(lexer.tokenize().is_none());
}

#[test]
fn lexer_skips_unicode_whitespace() {
    let mut lexer = Lexer::new("\t12\u{3000}*\u{a0}3\r\n");
    assert_eq!(
        lexer.tokenize(),
        Some(vec![Token::Num(12), Token::Asterisk, Token::Num(3)])
    );
}

#[test]
fn lexer_leading_zeros_and_adjacent_symbols() {
    let mut lexer = Lexer::new("007!^(");
    assert_eq!(
        lexer.tokenize(),
        Some(vec![
            Token::Num(7),
            Token::Exclamation,
            Token::Circumflex,
            Token::Lparen
        ])
    );
}
