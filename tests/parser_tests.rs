use calculator::ast::{Expr, Operator, PostfixOperator, PrefixOperator};
use calculator::lexer::Lexer;
use calculator::parser::Parser;
use calculator::token::Token;

fn create_expr(line: &str) -> Option<Expr> {
    let mut lexer = Lexer::new(line);
    let tokens = lexer.tokenize().unwrap();

    let mut parser = Parser::new(tokens);
    parser.parse()
}

fn lit(n: i64) -> Box<Expr> {
    Box::new(Expr::UnaryExpr(n))
}

#[test]
fn parse1_test() {
    let expr = create_expr("1 + 2");

    assert_eq!(
        expr.unwrap(),
        Expr::BinaryExpr {
            left: Box::new(Expr::UnaryExpr(1)),
            right: Box::new(Expr::UnaryExpr(2)),
            op: Operator::Add
        }
    );
}

#[test]
fn parse2_test() {
    let expr = create_expr("(3 - 1) * -5");

    assert_eq!(
        expr.unwrap(),
        Expr::BinaryExpr {
            left: Box::new(Expr::BinaryExpr {
                left: Box::new(Expr::UnaryExpr(3)),
                right: Box::new(Expr::UnaryExpr(1)),
                op: Operator::Sub
            }),
            right: Box::new(Expr::PrefixExpr(
                PrefixOperator::Minus,
                Box::new(Expr::UnaryExpr(5))
            )),
            op: Operator::Mul
        }
    );
}

#[test]
fn parse3_test() {
    let expr = create_expr("(3 - 1) * (-(3 + 3) / -2)");

    assert_eq!(
        expr.unwrap(),
        Expr::BinaryExpr {
            left: Box::new(Expr::BinaryExpr {
                left: Box::new(Expr::UnaryExpr(3)),
                right: Box::new(Expr::UnaryExpr(1)),
                op: Operator::Sub
            }),
            right: Box::new(Expr::BinaryExpr {
                left: Box::new(Expr::PrefixExpr(
                    PrefixOperator::Minus,
                    Box::new(Expr::BinaryExpr {
                        left: Box::new(Expr::UnaryExpr(3)),
                        right: Box::new(Expr::UnaryExpr(3)),
                        op: Operator::Add
                    })
                )),
                right: Box::new(Expr::PrefixExpr(
                    PrefixOperator::Minus,
                    Box::new(Expr::UnaryExpr(2))
                )),
                op: Operator::Div
            }),
            op: Operator::Mul
        }
    );
}

#[test]
fn parse4_test() {
    let expr = create_expr("3! - 2!");

    assert_eq!(
        expr.unwrap(),
        Expr::BinaryExpr {
            left: Box::new(Expr::PostfixExpr(
                PostfixOperator::Factorial,
                Box::new(Expr::UnaryExpr(3)),
            )),
            right: Box::new(Expr::PostfixExpr(
                PostfixOperator::Factorial,
                Box::new(Expr::UnaryExpr(2))
            )),
            op: Operator::Sub
        }
    );
}

#[test]
fn parse5_test() {
    let expr = create_expr("(3 - 1) * (-(3 + 3) / -2)!");

    assert_eq!(
        expr.unwrap(),
        Expr::BinaryExpr {
            left: Box::new(Expr::BinaryExpr {
                left: Box::new(Expr::UnaryExpr(3)),
                right: Box::new(Expr::UnaryExpr(1)),
                op: Operator::Sub
            }),
            right: Box::new(Expr::PostfixExpr(
                PostfixOperator::Factorial,
                Box::new(Expr::BinaryExpr {
                    left: Box::new(Expr::PrefixExpr(
                        PrefixOperator::Minus,
                        Box::new(Expr::BinaryExpr {
                            left: Box::new(Expr::UnaryExpr(3)),
                            right: Box::new(Expr::UnaryExpr(3)),
                            op: Operator::Add
                        })
                    )),
                    right: Box::new(Expr::PrefixExpr(
                        PrefixOperator::Minus,
                        Box::new(Expr::UnaryExpr(2))
                    )),
                    op: Operator::Div
                })
            )),
            op: Operator::Mul
        }
    );
}

#[test]
fn parse6_test() {
    let expr = create_expr("3^2 - 2");

    assert_eq!(
        expr.unwrap(),
        Expr::BinaryExpr {
            left: Box::new(Expr::PostfixExpr(
                PostfixOperator::Exponential(2),
                Box::new(Expr::UnaryExpr(3)),
            )),
            right: Box::new(Expr::UnaryExpr(2)),
            op: Operator::Sub
        }
    );
}

#[test]
fn parse_subtraction_is_left_associative() {
    assert_eq!(
        create_expr("8 - 3 - 2").unwrap(),
        Expr::BinaryExpr {
            left: Box::new(Expr::BinaryExpr {
                left: lit(8),
                right: lit(3),
                op: Operator::Sub
            }),
            right: lit(2),
            op: Operator::Sub
        }
    );
}

#[test]
fn parse_product_binds_tighter_than_sum() {
    assert_eq!(
        create_expr("1 + 2 * 3").unwrap(),
        Expr::BinaryExpr {
            left: lit(1),
            right: Box::new(Expr::BinaryExpr {
                left: lit(2),
                right: lit(3),
                op: Operator::Mul
            }),
            op: Operator::Add
        }
    );
}

#[test]
fn parse_unary_minus_binds_tighter_than_product() {
    assert_eq!(
        create_expr("-4 * 5").unwrap(),
        Expr::BinaryExpr {
            left: Box::new(Expr::PrefixExpr(PrefixOperator::Minus, lit(4))),
            right: lit(5),
            op: Operator::Mul
        }
    );
}

#[test]
fn parse_postfix_binds_tighter_than_prefix() {
    assert_eq!(
        create_expr("-3!").unwrap(),
        Expr::PrefixExpr(
            PrefixOperator::Minus,
            Box::new(Expr::PostfixExpr(PostfixOperator::Factorial, lit(3)))
        )
    );
}

#[test]
fn parse_fully_parenthesized_tokens() {
    // ((1) - (2)) - ((3) * (4)), fully parenthesized, read back unchanged
    let tokens = vec![
        Token::Lparen,
        Token::Lparen,
        Token::Num(1),
        Token::Rparen,
        Token::Minus,
        Token::Lparen,
        Token::Num(2),
        Token::Rparen,
        Token::Rparen,
        Token::Minus,
        Token::Lparen,
        Token::Lparen,
        Token::Num(3),
        Token::Rparen,
        Token::Asterisk,
        Token::Lparen,
        Token::Num(4),
        Token::Rparen,
        Token::Rparen,
    ];
    let mut parser = Parser::new(tokens);
    assert_eq!(
        parser.parse().unwrap(),
        Expr::BinaryExpr {
            left: Box::new(Expr::BinaryExpr {
                left: lit(1),
                right: lit(2),
                op: Operator::Sub
            }),
            right: Box::new(Expr::BinaryExpr {
                left: lit(3),
                right: lit(4),
                op: Operator::Mul
            }),
            op: Operator::Sub
        }
    );
}

#[test]
fn parse_failures() {
    assert!(create_expr("").is_none());
    assert!(create_expr("1 +").is_none());
    assert!(create_expr("(1 + 2").is_none());
    assert!(create_expr("2^+").is_none());
    assert!(create_expr("2^").is_none());
    assert!(create_expr("*").is_none());
    assert!(create_expr(")").is_none());
}

#[test]
fn parse_ignores_trailing_tokens() {
    assert_eq!(create_expr("1 2").unwrap(), Expr::UnaryExpr(1));
}
