use calculator::ast::{Expr, Operator, PostfixOperator, PrefixOperator};
use calculator::evaluate_line;
use calculator::executor::eval;
use calculator::lexer::Lexer;
use calculator::parser::Parser;

fn create_expr(line: &str) -> Expr {
    let mut lexer = Lexer::new(line);
    let tokens = lexer.tokenize().unwrap();

    let mut parser = Parser::new(tokens);
    parser.parse().unwrap()
}

#[test]
fn eval1_test() {
    let expr = create_expr("5 + 3 * 6 - 3");
    assert_eq!(eval(expr).unwrap(), 20);
}

#[test]
fn eval2_test() {
    let expr = create_expr("-(3 * 2)! / (11 % 3)");
    assert_eq!(eval(expr).unwrap(), -360);
}

#[test]
fn eval3_test() {
    let expr = create_expr("1! + 0!");
    assert_eq!(eval(expr).unwrap(), 2);
}

#[test]
fn eval4_test() {
    let expr = create_expr("1! + 0!");
    assert_eq!(eval(expr).unwrap(), 2);
}

#[test]
fn eval5_test() {
    let expr = create_expr("2^3 + 10");
    assert_eq!(eval(expr).unwrap(), 18);
}

#[test]
fn eval6_test() {
    let expr = create_expr("1 % 0");
    assert!(eval(expr).is_none());
}

#[test]
fn eval7_test() {
    let expr = create_expr("9223372036854775807 + 1");
    assert!(eval(expr).is_none());
}

#[test]
fn eval_largest_literal_unchanged() {
    assert_eq!(evaluate_line("9223372036854775807"), Some(i64::MAX));
    assert_eq!(evaluate_line("9223372036854775807 + 0"), Some(i64::MAX));
}

#[test]
fn eval_twice_gives_same_result() {
    let expr = create_expr("-(3 * 2)! / (11 % 3)");
    let first = eval(expr.clone());
    let second = eval(expr);
    assert_eq!(first, second);
    assert_eq!(first, Some(-360));
}

#[test]
fn eval_division_by_zero_fails_for_any_dividend() {
    assert_eq!(evaluate_line("9223372036854775807 / 0"), None);
    assert_eq!(evaluate_line("0 / 0"), None);
    assert_eq!(evaluate_line("-5 % (3 - 3)"), None);
    assert_eq!(evaluate_line("9223372036854775807 % 0"), None);
}

#[test]
fn eval_scenarios_from_text() {
    assert_eq!(evaluate_line("5 + 3 * 6 - 3"), Some(20));
    assert_eq!(evaluate_line("-(3 * 2)! / (11 % 3)"), Some(-360));
    assert_eq!(evaluate_line("1! + 0!"), Some(2));
    assert_eq!(evaluate_line("2^3 + 10"), Some(18));
    assert_eq!(evaluate_line("1 % 0"), None);
    assert_eq!(evaluate_line("9223372036854775807 + 1"), None);
    assert_eq!(evaluate_line("9223372036854775808"), None);
}

#[test]
fn eval_truncating_division_and_remainder() {
    assert_eq!(evaluate_line("-7 / 2"), Some(-3));
    assert_eq!(evaluate_line("-7 % 2"), Some(-1));
    assert_eq!(evaluate_line("7 % -2"), Some(1));
    assert_eq!(evaluate_line("7 / -2"), Some(-3));
    assert_eq!(evaluate_line("-7 / -2"), Some(3));
}

#[test]
fn eval_minimum_value_edges() {
    assert_eq!(evaluate_line("-9223372036854775807 - 1"), Some(i64::MIN));
    assert_eq!(evaluate_line("-(-9223372036854775807 - 1)"), None);
    assert_eq!(evaluate_line("(-9223372036854775807 - 1) / -1"), None);
    assert_eq!(evaluate_line("(-9223372036854775807 - 1) % -1"), None);
    assert_eq!(evaluate_line("9223372036854775807 * 2"), None);
    assert_eq!(evaluate_line("-9223372036854775807 - 2"), None);
}

#[test]
fn eval_factorial_edges() {
    assert_eq!(evaluate_line("5!"), Some(120));
    assert_eq!(evaluate_line("20!"), Some(2432902008176640000));
    assert_eq!(evaluate_line("21!"), None);
    assert_eq!(evaluate_line("(0 - 4)!"), Some(1));
}

#[test]
fn eval_power_edges() {
    assert_eq!(evaluate_line("3^4"), Some(81));
    assert_eq!(evaluate_line("7^0"), Some(1));
    assert_eq!(evaluate_line("(0 - 2)^3"), Some(-8));
    assert_eq!(evaluate_line("(0 - 2)^63"), Some(i64::MIN));
    assert_eq!(evaluate_line("2^63"), None);
    assert_eq!(evaluate_line("2^62"), Some(4611686018427387904));
}

#[test]
fn eval_tree_built_by_hand() {
    let expr = Expr::BinaryExpr {
        left: Box::new(Expr::PrefixExpr(
            PrefixOperator::Minus,
            Box::new(Expr::UnaryExpr(4)),
        )),
        right: Box::new(Expr::PostfixExpr(
            PostfixOperator::Exponential(2),
            Box::new(Expr::UnaryExpr(3)),
        )),
        op: Operator::Mul,
    };
    assert_eq!(eval(expr), Some(-36));
}

#[test]
fn eval_line_failures() {
    assert_eq!(evaluate_line(""), None);
    assert_eq!(evaluate_line("1 +"), None);
    assert_eq!(evaluate_line("(1 + 2"), None);
    assert_eq!(evaluate_line("2^+"), None);
    assert_eq!(evaluate_line("x"), None);
}
