use calculator::eval::EvalError;
use calculator::lexer::LexError;
use calculator::parser::ParseError;
use calculator::pipeline::{evaluate_expression, CalcError};
use calculator::rat::Rat;

fn as_f64(q: Rat) -> f64 {
    q.num as f64 / q.den as f64
}

fn eval_ok(input: &str) -> Rat {
    match evaluate_expression(input) {
        Ok(q) => q,
        Err(e) => panic!("expected a value for {:?}, got {:?}", input, e),
    }
}

#[test]
fn addition() {
    let q = eval_ok("3 + 4");
    assert_eq!(q.num, 7);
    assert_eq!(q.den, 1);
    assert_eq!(as_f64(q), 7.0);
}

#[test]
fn parentheses_override_precedence() {
    let q = eval_ok("2 * (3 + 4)");
    assert_eq!(as_f64(q), 14.0);
}

#[test]
fn division_is_left_associative() {
    let q = eval_ok("10 / 2 / 5");
    assert_eq!(q.num, q.den);
    assert_eq!(as_f64(q), 1.0);
}

#[test]
fn subtraction_is_left_associative() {
    let q = eval_ok("1 - 2 - 3");
    assert_eq!(as_f64(q), -4.0);
}

#[test]
fn unary_minus() {
    let q = eval_ok("-5 + 3");
    assert_eq!(as_f64(q), -2.0);
}

#[test]
fn double_unary_minus() {
    let q = eval_ok("--5");
    assert_eq!(as_f64(q), 5.0);
}

#[test]
fn unary_minus_after_operator() {
    let q = eval_ok("3 * -4");
    assert_eq!(as_f64(q), -12.0);
}

#[test]
fn binary_minus_after_number() {
    let q = eval_ok("3-4");
    assert_eq!(as_f64(q), -1.0);
}

#[test]
fn multiplication_binds_tighter_than_addition() {
    let q = eval_ok("2 + 3 * 4");
    assert_eq!(as_f64(q), 14.0);
    assert_ne!(as_f64(q), 20.0);
}

#[test]
fn decimal_literals() {
    let q = eval_ok("0.5 * 4");
    assert_eq!(as_f64(q), 2.0);
    let q = eval_ok("1.25 + 2.75");
    assert_eq!(as_f64(q), 4.0);
}

#[test]
fn division_by_zero_is_an_error() {
    let r = evaluate_expression("4 / 0");
    assert!(matches!(r, Err(CalcError::Eval(EvalError::DivisionByZero))));
}

#[test]
fn division_by_literal_zero_point_zero() {
    let r = evaluate_expression("4 / 0.0");
    assert!(matches!(r, Err(CalcError::Eval(EvalError::DivisionByZero))));
}

#[test]
fn trailing_operator_is_unexpected_end() {
    let r = evaluate_expression("3 + ");
    assert!(matches!(r, Err(CalcError::Parse(ParseError::UnexpectedEnd))));
}

#[test]
fn missing_closing_parenthesis() {
    let r = evaluate_expression("(1 + 2");
    assert!(matches!(r, Err(CalcError::Parse(ParseError::UnexpectedEnd))));
}

#[test]
fn wrong_token_instead_of_closing_parenthesis() {
    let r = evaluate_expression("(1 2");
    assert!(matches!(
        r,
        Err(CalcError::Parse(ParseError::ExpectedToken(_)))
    ));
}

#[test]
fn adjacent_numbers_are_trailing_tokens() {
    let r = evaluate_expression("1 2");
    assert!(matches!(r, Err(CalcError::Parse(ParseError::TrailingTokens))));
}

#[test]
fn no_implicit_multiplication() {
    let r = evaluate_expression("2(3 + 4)");
    assert!(matches!(r, Err(CalcError::Parse(ParseError::TrailingTokens))));
}

#[test]
fn empty_input_is_unexpected_end() {
    let r = evaluate_expression("");
    assert!(matches!(r, Err(CalcError::Parse(ParseError::UnexpectedEnd))));
}

#[test]
fn stray_closing_parenthesis() {
    let r = evaluate_expression(")");
    assert!(matches!(
        r,
        Err(CalcError::Parse(ParseError::UnexpectedToken(_)))
    ));
}

#[test]
fn unexpected_character() {
    let r = evaluate_expression("3 + a");
    assert!(matches!(
        r,
        Err(CalcError::Lex(LexError::UnexpectedChar('a')))
    ));
}

#[test]
fn invalid_number_two_dots() {
    match evaluate_expression("1.2.3") {
        Err(CalcError::Lex(LexError::InvalidNumber(sub))) => assert_eq!(sub, "1.2.3"),
        other => panic!("expected an invalid-number error, got {:?}", other),
    }
}

#[test]
fn lone_dot_is_invalid_number_not_unexpected_char() {
    match evaluate_expression(".") {
        Err(CalcError::Lex(LexError::InvalidNumber(sub))) => assert_eq!(sub, "."),
        other => panic!("expected an invalid-number error, got {:?}", other),
    }
}

#[test]
fn number_too_large_is_invalid() {
    let forty_nines = "9".repeat(40);
    let r = evaluate_expression(&forty_nines);
    assert!(matches!(r, Err(CalcError::Lex(LexError::InvalidNumber(_)))));
}

#[test]
fn overflow_during_evaluation() {
    let big = "9".repeat(38);
    let input = format!("{} * {}", big, big);
    let r = evaluate_expression(&input);
    assert!(matches!(r, Err(CalcError::Eval(EvalError::Overflow))));
}

#[test]
fn whitespace_is_skipped() {
    let q = eval_ok(" 3\t+\n4 ");
    assert_eq!(as_f64(q), 7.0);
}

#[test]
fn nested_parentheses() {
    let q = eval_ok("((2))");
    assert_eq!(as_f64(q), 2.0);
    let q = eval_ok("(1 + (2 * (3 + 4)))");
    assert_eq!(as_f64(q), 15.0);
}

#[test]
fn exact_decimal_arithmetic() {
    let q = eval_ok("0.1 + 0.2");
    assert_eq!(q.num * 10, q.den * 3);
}

#[test]
fn error_messages_are_displayable() {
    match evaluate_expression("4 / 0") {
        Err(e) => assert_eq!(e.message(), "division by zero"),
        Ok(_) => panic!("division by zero must not produce a value"),
    }
    match evaluate_expression("1.2.3") {
        Err(e) => assert_eq!(e.message(), "invalid number: 1.2.3"),
        Ok(_) => panic!("a malformed numeral must not produce a value"),
    }
    match evaluate_expression("3 + ") {
        Err(e) => assert_eq!(e.message(), "unexpected end of input"),
        Ok(_) => panic!("a dangling operator must not produce a value"),
    }
}
