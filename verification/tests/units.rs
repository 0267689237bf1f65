use calculator::ast::Expr;
use calculator::eval::{evaluate_ast, EvalError};
use calculator::lexer::{lexer, LexError};
use calculator::parser::{ParseError, Parser};
use calculator::pipeline::CalcError;
use calculator::rat::Rat;
use calculator::simple::{apply_op, parse_number};
use calculator::token::Token;

fn num(n: i128) -> Token {
    Token::Number(Rat { num: n, den: 1 })
}

#[test]
fn lexer_tokenizes_operators_and_numbers() {
    let tokens = lexer("3 + 4").unwrap();
    assert_eq!(tokens, vec![num(3), Token::Plus, num(4)]);
}

#[test]
fn lexer_distinguishes_unary_and_binary_minus() {
    let tokens = lexer("-3-4*-2").unwrap();
    assert_eq!(
        tokens,
        vec![
            Token::UnaryMinus,
            num(3),
            Token::Minus,
            num(4),
            Token::Multiply,
            Token::UnaryMinus,
            num(2),
        ]
    );
}

#[test]
fn lexer_minus_after_closing_parenthesis_is_binary() {
    let tokens = lexer("(1)-2").unwrap();
    assert_eq!(
        tokens,
        vec![Token::LParen, num(1), Token::RParen, Token::Minus, num(2)]
    );
}

#[test]
fn lexer_scales_decimal_literals() {
    let tokens = lexer("12.75").unwrap();
    assert_eq!(tokens, vec![Token::Number(Rat { num: 1275, den: 100 })]);
}

#[test]
fn lexing_twice_yields_identical_tokens() {
    let input = "2 + 3.5 * (4 - -1) / 7";
    let first = lexer(input).unwrap();
    let second = lexer(input).unwrap();
    assert_eq!(first, second);
}

#[test]
fn digits_dots_whitespace_never_unexpected_char() {
    for input in ["1.2 3.4", "..", " . ", "007", "1. .1", "\t\n 5 \r"] {
        match lexer(input) {
            Ok(_) => {}
            Err(LexError::InvalidNumber(_)) => {}
            Err(LexError::UnexpectedChar(c)) => {
                panic!("lexing {:?} must not reject the character {:?}", input, c)
            }
        }
    }
}

#[test]
fn parser_builds_left_associative_tree() {
    let tokens = vec![num(1), Token::Minus, num(2), Token::Minus, num(3)];
    let ast = Parser::new(tokens).parse().unwrap();
    let expected = Expr::BinaryOp {
        op: Token::Minus,
        left: Box::new(Expr::BinaryOp {
            op: Token::Minus,
            left: Box::new(Expr::Literal(Rat { num: 1, den: 1 })),
            right: Box::new(Expr::Literal(Rat { num: 2, den: 1 })),
        }),
        right: Box::new(Expr::Literal(Rat { num: 3, den: 1 })),
    };
    assert_eq!(ast, expected);
}

#[test]
fn parser_gives_multiplication_precedence() {
    let tokens = vec![num(2), Token::Plus, num(3), Token::Multiply, num(4)];
    let ast = Parser::new(tokens).parse().unwrap();
    let expected = Expr::BinaryOp {
        op: Token::Plus,
        left: Box::new(Expr::Literal(Rat { num: 2, den: 1 })),
        right: Box::new(Expr::BinaryOp {
            op: Token::Multiply,
            left: Box::new(Expr::Literal(Rat { num: 3, den: 1 })),
            right: Box::new(Expr::Literal(Rat { num: 4, den: 1 })),
        }),
    };
    assert_eq!(ast, expected);
}

#[test]
fn parser_rejects_leftover_tokens() {
    let tokens = vec![num(1), num(2)];
    let r = Parser::new(tokens).parse();
    assert_eq!(r, Err(ParseError::TrailingTokens));
}

#[test]
fn parser_rejects_operator_in_factor_position() {
    let tokens = vec![Token::Multiply, num(2)];
    let r = Parser::new(tokens).parse();
    assert_eq!(r, Err(ParseError::UnexpectedToken(Token::Multiply)));
}

#[test]
fn evaluator_rejects_malformed_unary_operator() {
    let ast = Expr::UnaryOp {
        op: Token::Plus,
        expr: Box::new(Expr::Literal(Rat { num: 1, den: 1 })),
    };
    assert_eq!(evaluate_ast(&ast), Err(EvalError::MalformedAst));
}

#[test]
fn evaluator_rejects_malformed_binary_operator() {
    let ast = Expr::BinaryOp {
        op: Token::LParen,
        left: Box::new(Expr::Literal(Rat { num: 1, den: 1 })),
        right: Box::new(Expr::Literal(Rat { num: 2, den: 1 })),
    };
    assert_eq!(evaluate_ast(&ast), Err(EvalError::MalformedAst));
}

#[test]
fn evaluator_divides_exactly() {
    let ast = Expr::BinaryOp {
        op: Token::Divide,
        left: Box::new(Expr::Literal(Rat { num: 1, den: 1 })),
        right: Box::new(Expr::Literal(Rat { num: 3, den: 1 })),
    };
    let q = evaluate_ast(&ast).unwrap();
    assert_eq!(q.num, 1);
    assert_eq!(q.den, 3);
}

#[test]
fn parse_number_accepts_signed_decimals() {
    let q = parse_number("-12.5").unwrap();
    assert_eq!(q.num, -125);
    assert_eq!(q.den, 10);
    let q = parse_number("8").unwrap();
    assert_eq!(q.num, 8);
    assert_eq!(q.den, 1);
}

#[test]
fn parse_number_rejects_what_is_not_one_numeral() {
    for word in ["", "-", "abc", "1x2", "1.2.3", "--5", "1 2"] {
        match parse_number(word) {
            Err(LexError::InvalidNumber(sub)) => assert_eq!(sub, word),
            other => panic!("{:?} must be rejected, got {:?}", word, other),
        }
    }
}

#[test]
fn apply_op_computes_the_four_operations() {
    let three = Rat { num: 3, den: 1 };
    let half = Rat { num: 5, den: 10 };
    assert_eq!(apply_op(three, '+', half).unwrap(), Rat { num: 35, den: 10 });
    assert_eq!(apply_op(three, '-', half).unwrap(), Rat { num: 25, den: 10 });
    assert_eq!(apply_op(three, '*', half).unwrap(), Rat { num: 15, den: 10 });
    assert_eq!(apply_op(three, '/', half).unwrap(), Rat { num: 30, den: 5 });
}

#[test]
fn apply_op_rejects_zero_divisor_and_unknown_operator() {
    let one = Rat { num: 1, den: 1 };
    let zero = Rat { num: 0, den: 10 };
    assert_eq!(
        apply_op(one, '/', zero),
        Err(CalcError::Eval(EvalError::DivisionByZero))
    );
    assert_eq!(
        apply_op(one, '%', one),
        Err(CalcError::Lex(LexError::UnexpectedChar('%')))
    );
}
