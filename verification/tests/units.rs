//! Tests of the parts: lexer, parser cursor, formatter, error messages.

use calcbot::lexer::tokenize;
use calcbot::num::Value;
use calcbot::parser::{eval_tokens, parse_expr};
use calcbot::render::format_value;
use calcbot::token::{EvalError, Token};

#[test]
fn tokenize_number_with_decimal_point() {
    let ts = tokenize("3.14").unwrap();
    assert_eq!(ts, vec![Token::Number(Value { num: 314, den: 100 })]);
}

#[test]
fn tokenize_expression() {
    let ts = tokenize("sqrt(4)+1").unwrap();
    assert_eq!(
        ts,
        vec![
            Token::Sqrt,
            Token::LParen,
            Token::Number(Value { num: 4, den: 1 }),
            Token::RParen,
            Token::Plus,
            Token::Number(Value { num: 1, den: 1 }),
        ]
    );
}

#[test]
fn tokenize_all_keywords_and_operators() {
    let ts = tokenize("abs floor ceil round - * / ^ )").unwrap();
    assert_eq!(
        ts,
        vec![
            Token::Abs,
            Token::Floor,
            Token::Ceil,
            Token::Round,
            Token::Minus,
            Token::Star,
            Token::Slash,
            Token::Caret,
            Token::RParen,
        ]
    );
}

#[test]
fn tokenize_rejects_stray_letter() {
    assert_eq!(tokenize("sqx"), Err(EvalError::InvalidCharacter('s')));
}

#[test]
fn tokenize_rejects_huge_number() {
    assert_eq!(
        tokenize("99999999999999999999"),
        Err(EvalError::Unrepresentable)
    );
}

#[test]
fn tokenize_rejects_long_fraction() {
    assert_eq!(
        tokenize("0.0000000000000000001"),
        Err(EvalError::Unrepresentable)
    );
}

#[test]
fn successful_parse_consumes_every_token() {
    let ts = tokenize("2+2*3").unwrap();
    let mut p: usize = 0;
    let v = parse_expr(&ts, &mut p).unwrap();
    assert_eq!(p, ts.len());
    assert_eq!(v, Value { num: 8, den: 1 });
}

#[test]
fn eval_tokens_matches_parse() {
    let ts = tokenize("6/4").unwrap();
    assert_eq!(eval_tokens(&ts).unwrap(), Value { num: 6, den: 4 });
}

#[test]
fn format_integral_collapses() {
    assert_eq!(format_value(Value { num: 4, den: 2 }), "2");
    assert_eq!(format_value(Value { num: -9, den: 3 }), "-3");
    assert_eq!(format_value(Value { num: 0, den: 7 }), "0");
}

#[test]
fn format_fraction_strips_zeros() {
    assert_eq!(format_value(Value { num: 5, den: 2 }), "2.5");
    assert_eq!(format_value(Value { num: -9, den: 2 }), "-4.5");
    assert_eq!(format_value(Value { num: 314, den: 100 }), "3.14");
}

#[test]
fn format_repeating_fraction_rounds() {
    assert_eq!(format_value(Value { num: 1, den: 3 }), "0.3333333333");
    assert_eq!(format_value(Value { num: 2, den: 3 }), "0.6666666667");
}

#[test]
fn error_messages_name_the_problem() {
    assert_eq!(
        EvalError::InvalidCharacter('@').message(),
        "Unknown character: '@'"
    );
    assert_eq!(EvalError::InvalidNumber.message(), "Invalid number");
    assert_eq!(
        EvalError::UnexpectedEnd.message(),
        "Unexpected end of expression"
    );
    assert_eq!(
        EvalError::UnexpectedTrailingToken.message(),
        "Unexpected token at end of expression"
    );
    assert_eq!(
        EvalError::MissingClosingParen.message(),
        "Missing closing ')'"
    );
    assert_eq!(EvalError::DivisionByZero.message(), "Division by zero");
    assert_eq!(
        EvalError::ExpectedOperand.message(),
        "Expected number or '('"
    );
    assert_eq!(
        EvalError::Unrepresentable.message(),
        "Result not exactly representable"
    );
}
