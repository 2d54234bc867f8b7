//! End-to-end calculator tests: evaluate a string, check the display
//! string or the exact error.

use calcbot::render::evaluate;
use calcbot::token::EvalError;

#[test]
fn empty_input_is_unexpected_end() {
    assert_eq!(evaluate(""), Err(EvalError::UnexpectedEnd));
}

#[test]
fn blank_input_is_unexpected_end() {
    assert_eq!(evaluate("   "), Err(EvalError::UnexpectedEnd));
}

#[test]
fn two_plus_two() {
    assert_eq!(evaluate("2+2").unwrap(), "4");
}

#[test]
fn parens_pow_and_sub() {
    // (3+4) * (2^3) - 1 = 7 * 8 - 1
    assert_eq!(evaluate("(3+4)*(2^3)-1").unwrap(), "55");
}

#[test]
fn division_by_zero() {
    assert_eq!(evaluate("10/0"), Err(EvalError::DivisionByZero));
}

#[test]
fn dangling_operator_is_unexpected_end() {
    assert_eq!(evaluate("2+"), Err(EvalError::UnexpectedEnd));
}

#[test]
fn unclosed_paren() {
    assert_eq!(evaluate("(1+2"), Err(EvalError::MissingClosingParen));
}

#[test]
fn unknown_character() {
    assert_eq!(evaluate("2@3"), Err(EvalError::InvalidCharacter('@')));
}

#[test]
fn sqrt_of_square_plus_constant() {
    assert_eq!(evaluate("sqrt(144)+5").unwrap(), "17");
}

#[test]
fn unary_minus_binds_before_power() {
    assert_eq!(evaluate("-2^2").unwrap(), "4");
}

#[test]
fn precedence_mul_before_add() {
    assert_eq!(evaluate("2+3*4").unwrap(), "14");
}

#[test]
fn subtraction_is_left_associative() {
    assert_eq!(evaluate("10-2-3").unwrap(), "5");
}

#[test]
fn power_does_not_chain() {
    assert_eq!(evaluate("2^3^2"), Err(EvalError::UnexpectedTrailingToken));
}

#[test]
fn function_binds_one_primary() {
    // sqrt applies to 4 alone, then the result is squared.
    assert_eq!(evaluate("sqrt 4^2").unwrap(), "4");
}

#[test]
fn whitespace_is_skipped() {
    assert_eq!(evaluate("2 +\t2").unwrap(), "4");
}

#[test]
fn decimals_add_exactly() {
    assert_eq!(evaluate("0.1+0.2").unwrap(), "0.3");
}

#[test]
fn third_rounds_to_ten_places() {
    assert_eq!(evaluate("1/3").unwrap(), "0.3333333333");
}

#[test]
fn two_thirds_rounds_up() {
    assert_eq!(evaluate("2/3").unwrap(), "0.6666666667");
}

#[test]
fn integral_division_collapses() {
    assert_eq!(evaluate("10/4").unwrap(), "2.5");
}

#[test]
fn abs_floor_ceil_round() {
    assert_eq!(evaluate("abs(0-5)").unwrap(), "5");
    assert_eq!(evaluate("floor(3.7)").unwrap(), "3");
    assert_eq!(evaluate("ceil(3.2)").unwrap(), "4");
    assert_eq!(evaluate("round(2.5)").unwrap(), "3");
    assert_eq!(evaluate("round((0-5)/2)").unwrap(), "-3");
}

#[test]
fn powers() {
    assert_eq!(evaluate("2^10").unwrap(), "1024");
    assert_eq!(evaluate("2^0").unwrap(), "1");
    assert_eq!(evaluate("0^0").unwrap(), "1");
    assert_eq!(evaluate("2^(0-1)").unwrap(), "0.5");
    assert_eq!(evaluate("2^(4/2)").unwrap(), "4");
}

#[test]
fn sqrt_of_two_to_ten_places() {
    assert_eq!(evaluate("sqrt(2)").unwrap(), "1.4142135624");
}

#[test]
fn double_operator_expects_operand() {
    assert_eq!(evaluate("2++2"), Err(EvalError::ExpectedOperand));
}

#[test]
fn two_dots_are_an_invalid_number() {
    assert_eq!(evaluate("1.2.3"), Err(EvalError::InvalidNumber));
}

#[test]
fn lone_dot_is_an_invalid_number() {
    assert_eq!(evaluate("."), Err(EvalError::InvalidNumber));
}

#[test]
fn trailing_paren_is_a_trailing_token() {
    assert_eq!(evaluate("2)"), Err(EvalError::UnexpectedTrailingToken));
}

#[test]
fn leading_and_trailing_dots_parse() {
    assert_eq!(evaluate(".5+5.").unwrap(), "5.5");
}

#[test]
fn huge_power_is_unrepresentable() {
    assert_eq!(evaluate("2^64"), Err(EvalError::Unrepresentable));
}

#[test]
fn huge_product_is_unrepresentable() {
    assert_eq!(
        evaluate("10000000000*10000000000"),
        Err(EvalError::Unrepresentable)
    );
}

#[test]
fn fractional_exponent_is_unrepresentable() {
    assert_eq!(evaluate("2^0.5"), Err(EvalError::Unrepresentable));
}

#[test]
fn sqrt_of_negative_is_unrepresentable() {
    assert_eq!(evaluate("sqrt(0-1)"), Err(EvalError::Unrepresentable));
}

#[test]
fn ten_to_the_fifteenth_prints_plain() {
    assert_eq!(evaluate("10^15").unwrap(), "1000000000000000");
}

#[test]
fn tiny_negative_prints_minus_zero() {
    // Below half of the tenth decimal place the value rounds to zero,
    // but the sign of the value is kept, as IEEE formatting does.
    assert_eq!(evaluate("0-0.00000000001").unwrap(), "-0");
}
