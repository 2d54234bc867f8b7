//! Tokens of the expression language and the interpreter's error type.

use vstd::prelude::*;
use crate::num::{Value, rat_in_range};

verus! {

/// One lexical unit of an expression.
#[derive(Clone, Copy, Debug, PartialEq, Eq, Structural)]
pub enum Token {
    /// A numeric literal.
    Number(Value),
    Plus,
    Minus,
    Star,
    Slash,
    Caret,
    LParen,
    RParen,
    Sqrt,
    Abs,
    Floor,
    Ceil,
    Round,
}

/// Why an evaluation failed.  Lexical errors name the offending text,
/// structural errors the grammar point, and semantic errors the
/// undefined operation.
#[derive(Clone, Copy, Debug, PartialEq, Eq, Structural)]
pub enum EvalError {
    /// A character that is no digit, operator, parenthesis, space or
    /// function keyword.
    InvalidCharacter(char),
    /// A digit-and-dot run that is not a number (two dots, or no digit).
    InvalidNumber,
    /// The token sequence ended where the grammar needs one more token.
    UnexpectedEnd,
    /// A complete expression was parsed but tokens remain.
    UnexpectedTrailingToken,
    /// A parenthesised group is not closed by `)`.
    MissingClosingParen,
    /// Division by an operand equal to zero.
    DivisionByZero,
    /// An operator or function keyword stands where an operand (a
    /// number, `(`, or a function application) is needed.
    ExpectedOperand,
    /// The exact result (or an intermediate) leaves the representable
    /// range of `i64`-component rationals, or is irrational in a place
    /// that demands exactness (a fractional exponent).
    Unrepresentable,
}

/// A number token carries a well-formed value.
pub open spec fn wf_token(t: Token) -> bool {
    match t {
        Token::Number(v) => rat_in_range(v@),
        _ => true,
    }
}

/// All number tokens of the sequence carry well-formed values.
pub open spec fn wf_tokens(ts: Seq<Token>) -> bool {
    forall|k: int| 0 <= k < ts.len() ==> #[trigger] wf_token(ts[k])
}

} // verus!
