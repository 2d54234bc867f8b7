//! The parser/evaluator: a single-pass recursive descent over the token
//! sequence, evaluating eagerly to an exact rational value.
//!
//! Grammar (lowest precedence first):
//! ```text
//! expr    := term (('+' | '-') term)*
//! term    := power (('*' | '/') power)*
//! power   := unary ('^' unary)?          -- one '^' only, not chainable
//! unary   := '-' primary | primary       -- so -2^2 means (-2)^2
//! primary := Number | '(' expr ')' | function primary
//! ```
//! The functions [`sp_expr`] and friends are the exact model; each
//! executable rule returns precisely what its model denotes and says
//! where the cursor stands afterwards.

use vstd::prelude::*;
use crate::num::{
    Rat, Value, rat_in_range, rat_int, rat_add, rat_sub, rat_mul, rat_div, rat_neg, rat_abs,
    rat_floor, rat_ceil, rat_round, rat_pow_checked, rat_sqrt_checked, value_add, value_sub,
    value_mul, value_div, value_neg, value_abs, value_floor, value_ceil, value_round, value_pow,
    value_sqrt,
};
use crate::token::{Token, EvalError, wf_tokens, wf_token};
use crate::lexer::{sp_lex, Lexed, tokenize};

verus! {

/// The outcome of one grammar rule: a value and the cursor position
/// after it, or the first error.
pub ghost enum Parsed {
    Val { v: Rat, next: int },
    Fail(EvalError),
}

/// Clamp `x` into `lo ..= hi`.  The parse models apply this to inner
/// cursor positions; for the executable parser the clamp is always the
/// identity, it only makes the recursion of the model visibly bounded.
pub open spec fn cl(lo: int, x: int, hi: int) -> int {
    if x < lo {
        lo
    } else if x > hi {
        hi
    } else {
        x
    }
}

/// Model of `primary := Number | '(' expr ')' | function primary`.
pub open spec fn sp_primary(t: Seq<Token>, pos: int) -> Parsed
    decreases t.len() - pos, 0int,
    when 0 <= pos <= t.len()
{
    if pos >= t.len() {
        Parsed::Fail(EvalError::UnexpectedEnd)
    } else {
        match t[pos] {
            Token::Number(v) => Parsed::Val { v: v@, next: pos + 1 },
            Token::LParen => match sp_expr(t, pos + 1) {
                Parsed::Val { v, next } => {
                    let q = cl(pos + 1, next, t.len() as int);
                    if q < t.len() && t[q] is RParen {
                        Parsed::Val { v, next: q + 1 }
                    } else {
                        Parsed::Fail(EvalError::MissingClosingParen)
                    }
                },
                Parsed::Fail(e) => Parsed::Fail(e),
            },
            Token::Sqrt => match sp_primary(t, pos + 1) {
                Parsed::Val { v, next } => match rat_sqrt_checked(v) {
                    Option::Some(r) => Parsed::Val { v: r, next },
                    Option::None => Parsed::Fail(EvalError::Unrepresentable),
                },
                Parsed::Fail(e) => Parsed::Fail(e),
            },
            Token::Abs => match sp_primary(t, pos + 1) {
                Parsed::Val { v, next } => Parsed::Val { v: rat_abs(v), next },
                Parsed::Fail(e) => Parsed::Fail(e),
            },
            Token::Floor => match sp_primary(t, pos + 1) {
                Parsed::Val { v, next } => Parsed::Val { v: rat_int(rat_floor(v)), next },
                Parsed::Fail(e) => Parsed::Fail(e),
            },
            Token::Ceil => match sp_primary(t, pos + 1) {
                Parsed::Val { v, next } => Parsed::Val { v: rat_int(rat_ceil(v)), next },
                Parsed::Fail(e) => Parsed::Fail(e),
            },
            Token::Round => match sp_primary(t, pos + 1) {
                Parsed::Val { v, next } => Parsed::Val { v: rat_int(rat_round(v)), next },
                Parsed::Fail(e) => Parsed::Fail(e),
            },
            _ => Parsed::Fail(EvalError::ExpectedOperand),
        }
    }
}

/// Model of `unary := '-' primary | primary`.
pub open spec fn sp_unary(t: Seq<Token>, pos: int) -> Parsed
    decreases t.len() - pos, 1int,
    when 0 <= pos <= t.len()
{
    if pos < t.len() && t[pos] is Minus {
        match sp_primary(t, pos + 1) {
            Parsed::Val { v, next } => Parsed::Val { v: rat_neg(v), next },
            Parsed::Fail(e) => Parsed::Fail(e),
        }
    } else {
        sp_primary(t, pos)
    }
}

/// Model of `power := unary ('^' unary)?`.  A second consecutive `^`
/// is left unconsumed and surfaces as `UnexpectedTrailingToken` at the
/// outer level: exponentiation does not chain.
pub open spec fn sp_pow(t: Seq<Token>, pos: int) -> Parsed
    decreases t.len() - pos, 2int,
    when 0 <= pos <= t.len()
{
    match sp_unary(t, pos) {
        Parsed::Val { v, next } => {
            let q = cl(pos + 1, next, t.len() as int);
            if q < t.len() && t[q] is Caret {
                match sp_unary(t, q + 1) {
                    Parsed::Val { v: e, next: next2 } => match rat_pow_checked(v, e) {
                        Option::Some(r) => Parsed::Val { v: r, next: next2 },
                        Option::None => Parsed::Fail(EvalError::Unrepresentable),
                    },
                    Parsed::Fail(e) => Parsed::Fail(e),
                }
            } else {
                Parsed::Val { v, next: q }
            }
        },
        Parsed::Fail(e) => Parsed::Fail(e),
    }
}

/// Model of the `(('*' | '/') power)*` tail of a term, with `acc` the
/// value parsed so far.
pub open spec fn sp_term_more(t: Seq<Token>, pos: int, acc: Rat) -> Parsed
    decreases t.len() - pos, 4int,
    when 0 <= pos <= t.len()
{
    if pos < t.len() && t[pos] is Star {
        match sp_pow(t, pos + 1) {
            Parsed::Val { v, next } => {
                let r = rat_mul(acc, v);
                if !rat_in_range(r) {
                    Parsed::Fail(EvalError::Unrepresentable)
                } else {
                    sp_term_more(t, cl(pos + 1, next, t.len() as int), r)
                }
            },
            Parsed::Fail(e) => Parsed::Fail(e),
        }
    } else if pos < t.len() && t[pos] is Slash {
        match sp_pow(t, pos + 1) {
            Parsed::Val { v, next } => {
                if v.n == 0 {
                    Parsed::Fail(EvalError::DivisionByZero)
                } else {
                    let r = rat_div(acc, v);
                    if !rat_in_range(r) {
                        Parsed::Fail(EvalError::Unrepresentable)
                    } else {
                        sp_term_more(t, cl(pos + 1, next, t.len() as int), r)
                    }
                }
            },
            Parsed::Fail(e) => Parsed::Fail(e),
        }
    } else {
        Parsed::Val { v: acc, next: pos }
    }
}

/// Model of `term := power (('*' | '/') power)*`.
pub open spec fn sp_term(t: Seq<Token>, pos: int) -> Parsed
    decreases t.len() - pos, 3int,
    when 0 <= pos <= t.len()
{
    if pos >= t.len() {
        Parsed::Fail(EvalError::UnexpectedEnd)
    } else {
        match sp_pow(t, pos) {
            Parsed::Val { v, next } => sp_term_more(t, cl(pos + 1, next, t.len() as int), v),
            Parsed::Fail(e) => Parsed::Fail(e),
        }
    }
}

/// Model of the `(('+' | '-') term)*` tail of an expression.
pub open spec fn sp_expr_more(t: Seq<Token>, pos: int, acc: Rat) -> Parsed
    decreases t.len() - pos, 6int,
    when 0 <= pos <= t.len()
{
    if pos < t.len() && t[pos] is Plus {
        match sp_term(t, pos + 1) {
            Parsed::Val { v, next } => {
                let r = rat_add(acc, v);
                if !rat_in_range(r) {
                    Parsed::Fail(EvalError::Unrepresentable)
                } else {
                    sp_expr_more(t, cl(pos + 1, next, t.len() as int), r)
                }
            },
            Parsed::Fail(e) => Parsed::Fail(e),
        }
    } else if pos < t.len() && t[pos] is Minus {
        match sp_term(t, pos + 1) {
            Parsed::Val { v, next } => {
                let r = rat_sub(acc, v);
                if !rat_in_range(r) {
                    Parsed::Fail(EvalError::Unrepresentable)
                } else {
                    sp_expr_more(t, cl(pos + 1, next, t.len() as int), r)
                }
            },
            Parsed::Fail(e) => Parsed::Fail(e),
        }
    } else {
        Parsed::Val { v: acc, next: pos }
    }
}

/// Model of `expr := term (('+' | '-') term)*`.
pub open spec fn sp_expr(t: Seq<Token>, pos: int) -> Parsed
    decreases t.len() - pos, 5int,
    when 0 <= pos <= t.len()
{
    if pos >= t.len() {
        Parsed::Fail(EvalError::UnexpectedEnd)
    } else {
        match sp_term(t, pos) {
            Parsed::Val { v, next } => sp_expr_more(t, cl(pos + 1, next, t.len() as int), v),
            Parsed::Fail(e) => Parsed::Fail(e),
        }
    }
}

/// The outcome of evaluating a whole token sequence or string.
pub ghost enum EvalOut {
    Val(Rat),
    Fail(EvalError),
}

/// Model of evaluating a whole token sequence: the outermost `expr`
/// must consume every token.
pub open spec fn sp_eval_tokens(t: Seq<Token>) -> EvalOut {
    match sp_expr(t, 0) {
        Parsed::Val { v, next } => if next == t.len() {
            EvalOut::Val(v)
        } else {
            EvalOut::Fail(EvalError::UnexpectedTrailingToken)
        },
        Parsed::Fail(e) => EvalOut::Fail(e),
    }
}

/// Model of evaluating a whole input string.
pub open spec fn sp_evaluate(s: Seq<char>) -> EvalOut {
    match sp_lex(s, 0) {
        Lexed::Toks(ts) => sp_eval_tokens(ts),
        Lexed::Fail(e) => EvalOut::Fail(e),
    }
}

/// `primary := Number | '(' expr ')' | function primary`.
pub fn parse_primary(t: &Vec<Token>, p: &mut usize) -> (r: Result<Value, EvalError>)
    requires
        wf_tokens(t@),
        *old(p) <= t@.len(),
    ensures
        *final(p) <= t@.len(),
        match r {
            Ok(v) => v.wf() && *old(p) < *final(p) && sp_primary(t@, *old(p) as int)
                == (Parsed::Val { v: v@, next: *final(p) as int }),
            Err(e) => sp_primary(t@, *old(p) as int) == Parsed::Fail(e),
        },
    decreases t@.len() - *old(p), 0int,
{
    let n = t.len();
    if *p >= n {
        return Err(EvalError::UnexpectedEnd);
    }
    let tok = t[*p];
    proof {
        assert(wf_token(t@[*p as int]));
    }
    match tok {
        Token::Number(v) => {
            *p += 1;
            Ok(v)
        },
        Token::LParen => {
            *p += 1;
            let v = match parse_expr(t, p) {
                Ok(v) => v,
                Err(e) => {
                    return Err(e);
                },
            };
            if *p < n {
                let tk2 = t[*p];
                if matches!(tk2, Token::RParen) {
                    *p += 1;
                    return Ok(v);
                }
            }
            Err(EvalError::MissingClosingParen)
        },
        Token::Sqrt => {
            *p += 1;
            let v = match parse_primary(t, p) {
                Ok(v) => v,
                Err(e) => {
                    return Err(e);
                },
            };
            match value_sqrt(v) {
                Some(r) => Ok(r),
                None => Err(EvalError::Unrepresentable),
            }
        },
        Token::Abs => {
            *p += 1;
            let v = match parse_primary(t, p) {
                Ok(v) => v,
                Err(e) => {
                    return Err(e);
                },
            };
            Ok(value_abs(v))
        },
        Token::Floor => {
            *p += 1;
            let v = match parse_primary(t, p) {
                Ok(v) => v,
                Err(e) => {
                    return Err(e);
                },
            };
            Ok(value_floor(v))
        },
        Token::Ceil => {
            *p += 1;
            let v = match parse_primary(t, p) {
                Ok(v) => v,
                Err(e) => {
                    return Err(e);
                },
            };
            Ok(value_ceil(v))
        },
        Token::Round => {
            *p += 1;
            let v = match parse_primary(t, p) {
                Ok(v) => v,
                Err(e) => {
                    return Err(e);
                },
            };
            Ok(value_round(v))
        },
        _ => Err(EvalError::ExpectedOperand),
    }
}

/// `unary := '-' primary | primary`.
pub fn parse_unary(t: &Vec<Token>, p: &mut usize) -> (r: Result<Value, EvalError>)
    requires
        wf_tokens(t@),
        *old(p) <= t@.len(),
    ensures
        *final(p) <= t@.len(),
        match r {
            Ok(v) => v.wf() && *old(p) < *final(p) && sp_unary(t@, *old(p) as int)
                == (Parsed::Val { v: v@, next: *final(p) as int }),
            Err(e) => sp_unary(t@, *old(p) as int) == Parsed::Fail(e),
        },
    decreases t@.len() - *old(p), 1int,
{
    let n = t.len();
    if *p < n {
        let tok = t[*p];
        if matches!(tok, Token::Minus) {
            *p += 1;
            return match parse_primary(t, p) {
                Ok(v) => Ok(value_neg(v)),
                Err(e) => Err(e),
            };
        }
    }
    parse_primary(t, p)
}

/// `power := unary ('^' unary)?`.
pub fn parse_pow(t: &Vec<Token>, p: &mut usize) -> (r: Result<Value, EvalError>)
    requires
        wf_tokens(t@),
        *old(p) <= t@.len(),
    ensures
        *final(p) <= t@.len(),
        match r {
            Ok(v) => v.wf() && *old(p) < *final(p) && sp_pow(t@, *old(p) as int)
                == (Parsed::Val { v: v@, next: *final(p) as int }),
            Err(e) => sp_pow(t@, *old(p) as int) == Parsed::Fail(e),
        },
    decreases t@.len() - *old(p), 2int,
{
    let n = t.len();
    let base = match parse_unary(t, p) {
        Ok(v) => v,
        Err(e) => {
            return Err(e);
        },
    };
    if *p < n {
        let tok = t[*p];
        if matches!(tok, Token::Caret) {
            *p += 1;
            let ex = match parse_unary(t, p) {
                Ok(v) => v,
                Err(e) => {
                    return Err(e);
                },
            };
            return match value_pow(base, ex) {
                Some(r) => Ok(r),
                None => Err(EvalError::Unrepresentable),
            };
        }
    }
    Ok(base)
}

fn at_mulop(t: &Vec<Token>, i: usize) -> (b: bool)
    ensures
        b == (i < t@.len() && (t@[i as int] is Star || t@[i as int] is Slash)),
{
    if i < t.len() {
        let tok = t[i];
        matches!(tok, Token::Star | Token::Slash)
    } else {
        false
    }
}

fn at_addop(t: &Vec<Token>, i: usize) -> (b: bool)
    ensures
        b == (i < t@.len() && (t@[i as int] is Plus || t@[i as int] is Minus)),
{
    if i < t.len() {
        let tok = t[i];
        matches!(tok, Token::Plus | Token::Minus)
    } else {
        false
    }
}

/// `term := power (('*' | '/') power)*`, evaluated left to right.
pub fn parse_term(t: &Vec<Token>, p: &mut usize) -> (r: Result<Value, EvalError>)
    requires
        wf_tokens(t@),
        *old(p) <= t@.len(),
    ensures
        *final(p) <= t@.len(),
        match r {
            Ok(v) => v.wf() && *old(p) < *final(p) && sp_term(t@, *old(p) as int)
                == (Parsed::Val { v: v@, next: *final(p) as int }),
            Err(e) => sp_term(t@, *old(p) as int) == Parsed::Fail(e),
        },
    decreases t@.len() - *old(p), 3int,
{
    let ghost pos0: int = *p as int;
    let tlen = t.len();
    let mut v = match parse_pow(t, p) {
        Ok(v) => v,
        Err(e) => {
            return Err(e);
        },
    };
    let mut go = at_mulop(t, *p);
    while go
        invariant
            wf_tokens(t@),
            v.wf(),
            pos0 == *old(p) as int,
            pos0 < *p as int <= t@.len(),
            tlen == t@.len(),
            go == (*p < t@.len() && (t@[*p as int] is Star || t@[*p as int] is Slash)),
            sp_term(t@, pos0) == sp_term_more(t@, *p as int, v@),
        decreases t@.len() - *p,
    {
        let op = t[*p];
        *p += 1;
        let rhs = match parse_pow(t, p) {
            Ok(v) => v,
            Err(e) => {
                return Err(e);
            },
        };
        if matches!(op, Token::Star) {
            match value_mul(v, rhs) {
                Some(r) => {
                    v = r;
                },
                None => {
                    return Err(EvalError::Unrepresentable);
                },
            }
        } else {
            if rhs.num == 0 {
                return Err(EvalError::DivisionByZero);
            }
            match value_div(v, rhs) {
                Some(r) => {
                    v = r;
                },
                None => {
                    return Err(EvalError::Unrepresentable);
                },
            }
        }
        go = at_mulop(t, *p);
    }
    Ok(v)
}

/// `expr := term (('+' | '-') term)*`, evaluated left to right.
pub fn parse_expr(t: &Vec<Token>, p: &mut usize) -> (r: Result<Value, EvalError>)
    requires
        wf_tokens(t@),
        *old(p) <= t@.len(),
    ensures
        *final(p) <= t@.len(),
        match r {
            Ok(v) => v.wf() && *old(p) < *final(p) && sp_expr(t@, *old(p) as int)
                == (Parsed::Val { v: v@, next: *final(p) as int }),
            Err(e) => sp_expr(t@, *old(p) as int) == Parsed::Fail(e),
        },
    decreases t@.len() - *old(p), 5int,
{
    let ghost pos0: int = *p as int;
    let tlen = t.len();
    let mut v = match parse_term(t, p) {
        Ok(v) => v,
        Err(e) => {
            return Err(e);
        },
    };
    let mut go = at_addop(t, *p);
    while go
        invariant
            wf_tokens(t@),
            v.wf(),
            pos0 == *old(p) as int,
            pos0 < *p as int <= t@.len(),
            tlen == t@.len(),
            go == (*p < t@.len() && (t@[*p as int] is Plus || t@[*p as int] is Minus)),
            sp_expr(t@, pos0) == sp_expr_more(t@, *p as int, v@),
        decreases t@.len() - *p,
    {
        let op = t[*p];
        *p += 1;
        let rhs = match parse_term(t, p) {
            Ok(v) => v,
            Err(e) => {
                return Err(e);
            },
        };
        if matches!(op, Token::Plus) {
            match value_add(v, rhs) {
                Some(r) => {
                    v = r;
                },
                None => {
                    return Err(EvalError::Unrepresentable);
                },
            }
        } else {
            match value_sub(v, rhs) {
                Some(r) => {
                    v = r;
                },
                None => {
                    return Err(EvalError::Unrepresentable);
                },
            }
        }
        go = at_addop(t, *p);
    }
    Ok(v)
}

/// Evaluate a whole token sequence; a successful parse must consume
/// every token.
pub fn eval_tokens(t: &Vec<Token>) -> (r: Result<Value, EvalError>)
    requires
        wf_tokens(t@),
    ensures
        match r {
            Ok(v) => v.wf() && sp_eval_tokens(t@) == EvalOut::Val(v@),
            Err(e) => sp_eval_tokens(t@) == EvalOut::Fail(e),
        },
{
    let mut p: usize = 0;
    let v = match parse_expr(t, &mut p) {
        Ok(v) => v,
        Err(e) => {
            return Err(e);
        },
    };
    if p != t.len() {
        return Err(EvalError::UnexpectedTrailingToken);
    }
    Ok(v)
}

/// Evaluate an input string to an exact rational value: lex, then
/// parse and evaluate in one pass.
pub fn eval_expr(s: &str) -> (r: Result<Value, EvalError>)
    ensures
        match r {
            Ok(v) => v.wf() && sp_evaluate(s@) == EvalOut::Val(v@),
            Err(e) => sp_evaluate(s@) == EvalOut::Fail(e),
        },
{
    let ts = match tokenize(s) {
        Ok(ts) => ts,
        Err(e) => {
            return Err(e);
        },
    };
    eval_tokens(&ts)
}

/// A successful evaluation consumes the entire token sequence: when
/// the whole-sequence evaluation yields a value, the outermost
/// expression ends exactly at the end of the tokens.
pub proof fn lemma_success_consumes_all(t: Seq<Token>)
    ensures
        sp_eval_tokens(t) is Val ==> sp_expr(t, 0) == (Parsed::Val {
            v: sp_eval_tokens(t)->Val_0,
            next: t.len() as int,
        }),
{
}

} // verus!
