//! The lexer: raw text to a flat token sequence.
//!
//! Whitespace (space, tab) is skipped; maximal runs of digits and dots
//! become number tokens; the five function names are recognised as
//! whole-word keywords; `+ - * / ^ ( )` are single-character tokens;
//! anything else fails with `InvalidCharacter`.  The function
//! [`sp_lex`] is the exact model of this process.

use vstd::prelude::*;
use vstd::string::StrSliceExecFns;
use crate::num::Value;
use crate::token::{Token, EvalError, wf_tokens, wf_token};

verus! {

use vstd::arithmetic::power::pow;

/// Whitespace that the lexer skips.
pub open spec fn is_space(c: char) -> bool {
    c == ' ' || c == '\t'
}

/// An ASCII decimal digit.
pub open spec fn is_digit(c: char) -> bool {
    48 <= c as u32 <= 57
}

/// A character that may stand in a number run: a digit or a dot.
pub open spec fn is_numch(c: char) -> bool {
    is_digit(c) || c == '.'
}

/// The numeric value of a digit character.
pub open spec fn digit_val(c: char) -> int {
    c as u32 - 48
}

/// How many dots a run holds.
pub open spec fn dot_count(cs: Seq<char>) -> int
    decreases cs.len(),
{
    if cs.len() == 0 {
        0
    } else {
        dot_count(cs.drop_last()) + if cs.last() == '.' {
            1int
        } else {
            0int
        }
    }
}

/// The run with its dots removed.
pub open spec fn just_digits(cs: Seq<char>) -> Seq<char>
    decreases cs.len(),
{
    if cs.len() == 0 {
        Seq::empty()
    } else if cs.last() == '.' {
        just_digits(cs.drop_last())
    } else {
        just_digits(cs.drop_last()).push(cs.last())
    }
}

/// The integer denoted by a sequence of digit characters.
pub open spec fn digits_val(ds: Seq<char>) -> int
    decreases ds.len(),
{
    if ds.len() == 0 {
        0
    } else {
        10 * digits_val(ds.drop_last()) + digit_val(ds.last())
    }
}

/// How many digits of the run stand after its dot.
pub open spec fn frac_len(cs: Seq<char>) -> int
    decreases cs.len(),
{
    if cs.len() == 0 {
        0
    } else if cs.last() == '.' {
        0
    } else if dot_count(cs.drop_last()) >= 1 {
        frac_len(cs.drop_last()) + 1
    } else {
        0
    }
}

/// A run parses as a number: at most one dot, at least one digit.
pub open spec fn run_valid(cs: Seq<char>) -> bool {
    dot_count(cs) <= 1 && just_digits(cs).len() >= 1
}

/// The run's numerator and denominator both fit the representation.
pub open spec fn run_in_range(cs: Seq<char>) -> bool {
    digits_val(just_digits(cs)) <= i64::MAX as int
        && pow(10, frac_len(cs) as nat) <= i64::MAX as int
}

/// The number token a valid, in-range run denotes.
pub open spec fn number_token(cs: Seq<char>) -> Token {
    Token::Number(
        Value {
            num: digits_val(just_digits(cs)) as i64,
            den: pow(10, frac_len(cs) as nat) as i64,
        },
    )
}

/// The first position at or after `i` that is no digit and no dot.
pub open spec fn num_end(s: Seq<char>, i: int) -> int
    decreases s.len() - i,
    when 0 <= i <= s.len()
{
    if i >= s.len() {
        i
    } else if is_numch(s[i]) {
        let j = num_end(s, i + 1);
        if j < i + 1 {
            i + 1
        } else {
            j
        }
    } else {
        i
    }
}

/// `num_end` stays between its argument and the end of the text.
proof fn lemma_num_end_ge(s: Seq<char>, i: int)
    requires
        0 <= i <= s.len(),
    ensures
        i <= num_end(s, i) <= s.len(),
    decreases s.len() - i,
{
    if i < s.len() && is_numch(s[i]) {
        lemma_num_end_ge(s, i + 1);
    }
}

/// The result of lexing: a token sequence, or the first error.
pub ghost enum Lexed {
    Toks(Seq<Token>),
    Fail(EvalError),
}

/// Put one token in front of a lexing result.
pub open spec fn lex_prepend(t: Token, rest: Lexed) -> Lexed {
    match rest {
        Lexed::Toks(ts) => Lexed::Toks(seq![t] + ts),
        Lexed::Fail(e) => Lexed::Fail(e),
    }
}

/// Put finished tokens in front of a lexing result.
pub open spec fn lex_concat(ts: Seq<Token>, rest: Lexed) -> Lexed {
    match rest {
        Lexed::Toks(us) => Lexed::Toks(ts + us),
        Lexed::Fail(e) => Lexed::Fail(e),
    }
}

proof fn lemma_concat_prepend(ts: Seq<Token>, t: Token, rest: Lexed)
    ensures
        lex_concat(ts, lex_prepend(t, rest)) == lex_concat(ts.push(t), rest),
{
    match rest {
        Lexed::Toks(us) => {
            assert(ts + (seq![t] + us) =~= ts.push(t) + us);
        },
        Lexed::Fail(_) => {},
    }
}

pub open spec fn kw_sqrt(s: Seq<char>, i: int) -> bool {
    i + 4 <= s.len() && s[i] == 's' && s[i + 1] == 'q' && s[i + 2] == 'r' && s[i + 3] == 't'
}

pub open spec fn kw_abs(s: Seq<char>, i: int) -> bool {
    i + 3 <= s.len() && s[i] == 'a' && s[i + 1] == 'b' && s[i + 2] == 's'
}

pub open spec fn kw_floor(s: Seq<char>, i: int) -> bool {
    i + 5 <= s.len() && s[i] == 'f' && s[i + 1] == 'l' && s[i + 2] == 'o' && s[i + 3] == 'o'
        && s[i + 4] == 'r'
}

pub open spec fn kw_ceil(s: Seq<char>, i: int) -> bool {
    i + 4 <= s.len() && s[i] == 'c' && s[i + 1] == 'e' && s[i + 2] == 'i' && s[i + 3] == 'l'
}

pub open spec fn kw_round(s: Seq<char>, i: int) -> bool {
    i + 5 <= s.len() && s[i] == 'r' && s[i + 1] == 'o' && s[i + 2] == 'u' && s[i + 3] == 'n'
        && s[i + 4] == 'd'
}

/// The exact model of lexing from position `i` on.
pub open spec fn sp_lex(s: Seq<char>, i: int) -> Lexed
    decreases s.len() - i,
    when 0 <= i <= s.len()
{
    if i >= s.len() {
        Lexed::Toks(Seq::empty())
    } else {
        let c = s[i];
        if is_space(c) {
            sp_lex(s, i + 1)
        } else if is_numch(c) {
            let j0 = num_end(s, i);
            let j = if j0 < i + 1 {
                i + 1
            } else if j0 > s.len() {
                s.len() as int
            } else {
                j0
            };
            let cs = s.subrange(i, j);
            if !run_valid(cs) {
                Lexed::Fail(EvalError::InvalidNumber)
            } else if !run_in_range(cs) {
                Lexed::Fail(EvalError::Unrepresentable)
            } else {
                lex_prepend(number_token(cs), sp_lex(s, j))
            }
        } else if c == '+' {
            lex_prepend(Token::Plus, sp_lex(s, i + 1))
        } else if c == '-' {
            lex_prepend(Token::Minus, sp_lex(s, i + 1))
        } else if c == '*' {
            lex_prepend(Token::Star, sp_lex(s, i + 1))
        } else if c == '/' {
            lex_prepend(Token::Slash, sp_lex(s, i + 1))
        } else if c == '^' {
            lex_prepend(Token::Caret, sp_lex(s, i + 1))
        } else if c == '(' {
            lex_prepend(Token::LParen, sp_lex(s, i + 1))
        } else if c == ')' {
            lex_prepend(Token::RParen, sp_lex(s, i + 1))
        } else if kw_sqrt(s, i) {
            lex_prepend(Token::Sqrt, sp_lex(s, i + 4))
        } else if kw_abs(s, i) {
            lex_prepend(Token::Abs, sp_lex(s, i + 3))
        } else if kw_floor(s, i) {
            lex_prepend(Token::Floor, sp_lex(s, i + 5))
        } else if kw_ceil(s, i) {
            lex_prepend(Token::Ceil, sp_lex(s, i + 4))
        } else if kw_round(s, i) {
            lex_prepend(Token::Round, sp_lex(s, i + 5))
        } else {
            Lexed::Fail(EvalError::InvalidCharacter(c))
        }
    }
}

/// The characters of `s`, as a vector.
pub fn chars_of(s: &str) -> (v: Vec<char>)
    ensures
        v@ == s@,
{
    let n = s.unicode_len();
    let mut v: Vec<char> = Vec::new();
    let mut i: usize = 0;
    while i < n
        invariant
            i <= n,
            n == s@.len(),
            v@ == s@.subrange(0, i as int),
        decreases n - i,
    {
        let c = s.get_char(i);
        v.push(c);
        proof {
            assert(s@.subrange(0, (i + 1) as int) =~= s@.subrange(0, i as int).push(
                s@[i as int],
            ));
        }
        i += 1;
    }
    proof {
        assert(s@.subrange(0, n as int) =~= s@);
    }
    v
}

fn is_space_x(c: char) -> (b: bool)
    ensures
        b == is_space(c),
{
    c == ' ' || c == '\t'
}

fn is_digit_x(c: char) -> (b: bool)
    ensures
        b == is_digit(c),
{
    let u = c as u32;
    48 <= u && u <= 57
}

fn is_numch_x(c: char) -> (b: bool)
    ensures
        b == is_numch(c),
{
    is_digit_x(c) || c == '.'
}

/// `pow(10, k)` for small `k`, as an `i64`.
fn pow10_i64(k: u64) -> (r: i64)
    requires
        k <= 18,
    ensures
        1 <= r,
        r as int == pow(10, k as nat),
{
    proof {
        vstd::arithmetic::power::lemma_pow0(10);
    }
    let mut acc: i64 = 1;
    let mut i: u64 = 0;
    while i < k
        invariant
            i <= k <= 18,
            1 <= acc,
            acc as int == pow(10, i as nat),
            acc <= 1_000_000_000_000_000_000i64,
        decreases k - i,
    {
        proof {
            vstd::arithmetic::power::lemma_pow_adds(10, i as nat, 1);
            vstd::arithmetic::power::lemma_pow1(10);
            vstd::arithmetic::power::lemma_pow_increases(10, (i + 1) as nat, 18);
            reveal_with_fuel(pow, 19);
            assert(pow(10, 18) == 1_000_000_000_000_000_000int);
        }
        acc = acc * 10;
        i = i + 1;
    }
    acc
}

/// Lex a whole string.  Returns exactly what [`sp_lex`] denotes from
/// position 0: the full token sequence, or the first error.
#[verifier::rlimit(60)]
pub fn tokenize(s: &str) -> (r: Result<Vec<Token>, EvalError>)
    ensures
        match r {
            Ok(ts) => sp_lex(s@, 0) == Lexed::Toks(ts@) && wf_tokens(ts@),
            Err(e) => sp_lex(s@, 0) == Lexed::Fail(e),
        },
{
    let v = chars_of(s);
    let n = v.len();
    let mut out: Vec<Token> = Vec::new();
    let mut i: usize = 0;
    proof {
        if sp_lex(s@, 0) is Toks {
            assert(Seq::<Token>::empty() + sp_lex(s@, 0)->Toks_0 =~= sp_lex(s@, 0)->Toks_0);
        }
    }
    while i < n
        invariant
            i <= n,
            n == s@.len(),
            v@ == s@,
            wf_tokens(out@),
            sp_lex(s@, 0) == lex_concat(out@, sp_lex(s@, i as int)),
        decreases n - i,
    {
        let c = v[i];
        if is_space_x(c) {
            i += 1;
        } else if is_numch_x(c) {
            // Find the end of the run.
            let mut j: usize = i;
            while j < n && is_numch_x(v[j])
                invariant
                    i <= j <= n,
                    n == s@.len(),
                    v@ == s@,
                    forall|k: int| i <= k < j ==> is_numch(#[trigger] s@[k]),
                    num_end(s@, i as int) == num_end(s@, j as int),
                decreases n - j,
            {
                proof {
                    lemma_num_end_ge(s@, j as int + 1);
                }
                j += 1;
            }
            proof {
                assert(num_end(s@, j as int) == j as int);
            }
            let ghost cs = s@.subrange(i as int, j as int);
            // One pass over the run: dots, digits, value, fractional digits.
            let mut dots: u64 = 0;
            let mut digs: u64 = 0;
            let mut fr: u64 = 0;
            let mut seen_dot = false;
            let mut too_big = false;
            let mut acc: u64 = 0;
            let mut k: usize = i;
            while k < j
                invariant
                    i <= k <= j <= n,
                    n == s@.len(),
                    v@ == s@,
                    forall|m: int| i <= m < j ==> is_numch(#[trigger] s@[m]),
                    dots as int == dot_count(s@.subrange(i as int, k as int)),
                    digs as int == just_digits(s@.subrange(i as int, k as int)).len(),
                    fr as int == frac_len(s@.subrange(i as int, k as int)),
                    dots as int <= k as int - i as int,
                    digs as int <= k as int - i as int,
                    fr as int <= k as int - i as int,
                    seen_dot == (dot_count(s@.subrange(i as int, k as int)) >= 1),
                    too_big == (digits_val(just_digits(s@.subrange(i as int, k as int)))
                        > i64::MAX as int),
                    !too_big ==> acc as int == digits_val(
                        just_digits(s@.subrange(i as int, k as int)),
                    ),
                    acc <= i64::MAX as u64,
                decreases j - k,
            {
                let ghost pref = s@.subrange(i as int, k as int);
                proof {
                    assert(s@.subrange(i as int, (k + 1) as int) =~= pref.push(s@[k as int]));
                    assert(pref.push(s@[k as int]).drop_last() =~= pref);
                    assert(pref.push(s@[k as int]).last() == s@[k as int]);
                    assert(is_numch(s@[k as int]));
                }
                let c2 = v[k];
                if c2 == '.' {
                    dots += 1;
                    seen_dot = true;
                    fr = 0;
                } else {
                    proof {
                        assert(is_digit(s@[k as int]));
                        let jd = just_digits(pref);
                        assert(jd.push(s@[k as int]).drop_last() =~= jd);
                        assert(jd.push(s@[k as int]).last() == s@[k as int]);
                        assert(just_digits(pref.push(s@[k as int])) =~= jd.push(s@[k as int]));
                        assert(digits_val(just_digits(pref.push(s@[k as int])))
                            == 10 * digits_val(jd) + digit_val(s@[k as int]));
                    }
                    let d = (c2 as u32) - 48;
                    digs += 1;
                    if seen_dot {
                        fr += 1;
                    }
                    if !too_big {
                        let next: u128 = (acc as u128) * 10 + (d as u128);
                        if next > i64::MAX as u128 {
                            too_big = true;
                        } else {
                            acc = next as u64;
                        }
                    }
                }
                k += 1;
            }
            proof {
                assert(s@.subrange(i as int, j as int) =~= cs);
            }
            if dots > 1 || digs == 0 {
                proof {
                    assert(sp_lex(s@, i as int) == Lexed::Fail(EvalError::InvalidNumber));
                }
                return Err(EvalError::InvalidNumber);
            }
            if too_big {
                proof {
                    assert(sp_lex(s@, i as int) == Lexed::Fail(EvalError::Unrepresentable));
                }
                return Err(EvalError::Unrepresentable);
            }
            if fr > 18 {
                proof {
                    reveal_with_fuel(pow, 20);
                    assert(pow(10, 19) == 10_000_000_000_000_000_000int);
                    vstd::arithmetic::power::lemma_pow_increases(10, 19, fr as nat);
                    assert(sp_lex(s@, i as int) == Lexed::Fail(EvalError::Unrepresentable));
                }
                return Err(EvalError::Unrepresentable);
            }
            let den = pow10_i64(fr);
            let tok = Token::Number(Value { num: acc as i64, den: den });
            proof {
                assert(run_valid(cs));
                assert(run_in_range(cs));
                assert(tok == number_token(cs));
                assert(wf_token(tok));
                assert(sp_lex(s@, i as int) == lex_prepend(tok, sp_lex(s@, j as int)));
                lemma_concat_prepend(out@, tok, sp_lex(s@, j as int));
            }
            out.push(tok);
            i = j;
        } else if c == '+' {
            proof {
                lemma_concat_prepend(out@, Token::Plus, sp_lex(s@, i as int + 1));
            }
            out.push(Token::Plus);
            i += 1;
        } else if c == '-' {
            proof {
                lemma_concat_prepend(out@, Token::Minus, sp_lex(s@, i as int + 1));
            }
            out.push(Token::Minus);
            i += 1;
        } else if c == '*' {
            proof {
                lemma_concat_prepend(out@, Token::Star, sp_lex(s@, i as int + 1));
            }
            out.push(Token::Star);
            i += 1;
        } else if c == '/' {
            proof {
                lemma_concat_prepend(out@, Token::Slash, sp_lex(s@, i as int + 1));
            }
            out.push(Token::Slash);
            i += 1;
        } else if c == '^' {
            proof {
                lemma_concat_prepend(out@, Token::Caret, sp_lex(s@, i as int + 1));
            }
            out.push(Token::Caret);
            i += 1;
        } else if c == '(' {
            proof {
                lemma_concat_prepend(out@, Token::LParen, sp_lex(s@, i as int + 1));
            }
            out.push(Token::LParen);
            i += 1;
        } else if c == ')' {
            proof {
                lemma_concat_prepend(out@, Token::RParen, sp_lex(s@, i as int + 1));
            }
            out.push(Token::RParen);
            i += 1;
        } else if c == 's' && n - i >= 4 && v[i + 1] == 'q' && v[i + 2] == 'r' && v[i + 3] == 't' {
            proof {
                lemma_concat_prepend(out@, Token::Sqrt, sp_lex(s@, i as int + 4));
            }
            out.push(Token::Sqrt);
            i += 4;
        } else if c == 'a' && n - i >= 3 && v[i + 1] == 'b' && v[i + 2] == 's' {
            proof {
                lemma_concat_prepend(out@, Token::Abs, sp_lex(s@, i as int + 3));
            }
            out.push(Token::Abs);
            i += 3;
        } else if c == 'f' && n - i >= 5 && v[i + 1] == 'l' && v[i + 2] == 'o' && v[i + 3] == 'o'
            && v[i + 4] == 'r' {
            proof {
                lemma_concat_prepend(out@, Token::Floor, sp_lex(s@, i as int + 5));
            }
            out.push(Token::Floor);
            i += 5;
        } else if c == 'c' && n - i >= 4 && v[i + 1] == 'e' && v[i + 2] == 'i' && v[i + 3] == 'l' {
            proof {
                lemma_concat_prepend(out@, Token::Ceil, sp_lex(s@, i as int + 4));
            }
            out.push(Token::Ceil);
            i += 4;
        } else if c == 'r' && n - i >= 5 && v[i + 1] == 'o' && v[i + 2] == 'u' && v[i + 3] == 'n'
            && v[i + 4] == 'd' {
            proof {
                lemma_concat_prepend(out@, Token::Round, sp_lex(s@, i as int + 5));
            }
            out.push(Token::Round);
            i += 5;
        } else {
            proof {
                assert(sp_lex(s@, i as int) == Lexed::Fail(EvalError::InvalidCharacter(c)));
            }
            return Err(EvalError::InvalidCharacter(c));
        }
    }
    proof {
        assert(out@ + Seq::<Token>::empty() =~= out@);
    }
    Ok(out)
}

} // verus!
