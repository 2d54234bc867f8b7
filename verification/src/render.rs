//! The result formatter: an exact rational to its display string.
//!
//! An integral value whose magnitude is below `10^15` is rendered as a
//! plain integer.  Every other value is rounded to ten digits after the
//! decimal point, rendered, and stripped of trailing zeros (and of the
//! decimal point, if nothing follows it).  [`sp_format`] is the exact
//! model of the output.

use vstd::prelude::*;
use vstd::string::StringExecFns;
use crate::num::{Rat, Value, rat_round};
use crate::token::EvalError;
use crate::parser::{EvalOut, sp_evaluate, eval_expr};
use crate::lexer::{digits_val, digit_val};

verus! {

use vstd::arithmetic::power::pow;

/// The character for one decimal digit.
pub open spec fn digit_char(d: int) -> char {
    if d == 0 {
        '0'
    } else if d == 1 {
        '1'
    } else if d == 2 {
        '2'
    } else if d == 3 {
        '3'
    } else if d == 4 {
        '4'
    } else if d == 5 {
        '5'
    } else if d == 6 {
        '6'
    } else if d == 7 {
        '7'
    } else if d == 8 {
        '8'
    } else {
        '9'
    }
}

/// The decimal digits of a non-negative integer, most significant first.
pub open spec fn dec_str(n: int) -> Seq<char>
    decreases n,
{
    if n < 10 {
        seq![digit_char(n)]
    } else {
        dec_str(n / 10).push(digit_char(n % 10))
    }
}

/// A non-negative integer with a minus sign when negative.
pub open spec fn int_str(i: int) -> Seq<char> {
    if i < 0 {
        seq!['-'] + dec_str(-i)
    } else {
        dec_str(i)
    }
}

/// The last `k` decimal digits of `n`, zero-padded to width `k`.
pub open spec fn pad_digits(n: int, k: nat) -> Seq<char>
    decreases k,
{
    if k == 0 {
        Seq::empty()
    } else {
        pad_digits(n / 10, (k - 1) as nat).push(digit_char(n % 10))
    }
}

/// Trailing `'0'` characters removed.
pub open spec fn strip0(s: Seq<char>) -> Seq<char>
    decreases s.len(),
{
    if s.len() > 0 && s.last() == '0' {
        strip0(s.drop_last())
    } else {
        s
    }
}

/// The display string of a value: a plain integer where the value is
/// integral with magnitude below `10^15`; otherwise the value rounded
/// to ten decimal places, with trailing zeros (and a bare trailing
/// decimal point) stripped.
pub open spec fn sp_format(a: Rat) -> Seq<char> {
    if a.n % a.d == 0 && -(pow(10, 15)) < a.n / a.d < pow(10, 15) {
        int_str(a.n / a.d)
    } else {
        let m = rat_round(Rat { n: a.n * pow(10, 10), d: a.d });
        let mm = if m < 0 {
            -m
        } else {
            m
        };
        let sign: Seq<char> = if a.n < 0 {
            seq!['-']
        } else {
            Seq::empty()
        };
        let ip = mm / pow(10, 10);
        let fp = mm % pow(10, 10);
        if fp == 0 {
            sign + dec_str(ip)
        } else {
            sign + dec_str(ip) + seq!['.'] + strip0(pad_digits(fp, 10))
        }
    }
}

/// Relies on `String::push`: appends exactly one character.
#[verifier::external_body]
fn push_char(s: &mut String, c: char)
    ensures
        final(s)@ == old(s)@.push(c),
{
    s.push(c);
}

/// Build a string holding exactly the given characters.
pub(crate) fn chars_to_string(v: &Vec<char>) -> (s: String)
    ensures
        s@ == v@,
{
    let mut s = String::new();
    let mut i: usize = 0;
    while i < v.len()
        invariant
            i <= v@.len(),
            s@ == v@.subrange(0, i as int),
        decreases v@.len() - i,
    {
        push_char(&mut s, v[i]);
        proof {
            assert(v@.subrange(0, (i + 1) as int) =~= v@.subrange(0, i as int).push(
                v@[i as int],
            ));
        }
        i += 1;
    }
    proof {
        assert(v@.subrange(0, v@.len() as int) =~= v@);
    }
    s
}

fn digit_char_x(d: u64) -> (c: char)
    requires
        d < 10,
    ensures
        c == digit_char(d as int),
{
    if d == 0 {
        '0'
    } else if d == 1 {
        '1'
    } else if d == 2 {
        '2'
    } else if d == 3 {
        '3'
    } else if d == 4 {
        '4'
    } else if d == 5 {
        '5'
    } else if d == 6 {
        '6'
    } else if d == 7 {
        '7'
    } else if d == 8 {
        '8'
    } else {
        '9'
    }
}

/// Append the decimal digits of `n` to `out`.
pub(crate) fn push_dec(n: u64, out: &mut Vec<char>)
    ensures
        final(out)@ == old(out)@ + dec_str(n as int),
    decreases n,
{
    if n < 10 {
        out.push(digit_char_x(n));
        proof {
            assert(old(out)@.push(digit_char(n as int)) =~= old(out)@ + dec_str(n as int));
        }
    } else {
        push_dec(n / 10, out);
        out.push(digit_char_x(n % 10));
        proof {
            assert((old(out)@ + dec_str(n as int / 10)).push(digit_char(n as int % 10)) =~= old(
                out,
            )@ + dec_str(n as int));
        }
    }
}

/// Append the last `k` decimal digits of `n`, zero-padded, to `out`.
fn push_pad(n: u64, k: u64, out: &mut Vec<char>)
    ensures
        final(out)@ == old(out)@ + pad_digits(n as int, k as nat),
    decreases k,
{
    if k == 0 {
        proof {
            assert(old(out)@ + pad_digits(n as int, 0) =~= old(out)@);
        }
    } else {
        push_pad(n / 10, k - 1, out);
        out.push(digit_char_x(n % 10));
        proof {
            assert((old(out)@ + pad_digits(n as int / 10, (k - 1) as nat)).push(
                digit_char(n as int % 10),
            ) =~= old(out)@ + pad_digits(n as int, k as nat));
        }
    }
}

/// Euclidean division of a negated non-negative numerator.
proof fn lemma_neg_div(p: int, d: int)
    requires
        p >= 0,
        d >= 1,
    ensures
        p % d == 0 ==> (-p) / d == -(p / d) && (-p) % d == 0,
        p % d != 0 ==> (-p) / d == -(p / d) - 1 && (-p) % d == d - (p % d),
{
    vstd::arithmetic::div_mod::lemma_fundamental_div_mod(p, d);
    let q = p / d;
    let r = p % d;
    vstd::arithmetic::div_mod::lemma_mod_bound(p, d);
    if r == 0 {
        assert(-p == (-q) * d + 0) by (nonlinear_arith)
            requires p == d * q + 0;
        vstd::arithmetic::div_mod::lemma_fundamental_div_mod_converse(-p, d, -q, 0);
    } else {
        assert(-p == (-q - 1) * d + (d - r)) by (nonlinear_arith)
            requires p == d * q + r;
        vstd::arithmetic::div_mod::lemma_fundamental_div_mod_converse(-p, d, -q - 1, d - r);
    }
}

/// `pow(10, 10)` and `pow(10, 15)` as machine constants.
proof fn lemma_pow10_render()
    ensures
        pow(10, 10) == 10_000_000_000int,
        pow(10, 15) == 1_000_000_000_000_000int,
{
    reveal_with_fuel(pow, 16);
    assert(pow(10, 10) == 10_000_000_000int);
    assert(pow(10, 15) == 1_000_000_000_000_000int);
}

/// Division by a positive divisor is monotone in the dividend.
proof fn lemma_div_monotone(a: int, b: int, d: int)
    requires
        0 <= a <= b,
        d >= 1,
    ensures
        a / d <= b / d,
{
    vstd::arithmetic::div_mod::lemma_div_is_ordered(a, b, d);
}

/// Render a value for display, following [`sp_format`].
pub fn format_value(v: Value) -> (r: String)
    requires
        v.wf(),
    ensures
        r@ == sp_format(v@),
{
    proof {
        lemma_pow10_render();
        crate::num::lemma_floor_in_range(v@);
    }
    let rem = v.num.checked_rem_euclid(v.den).unwrap();
    let mut out: Vec<char> = Vec::new();
    if rem == 0 {
        let q = v.num.checked_div_euclid(v.den).unwrap();
        if -1_000_000_000_000_000i64 < q && q < 1_000_000_000_000_000i64 {
            if q < 0 {
                out.push('-');
                proof {
                    assert(seq!['-'] + Seq::<char>::empty() =~= seq!['-']);
                    assert(Seq::<char>::empty().push('-') =~= seq!['-']);
                }
                push_dec((-q) as u64, &mut out);
            } else {
                push_dec(q as u64, &mut out);
                proof {
                    assert(Seq::<char>::empty() + dec_str(q as int) =~= dec_str(q as int));
                }
            }
            return chars_to_string(&out);
        }
    }
    // Non-integral (or huge): round to ten decimal places.
    let neg = v.num < 0;
    let md: u64 = if neg {
        (-v.num) as u64
    } else {
        v.num as u64
    };
    let den: u128 = v.den as u128;
    let p: u128 = (md as u128) * 10_000_000_000u128;
    let q2: u128 = p / den;
    let r2: u128 = p % den;
    let mm: u128 = if 2 * r2 >= den {
        q2 + 1
    } else {
        q2
    };
    proof {
        let scaled = Rat { n: v@.n * pow(10, 10), d: v@.d };
        let m = rat_round(scaled);
        vstd::arithmetic::div_mod::lemma_fundamental_div_mod(p as int, v@.d);
        vstd::arithmetic::div_mod::lemma_mod_bound(p as int, v@.d);
        if neg {
            assert((-(md as int)) * pow(10, 10) == -((md as int) * pow(10, 10)))
                by (nonlinear_arith);
            assert(scaled.n == -(p as int));
            lemma_neg_div(p as int, v@.d);
        } else {
            assert(scaled.n == p as int);
        }
        assert(mm as int == if m < 0 { -m } else { m });
        // `mm / 10^10` fits in a `u64`.
        assert(q2 as int <= p as int) by (nonlinear_arith)
            requires
                p as int == v@.d * (q2 as int) + (r2 as int) && v@.d >= 1 && q2 >= 0 && r2 >= 0;
        vstd::arithmetic::div_mod::lemma_fundamental_div_mod_converse(
            (u64::MAX as int) * 10_000_000_000 + 9_999_999_999,
            10_000_000_000,
            u64::MAX as int,
            9_999_999_999,
        );
        lemma_div_monotone(
            mm as int,
            (u64::MAX as int) * 10_000_000_000 + 9_999_999_999,
            10_000_000_000,
        );
        vstd::arithmetic::div_mod::lemma_mod_bound(mm as int, 10_000_000_000);
    }
    let ip: u64 = (mm / 10_000_000_000u128) as u64;
    let fp: u64 = (mm % 10_000_000_000u128) as u64;
    if neg {
        out.push('-');
    }
    push_dec(ip, &mut out);
    if fp != 0 {
        out.push('.');
        let mut frac: Vec<char> = Vec::new();
        push_pad(fp, 10, &mut frac);
        proof {
            assert(Seq::<char>::empty() + pad_digits(fp as int, 10) =~= pad_digits(
                fp as int,
                10,
            ));
        }
        let mut fl = frac.len();
        while fl > 0 && frac[fl - 1] == '0'
            invariant
                fl == frac@.len(),
                strip0(frac@) == strip0(pad_digits(fp as int, 10)),
            decreases fl,
        {
            frac.pop();
            fl = frac.len();
        }
        let ghost base = out@;
        let mut k: usize = 0;
        while k < frac.len()
            invariant
                k <= frac@.len(),
                out@ == base + frac@.subrange(0, k as int),
            decreases frac@.len() - k,
        {
            out.push(frac[k]);
            proof {
                assert(frac@.subrange(0, (k + 1) as int) =~= frac@.subrange(0, k as int).push(
                    frac@[k as int],
                ));
                assert((base + frac@.subrange(0, k as int)).push(frac@[k as int]) =~= base
                    + frac@.subrange(0, (k + 1) as int));
            }
            k += 1;
        }
        proof {
            assert(frac@.subrange(0, frac@.len() as int) =~= frac@);
        }
    }
    chars_to_string(&out)
}

/// Evaluate an input string and render the result: the calculator's
/// whole contract in one function.
pub fn evaluate(s: &str) -> (r: Result<String, EvalError>)
    ensures
        match r {
            Ok(out) => sp_evaluate(s@) is Val && out@ == sp_format(sp_evaluate(s@)->Val_0),
            Err(e) => sp_evaluate(s@) == EvalOut::Fail(e),
        },
{
    match eval_expr(s) {
        Ok(v) => Ok(format_value(v)),
        Err(e) => Err(e),
    }
}

/// The one-line diagnostic of an error.
pub open spec fn sp_message(e: EvalError) -> Seq<char> {
    match e {
        EvalError::InvalidCharacter(c) => "Unknown character: '"@ + seq![c] + seq!['\''],
        EvalError::InvalidNumber => "Invalid number"@,
        EvalError::UnexpectedEnd => "Unexpected end of expression"@,
        EvalError::UnexpectedTrailingToken => "Unexpected token at end of expression"@,
        EvalError::MissingClosingParen => "Missing closing ')'"@,
        EvalError::DivisionByZero => "Division by zero"@,
        EvalError::ExpectedOperand => "Expected number or '('"@,
        EvalError::Unrepresentable => "Result not exactly representable"@,
    }
}

impl EvalError {
    /// The diagnostic for this error, ready to show to a user.
    pub fn message(&self) -> (r: String)
        ensures
            r@ == sp_message(*self),
    {
        match self {
            EvalError::InvalidCharacter(c) => {
                let mut s = String::from_str("Unknown character: '");
                push_char(&mut s, *c);
                push_char(&mut s, '\'');
                proof {
                    assert(("Unknown character: '"@.push(*c)).push('\'') =~= "Unknown character: '"@
                        + seq![*c] + seq!['\'']);
                }
                s
            },
            EvalError::InvalidNumber => String::from_str("Invalid number"),
            EvalError::UnexpectedEnd => String::from_str("Unexpected end of expression"),
            EvalError::UnexpectedTrailingToken => String::from_str(
                "Unexpected token at end of expression",
            ),
            EvalError::MissingClosingParen => String::from_str("Missing closing ')'"),
            EvalError::DivisionByZero => String::from_str("Division by zero"),
            EvalError::ExpectedOperand => String::from_str("Expected number or '('"),
            EvalError::Unrepresentable => String::from_str("Result not exactly representable"),
        }
    }
}

/// The integer a decimal string (with an optional minus sign) denotes.
pub open spec fn str_int_val(s: Seq<char>) -> int {
    if s.len() > 0 && s[0] == '-' {
        -digits_val(s.subrange(1, s.len() as int))
    } else {
        digits_val(s)
    }
}

/// The decimal string of a non-negative integer denotes that integer,
/// is never empty, and never starts with a minus sign.
proof fn lemma_dec_str_val(n: int)
    requires
        n >= 0,
    ensures
        digits_val(dec_str(n)) == n,
        dec_str(n).len() >= 1,
        dec_str(n)[0] != '-',
    decreases n,
{
    if n < 10 {
        assert(seq![digit_char(n)].drop_last() =~= Seq::<char>::empty());
        assert(digits_val(dec_str(n)) == 10 * digits_val(Seq::<char>::empty()) + digit_val(
            digit_char(n),
        ));
    } else {
        lemma_dec_str_val(n / 10);
        let pre = dec_str(n / 10);
        assert(pre.push(digit_char(n % 10)).drop_last() =~= pre);
        assert(pre.push(digit_char(n % 10)).last() == digit_char(n % 10));
        assert(digits_val(dec_str(n)) == 10 * digits_val(pre) + digit_val(digit_char(n % 10)));
        vstd::arithmetic::div_mod::lemma_fundamental_div_mod(n, 10);
        assert(dec_str(n)[0] == pre[0]);
    }
}

/// Formatting an integral value yields its plain decimal string, and
/// that string denotes exactly the integer again: the round trip of
/// formatting an already-integral result loses nothing.
pub proof fn lemma_format_integral_round_trip(a: Rat)
    requires
        crate::num::rat_in_range(a),
        a.n % a.d == 0,
    ensures
        sp_format(a) == int_str(a.n / a.d),
        str_int_val(sp_format(a)) == a.n / a.d,
{
    lemma_pow10_render();
    let q = a.n / a.d;
    let k = pow(10, 10);
    vstd::arithmetic::div_mod::lemma_fundamental_div_mod(a.n, a.d);
    assert(a.n == a.d * q);
    if -(pow(10, 15)) < q < pow(10, 15) {
        assert(sp_format(a) == int_str(q));
    } else {
        // The value is integral but huge: the ten-decimal-place path
        // still prints a plain integer, because the fraction is zero.
        let scaled = Rat { n: a.n * k, d: a.d };
        assert(a.n * k == (q * k) * a.d) by (nonlinear_arith)
            requires a.n == a.d * q;
        vstd::arithmetic::div_mod::lemma_fundamental_div_mod_converse(a.n * k, a.d, q * k, 0);
        assert(rat_round(scaled) == q * k);
        let m = q * k;
        let mm = if m < 0 { -m } else { m };
        let qa = if q < 0 { -q } else { q };
        assert(mm == qa * k) by (nonlinear_arith)
            requires m == q * k && k >= 1 && mm == (if m < 0 { -m } else { m }) && qa == (
            if q < 0 { -q } else { q });
        vstd::arithmetic::div_mod::lemma_fundamental_div_mod_converse(mm, k, qa, 0);
        assert(mm / k == qa && mm % k == 0);
        assert(q < 0 <==> a.n < 0) by (nonlinear_arith)
            requires a.n == a.d * q && a.d >= 1;
        if a.n < 0 {
            assert(sp_format(a) == seq!['-'] + dec_str(qa));
            assert(int_str(q) == seq!['-'] + dec_str(-q));
        } else {
            assert(sp_format(a) =~= dec_str(qa));
        }
    }
    // Parsing the rendered string gives the integer back.
    let qa = if q < 0 { -q } else { q };
    lemma_dec_str_val(qa);
    if q < 0 {
        assert(int_str(q)[0] == '-');
        assert((seq!['-'] + dec_str(qa)).subrange(1, (seq!['-'] + dec_str(qa)).len() as int)
            =~= dec_str(qa));
    }
}

} // verus!
