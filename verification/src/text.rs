//! Verified text transformations behind the utility and fun commands:
//! text statistics, alternating case, clap-spacing, code listings,
//! rating bars, repetition and password assembly.

use vstd::prelude::*;
use vstd::string::{StrSliceExecFns, StringExecFns};
use crate::command::{is_unicode_ws, random_below};
use crate::lexer::chars_of;
use crate::render::{chars_to_string, dec_str, push_dec};

verus! {

/// The number of maximal non-whitespace runs from position `i` on,
/// given whether position `i` continues a run.
pub open spec fn sp_word_count(s: Seq<char>, i: int, in_word: bool) -> int
    decreases s.len() - i,
    when 0 <= i <= s.len()
{
    if i >= s.len() {
        0
    } else {
        let w = !is_unicode_ws(s[i]);
        (if w && !in_word {
            1int
        } else {
            0int
        }) + sp_word_count(s, i + 1, w)
    }
}

/// How many `c` characters the text holds from position `i` on.
pub open spec fn sp_count_char(s: Seq<char>, i: int, c: char) -> int
    decreases s.len() - i,
    when 0 <= i <= s.len()
{
    if i >= s.len() {
        0
    } else {
        (if s[i] == c {
            1int
        } else {
            0int
        }) + sp_count_char(s, i + 1, c)
    }
}

proof fn lemma_count_char_le(s: Seq<char>, i: int, c: char)
    requires
        0 <= i <= s.len(),
    ensures
        0 <= sp_count_char(s, i, c) <= s.len() - i,
        s.len() > i && s.last() != c ==> sp_count_char(s, i, c) <= s.len() - i - 1,
    decreases s.len() - i,
{
    if i < s.len() {
        lemma_count_char_le(s, i + 1, c);
    }
}

/// The number of lines: newline count, plus one for a final line not
/// ended by a newline.  An empty text has no lines.
pub open spec fn sp_line_count(s: Seq<char>) -> int {
    sp_count_char(s, 0, '\n') + if s.len() > 0 && s.last() != '\n' {
        1int
    } else {
        0int
    }
}

/// Characters, words and lines of a text, as the statistics command
/// reports them.
pub fn text_stats(s: &str) -> (r: (usize, usize, usize))
    ensures
        r.0 == s@.len(),
        r.1 as int == sp_word_count(s@, 0, false),
        r.2 as int == sp_line_count(s@),
{
    let n = s.unicode_len();
    let mut words: usize = 0;
    let mut newlines: usize = 0;
    let mut in_word = false;
    let mut i: usize = 0;
    while i < n
        invariant
            i <= n,
            n == s@.len(),
            words <= i,
            newlines <= i,
            sp_word_count(s@, 0, false) == words + sp_word_count(s@, i as int, in_word),
            sp_count_char(s@, 0, '\n') == newlines + sp_count_char(s@, i as int, '\n'),
        decreases n - i,
    {
        let c = s.get_char(i);
        let w = !c.is_whitespace();
        if w && !in_word {
            words += 1;
        }
        if c == '\n' {
            newlines += 1;
        }
        in_word = w;
        i += 1;
    }
    proof {
        lemma_count_char_le(s@, 0, '\n');
    }
    let lines = if n > 0 && s.get_char(n - 1) != '\n' {
        newlines + 1
    } else {
        newlines
    };
    (n, words, lines)
}

/// What `char::to_uppercase` begins with for this character.
pub uninterp spec fn upper_first(c: char) -> char;

/// What `char::to_lowercase` begins with for this character.
pub uninterp spec fn lower_first(c: char) -> char;

/// Relies on `char::to_uppercase`: its first character (the character
/// itself where the mapping is empty), a function of the character
/// alone.
#[verifier::external_body]
fn upper_first_char(c: char) -> (r: char)
    ensures
        r == upper_first(c),
{
    c.to_uppercase().next().unwrap_or(c)
}

/// Relies on `char::to_lowercase`: its first character (the character
/// itself where the mapping is empty), a function of the character
/// alone.
#[verifier::external_body]
fn lower_first_char(c: char) -> (r: char)
    ensures
        r == lower_first(c),
{
    c.to_lowercase().next().unwrap_or(c)
}

/// The text in aLtErNaTiNg case: even positions upper-cased, odd
/// positions lower-cased.
pub fn mock_text(s: &str) -> (r: String)
    ensures
        r@.len() == s@.len(),
        forall|i: int| 0 <= i < s@.len() ==> r@[i] == if i % 2 == 0 {
            upper_first(s@[i])
        } else {
            lower_first(s@[i])
        },
{
    let v = chars_of(s);
    let n = v.len();
    let mut out: Vec<char> = Vec::new();
    let mut i: usize = 0;
    while i < n
        invariant
            i <= n,
            n == s@.len(),
            v@ == s@,
            out@.len() == i,
            forall|k: int| 0 <= k < i ==> out@[k] == if k % 2 == 0 {
                upper_first(s@[k])
            } else {
                lower_first(s@[k])
            },
        decreases n - i,
    {
        if i % 2 == 0 {
            out.push(upper_first_char(v[i]));
        } else {
            out.push(lower_first_char(v[i]));
        }
        i += 1;
    }
    chars_to_string(&out)
}

/// The words of the text from position `i` on, joined by the clap
/// separator; `in_word` and `any` say whether a run continues and
/// whether one was already emitted.
pub open spec fn sp_clap_words(s: Seq<char>, i: int, in_word: bool, any: bool) -> Seq<char>
    decreases s.len() - i,
    when 0 <= i <= s.len()
{
    if i >= s.len() {
        Seq::empty()
    } else if is_unicode_ws(s[i]) {
        sp_clap_words(s, i + 1, false, any)
    } else {
        (if !in_word && any {
            " \u{1F44F} "@
        } else {
            Seq::<char>::empty()
        }) + seq![s[i]] + sp_clap_words(s, i + 1, true, true)
    }
}

/// The text with a clap between every pair of words and around the
/// whole: the decoration the clap command sends.
pub fn clap_text(s: &str) -> (r: String)
    ensures
        r@ == "\u{1F44F} "@ + sp_clap_words(s@, 0, false, false) + " \u{1F44F}"@,
{
    let v = chars_of(s);
    let n = v.len();
    let mut out: Vec<char> = Vec::new();
    let sep = chars_of(" \u{1F44F} ");
    let mut in_word = false;
    let mut any = false;
    let ghost head = "\u{1F44F} "@;
    let pre = chars_of("\u{1F44F} ");
    let mut k: usize = 0;
    while k < pre.len()
        invariant
            k <= pre@.len(),
            pre@ == head,
            out@ == head.subrange(0, k as int),
        decreases pre@.len() - k,
    {
        out.push(pre[k]);
        proof {
            assert(head.subrange(0, (k + 1) as int) =~= head.subrange(0, k as int).push(
                head[k as int],
            ));
        }
        k += 1;
    }
    proof {
        assert(head.subrange(0, head.len() as int) =~= head);
    }
    let mut i: usize = 0;
    while i < n
        invariant
            i <= n,
            n == s@.len(),
            v@ == s@,
            sep@ == " \u{1F44F} "@,
            out@ + sp_clap_words(s@, i as int, in_word, any) == head + sp_clap_words(
                s@,
                0,
                false,
                false,
            ),
        decreases n - i,
    {
        let c = v[i];
        if c.is_whitespace() {
            in_word = false;
        } else {
            if !in_word && any {
                let mut k2: usize = 0;
                let ghost out0 = out@;
                while k2 < sep.len()
                    invariant
                        k2 <= sep@.len(),
                        sep@ == " \u{1F44F} "@,
                        out@ == out0 + sep@.subrange(0, k2 as int),
                    decreases sep@.len() - k2,
                {
                    out.push(sep[k2]);
                    proof {
                        assert(sep@.subrange(0, (k2 + 1) as int) =~= sep@.subrange(
                            0,
                            k2 as int,
                        ).push(sep@[k2 as int]));
                        assert((out0 + sep@.subrange(0, k2 as int)).push(sep@[k2 as int])
                            =~= out0 + sep@.subrange(0, (k2 + 1) as int));
                    }
                    k2 += 1;
                }
                proof {
                    assert(sep@.subrange(0, sep@.len() as int) =~= sep@);
                }
            }
            out.push(c);
            in_word = true;
            any = true;
        }
        i += 1;
    }
    let tail = chars_of(" \u{1F44F}");
    let mut k3: usize = 0;
    let ghost out1 = out@;
    while k3 < tail.len()
        invariant
            k3 <= tail@.len(),
            tail@ == " \u{1F44F}"@,
            out@ == out1 + tail@.subrange(0, k3 as int),
        decreases tail@.len() - k3,
    {
        out.push(tail[k3]);
        proof {
            assert(tail@.subrange(0, (k3 + 1) as int) =~= tail@.subrange(0, k3 as int).push(
                tail@[k3 as int],
            ));
            assert((out1 + tail@.subrange(0, k3 as int)).push(tail@[k3 as int]) =~= out1
                + tail@.subrange(0, (k3 + 1) as int));
        }
        k3 += 1;
    }
    proof {
        assert(tail@.subrange(0, tail@.len() as int) =~= tail@);
    }
    chars_to_string(&out)
}

/// The decimal code points of the text, space-separated.
pub open spec fn sp_ascii_codes(s: Seq<char>, i: int) -> Seq<char>
    decreases s.len() - i,
    when 0 <= i <= s.len()
{
    if i >= s.len() {
        Seq::empty()
    } else {
        dec_str((s[i] as u32) as int) + (if i + 1 < s.len() {
            seq![' ']
        } else {
            Seq::<char>::empty()
        }) + sp_ascii_codes(s, i + 1)
    }
}

/// The decimal code of every character, space-separated.
pub fn ascii_codes(s: &str) -> (r: String)
    ensures
        r@ == sp_ascii_codes(s@, 0),
{
    let v = chars_of(s);
    let n = v.len();
    let mut out: Vec<char> = Vec::new();
    let mut i: usize = 0;
    proof {
        assert(Seq::<char>::empty() + sp_ascii_codes(s@, 0) =~= sp_ascii_codes(s@, 0));
    }
    while i < n
        invariant
            i <= n,
            n == s@.len(),
            v@ == s@,
            out@ + sp_ascii_codes(s@, i as int) == sp_ascii_codes(s@, 0),
        decreases n - i,
    {
        let code: u32 = v[i] as u32;
        let ghost out0 = out@;
        push_dec(code as u64, &mut out);
        if i + 1 < n {
            out.push(' ');
        }
        proof {
            let a = dec_str((s@[i as int] as u32) as int);
            if i + 1 < n {
                assert(out@ =~= out0 + (a + seq![' ']));
            } else {
                assert(out@ =~= out0 + (a + Seq::<char>::empty()));
            }
            assert(out0 + sp_ascii_codes(s@, i as int) =~= out@ + sp_ascii_codes(
                s@,
                (i + 1) as int,
            ));
        }
        i += 1;
    }
    proof {
        assert(out@ + Seq::<char>::empty() =~= out@);
    }
    chars_to_string(&out)
}

/// The binary digits of a non-negative integer, most significant first.
pub open spec fn bin_str(n: int) -> Seq<char>
    decreases n,
{
    if n < 2 {
        seq![if n == 1 {
            '1'
        } else {
            '0'
        }]
    } else {
        bin_str(n / 2).push(if n % 2 == 1 {
            '1'
        } else {
            '0'
        })
    }
}

/// `bin_str`, zero-padded on the left to at least eight digits.
pub open spec fn bin8(n: int) -> Seq<char> {
    if bin_str(n).len() >= 8 {
        bin_str(n)
    } else {
        Seq::new((8 - bin_str(n).len()) as nat, |i: int| '0') + bin_str(n)
    }
}

/// Append the binary digits of `n` to `out`.
fn push_bin(n: u64, out: &mut Vec<char>)
    ensures
        final(out)@ == old(out)@ + bin_str(n as int),
    decreases n,
{
    if n < 2 {
        out.push(if n == 1 {
            '1'
        } else {
            '0'
        });
        proof {
            assert(old(out)@.push(if n == 1 {
                '1'
            } else {
                '0'
            }) =~= old(out)@ + bin_str(n as int));
        }
    } else {
        push_bin(n / 2, out);
        out.push(if n % 2 == 1 {
            '1'
        } else {
            '0'
        });
        proof {
            assert((old(out)@ + bin_str(n as int / 2)).push(if n as int % 2 == 1 {
                '1'
            } else {
                '0'
            }) =~= old(out)@ + bin_str(n as int));
        }
    }
}

/// The binary code points of the text, space-separated.
pub open spec fn sp_binary_codes(s: Seq<char>, i: int) -> Seq<char>
    decreases s.len() - i,
    when 0 <= i <= s.len()
{
    if i >= s.len() {
        Seq::empty()
    } else {
        bin8((s[i] as u32) as int) + (if i + 1 < s.len() {
            seq![' ']
        } else {
            Seq::<char>::empty()
        }) + sp_binary_codes(s, i + 1)
    }
}

/// The eight-or-more-bit binary code of every character, space-separated.
pub fn binary_codes(s: &str) -> (r: String)
    ensures
        r@ == sp_binary_codes(s@, 0),
{
    let v = chars_of(s);
    let n = v.len();
    let mut out: Vec<char> = Vec::new();
    let mut i: usize = 0;
    proof {
        assert(Seq::<char>::empty() + sp_binary_codes(s@, 0) =~= sp_binary_codes(s@, 0));
    }
    while i < n
        invariant
            i <= n,
            n == s@.len(),
            v@ == s@,
            out@ + sp_binary_codes(s@, i as int) == sp_binary_codes(s@, 0),
        decreases n - i,
    {
        let code: u32 = v[i] as u32;
        let mut digits: Vec<char> = Vec::new();
        push_bin(code as u64, &mut digits);
        let ghost out0 = out@;
        if digits.len() < 8 {
            let pad = 8 - digits.len();
            let mut z: usize = 0;
            while z < pad
                invariant
                    z <= pad,
                    pad == 8 - bin_str(code as int).len(),
                    bin_str(code as int).len() < 8,
                    out@ == out0 + Seq::new(z as nat, |q: int| '0'),
                decreases pad - z,
            {
                out.push('0');
                proof {
                    assert(Seq::new((z + 1) as nat, |q: int| '0') =~= Seq::new(
                        z as nat,
                        |q: int| '0',
                    ).push('0'));
                    assert((out0 + Seq::new(z as nat, |q: int| '0')).push('0') =~= out0
                        + Seq::new((z + 1) as nat, |q: int| '0'));
                }
                z += 1;
            }
        }
        let ghost out_padded = out@;
        let mut d: usize = 0;
        while d < digits.len()
            invariant
                d <= digits@.len(),
                digits@ == bin_str(code as int),
                out@ == out_padded + digits@.subrange(0, d as int),
            decreases digits@.len() - d,
        {
            out.push(digits[d]);
            proof {
                assert(digits@.subrange(0, (d + 1) as int) =~= digits@.subrange(0, d as int).push(
                    digits@[d as int],
                ));
                assert((out_padded + digits@.subrange(0, d as int)).push(digits@[d as int])
                    =~= out_padded + digits@.subrange(0, (d + 1) as int));
            }
            d += 1;
        }
        proof {
            assert(digits@.subrange(0, digits@.len() as int) =~= digits@);
            assert(out@ =~= out0 + bin8(code as int));
        }
        if i + 1 < n {
            out.push(' ');
        }
        proof {
            let a = bin8((s@[i as int] as u32) as int);
            if i + 1 < n {
                assert(out@ =~= out0 + (a + seq![' ']));
            } else {
                assert(out@ =~= out0 + (a + Seq::<char>::empty()));
            }
            assert(out0 + sp_binary_codes(s@, i as int) =~= out@ + sp_binary_codes(
                s@,
                (i + 1) as int,
            ));
        }
        i += 1;
    }
    proof {
        assert(out@ + Seq::<char>::empty() =~= out@);
    }
    chars_to_string(&out)
}

/// A progress bar: `filled` solid blocks, the rest of `total` shaded.
pub fn progress_bar(filled: usize, total: usize) -> (r: String)
    requires
        filled <= total,
    ensures
        r@ == Seq::new(filled as nat, |i: int| '\u{2588}') + Seq::new(
            (total - filled) as nat,
            |i: int| '\u{2591}',
        ),
{
    let mut out: Vec<char> = Vec::new();
    let mut i: usize = 0;
    while i < filled
        invariant
            i <= filled,
            out@ == Seq::new(i as nat, |q: int| '\u{2588}'),
        decreases filled - i,
    {
        out.push('\u{2588}');
        proof {
            assert(Seq::new((i + 1) as nat, |q: int| '\u{2588}') =~= Seq::new(
                i as nat,
                |q: int| '\u{2588}',
            ).push('\u{2588}'));
        }
        i += 1;
    }
    let ghost solid = out@;
    let mut j: usize = 0;
    while j < total - filled
        invariant
            j <= total - filled,
            filled <= total,
            out@ == solid + Seq::new(j as nat, |q: int| '\u{2591}'),
        decreases total - filled - j,
    {
        out.push('\u{2591}');
        proof {
            assert(Seq::new((j + 1) as nat, |q: int| '\u{2591}') =~= Seq::new(
                j as nat,
                |q: int| '\u{2591}',
            ).push('\u{2591}'));
            assert((solid + Seq::new(j as nat, |q: int| '\u{2591}')).push('\u{2591}') =~= solid
                + Seq::new((j + 1) as nat, |q: int| '\u{2591}'));
        }
        j += 1;
    }
    chars_to_string(&out)
}

/// A ten-step rating bar: `score` filled blocks, the rest shaded.
pub fn rate_bar(score: usize) -> (r: String)
    requires
        score <= 10,
    ensures
        r@ == Seq::new(score as nat, |i: int| '\u{2588}') + Seq::new(
            (10 - score) as nat,
            |i: int| '\u{2591}',
        ),
{
    progress_bar(score, 10)
}

/// `n` copies of the text, newline-separated.
pub open spec fn sp_repeated(s: Seq<char>, n: int) -> Seq<char>
    decreases n,
    when n >= 1
{
    if n <= 1 {
        s
    } else {
        sp_repeated(s, n - 1) + seq!['\n'] + s
    }
}

/// The text repeated `n` times on separate lines.
pub fn repeat_lines(s: &str, n: usize) -> (r: String)
    requires
        1 <= n <= 10,
    ensures
        r@ == sp_repeated(s@, n as int),
{
    let mut out = String::new();
    out.append(s);
    let mut i: usize = 1;
    proof {
        assert(Seq::<char>::empty() + s@ =~= s@);
    }
    while i < n
        invariant
            1 <= i <= n,
            out@ == sp_repeated(s@, i as int),
        decreases n - i,
    {
        out.append("\n");
        out.append(s);
        proof {
            reveal_strlit("\n");
            assert("\n"@ =~= seq!['\n']);
        }
        i += 1;
    }
    out
}

/// The text with its characters in reverse order.
pub fn reverse_text(s: &str) -> (r: String)
    ensures
        r@ == s@.reverse(),
{
    let v = chars_of(s);
    let n = v.len();
    let mut out: Vec<char> = Vec::new();
    let mut i: usize = 0;
    while i < n
        invariant
            i <= n,
            n == s@.len(),
            v@ == s@,
            out@.len() == i,
            forall|k: int| 0 <= k < i ==> out@[k] == s@[n - 1 - k],
        decreases n - i,
    {
        out.push(v[n - 1 - i]);
        i += 1;
    }
    proof {
        assert(out@ =~= s@.reverse());
    }
    chars_to_string(&out)
}

/// The password alphabet: unambiguous letters, digits and symbols.
pub fn password_charset() -> (r: &'static str)
    ensures
        r@ == "ABCDEFGHJKLMNPQRSTUVWXYZabcdefghjkmnpqrstuvwxyz23456789!@#$%^&*"@,
{
    "ABCDEFGHJKLMNPQRSTUVWXYZabcdefghjkmnpqrstuvwxyz23456789!@#$%^&*"
}

/// A random password of the asked-for length, drawn character by
/// character from [`password_charset`].  Whatever the draws were,
/// the length is exact and every character comes from the set.
pub fn make_password(len: usize) -> (r: String)
    ensures
        r@.len() == len,
        forall|i: int| 0 <= i < len ==> #[trigger] "ABCDEFGHJKLMNPQRSTUVWXYZabcdefghjkmnpqrstuvwxyz23456789!@#$%^&*"@.contains(
            r@[i],
        ),
{
    let cs = chars_of(password_charset());
    let m = cs.len();
    proof {
        reveal_strlit("ABCDEFGHJKLMNPQRSTUVWXYZabcdefghjkmnpqrstuvwxyz23456789!@#$%^&*");
    }
    let mut out: Vec<char> = Vec::new();
    let mut i: usize = 0;
    while i < len
        invariant
            i <= len,
            out@.len() == i,
            cs@ == "ABCDEFGHJKLMNPQRSTUVWXYZabcdefghjkmnpqrstuvwxyz23456789!@#$%^&*"@,
            m == cs@.len(),
            m >= 1,
            forall|k: int| 0 <= k < i
                ==> #[trigger] "ABCDEFGHJKLMNPQRSTUVWXYZabcdefghjkmnpqrstuvwxyz23456789!@#$%^&*"@.contains(
                out@[k],
            ),
        decreases len - i,
    {
        let idx = random_below(m);
        let c = cs[idx];
        proof {
            assert(cs@[idx as int] == c);
            assert(cs@.contains(c));
        }
        out.push(c);
        i += 1;
    }
    chars_to_string(&out)
}

} // verus!
