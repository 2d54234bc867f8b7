//! A small base64 codec.
//!
//! Encoding is standard base64 with `=` padding.  Decoding is lenient,
//! exactly as modelled by [`sp_b64_decode_bytes`]: padding is stripped,
//! the input is read in chunks of four bytes, bytes outside the
//! alphabet are ignored within a chunk, and a chunk with fewer than two
//! alphabet bytes ends the decode.

use vstd::prelude::*;
use vstd::slice::slice_index_get;
use vstd::string::StringSliceAdditionalSpecFns;
use crate::render::chars_to_string;

verus! {

/// The value of one alphabet byte, `None` outside the alphabet.
pub open spec fn sp_b64v(c: u8) -> Option<u32> {
    if 65 <= c <= 90 {
        Some((c - 65) as u32)
    } else if 97 <= c <= 122 {
        Some((c - 97 + 26) as u32)
    } else if 48 <= c <= 57 {
        Some((c - 48 + 52) as u32)
    } else if c == 43 {
        Some(62u32)
    } else if c == 47 {
        Some(63u32)
    } else {
        None
    }
}

/// The alphabet byte for a six-bit value.
pub open spec fn b64_alphabet(v: int) -> u8 {
    if v < 26 {
        (65 + v) as u8
    } else if v < 52 {
        (97 + (v - 26)) as u8
    } else if v < 62 {
        (48 + (v - 52)) as u8
    } else if v == 62 {
        43u8
    } else {
        47u8
    }
}

/// Base64 encoding of a byte sequence, three bytes to four characters,
/// the last group padded with `=`.
pub open spec fn sp_b64_encode(bs: Seq<u8>) -> Seq<char>
    decreases bs.len(),
{
    if bs.len() == 0 {
        Seq::empty()
    } else {
        let b0 = bs[0] as int;
        let b1 = if bs.len() > 1 {
            bs[1] as int
        } else {
            0
        };
        let b2 = if bs.len() > 2 {
            bs[2] as int
        } else {
            0
        };
        let c = b0 * 65536 + b1 * 256 + b2;
        let ch0 = b64_alphabet(c / 262144) as char;
        let ch1 = b64_alphabet((c / 4096) % 64) as char;
        let ch2 = if bs.len() > 1 {
            b64_alphabet((c / 64) % 64) as char
        } else {
            '='
        };
        let ch3 = if bs.len() > 2 {
            b64_alphabet(c % 64) as char
        } else {
            '='
        };
        let rest = if bs.len() >= 3 {
            bs.skip(3)
        } else {
            Seq::<u8>::empty()
        };
        seq![ch0, ch1, ch2, ch3] + sp_b64_encode(rest)
    }
}

/// Trailing `=` padding removed.
pub open spec fn strip_eq(bs: Seq<u8>) -> Seq<u8>
    decreases bs.len(),
{
    if bs.len() > 0 && bs.last() == 61 {
        strip_eq(bs.drop_last())
    } else {
        bs
    }
}

/// The alphabet values found in one chunk, in order.
pub open spec fn chunk_vals(ch: Seq<u8>) -> Seq<u32>
    decreases ch.len(),
{
    if ch.len() == 0 {
        Seq::empty()
    } else {
        match sp_b64v(ch.last()) {
            Some(v) => chunk_vals(ch.drop_last()).push(v),
            None => chunk_vals(ch.drop_last()),
        }
    }
}

/// The bytes a decode produces from padding-stripped input: chunks of
/// four input bytes, each yielding up to three output bytes; a chunk
/// with fewer than two alphabet bytes ends the decode.
pub open spec fn sp_b64_decode_bytes(bs: Seq<u8>) -> Seq<u8>
    decreases bs.len(),
{
    if bs.len() == 0 {
        Seq::empty()
    } else {
        let chunk = if bs.len() >= 4 {
            bs.take(4)
        } else {
            bs
        };
        let rest = if bs.len() >= 4 {
            bs.skip(4)
        } else {
            Seq::<u8>::empty()
        };
        let v = chunk_vals(chunk);
        if v.len() < 2 {
            Seq::empty()
        } else {
            let o0 = seq![(v[0] * 4 + v[1] / 16) as u8];
            let o1 = if v.len() > 2 {
                seq![((v[1] % 16) * 16 + v[2] / 4) as u8]
            } else {
                Seq::<u8>::empty()
            };
            let o2 = if v.len() > 3 {
                seq![((v[2] % 4) * 64 + v[3]) as u8]
            } else {
                Seq::<u8>::empty()
            };
            o0 + o1 + o2 + sp_b64_decode_bytes(rest)
        }
    }
}

/// The value of one base64 alphabet byte.
pub fn b64v(c: u8) -> (r: Option<u32>)
    ensures
        r == sp_b64v(c),
{
    if 65 <= c && c <= 90 {
        Some((c - 65) as u32)
    } else if 97 <= c && c <= 122 {
        Some((c - 97 + 26) as u32)
    } else if 48 <= c && c <= 57 {
        Some((c - 48 + 52) as u32)
    } else if c == 43 {
        Some(62)
    } else if c == 47 {
        Some(63)
    } else {
        None
    }
}

fn b64_byte(v: u32) -> (r: u8)
    requires
        v < 64,
    ensures
        r == b64_alphabet(v as int),
{
    if v < 26 {
        65 + (v as u8)
    } else if v < 52 {
        97 + ((v - 26) as u8)
    } else if v < 62 {
        48 + ((v - 52) as u8)
    } else if v == 62 {
        43
    } else {
        47
    }
}

/// Base64-encode a byte slice, following [`sp_b64_encode`].
pub fn base64_encode(input: &[u8]) -> (r: String)
    ensures
        r@ == sp_b64_encode(input@),
{
    let n = input.len();
    let mut out: Vec<char> = Vec::new();
    let mut i: usize = 0;
    proof {
        assert(Seq::<char>::empty() + sp_b64_encode(input@.skip(0)) =~= sp_b64_encode(
            input@.skip(0),
        ));
        assert(input@.skip(0) =~= input@);
    }
    while i < n
        invariant
            i <= n,
            n == input@.len(),
            sp_b64_encode(input@) == out@ + sp_b64_encode(input@.skip(i as int)),
        decreases n - i,
    {
        let ghost suf = input@.skip(i as int);
        let b0 = *slice_index_get(input, i) as u32;
        let has1 = n - i > 1;
        let has2 = n - i > 2;
        let b1: u32 = if has1 {
            *slice_index_get(input, i + 1) as u32
        } else {
            0
        };
        let b2: u32 = if has2 {
            *slice_index_get(input, i + 2) as u32
        } else {
            0
        };
        let c: u32 = b0 * 65536 + b1 * 256 + b2;
        out.push(b64_byte(c / 262144) as char);
        out.push(b64_byte((c / 4096) % 64) as char);
        out.push(if has1 {
            b64_byte((c / 64) % 64) as char
        } else {
            '='
        });
        out.push(if has2 {
            b64_byte(c % 64) as char
        } else {
            '='
        });
        let next = if n - i >= 3 {
            i + 3
        } else {
            n
        };
        proof {
            assert(suf[0] == input@[i as int]);
            if has1 {
                assert(suf[1] == input@[i as int + 1]);
            }
            if has2 {
                assert(suf[2] == input@[i as int + 2]);
            }
            if n - i >= 3 {
                assert(suf.skip(3) =~= input@.skip(next as int));
            } else {
                assert(input@.skip(next as int) =~= Seq::<u8>::empty());
            }
        }
        i = next;
    }
    proof {
        assert(input@.skip(n as int) =~= Seq::<u8>::empty());
        assert(out@ + Seq::<char>::empty() =~= out@);
    }
    chars_to_string(&out)
}

/// Relies on `String::from_utf8`: succeeds exactly on valid UTF-8 and
/// returns the string of those bytes.
#[verifier::external_body]
fn utf8_string(v: Vec<u8>) -> (r: Result<String, ()>)
    ensures
        r is Ok <==> vstd::utf8::valid_utf8(v@),
        r matches Ok(s) ==> vstd::utf8::encode_utf8(s@) == v@,
{
    match String::from_utf8(v) {
        Ok(s) => Ok(s),
        Err(_) => Err(()),
    }
}

/// Base64-decode a string: strip padding, decode the alphabet bytes
/// per [`sp_b64_decode_bytes`], and interpret the result as UTF-8.
pub fn base64_decode(s: &str) -> (r: Result<String, ()>)
    ensures
        ({
            let db = sp_b64_decode_bytes(strip_eq(s.spec_bytes()));
            match r {
                Ok(t) => vstd::utf8::valid_utf8(db) && vstd::utf8::encode_utf8(t@) == db,
                Err(()) => !vstd::utf8::valid_utf8(db),
            }
        }),
{
    let bytes = s.as_bytes();
    let n = bytes.len();
    // Strip trailing '=' bytes.
    let mut e: usize = n;
    proof {
        assert(bytes@.subrange(0, n as int) =~= bytes@);
    }
    while e > 0 && *slice_index_get(bytes, e - 1) == 61
        invariant
            e <= n,
            n == bytes@.len(),
            bytes@ == s.spec_bytes(),
            strip_eq(bytes@) == strip_eq(bytes@.subrange(0, e as int)),
        decreases e,
    {
        proof {
            assert(bytes@.subrange(0, e as int).drop_last() =~= bytes@.subrange(
                0,
                e as int - 1,
            ));
        }
        e -= 1;
    }
    let ghost stripped = strip_eq(bytes@);
    proof {
        assert(strip_eq(bytes@.subrange(0, e as int)) == bytes@.subrange(0, e as int));
        assert(stripped == bytes@.subrange(0, e as int));
    }
    // Decode chunk by chunk.
    let mut out: Vec<u8> = Vec::new();
    let mut i: usize = 0;
    let mut stop = false;
    proof {
        assert(stripped.skip(0) =~= stripped);
        assert(Seq::<u8>::empty() + sp_b64_decode_bytes(stripped.skip(0)) =~= sp_b64_decode_bytes(
            stripped.skip(0),
        ));
    }
    while i < e && !stop
        invariant
            i <= e <= n,
            n == bytes@.len(),
            stripped == bytes@.subrange(0, e as int),
            stop ==> sp_b64_decode_bytes(stripped) == out@,
            !stop ==> sp_b64_decode_bytes(stripped) == out@ + sp_b64_decode_bytes(
                stripped.skip(i as int),
            ),
        decreases e - i + (if stop { 0int } else { 1int }),
    {
        let ghost suf = stripped.skip(i as int);
        let j_end = if e - i >= 4 {
            i + 4
        } else {
            e
        };
        // Collect the alphabet values of this chunk.
        let mut vals: Vec<u32> = Vec::new();
        let mut k: usize = i;
        proof {
            assert(stripped.subrange(i as int, i as int) =~= Seq::<u8>::empty());
            assert(chunk_vals(Seq::<u8>::empty()) =~= Seq::<u32>::empty());
        }
        while k < j_end
            invariant
                i <= k <= j_end <= e <= n,
                n == bytes@.len(),
                stripped == bytes@.subrange(0, e as int),
                vals@ == chunk_vals(stripped.subrange(i as int, k as int)),
            decreases j_end - k,
        {
            proof {
                assert(stripped.subrange(i as int, (k + 1) as int).drop_last()
                    =~= stripped.subrange(i as int, k as int));
                assert(stripped.subrange(i as int, (k + 1) as int).last() == bytes@[k as int]);
            }
            match b64v(*slice_index_get(bytes, k)) {
                Some(v) => {
                    vals.push(v);
                },
                None => {},
            }
            k += 1;
        }
        let ghost chunk = if suf.len() >= 4 {
            suf.take(4)
        } else {
            suf
        };
        proof {
            assert(stripped.subrange(i as int, j_end as int) =~= chunk);
        }
        if vals.len() < 2 {
            stop = true;
        } else {
            let v0 = vals[0];
            let v1 = vals[1];
            proof {
                lemma_chunk_vals_bounded(chunk);
            }
            out.push((v0 * 4 + v1 / 16) as u8);
            if vals.len() > 2 {
                let v2 = vals[2];
                out.push(((v1 % 16) * 16 + v2 / 4) as u8);
                if vals.len() > 3 {
                    let v3 = vals[3];
                    out.push(((v2 % 4) * 64 + v3) as u8);
                }
            }
            proof {
                if e - i >= 4 {
                    assert(suf.skip(4) =~= stripped.skip(j_end as int));
                } else {
                    assert(stripped.skip(j_end as int) =~= Seq::<u8>::empty());
                }
            }
            i = j_end;
        }
    }
    proof {
        if !stop {
            assert(stripped.skip(e as int) =~= Seq::<u8>::empty());
        }
        assert(out@ + Seq::<u8>::empty() =~= out@);
    }
    utf8_string(out)
}

/// Every chunk value is below 64.
proof fn lemma_chunk_vals_bounded(ch: Seq<u8>)
    ensures
        forall|k: int| 0 <= k < chunk_vals(ch).len() ==> #[trigger] chunk_vals(ch)[k] < 64,
    decreases ch.len(),
{
    if ch.len() > 0 {
        lemma_chunk_vals_bounded(ch.drop_last());
        let pre = chunk_vals(ch.drop_last());
        match sp_b64v(ch.last()) {
            Some(v) => {
                assert(chunk_vals(ch) == pre.push(v));
                assert forall|k: int| 0 <= k < chunk_vals(ch).len() implies chunk_vals(
                    ch,
                )[k] < 64 by {
                    if k < pre.len() {
                        assert(chunk_vals(ch)[k] == pre[k]);
                    } else {
                        assert(chunk_vals(ch)[k] == v);
                    }
                }
            },
            None => {},
        }
    }
}

} // verus!
