//! RFC 3986 percent-encoding: unreserved characters kept, every other
//! character escaped as the `%XX` of its UTF-8 bytes, uppercase hex.

use vstd::prelude::*;
use vstd::string::*;
use vstd::utf8::*;

verus! {

/// Characters copied untouched: ASCII letters, digits, `-`, `.`, `_`, `~`.
pub open spec fn is_unreserved(c: char) -> bool {
    ('A' <= c && c <= 'Z') || ('a' <= c && c <= 'z') || ('0' <= c && c <= '9') || c == '-' || c
        == '.' || c == '_' || c == '~'
}

/// The uppercase hexadecimal digit for a value below 16.
pub open spec fn hex_digit(v: int) -> char
    recommends
        0 <= v < 16,
{
    if v < 10 {
        ('0' as int + v) as char
    } else {
        ('A' as int + (v - 10)) as char
    }
}

/// The `%XX` escape of one byte.
pub open spec fn pct_escape_byte(b: u8) -> Seq<char> {
    seq!['%', hex_digit((b >> 4) as int), hex_digit((b & 0x0f) as int)]
}

/// The `%XX` escapes of a byte sequence, in order.
pub open spec fn pct_escape_bytes(bs: Seq<u8>) -> Seq<char>
    decreases bs.len(),
{
    if bs.len() == 0 {
        Seq::empty()
    } else {
        pct_escape_byte(bs[0]) + pct_escape_bytes(bs.skip(1))
    }
}

/// Percent-encoding over characters: unreserved characters stand as
/// themselves, every other character as the escapes of its UTF-8 bytes.
pub open spec fn percent_encoding(s: Seq<char>) -> Seq<char>
    decreases s.len(),
{
    if s.len() == 0 {
        Seq::empty()
    } else {
        (if is_unreserved(s[0]) {
            seq![s[0]]
        } else {
            pct_escape_bytes(encode_scalar(s[0] as u32))
        }) + percent_encoding(s.skip(1))
    }
}

/// The UTF-8 bytes of one character.
fn utf8_bytes_of(c: char) -> (r: Vec<u8>)
    ensures
        r@ == encode_scalar(c as u32),
        1 <= r@.len() <= 4,
{
    proof {
        char_is_scalar(c);
    }
    let u = c as u32;
    let mut out: Vec<u8> = Vec::new();
    if u < 0x80 {
        out.push((u & 0x7f) as u8);
    } else if u < 0x800 {
        out.push(0xc0 | (((u >> 6) & 0x1f) as u8));
        out.push(0x80 | ((u & 0x3f) as u8));
    } else if u < 0x10000 {
        out.push(0xe0 | (((u >> 12) & 0x0f) as u8));
        out.push(0x80 | (((u >> 6) & 0x3f) as u8));
        out.push(0x80 | ((u & 0x3f) as u8));
    } else {
        out.push(0xf0 | (((u >> 18) & 0x07) as u8));
        out.push(0x80 | (((u >> 12) & 0x3f) as u8));
        out.push(0x80 | (((u >> 6) & 0x3f) as u8));
        out.push(0x80 | ((u & 0x3f) as u8));
    }
    proof {
        assert(out@ =~= encode_scalar(u));
    }
    out
}

/// Appends the `%XX` escape of one byte.
fn push_escape(out: &mut String, b: u8)
    ensures
        final(out)@ == old(out)@ + pct_escape_byte(b),
{
    let table = "0123456789ABCDEF";
    proof {
        reveal_strlit("0123456789ABCDEF");
        reveal_strlit("%");
        assert(is_ascii(table));
        assert(b >> 4 < 16 && (b & 0x0f) < 16) by (bit_vector);
        assert(table@[(b >> 4) as int] == hex_digit((b >> 4) as int));
        assert(table@[(b & 0x0f) as int] == hex_digit((b & 0x0f) as int));
    }
    let ghost prev = out@;
    out.append("%");
    let hi = (b >> 4) as usize;
    let lo = (b & 0x0f) as usize;
    out.append(table.substring_ascii(hi, hi + 1));
    out.append(table.substring_ascii(lo, lo + 1));
    proof {
        assert(out@ =~= prev + pct_escape_byte(b));
    }
}

/// Percent-encodes a string as RFC 3986 asks: unreserved ASCII kept, every
/// other character escaped byte by byte.
pub fn percent_encode(s: &str) -> (r: String)
    ensures
        r@ == percent_encoding(s@),
{
    let n = s.unicode_len();
    let mut out = String::new();
    let mut i: usize = 0;
    proof {
        assert(s@.skip(0) =~= s@);
        assert(out@ + percent_encoding(s@) =~= percent_encoding(s@));
    }
    while i < n
        invariant
            i <= n,
            n == s@.len(),
            out@ + percent_encoding(s@.skip(i as int)) == percent_encoding(s@),
        decreases n - i,
    {
        let c = s.get_char(i);
        let ghost prev = out@;
        let ghost rest = s@.skip(i as int);
        if ('A' <= c && c <= 'Z') || ('a' <= c && c <= 'z') || ('0' <= c && c <= '9') || c == '-'
            || c == '.' || c == '_' || c == '~' {
            let piece = s.substring_char(i, i + 1);
            out.append(piece);
            proof {
                assert(s@.subrange(i as int, i as int + 1) =~= seq![c]);
            }
        } else {
            let bytes = utf8_bytes_of(c);
            let m = bytes.len();
            let mut k: usize = 0;
            proof {
                assert(bytes@.skip(0) =~= bytes@);
            }
            while k < m
                invariant
                    k <= m,
                    m == bytes@.len(),
                    out@ + pct_escape_bytes(bytes@.skip(k as int)) == prev + pct_escape_bytes(
                        bytes@,
                    ),
                decreases m - k,
            {
                let ghost mid = out@;
                push_escape(&mut out, bytes[k]);
                proof {
                    let tail = bytes@.skip(k as int);
                    assert(tail.skip(1) =~= bytes@.skip(k as int + 1));
                    assert(pct_escape_bytes(tail) == pct_escape_byte(bytes@[k as int])
                        + pct_escape_bytes(tail.skip(1)));
                    assert((mid + pct_escape_byte(bytes@[k as int])) + pct_escape_bytes(
                        tail.skip(1),
                    ) =~= mid + (pct_escape_byte(bytes@[k as int]) + pct_escape_bytes(
                        tail.skip(1),
                    )));
                }
                k = k + 1;
            }
            proof {
                assert(pct_escape_bytes(bytes@.skip(m as int)) =~= Seq::<char>::empty());
                assert(out@ + pct_escape_bytes(bytes@.skip(m as int)) =~= out@);
            }
        }
        proof {
            assert(rest.skip(1) =~= s@.skip(i as int + 1));
            assert(rest[0] == c);
            let piece = if is_unreserved(c) {
                seq![c]
            } else {
                pct_escape_bytes(encode_scalar(c as u32))
            };
            assert(percent_encoding(rest) == piece + percent_encoding(rest.skip(1)));
            assert(out@ =~= prev + piece);
            assert((prev + piece) + percent_encoding(rest.skip(1)) =~= prev + (piece
                + percent_encoding(rest.skip(1))));
        }
        i = i + 1;
    }
    proof {
        assert(percent_encoding(s@.skip(n as int)) =~= Seq::<char>::empty());
        assert(out@ + percent_encoding(s@.skip(n as int)) =~= out@);
    }
    out
}

} // verus!
