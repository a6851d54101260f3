//! Standard base64 with `=` padding, as PNG bytes are carried in a data URL.

use vstd::prelude::*;
use vstd::string::*;

verus! {

/// The six-bit value a standard-alphabet character stands for; -1 for any
/// other character (`=` included).
pub open spec fn b64_val(c: char) -> int {
    if 'A' <= c && c <= 'Z' {
        c as int - 'A' as int
    } else if 'a' <= c && c <= 'z' {
        26 + (c as int - 'a' as int)
    } else if '0' <= c && c <= '9' {
        52 + (c as int - '0' as int)
    } else if c == '+' {
        62
    } else if c == '/' {
        63
    } else {
        -1
    }
}

pub open spec fn is_b64_char(c: char) -> bool {
    b64_val(c) >= 0
}

/// The alphabet character standing for a six-bit value.
pub open spec fn b64_char_of(v: int) -> char
    recommends
        0 <= v < 64,
{
    if v < 26 {
        ('A' as int + v) as char
    } else if v < 52 {
        ('a' as int + (v - 26)) as char
    } else if v < 62 {
        ('0' as int + (v - 52)) as char
    } else if v == 62 {
        '+'
    } else {
        '/'
    }
}

/// The four characters of one 24-bit group (three bytes), high bits first.
pub open spec fn b64_encode_block(b0: u8, b1: u8, b2: u8) -> Seq<char> {
    seq![
        b64_char_of((b0 >> 2) as int),
        b64_char_of((((b0 & 0x03) << 4) | (b1 >> 4)) as int),
        b64_char_of((((b1 & 0x0f) << 2) | (b2 >> 6)) as int),
        b64_char_of((b2 & 0x3f) as int),
    ]
}

/// Standard padded base64: a trailing group of one or two bytes ends in
/// `==` or `=`.
pub open spec fn b64_encode(bytes: Seq<u8>) -> Seq<char>
    decreases bytes.len(),
{
    if bytes.len() >= 3 {
        b64_encode_block(bytes[0], bytes[1], bytes[2]) + b64_encode(bytes.skip(3))
    } else if bytes.len() == 1 {
        b64_encode_block(bytes[0], 0, 0).take(2) + seq!['=', '=']
    } else if bytes.len() == 2 {
        b64_encode_block(bytes[0], bytes[1], 0).take(3) + seq!['=']
    } else {
        Seq::empty()
    }
}

/// The three bytes carried by four six-bit values.
pub open spec fn b64_decode_block(v0: u8, v1: u8, v2: u8, v3: u8) -> Seq<u8> {
    seq![(v0 << 2) | (v1 >> 4), (v1 << 4) | (v2 >> 2), (v2 << 6) | v3]
}

/// A string is decodable exactly when it is empty or made of four-character
/// groups of alphabet characters, the last of which may end in `=` or `==`.
pub open spec fn b64_valid(s: Seq<char>) -> bool
    decreases s.len(),
{
    if s.len() == 0 {
        true
    } else if s.len() < 4 {
        false
    } else if s.len() == 4 {
        is_b64_char(s[0]) && is_b64_char(s[1]) && ((is_b64_char(s[2]) && is_b64_char(s[3])) || (
        is_b64_char(s[2]) && s[3] == '=') || (s[2] == '=' && s[3] == '='))
    } else {
        is_b64_char(s[0]) && is_b64_char(s[1]) && is_b64_char(s[2]) && is_b64_char(s[3])
            && b64_valid(s.skip(4))
    }
}

/// The bytes a valid string decodes to; a padded final group carries one or
/// two bytes, its spare low bits ignored.
pub open spec fn b64_decode_chars(s: Seq<char>) -> Seq<u8>
    recommends
        b64_valid(s),
    decreases s.len(),
{
    if s.len() < 4 {
        Seq::empty()
    } else if s.len() == 4 {
        if s[2] == '=' {
            b64_decode_block(b64_val(s[0]) as u8, b64_val(s[1]) as u8, 0, 0).take(1)
        } else if s[3] == '=' {
            b64_decode_block(b64_val(s[0]) as u8, b64_val(s[1]) as u8, b64_val(s[2]) as u8, 0).take(
                2,
            )
        } else {
            b64_decode_block(
                b64_val(s[0]) as u8,
                b64_val(s[1]) as u8,
                b64_val(s[2]) as u8,
                b64_val(s[3]) as u8,
            )
        }
    } else {
        b64_decode_block(
            b64_val(s[0]) as u8,
            b64_val(s[1]) as u8,
            b64_val(s[2]) as u8,
            b64_val(s[3]) as u8,
        ) + b64_decode_chars(s.skip(4))
    }
}

/// What decoding returns: the carried bytes on a valid string, nothing else.
pub open spec fn b64_decode(s: Seq<char>) -> Option<Seq<u8>> {
    if b64_valid(s) {
        Some(b64_decode_chars(s))
    } else {
        None
    }
}

proof fn lemma_b64_char_val(v: int)
    requires
        0 <= v < 64,
    ensures
        b64_val(b64_char_of(v)) == v,
{
}

/// The characters of one encoded group are in the alphabet and carry back
/// the four six-bit values they were made from.
proof fn lemma_b64_block_chars(b0: u8, b1: u8, b2: u8)
    ensures
        ({
            let cs = b64_encode_block(b0, b1, b2);
            &&& cs.len() == 4
            &&& forall|i: int| 0 <= i < 4 ==> is_b64_char(#[trigger] cs[i])
            &&& b64_val(cs[0]) == (b0 >> 2) as int
            &&& b64_val(cs[1]) == (((b0 & 0x03) << 4) | (b1 >> 4)) as int
            &&& b64_val(cs[2]) == (((b1 & 0x0f) << 2) | (b2 >> 6)) as int
            &&& b64_val(cs[3]) == (b2 & 0x3f) as int
        }),
{
    assert((b0 >> 2) < 64 && (((b0 & 0x03) << 4) | (b1 >> 4)) < 64 && (((b1 & 0x0f) << 2) | (b2
        >> 6)) < 64 && (b2 & 0x3f) < 64) by (bit_vector);
    lemma_b64_char_val((b0 >> 2) as int);
    lemma_b64_char_val((((b0 & 0x03) << 4) | (b1 >> 4)) as int);
    lemma_b64_char_val((((b1 & 0x0f) << 2) | (b2 >> 6)) as int);
    lemma_b64_char_val((b2 & 0x3f) as int);
}

/// Regrouping the four six-bit values of a group gives back its three bytes.
proof fn lemma_b64_bits_round(b0: u8, b1: u8, b2: u8)
    ensures
        ((b0 >> 2) << 2) | ((((b0 & 0x03) << 4) | (b1 >> 4)) >> 4) == b0,
        ((((b0 & 0x03) << 4) | (b1 >> 4)) << 4) | ((((b1 & 0x0f) << 2) | (b2 >> 6)) >> 2) == b1,
        ((((b1 & 0x0f) << 2) | (b2 >> 6)) << 6) | (b2 & 0x3f) == b2,
{
    assert(((b0 >> 2) << 2) | ((((b0 & 0x03) << 4) | (b1 >> 4)) >> 4) == b0) by (bit_vector);
    assert(((((b0 & 0x03) << 4) | (b1 >> 4)) << 4) | ((((b1 & 0x0f) << 2) | (b2 >> 6)) >> 2) == b1)
        by (bit_vector);
    assert(((((b1 & 0x0f) << 2) | (b2 >> 6)) << 6) | (b2 & 0x3f) == b2) by (bit_vector);
}

/// Padded base64 round-trips: decoding an encoding returns the input,
/// whatever the byte sequence.
pub proof fn lemma_base64_round_trip(bytes: Seq<u8>)
    ensures
        b64_decode(b64_encode(bytes)) == Some(bytes),
    decreases bytes.len(),
{
    let cs = b64_encode(bytes);
    if bytes.len() >= 3 {
        let b0 = bytes[0];
        let b1 = bytes[1];
        let b2 = bytes[2];
        lemma_b64_block_chars(b0, b1, b2);
        lemma_b64_bits_round(b0, b1, b2);
        lemma_base64_round_trip(bytes.skip(3));
        let blk = b64_encode_block(b0, b1, b2);
        let rec = b64_encode(bytes.skip(3));
        assert(cs.skip(4) =~= rec);
        assert(rec.len() == 0 || rec.len() >= 4);
        assert(b64_valid(cs));
        assert(b64_decode_chars(cs) =~= bytes);
    } else if bytes.len() == 1 {
        let b0 = bytes[0];
        lemma_b64_block_chars(b0, 0, 0);
        lemma_b64_bits_round(b0, 0, 0);
        assert(b64_decode_chars(cs) =~= bytes);
    } else if bytes.len() == 2 {
        let b0 = bytes[0];
        let b1 = bytes[1];
        lemma_b64_block_chars(b0, b1, 0);
        lemma_b64_bits_round(b0, b1, 0);
        assert(b64_decode_chars(cs) =~= bytes);
    } else {
        assert(b64_decode_chars(cs) =~= bytes);
    }
}

/// Appends the alphabet character for a six-bit value.
fn push_b64_char(out: &mut String, v: u8)
    requires
        v < 64,
    ensures
        final(out)@ == old(out)@ + seq![b64_char_of(v as int)],
{
    let table = "ABCDEFGHIJKLMNOPQRSTUVWXYZabcdefghijklmnopqrstuvwxyz0123456789+/";
    proof {
        reveal_strlit("ABCDEFGHIJKLMNOPQRSTUVWXYZabcdefghijklmnopqrstuvwxyz0123456789+/");
        assert(is_ascii(table));
        assert(table@[v as int] == b64_char_of(v as int));
    }
    let piece = table.substring_ascii(v as usize, v as usize + 1);
    out.append(piece);
    proof {
        assert(table@.subrange(v as int, v as int + 1) =~= seq![b64_char_of(v as int)]);
    }
}

/// Encodes bytes as standard padded base64.
pub fn base64_encode(bytes: &Vec<u8>) -> (r: String)
    ensures
        r@ == b64_encode(bytes@),
{
    let n = bytes.len();
    let mut out = String::new();
    let mut i: usize = 0;
    proof {
        assert(bytes@.skip(0) =~= bytes@);
        assert(out@ + b64_encode(bytes@) =~= b64_encode(bytes@));
    }
    while n - i >= 3
        invariant
            i <= n,
            n == bytes@.len(),
            out@ + b64_encode(bytes@.skip(i as int)) == b64_encode(bytes@),
        decreases n - i,
    {
        let b0 = bytes[i];
        let b1 = bytes[i + 1];
        let b2 = bytes[i + 2];
        proof {
            lemma_b64_block_chars(b0, b1, b2);
        }
        let ghost prev = out@;
        push_b64_char(&mut out, b0 >> 2);
        push_b64_char(&mut out, ((b0 & 0x03) << 4) | (b1 >> 4));
        push_b64_char(&mut out, ((b1 & 0x0f) << 2) | (b2 >> 6));
        push_b64_char(&mut out, b2 & 0x3f);
        proof {
            let rest = bytes@.skip(i as int);
            let blk = b64_encode_block(b0, b1, b2);
            assert(rest.skip(3) =~= bytes@.skip(i as int + 3));
            assert(out@ =~= prev + blk);
            assert(b64_encode(rest) == blk + b64_encode(rest.skip(3)));
            assert((prev + blk) + b64_encode(rest.skip(3)) =~= prev + (blk + b64_encode(
                rest.skip(3),
            )));
        }
        i = i + 3;
    }
    let rem = n - i;
    let ghost rest = bytes@.skip(i as int);
    proof {
        assert(rest.len() == rem);
        reveal_strlit("=");
    }
    if rem >= 1 {
        let b0 = bytes[i];
        let b1 = if rem >= 2 {
            bytes[i + 1]
        } else {
            0
        };
        let b2: u8 = 0;
        proof {
            lemma_b64_block_chars(b0, b1, b2);
        }
        let ghost prev = out@;
        push_b64_char(&mut out, b0 >> 2);
        push_b64_char(&mut out, ((b0 & 0x03) << 4) | (b1 >> 4));
        if rem >= 2 {
            push_b64_char(&mut out, ((b1 & 0x0f) << 2) | (b2 >> 6));
        }
        out.append("=");
        if rem == 1 {
            out.append("=");
        }
        proof {
            let blk = b64_encode_block(b0, b1, b2);
            assert(rest[0] == b0);
            if rem == 1 {
                assert(b64_encode(rest) == blk.take(2) + seq!['=', '=']);
                assert(blk.take(2) =~= seq![blk[0], blk[1]]);
            } else {
                assert(rest[1] == b1);
                assert(b64_encode(rest) == blk.take(3) + seq!['=']);
                assert(blk.take(3) =~= seq![blk[0], blk[1], blk[2]]);
            }
            assert(out@ =~= prev + b64_encode(rest));
        }
    }
    proof {
        if rem == 0 {
            assert(b64_encode(rest) =~= Seq::<char>::empty());
            assert(out@ + b64_encode(rest) =~= out@);
        }
    }
    out
}

} // verus!
