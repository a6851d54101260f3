//! RFC 4648 base32 without padding, as TOTP secrets use it.

use vstd::prelude::*;
use vstd::string::*;
use vstd::arithmetic::div_mod::lemma_fundamental_div_mod;
use vstd::arithmetic::div_mod::lemma_mod_multiples_vanish;
use vstd::arithmetic::div_mod::lemma_small_mod;

verus! {

/// The five-bit value a character of the RFC 4648 alphabet stands for
/// (`A`..`Z` for 0..25, `2`..`7` for 26..31); -1 for any other character.
pub open spec fn b32_val(c: char) -> int {
    if 'A' <= c && c <= 'Z' {
        c as int - 'A' as int
    } else if '2' <= c && c <= '7' {
        26 + (c as int - '2' as int)
    } else {
        -1
    }
}

pub open spec fn is_b32_char(c: char) -> bool {
    b32_val(c) >= 0
}

/// The alphabet character standing for a five-bit value.
pub open spec fn b32_char_of(v: int) -> char
    recommends
        0 <= v < 32,
{
    if v < 26 {
        ('A' as int + v) as char
    } else {
        ('2' as int + (v - 26)) as char
    }
}

/// The eight characters of one forty-bit block (five bytes), high bits first.
pub open spec fn b32_encode_block(b0: u8, b1: u8, b2: u8, b3: u8, b4: u8) -> Seq<char> {
    seq![
        b32_char_of((b0 >> 3) as int),
        b32_char_of((((b0 & 0x07) << 2) | (b1 >> 6)) as int),
        b32_char_of(((b1 >> 1) & 0x1f) as int),
        b32_char_of((((b1 & 0x01) << 4) | (b2 >> 4)) as int),
        b32_char_of((((b2 & 0x0f) << 1) | (b3 >> 7)) as int),
        b32_char_of(((b3 >> 2) & 0x1f) as int),
        b32_char_of((((b3 & 0x03) << 3) | (b4 >> 5)) as int),
        b32_char_of((b4 & 0x1f) as int),
    ]
}

/// Unpadded base32: each full five-byte block becomes eight characters; a
/// final partial block of 1, 2, 3 or 4 bytes becomes 2, 4, 5 or 7 characters
/// (its missing low bits are zero).
pub open spec fn b32_encode(bytes: Seq<u8>) -> Seq<char>
    decreases bytes.len(),
{
    if bytes.len() >= 5 {
        b32_encode_block(bytes[0], bytes[1], bytes[2], bytes[3], bytes[4]) + b32_encode(
            bytes.skip(5),
        )
    } else if bytes.len() == 1 {
        b32_encode_block(bytes[0], 0, 0, 0, 0).take(2)
    } else if bytes.len() == 2 {
        b32_encode_block(bytes[0], bytes[1], 0, 0, 0).take(4)
    } else if bytes.len() == 3 {
        b32_encode_block(bytes[0], bytes[1], bytes[2], 0, 0).take(5)
    } else if bytes.len() == 4 {
        b32_encode_block(bytes[0], bytes[1], bytes[2], bytes[3], 0).take(7)
    } else {
        Seq::empty()
    }
}

/// How many characters the encoding of `n` bytes has.
pub open spec fn b32_encode_len(n: int) -> int
    decreases n,
{
    if n >= 5 {
        8 + b32_encode_len(n - 5)
    } else if n == 1 {
        2
    } else if n == 2 {
        4
    } else if n == 3 {
        5
    } else if n == 4 {
        7
    } else {
        0
    }
}

/// A string is decodable exactly when every character belongs to the alphabet
/// and the length is a possible unpadded-encoding length.
pub open spec fn b32_valid(s: Seq<char>) -> bool {
    &&& forall|i: int| 0 <= i < s.len() ==> is_b32_char(#[trigger] s[i])
    &&& (s.len() % 8 == 0 || s.len() % 8 == 2 || s.len() % 8 == 4 || s.len() % 8 == 5 || s.len()
        % 8 == 7)
}

/// The five bytes carried by eight five-bit values.
pub open spec fn b32_decode_block(
    v0: u8,
    v1: u8,
    v2: u8,
    v3: u8,
    v4: u8,
    v5: u8,
    v6: u8,
    v7: u8,
) -> Seq<u8> {
    seq![
        (v0 << 3) | (v1 >> 2),
        (v1 << 6) | (v2 << 1) | (v3 >> 4),
        (v3 << 4) | (v4 >> 1),
        (v4 << 7) | (v5 << 2) | (v6 >> 3),
        (v6 << 5) | v7,
    ]
}

/// The bytes a valid string decodes to; a trailing partial group of 2, 4, 5
/// or 7 characters carries 1, 2, 3 or 4 bytes, its spare low bits ignored.
pub open spec fn b32_decode_chars(s: Seq<char>) -> Seq<u8>
    recommends
        b32_valid(s),
    decreases s.len(),
{
    if s.len() >= 8 {
        b32_decode_block(
            b32_val(s[0]) as u8,
            b32_val(s[1]) as u8,
            b32_val(s[2]) as u8,
            b32_val(s[3]) as u8,
            b32_val(s[4]) as u8,
            b32_val(s[5]) as u8,
            b32_val(s[6]) as u8,
            b32_val(s[7]) as u8,
        ) + b32_decode_chars(s.skip(8))
    } else if s.len() == 2 {
        b32_decode_block(b32_val(s[0]) as u8, b32_val(s[1]) as u8, 0, 0, 0, 0, 0, 0).take(1)
    } else if s.len() == 4 {
        b32_decode_block(
            b32_val(s[0]) as u8,
            b32_val(s[1]) as u8,
            b32_val(s[2]) as u8,
            b32_val(s[3]) as u8,
            0,
            0,
            0,
            0,
        ).take(2)
    } else if s.len() == 5 {
        b32_decode_block(
            b32_val(s[0]) as u8,
            b32_val(s[1]) as u8,
            b32_val(s[2]) as u8,
            b32_val(s[3]) as u8,
            b32_val(s[4]) as u8,
            0,
            0,
            0,
        ).take(3)
    } else if s.len() == 7 {
        b32_decode_block(
            b32_val(s[0]) as u8,
            b32_val(s[1]) as u8,
            b32_val(s[2]) as u8,
            b32_val(s[3]) as u8,
            b32_val(s[4]) as u8,
            b32_val(s[5]) as u8,
            b32_val(s[6]) as u8,
            0,
        ).take(4)
    } else {
        Seq::empty()
    }
}

/// What decoding returns: the carried bytes on a valid string, nothing else.
pub open spec fn b32_decode(s: Seq<char>) -> Option<Seq<u8>> {
    if b32_valid(s) {
        Some(b32_decode_chars(s))
    } else {
        None
    }
}

proof fn lemma_b32_char_val(v: int)
    requires
        0 <= v < 32,
    ensures
        b32_val(b32_char_of(v)) == v,
{
}

/// The characters of one encoded block are in the alphabet and carry back the
/// eight five-bit groups they were made from.
proof fn lemma_b32_block_chars(b0: u8, b1: u8, b2: u8, b3: u8, b4: u8)
    ensures
        ({
            let cs = b32_encode_block(b0, b1, b2, b3, b4);
            &&& cs.len() == 8
            &&& forall|i: int| 0 <= i < 8 ==> is_b32_char(#[trigger] cs[i])
            &&& b32_val(cs[0]) == (b0 >> 3) as int
            &&& b32_val(cs[1]) == (((b0 & 0x07) << 2) | (b1 >> 6)) as int
            &&& b32_val(cs[2]) == ((b1 >> 1) & 0x1f) as int
            &&& b32_val(cs[3]) == (((b1 & 0x01) << 4) | (b2 >> 4)) as int
            &&& b32_val(cs[4]) == (((b2 & 0x0f) << 1) | (b3 >> 7)) as int
            &&& b32_val(cs[5]) == ((b3 >> 2) & 0x1f) as int
            &&& b32_val(cs[6]) == (((b3 & 0x03) << 3) | (b4 >> 5)) as int
            &&& b32_val(cs[7]) == (b4 & 0x1f) as int
        }),
{
    assert((b0 >> 3) < 32 && (((b0 & 0x07) << 2) | (b1 >> 6)) < 32 && ((b1 >> 1) & 0x1f) < 32 && ((
    (b1 & 0x01) << 4) | (b2 >> 4)) < 32 && (((b2 & 0x0f) << 1) | (b3 >> 7)) < 32 && ((b3 >> 2)
        & 0x1f) < 32 && (((b3 & 0x03) << 3) | (b4 >> 5)) < 32 && ((b4 & 0x1f)) < 32)
        by (bit_vector);
    lemma_b32_char_val((b0 >> 3) as int);
    lemma_b32_char_val((((b0 & 0x07) << 2) | (b1 >> 6)) as int);
    lemma_b32_char_val(((b1 >> 1) & 0x1f) as int);
    lemma_b32_char_val((((b1 & 0x01) << 4) | (b2 >> 4)) as int);
    lemma_b32_char_val((((b2 & 0x0f) << 1) | (b3 >> 7)) as int);
    lemma_b32_char_val(((b3 >> 2) & 0x1f) as int);
    lemma_b32_char_val((((b3 & 0x03) << 3) | (b4 >> 5)) as int);
    lemma_b32_char_val((b4 & 0x1f) as int);
}

/// Regrouping the eight five-bit values of a block gives back its five bytes.
proof fn lemma_b32_bits_round(b0: u8, b1: u8, b2: u8, b3: u8, b4: u8)
    ensures
        ((b0 >> 3) << 3) | ((((b0 & 0x07) << 2) | (b1 >> 6)) >> 2) == b0,
        ((((b0 & 0x07) << 2) | (b1 >> 6)) << 6) | (((b1 >> 1) & 0x1f) << 1) | ((((b1 & 0x01) << 4)
            | (b2 >> 4)) >> 4) == b1,
        ((((b1 & 0x01) << 4) | (b2 >> 4)) << 4) | ((((b2 & 0x0f) << 1) | (b3 >> 7)) >> 1) == b2,
        ((((b2 & 0x0f) << 1) | (b3 >> 7)) << 7) | (((b3 >> 2) & 0x1f) << 2) | ((((b3 & 0x03) << 3)
            | (b4 >> 5)) >> 3) == b3,
        ((((b3 & 0x03) << 3) | (b4 >> 5)) << 5) | (b4 & 0x1f) == b4,
{
    assert(((b0 >> 3) << 3) | ((((b0 & 0x07) << 2) | (b1 >> 6)) >> 2) == b0) by (bit_vector);
    assert(((((b0 & 0x07) << 2) | (b1 >> 6)) << 6) | (((b1 >> 1) & 0x1f) << 1) | ((((b1 & 0x01)
        << 4) | (b2 >> 4)) >> 4) == b1) by (bit_vector);
    assert(((((b1 & 0x01) << 4) | (b2 >> 4)) << 4) | ((((b2 & 0x0f) << 1) | (b3 >> 7)) >> 1) == b2)
        by (bit_vector);
    assert(((((b2 & 0x0f) << 1) | (b3 >> 7)) << 7) | (((b3 >> 2) & 0x1f) << 2) | ((((b3 & 0x03)
        << 3) | (b4 >> 5)) >> 3) == b3) by (bit_vector);
    assert(((((b3 & 0x03) << 3) | (b4 >> 5)) << 5) | (b4 & 0x1f) == b4) by (bit_vector);
}

/// Encoding always yields a decodable string of the expected length.
pub proof fn lemma_b32_encode_valid(bytes: Seq<u8>)
    ensures
        b32_valid(b32_encode(bytes)),
        b32_encode(bytes).len() == b32_encode_len(bytes.len() as int),
    decreases bytes.len(),
{
    let cs = b32_encode(bytes);
    if bytes.len() >= 5 {
        lemma_b32_block_chars(bytes[0], bytes[1], bytes[2], bytes[3], bytes[4]);
        lemma_b32_encode_valid(bytes.skip(5));
        let rec = b32_encode(bytes.skip(5));
        assert(forall|i: int| 0 <= i < cs.len() ==> is_b32_char(#[trigger] cs[i])) by {
            let blk = b32_encode_block(bytes[0], bytes[1], bytes[2], bytes[3], bytes[4]);
            assert(forall|i: int| 0 <= i < cs.len() ==> cs[i] == if i < 8 {
                blk[i]
            } else {
                rec[i - 8]
            });
        }
        lemma_mod_multiples_vanish(1, rec.len() as int, 8);
    } else if bytes.len() == 0 {
    } else {
        lemma_b32_block_chars(
            bytes[0],
            if bytes.len() >= 2 {
                bytes[1]
            } else {
                0
            },
            if bytes.len() >= 3 {
                bytes[2]
            } else {
                0
            },
            if bytes.len() >= 4 {
                bytes[3]
            } else {
                0
            },
            0,
        );
        lemma_small_mod(cs.len() as nat, 8);
    }
}

/// Decoding an encoded byte sequence gives those bytes back.
proof fn lemma_b32_decode_encode(bytes: Seq<u8>)
    ensures
        b32_decode_chars(b32_encode(bytes)) == bytes,
    decreases bytes.len(),
{
    let cs = b32_encode(bytes);
    if bytes.len() >= 5 {
        let b0 = bytes[0];
        let b1 = bytes[1];
        let b2 = bytes[2];
        let b3 = bytes[3];
        let b4 = bytes[4];
        lemma_b32_block_chars(b0, b1, b2, b3, b4);
        lemma_b32_bits_round(b0, b1, b2, b3, b4);
        lemma_b32_encode_valid(bytes.skip(5));
        lemma_b32_decode_encode(bytes.skip(5));
        let blk = b32_encode_block(b0, b1, b2, b3, b4);
        let rec = b32_encode(bytes.skip(5));
        assert(cs.skip(8) =~= rec);
        assert(b32_decode_chars(cs) =~= bytes);
    } else if bytes.len() == 0 {
        assert(b32_decode_chars(cs) =~= bytes);
    } else {
        let b0 = bytes[0];
        let b1 = if bytes.len() >= 2 {
            bytes[1]
        } else {
            0
        };
        let b2 = if bytes.len() >= 3 {
            bytes[2]
        } else {
            0
        };
        let b3 = if bytes.len() >= 4 {
            bytes[3]
        } else {
            0
        };
        lemma_b32_block_chars(b0, b1, b2, b3, 0);
        lemma_b32_bits_round(b0, b1, b2, b3, 0);
        assert(b32_decode_chars(cs) =~= bytes);
    }
}

/// Unpadded base32 round-trips: decoding an encoding returns the input,
/// whatever the byte sequence.
pub proof fn lemma_base32_round_trip(bytes: Seq<u8>)
    ensures
        b32_decode(b32_encode(bytes)) == Some(bytes),
{
    lemma_b32_encode_valid(bytes);
    lemma_b32_decode_encode(bytes);
}

/// Appends the alphabet character for a five-bit value.
fn push_b32_char(out: &mut String, v: u8)
    requires
        v < 32,
    ensures
        final(out)@ == old(out)@ + seq![b32_char_of(v as int)],
{
    let table = "ABCDEFGHIJKLMNOPQRSTUVWXYZ234567";
    proof {
        reveal_strlit("ABCDEFGHIJKLMNOPQRSTUVWXYZ234567");
        assert(is_ascii(table));
        assert(table@[v as int] == b32_char_of(v as int));
    }
    let piece = table.substring_ascii(v as usize, v as usize + 1);
    out.append(piece);
    proof {
        assert(table@.subrange(v as int, v as int + 1) =~= seq![b32_char_of(v as int)]);
    }
}

/// Encodes bytes as unpadded RFC 4648 base32.
pub fn base32_encode(bytes: &Vec<u8>) -> (r: String)
    ensures
        r@ == b32_encode(bytes@),
{
    let n = bytes.len();
    let mut out = String::new();
    let mut i: usize = 0;
    proof {
        assert(bytes@.skip(0) =~= bytes@);
        assert(out@ + b32_encode(bytes@) =~= b32_encode(bytes@));
    }
    while n - i >= 5
        invariant
            i <= n,
            n == bytes@.len(),
            out@ + b32_encode(bytes@.skip(i as int)) == b32_encode(bytes@),
        decreases n - i,
    {
        let b0 = bytes[i];
        let b1 = bytes[i + 1];
        let b2 = bytes[i + 2];
        let b3 = bytes[i + 3];
        let b4 = bytes[i + 4];
        proof {
            lemma_b32_block_chars(b0, b1, b2, b3, b4);
        }
        let ghost prev = out@;
        push_b32_char(&mut out, b0 >> 3);
        push_b32_char(&mut out, ((b0 & 0x07) << 2) | (b1 >> 6));
        push_b32_char(&mut out, (b1 >> 1) & 0x1f);
        push_b32_char(&mut out, ((b1 & 0x01) << 4) | (b2 >> 4));
        push_b32_char(&mut out, ((b2 & 0x0f) << 1) | (b3 >> 7));
        push_b32_char(&mut out, (b3 >> 2) & 0x1f);
        push_b32_char(&mut out, ((b3 & 0x03) << 3) | (b4 >> 5));
        push_b32_char(&mut out, b4 & 0x1f);
        proof {
            let rest = bytes@.skip(i as int);
            let blk = b32_encode_block(b0, b1, b2, b3, b4);
            assert(rest.skip(5) =~= bytes@.skip(i as int + 5));
            assert(out@ =~= prev + blk);
            assert(b32_encode(rest) == blk + b32_encode(rest.skip(5)));
            assert((prev + blk) + b32_encode(rest.skip(5)) =~= prev + (blk + b32_encode(
                rest.skip(5),
            )));
        }
        i = i + 5;
    }
    let rem = n - i;
    let ghost rest = bytes@.skip(i as int);
    proof {
        assert(rest.len() == rem);
    }
    if rem >= 1 {
        let b0 = bytes[i];
        let b1 = if rem >= 2 {
            bytes[i + 1]
        } else {
            0
        };
        let b2 = if rem >= 3 {
            bytes[i + 2]
        } else {
            0
        };
        let b3 = if rem >= 4 {
            bytes[i + 3]
        } else {
            0
        };
        let b4: u8 = 0;
        proof {
            lemma_b32_block_chars(b0, b1, b2, b3, b4);
        }
        let ghost prev = out@;
        push_b32_char(&mut out, b0 >> 3);
        push_b32_char(&mut out, ((b0 & 0x07) << 2) | (b1 >> 6));
        if rem >= 2 {
            push_b32_char(&mut out, (b1 >> 1) & 0x1f);
            push_b32_char(&mut out, ((b1 & 0x01) << 4) | (b2 >> 4));
        }
        if rem >= 3 {
            push_b32_char(&mut out, ((b2 & 0x0f) << 1) | (b3 >> 7));
        }
        if rem >= 4 {
            push_b32_char(&mut out, (b3 >> 2) & 0x1f);
            push_b32_char(&mut out, ((b3 & 0x03) << 3) | (b4 >> 5));
        }
        proof {
            let blk = b32_encode_block(b0, b1, b2, b3, b4);
            assert(rest[0] == b0);
            if rem == 1 {
                assert(b32_encode(rest) == blk.take(2));
                assert(blk.take(2) =~= seq![blk[0], blk[1]]);
            } else if rem == 2 {
                assert(rest[1] == b1);
                assert(b32_encode(rest) == blk.take(4));
                assert(blk.take(4) =~= seq![blk[0], blk[1], blk[2], blk[3]]);
            } else if rem == 3 {
                assert(rest[1] == b1 && rest[2] == b2);
                assert(b32_encode(rest) == blk.take(5));
                assert(blk.take(5) =~= seq![blk[0], blk[1], blk[2], blk[3], blk[4]]);
            } else {
                assert(rest[1] == b1 && rest[2] == b2 && rest[3] == b3);
                assert(b32_encode(rest) == blk.take(7));
                assert(blk.take(7) =~= seq![blk[0], blk[1], blk[2], blk[3], blk[4], blk[5], blk[6]]);
            }
            assert(out@ =~= prev + b32_encode(rest));
        }
    }
    proof {
        if rem == 0 {
            assert(b32_encode(rest) =~= Seq::<char>::empty());
            assert(out@ + b32_encode(rest) =~= out@);
        }
    }
    out
}

/// The five-bit value of one character, or nothing outside the alphabet.
fn b32_char_value(c: char) -> (r: Option<u8>)
    ensures
        match r {
            Some(v) => v < 32 && b32_val(c) == v as int,
            None => !is_b32_char(c),
        },
{
    if 'A' <= c && c <= 'Z' {
        Some(c as u8 - 65)
    } else if '2' <= c && c <= '7' {
        Some(c as u8 - 50 + 26)
    } else {
        None
    }
}

/// Decodes an unpadded RFC 4648 base32 string; `None` exactly on strings
/// with a character outside the alphabet or an impossible length.
pub fn base32_decode(s: &str) -> (r: Option<Vec<u8>>)
    ensures
        match r {
            Some(v) => b32_decode(s@) == Some(v@),
            None => b32_decode(s@) is None,
        },
{
    let n = s.unicode_len();
    let rem = n % 8;
    if rem == 1 || rem == 3 || rem == 6 {
        return None;
    }
    let mut vals: Vec<u8> = Vec::new();
    let mut i: usize = 0;
    while i < n
        invariant
            i <= n,
            n == s@.len(),
            vals@.len() == i,
            forall|j: int|
                0 <= j < i ==> is_b32_char(#[trigger] s@[j]) && vals@[j] == b32_val(s@[j]) as u8
                    && b32_val(s@[j]) < 32,
        decreases n - i,
    {
        let c = s.get_char(i);
        match b32_char_value(c) {
            Some(v) => {
                vals.push(v);
            },
            None => {
                return None;
            },
        }
        i = i + 1;
    }
    let mut out: Vec<u8> = Vec::new();
    let mut i: usize = 0;
    proof {
        assert(s@.skip(0) =~= s@);
        assert(out@ + b32_decode_chars(s@) =~= b32_decode_chars(s@));
    }
    while n - i >= 8
        invariant
            i <= n,
            i % 8 == 0,
            n == s@.len(),
            n == vals@.len(),
            n % 8 == 0 || n % 8 == 2 || n % 8 == 4 || n % 8 == 5 || n % 8 == 7,
            forall|j: int|
                0 <= j < n ==> is_b32_char(#[trigger] s@[j]) && vals@[j] == b32_val(s@[j]) as u8
                    && b32_val(s@[j]) < 32,
            out@ + b32_decode_chars(s@.skip(i as int)) == b32_decode_chars(s@),
        decreases n - i,
    {
        let v0 = vals[i];
        let v1 = vals[i + 1];
        let v2 = vals[i + 2];
        let v3 = vals[i + 3];
        let v4 = vals[i + 4];
        let v5 = vals[i + 5];
        let v6 = vals[i + 6];
        let v7 = vals[i + 7];
        let ghost prev = out@;
        out.push((v0 << 3) | (v1 >> 2));
        out.push((v1 << 6) | (v2 << 1) | (v3 >> 4));
        out.push((v3 << 4) | (v4 >> 1));
        out.push((v4 << 7) | (v5 << 2) | (v6 >> 3));
        out.push((v6 << 5) | v7);
        proof {
            let rest = s@.skip(i as int);
            let blk = b32_decode_block(v0, v1, v2, v3, v4, v5, v6, v7);
            assert(rest.skip(8) =~= s@.skip(i as int + 8));
            assert(out@ =~= prev + blk);
            assert(b32_decode_chars(rest) == blk + b32_decode_chars(rest.skip(8)));
            assert((prev + blk) + b32_decode_chars(rest.skip(8)) =~= prev + (blk
                + b32_decode_chars(rest.skip(8))));
            lemma_mod_multiples_vanish(1, i as int, 8);
        }
        i = i + 8;
    }
    let tail = n - i;
    let ghost rest = s@.skip(i as int);
    proof {
        lemma_fundamental_div_mod(i as int, 8);
        lemma_mod_multiples_vanish(i as int / 8, tail as int, 8);
        lemma_small_mod(tail as nat, 8);
        assert(tail == n % 8);
    }
    if tail >= 2 {
        let v0 = vals[i];
        let v1 = vals[i + 1];
        let v2 = if tail >= 4 {
            vals[i + 2]
        } else {
            0
        };
        let v3 = if tail >= 4 {
            vals[i + 3]
        } else {
            0
        };
        let v4 = if tail >= 5 {
            vals[i + 4]
        } else {
            0
        };
        let v5 = if tail >= 7 {
            vals[i + 5]
        } else {
            0
        };
        let v6 = if tail >= 7 {
            vals[i + 6]
        } else {
            0
        };
        let v7: u8 = 0;
        let ghost prev = out@;
        out.push((v0 << 3) | (v1 >> 2));
        if tail >= 4 {
            out.push((v1 << 6) | (v2 << 1) | (v3 >> 4));
        }
        if tail >= 5 {
            out.push((v3 << 4) | (v4 >> 1));
        }
        if tail >= 7 {
            out.push((v4 << 7) | (v5 << 2) | (v6 >> 3));
        }
        proof {
            let blk = b32_decode_block(v0, v1, v2, v3, v4, v5, v6, v7);
            assert(rest[0] == s@[i as int] && rest[1] == s@[i as int + 1]);
            if tail == 2 {
                assert(b32_decode_chars(rest) == blk.take(1));
                assert(blk.take(1) =~= seq![blk[0]]);
            } else if tail == 4 {
                assert(b32_decode_chars(rest) == blk.take(2));
                assert(blk.take(2) =~= seq![blk[0], blk[1]]);
            } else if tail == 5 {
                assert(b32_decode_chars(rest) == blk.take(3));
                assert(blk.take(3) =~= seq![blk[0], blk[1], blk[2]]);
            } else {
                assert(b32_decode_chars(rest) == blk.take(4));
                assert(blk.take(4) =~= seq![blk[0], blk[1], blk[2], blk[3]]);
            }
            assert(out@ =~= prev + b32_decode_chars(rest));
        }
    }
    proof {
        if tail == 0 {
            assert(b32_decode_chars(rest) =~= Seq::<u8>::empty());
            assert(out@ + b32_decode_chars(rest) =~= out@);
        }
        assert(b32_valid(s@));
    }
    Some(out)
}

} // verus!
