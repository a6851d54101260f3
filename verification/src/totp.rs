//! RFC 6238 token derivation: HMAC-SHA1 over the 30-second counter, dynamic
//! truncation, six-digit formatting.

use vstd::prelude::*;
use vstd::string::*;
use hmac::{Hmac, Mac, KeyInit};
use sha1::Sha1;
use crate::base32::{b32_valid, b32_decode_chars, base32_decode};
use crate::errors::TotpError;

verus! {

/// What HMAC-SHA1 returns for a key and a message; a function of the two
/// alone, left uninterpreted.
pub uninterp spec fn hmac_sha1_of(key: Seq<u8>, msg: Seq<u8>) -> Seq<u8>;

/// The eight big-endian bytes of a 64-bit counter.
pub open spec fn be64(x: u64) -> Seq<u8> {
    seq![
        ((x >> 56) & 0xff) as u8,
        ((x >> 48) & 0xff) as u8,
        ((x >> 40) & 0xff) as u8,
        ((x >> 32) & 0xff) as u8,
        ((x >> 24) & 0xff) as u8,
        ((x >> 16) & 0xff) as u8,
        ((x >> 8) & 0xff) as u8,
        (x & 0xff) as u8,
    ]
}

/// RFC 4226 dynamic truncation: the low nibble of the digest's last byte
/// names an offset; four bytes there, top bit masked, read big-endian.
pub open spec fn dynamic_truncate(h: Seq<u8>) -> u32
    recommends
        h.len() == 20,
{
    let off = (h[19] & 0x0f) as int;
    (((h[off] & 0x7f) as u32) << 24) | ((h[off + 1] as u32) << 16) | ((h[off + 2] as u32) << 8) | (
    h[off + 3] as u32)
}

pub open spec fn dec_digit(d: int) -> char
    recommends
        0 <= d <= 9,
{
    ('0' as int + d) as char
}

/// The six decimal digits of `n`, leading zeros kept.
pub open spec fn six_digits(n: int) -> Seq<char>
    recommends
        0 <= n < 1000000,
{
    seq![
        dec_digit(n / 100000 % 10),
        dec_digit(n / 10000 % 10),
        dec_digit(n / 1000 % 10),
        dec_digit(n / 100 % 10),
        dec_digit(n / 10 % 10),
        dec_digit(n % 10),
    ]
}

/// The code for one key and one counter value.
pub open spec fn totp_code(key: Seq<u8>, counter: u64) -> Seq<char> {
    six_digits(dynamic_truncate(hmac_sha1_of(key, be64(counter))) as int % 1000000)
}

/// What token generation returns for a secret string and a timestamp.
pub open spec fn token_of(secret: Seq<char>, unix_seconds: u64) -> Option<Seq<char>> {
    if b32_valid(secret) {
        Some(totp_code(b32_decode_chars(secret), (unix_seconds / 30) as u64))
    } else {
        None
    }
}

/// Relies on hmac's `Hmac<Sha1>`: the tag is a function of key and message
/// alone, the SHA-1 digest is 20 bytes, and `new_from_slice` accepts keys of
/// any length (its source never returns an error).
#[verifier::external_body]
fn hmac_sha1(key: &Vec<u8>, msg: &Vec<u8>) -> (r: Vec<u8>)
    ensures
        r@ == hmac_sha1_of(key@, msg@),
        r@.len() == 20,
{
    let mut mac = <Hmac<Sha1> as KeyInit>::new_from_slice(key.as_slice()).expect(
        "HMAC accepts keys of any length",
    );
    mac.update(msg.as_slice());
    mac.finalize().into_bytes().to_vec()
}

/// The eight big-endian bytes of the counter, as HOTP hashes them.
pub fn counter_bytes(x: u64) -> (r: Vec<u8>)
    ensures
        r@ == be64(x),
{
    let mut out: Vec<u8> = Vec::new();
    out.push(((x >> 56) & 0xff) as u8);
    out.push(((x >> 48) & 0xff) as u8);
    out.push(((x >> 40) & 0xff) as u8);
    out.push(((x >> 32) & 0xff) as u8);
    out.push(((x >> 24) & 0xff) as u8);
    out.push(((x >> 16) & 0xff) as u8);
    out.push(((x >> 8) & 0xff) as u8);
    out.push((x & 0xff) as u8);
    proof {
        assert(out@ =~= be64(x));
    }
    out
}

/// Appends one decimal digit.
fn push_digit(out: &mut String, d: u8)
    requires
        d < 10,
    ensures
        final(out)@ == old(out)@ + seq![dec_digit(d as int)],
{
    let table = "0123456789";
    proof {
        reveal_strlit("0123456789");
        assert(is_ascii(table));
        assert(table@[d as int] == dec_digit(d as int));
    }
    let piece = table.substring_ascii(d as usize, d as usize + 1);
    out.append(piece);
    proof {
        assert(table@.subrange(d as int, d as int + 1) =~= seq![dec_digit(d as int)]);
    }
}

/// Truncates a 20-byte HMAC digest and formats the six-digit code it carries.
pub fn code_from_hash(hash: &Vec<u8>) -> (r: String)
    requires
        hash@.len() == 20,
    ensures
        r@ == six_digits(dynamic_truncate(hash@) as int % 1000000),
        r@.len() == 6,
        forall|i: int| 0 <= i < r@.len() ==> '0' <= #[trigger] r@[i] && r@[i] <= '9',
{
    let last = hash[19];
    proof {
        assert(last & 0x0f < 16) by (bit_vector);
    }
    let off = (last & 0x0f) as usize;
    let binary: u32 =(((hash[off] & 0x7f) as u32) << 24) | ((hash[off + 1] as u32) << 16) | ((
    hash[off + 2] as u32) << 8) | (hash[off + 3] as u32);
    let otp = binary % 1000000;
    proof {
        assert(binary == dynamic_truncate(hash@));
    }
    let mut out = String::new();
    push_digit(&mut out, ((otp / 100000) % 10) as u8);
    push_digit(&mut out, ((otp / 10000) % 10) as u8);
    push_digit(&mut out, ((otp / 1000) % 10) as u8);
    push_digit(&mut out, ((otp / 100) % 10) as u8);
    push_digit(&mut out, ((otp / 10) % 10) as u8);
    push_digit(&mut out, (otp % 10) as u8);
    proof {
        assert(out@ =~= six_digits(otp as int));
    }
    out
}

/// Derives the RFC 6238 code for a base32 secret at a Unix timestamp: SHA-1,
/// six digits, 30-second steps. Fails exactly on secrets that are not valid
/// unpadded base32.
pub fn generate_token(secret: &str, unix_seconds: u64) -> (r: Result<String, TotpError>)
    ensures
        r matches Ok(code) ==> token_of(secret@, unix_seconds) == Some(code@),
        r matches Ok(code) ==> code@.len() == 6 && (forall|i: int|
            0 <= i < code@.len() ==> '0' <= #[trigger] code@[i] && code@[i] <= '9'),
        r is Ok <==> b32_valid(secret@),
        r matches Err(e) ==> e == TotpError::InvalidSecretEncoding,
{
    let key = match base32_decode(secret) {
        Some(k) => k,
        None => { return Err(TotpError::InvalidSecretEncoding) },
    };
    let counter = unix_seconds / 30;
    let msg = counter_bytes(counter);
    let hash = hmac_sha1(&key, &msg);
    Ok(code_from_hash(&hash))
}

/// Token generation is deterministic: two timestamps in the same 30-second
/// window give the same result for any secret string.
pub proof fn lemma_token_deterministic(secret: Seq<char>, t1: u64, t2: u64)
    requires
        t1 / 30 == t2 / 30,
    ensures
        token_of(secret, t1) == token_of(secret, t2),
{
}

} // verus!
