use totp_rs::totp::{code_from_hash, counter_bytes};
use totp_rs::{generate_token, TotpError};

const RFC_SECRET: &str = "GEZDGNBVGY3TQOJQGEZDGNBVGY3TQOJQ";

#[test]
fn rfc6238_vector_t59() {
    assert_eq!(generate_token(RFC_SECRET, 59), Ok("287082".to_string()));
}

#[test]
fn rfc6238_remaining_vectors() {
    assert_eq!(generate_token(RFC_SECRET, 1111111109), Ok("081804".to_string()));
    assert_eq!(generate_token(RFC_SECRET, 1111111111), Ok("050471".to_string()));
    assert_eq!(generate_token(RFC_SECRET, 1234567890), Ok("005924".to_string()));
    assert_eq!(generate_token(RFC_SECRET, 2000000000), Ok("279037".to_string()));
    assert_eq!(generate_token(RFC_SECRET, 20000000000), Ok("353130".to_string()));
}

#[test]
fn token_is_six_decimal_digits() {
    for t in [0u64, 1, 29, 30, 59, 1000000007, u64::MAX] {
        let code = generate_token(RFC_SECRET, t).unwrap();
        assert_eq!(code.len(), 6);
        assert!(code.chars().all(|c| c.is_ascii_digit()));
    }
}

#[test]
fn token_same_window_same_code() {
    let a = generate_token(RFC_SECRET, 60).unwrap();
    let b = generate_token(RFC_SECRET, 89).unwrap();
    assert_eq!(a, b);
    let c = generate_token(RFC_SECRET, 90).unwrap();
    let d = generate_token(RFC_SECRET, 119).unwrap();
    assert_eq!(c, d);
}

#[test]
fn token_rejects_bad_base32() {
    assert_eq!(generate_token("1nv@lid!", 0), Err(TotpError::InvalidSecretEncoding));
    // lowercase is outside the RFC 4648 alphabet
    assert_eq!(generate_token("gezdgnbvgy3tqojq", 0), Err(TotpError::InvalidSecretEncoding));
    // impossible unpadded lengths
    assert_eq!(generate_token("A", 0), Err(TotpError::InvalidSecretEncoding));
    assert_eq!(generate_token("ABC", 0), Err(TotpError::InvalidSecretEncoding));
    assert_eq!(generate_token("ABCDEF", 0), Err(TotpError::InvalidSecretEncoding));
    // '=' padding is not accepted
    assert_eq!(generate_token("MY======", 0), Err(TotpError::InvalidSecretEncoding));
}

#[test]
fn token_accepts_short_secret() {
    // "MY" decodes to one byte; HMAC accepts any key length
    let code = generate_token("MY", 59).unwrap();
    assert_eq!(code.len(), 6);
    assert!(code.chars().all(|c| c.is_ascii_digit()));
}

#[test]
fn counter_bytes_big_endian() {
    assert_eq!(counter_bytes(0), vec![0, 0, 0, 0, 0, 0, 0, 0]);
    assert_eq!(counter_bytes(1), vec![0, 0, 0, 0, 0, 0, 0, 1]);
    assert_eq!(
        counter_bytes(0x0102030405060708),
        vec![0x01, 0x02, 0x03, 0x04, 0x05, 0x06, 0x07, 0x08]
    );
}

#[test]
fn code_from_known_hmac_digest() {
    // RFC 4226 appendix D: HMAC-SHA-1 of counter 0 under key "12345678901234567890"
    let hash: Vec<u8> = vec![
        0xcc, 0x93, 0xcf, 0x18, 0x50, 0x8d, 0x94, 0x93, 0x4c, 0x64, 0xb6, 0x5d, 0x8b, 0xa7, 0x66,
        0x7f, 0xb7, 0xcd, 0xe4, 0xb0,
    ];
    assert_eq!(code_from_hash(&hash), "755224");
}

#[test]
fn error_messages_are_nonempty() {
    for e in [
        TotpError::RandomSourceError,
        TotpError::InvalidSecretEncoding,
        TotpError::InvalidKeyLength,
        TotpError::QrEncodingError,
        TotpError::ImageEncodingError,
    ] {
        assert!(!e.message().is_empty());
    }
}
