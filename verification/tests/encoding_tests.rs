use base64::Engine;
use totp_rs::base32::{base32_decode, base32_encode};
use totp_rs::base64::base64_encode;
use totp_rs::generate_secret;
use totp_rs::percent::percent_encode;
use totp_rs::uri::generate_totp_uri;

#[test]
fn base32_known_value() {
    let bytes: Vec<u8> = b"12345678901234567890".to_vec();
    let encoded = base32_encode(&bytes);
    assert_eq!(encoded, "GEZDGNBVGY3TQOJQGEZDGNBVGY3TQOJQ");
    assert_eq!(base32_decode(&encoded), Some(bytes));
}

#[test]
fn base32_round_trip_various_lengths() {
    for len in 0..40usize {
        let bytes: Vec<u8> = (0..len).map(|i| (i * 37 + 11) as u8).collect();
        let encoded = base32_encode(&bytes);
        assert_eq!(base32_decode(&encoded), Some(bytes));
    }
}

#[test]
fn base32_matches_reference_crate() {
    for len in 0..26usize {
        let bytes: Vec<u8> = (0..len).map(|i| (i * 101 + 7) as u8).collect();
        let ours = base32_encode(&bytes);
        let theirs = base32::encode(base32::Alphabet::Rfc4648 { padding: false }, &bytes);
        assert_eq!(ours, theirs);
        assert_eq!(
            base32_decode(&ours),
            base32::decode(base32::Alphabet::Rfc4648 { padding: false }, &theirs)
        );
    }
}

#[test]
fn base32_decode_ignores_spare_bits_like_reference() {
    // "MZ" carries one byte plus a nonzero spare bit; both decoders drop it
    for s in ["MZ", "MZXQ", "MZXW6", "MZXW6YQ"] {
        assert_eq!(
            base32_decode(s),
            base32::decode(base32::Alphabet::Rfc4648 { padding: false }, s)
        );
    }
}

#[test]
fn uri_empty_fields_still_well_formed() {
    assert_eq!(generate_totp_uri("", "", ""), "otpauth://totp/?secret=&issuer=");
}

#[test]
fn base32_decode_rejects_bad_input() {
    assert_eq!(base32_decode("a"), None);
    assert_eq!(base32_decode("AB1"), None);
    assert_eq!(base32_decode("ABCDEF=="), None);
    assert_eq!(base32_decode("😀😀"), None);
    assert_eq!(base32_decode(""), Some(vec![]));
}

#[test]
fn base64_known_values() {
    assert_eq!(base64_encode(&b"M".to_vec()), "TQ==");
    assert_eq!(base64_encode(&b"Ma".to_vec()), "TWE=");
    assert_eq!(base64_encode(&b"Man".to_vec()), "TWFu");
    assert_eq!(base64_encode(&vec![]), "");
}

#[test]
fn base64_matches_reference_crate() {
    for len in 0..22usize {
        let bytes: Vec<u8> = (0..len).map(|i| (i * 89 + 3) as u8).collect();
        let ours = base64_encode(&bytes);
        let theirs = base64::engine::general_purpose::STANDARD.encode(&bytes);
        assert_eq!(ours, theirs);
        assert_eq!(
            base64::engine::general_purpose::STANDARD.decode(&ours).unwrap(),
            bytes
        );
    }
}

#[test]
fn secret_is_fresh_and_decodable() {
    let a = generate_secret().unwrap();
    let b = generate_secret().unwrap();
    assert_ne!(a, b);
    assert_eq!(a.len(), 32);
    assert_eq!(b.len(), 32);
    assert_eq!(base32_decode(&a).unwrap().len(), 20);
    assert_eq!(base32_decode(&b).unwrap().len(), 20);
}

#[test]
fn uri_plain_fields() {
    assert_eq!(
        generate_totp_uri("ABC123", "Alice", "MyApp"),
        "otpauth://totp/Alice?secret=ABC123&issuer=MyApp"
    );
}

#[test]
fn uri_encodes_reserved_characters() {
    assert_eq!(
        generate_totp_uri("S3CR3T", "My User", "Ex&mple/App"),
        "otpauth://totp/My%20User?secret=S3CR3T&issuer=Ex%26mple%2FApp"
    );
}

#[test]
fn percent_encode_matches_reference_crate() {
    for s in [
        "",
        "Alice",
        "My App",
        "a+b=c&d/e?f#g",
        "unreserved-._~XYZ09",
        "héllo wörld",
        "日本語",
        "emoji 😀 test",
    ] {
        assert_eq!(percent_encode(s), urlencoding::encode(s).into_owned());
    }
}
