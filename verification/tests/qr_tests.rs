use base64::Engine;
use totp_rs::qr::png_data_url;
use totp_rs::{generate_qr_code_base64, generate_totp_uri, TotpError};

const PNG_SIGNATURE: [u8; 8] = [0x89, 0x50, 0x4e, 0x47, 0x0d, 0x0a, 0x1a, 0x0a];

#[test]
fn qr_data_url_carries_png() {
    let uri = generate_totp_uri("GEZDGNBVGY3TQOJQGEZDGNBVGY3TQOJQ", "Alice", "MyApp");
    let url = generate_qr_code_base64(&uri).unwrap();
    let payload = url.strip_prefix("data:image/png;base64,").unwrap();
    let png = base64::engine::general_purpose::STANDARD.decode(payload).unwrap();
    assert!(png.len() >= 33);
    assert_eq!(&png[..8], &PNG_SIGNATURE);
    // IHDR: 8-bit depth, grayscale colour type
    assert_eq!(png[24], 8);
    assert_eq!(png[25], 0);
}

#[test]
fn qr_same_input_same_output() {
    let text = "otpauth://totp/Alice?secret=GEZDGNBVGY3TQOJQ&issuer=MyApp";
    assert_eq!(generate_qr_code_base64(text), generate_qr_code_base64(text));
}

#[test]
fn qr_empty_input_is_consistent() {
    let first = generate_qr_code_base64("");
    let second = generate_qr_code_base64("");
    assert_eq!(first.is_ok(), second.is_ok());
    match (first, second) {
        (Ok(a), Ok(b)) => {
            assert_eq!(a, b);
            assert!(a.starts_with("data:image/png;base64,"));
        },
        (Err(a), Err(b)) => {
            assert_eq!(a, TotpError::QrEncodingError);
            assert_eq!(b, TotpError::QrEncodingError);
        },
        _ => unreachable!(),
    }
}

#[test]
fn qr_oversized_input_fails_cleanly() {
    let too_long = "A".repeat(8000);
    assert_eq!(generate_qr_code_base64(&too_long), Err(TotpError::QrEncodingError));
}

#[test]
fn png_data_url_known_payload() {
    let url = png_data_url(&b"Man".to_vec());
    assert_eq!(url, "data:image/png;base64,TWFu");
}
