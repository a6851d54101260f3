use vstd::prelude::*;

verus! {

/// The failures the library can report.
#[derive(Clone, Copy, Debug, PartialEq, Eq, Structural)]
pub enum TotpError {
    /// The secure random source was unavailable.
    RandomSourceError,
    /// A secret string was not valid unpadded base32.
    InvalidSecretEncoding,
    /// The HMAC construction rejected the key length (defensive; HMAC-SHA1
    /// accepts keys of any length).
    InvalidKeyLength,
    /// The input cannot be represented as a QR symbol.
    QrEncodingError,
    /// The rendered raster could not be encoded as PNG.
    ImageEncodingError,
}

impl TotpError {
    /// A short description of the failure.
    pub fn message(&self) -> (r: &'static str)
        ensures
            r@.len() > 0,
    {
        let m = match self {
            TotpError::RandomSourceError => "failed to generate random bytes",
            TotpError::InvalidSecretEncoding => "invalid secret: failed to decode base32",
            TotpError::InvalidKeyLength => "invalid key length",
            TotpError::QrEncodingError => "failed to generate QR code",
            TotpError::ImageEncodingError => "failed to encode PNG",
        };
        proof {
            reveal_strlit("failed to generate random bytes");
            reveal_strlit("invalid secret: failed to decode base32");
            reveal_strlit("invalid key length");
            reveal_strlit("failed to generate QR code");
            reveal_strlit("failed to encode PNG");
        }
        m
    }
}

} // verus!
