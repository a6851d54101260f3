//! Verified core of a TOTP enrollment pipeline: secret generation, RFC 6238
//! token derivation, provisioning URIs and QR data URLs.

pub mod base32;
pub mod base64;
pub mod errors;
pub mod percent;
pub mod qr;
pub mod secret;
pub mod totp;
pub mod uri;

use vstd::prelude::*;

verus! {

pub use crate::errors::TotpError;
pub use crate::qr::generate_qr_code_base64;
pub use crate::secret::generate_secret;
pub use crate::totp::generate_token;
pub use crate::uri::generate_totp_uri;

} // verus!
