//! The otpauth provisioning URI consumed by authenticator apps.

use vstd::prelude::*;
use vstd::string::*;
use crate::percent::{percent_encoding, percent_encode};

verus! {

/// The provisioning URI for one enrollment.
pub open spec fn totp_uri(secret: Seq<char>, label: Seq<char>, issuer: Seq<char>) -> Seq<char> {
    "otpauth://totp/"@ + percent_encoding(label) + "?secret="@ + secret + "&issuer="@
        + percent_encoding(issuer)
}

/// Builds `otpauth://totp/<label>?secret=<secret>&issuer=<issuer>`, label and
/// issuer percent-encoded, the secret untouched.
pub fn generate_totp_uri(secret: &str, label: &str, issuer: &str) -> (r: String)
    ensures
        r@ == totp_uri(secret@, label@, issuer@),
{
    let mut out = String::from_str("otpauth://totp/");
    let enc_label = percent_encode(label);
    out.append(enc_label.as_str());
    out.append("?secret=");
    out.append(secret);
    out.append("&issuer=");
    let enc_issuer = percent_encode(issuer);
    out.append(enc_issuer.as_str());
    proof {
        assert(out@ =~= totp_uri(secret@, label@, issuer@));
    }
    out
}

} // verus!
