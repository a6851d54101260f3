//! Secret generation: 20 random bytes, returned as unpadded base32.

use vstd::prelude::*;
use crate::base32::{b32_valid, b32_decode, b32_encode, b32_encode_len, base32_encode,
    lemma_b32_encode_valid, lemma_base32_round_trip};
use crate::errors::TotpError;

verus! {

/// Relies on getrandom::fill: on success the whole buffer has been filled
/// from the operating system's secure random source; nothing is assumed of
/// the values themselves.
#[verifier::external_body]
fn random_bytes_20() -> (r: Option<Vec<u8>>)
    ensures
        r matches Some(v) ==> v@.len() == 20,
{
    let mut buf = vec![0u8; 20];
    match getrandom::fill(&mut buf) {
        Ok(()) => Some(buf),
        Err(_) => None,
    }
}

/// Draws a fresh 160-bit secret and encodes it as 32 characters of unpadded
/// base32, which decode back to the drawn bytes. Fails exactly when the
/// random source does.
pub fn generate_secret() -> (r: Result<String, TotpError>)
    ensures
        r matches Ok(s) ==> s@.len() == 32 && b32_valid(s@) && (exists|b: Seq<u8>|
            b.len() == 20 && s@ == b32_encode(b) && b32_decode(s@) == Some(b)),
        r matches Err(e) ==> e == TotpError::RandomSourceError,
{
    match random_bytes_20() {
        Some(bytes) => {
            let s = base32_encode(&bytes);
            proof {
                lemma_b32_encode_valid(bytes@);
                lemma_base32_round_trip(bytes@);
                reveal_with_fuel(b32_encode_len, 6);
                assert(b32_encode_len(20) == 32);
                assert(bytes@.len() == 20 && s@ == b32_encode(bytes@) && b32_decode(s@) == Some(
                    bytes@,
                ));
            }
            Ok(s)
        },
        None => Err(TotpError::RandomSourceError),
    }
}

} // verus!
