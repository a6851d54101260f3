//! QR rendering: text to QR matrix to grayscale PNG to base64 data URL.

use vstd::prelude::*;
use vstd::string::*;
use vstd::utf8::encode_utf8;
use image::ImageEncoder;
use crate::base64::{b64_encode, b64_decode, base64_encode, lemma_base64_round_trip};
use crate::errors::TotpError;

verus! {

/// Whether the qrcode crate can fit these bytes in some QR symbol version; a
/// function of the data alone, left uninterpreted.
pub uninterp spec fn qr_encodable(data: Seq<u8>) -> bool;

/// The grayscale raster the qrcode renderer draws for these bytes, with its
/// width and height; a function of the data alone, left uninterpreted.
pub uninterp spec fn qr_raster_of(data: Seq<u8>) -> (Seq<u8>, u32, u32);

/// What the PNG encoder emits for an 8-bit grayscale raster of the given
/// dimensions; a function of the three alone, left uninterpreted.
pub uninterp spec fn png_l8_of(pixels: Seq<u8>, width: u32, height: u32) -> Seq<u8>;

/// The eight bytes every PNG stream begins with.
pub open spec fn png_signature() -> Seq<u8> {
    seq![0x89u8, 0x50u8, 0x4eu8, 0x47u8, 0x0du8, 0x0au8, 0x1au8, 0x0au8]
}

/// Relies on qrcode's `QrCode::new` and its renderer with image's
/// `ImageBuffer`: a symbol is built exactly when the data fits some QR
/// version at the default error-correction level, and rendering at default
/// settings is a function of the data alone; the grayscale buffer holds
/// exactly width times height one-byte pixels, and a rendered symbol's
/// dimensions are positive.
#[verifier::external_body]
fn qr_render_luma(data: &[u8]) -> (r: Option<(Vec<u8>, u32, u32)>)
    ensures
        r is Some <==> qr_encodable(data@),
        r matches Some(t) ==> t.0@ == qr_raster_of(data@).0 && t.1 == qr_raster_of(data@).1 && t.2
            == qr_raster_of(data@).2,
        r matches Some(t) ==> t.0@.len() == t.1 as int * t.2 as int && t.1 > 0 && t.2 > 0,
{
    let code = match qrcode::QrCode::new(data) {
        Ok(c) => c,
        Err(_) => return None,
    };
    let img = code.render::<image::Luma<u8>>().build();
    let w = img.width();
    let h = img.height();
    Some((img.into_raw(), w, h))
}

/// Relies on image's `PngEncoder::write_image` and the png crate for 8-bit
/// grayscale data: an in-memory write with a matching buffer succeeds
/// exactly when both dimensions are positive; the stream is a function of
/// raster and dimensions alone; it begins with the eight-byte PNG signature
/// followed by an IHDR chunk, whose bit-depth byte (offset 24) is 8 and
/// colour-type byte (offset 25) is 0, grayscale.
#[verifier::external_body]
fn png_encode_luma(pixels: &Vec<u8>, width: u32, height: u32) -> (r: Option<Vec<u8>>)
    requires
        pixels@.len() == width as int * height as int,
    ensures
        (r is Some) <==> (width > 0 && height > 0),
        r matches Some(v) ==> v@ == png_l8_of(pixels@, width, height),
        r matches Some(v) ==> v@.len() >= 33 && v@.take(8) == png_signature(),
        r matches Some(v) ==> v@[24] == 8 && v@[25] == 0,
{
    let mut buffer: Vec<u8> = Vec::new();
    let mut cursor = std::io::Cursor::new(&mut buffer);
    let encoder = image::codecs::png::PngEncoder::new(&mut cursor);
    match encoder.write_image(pixels.as_slice(), width, height, image::ExtendedColorType::L8) {
        Ok(()) => Some(buffer),
        Err(_) => None,
    }
}

/// Wraps PNG bytes as an inline `data:image/png;base64,` URL.
pub fn png_data_url(png: &Vec<u8>) -> (r: String)
    ensures
        r@ == "data:image/png;base64,"@ + b64_encode(png@),
{
    let mut out = String::from_str("data:image/png;base64,");
    let b64 = base64_encode(png);
    out.append(b64.as_str());
    proof {
        assert(out@ =~= "data:image/png;base64,"@ + b64_encode(png@));
    }
    out
}

/// What QR rendering returns for a string: the data URL of the PNG of its
/// rendered raster, or nothing when the text fits no symbol.
pub open spec fn qr_data_url_of(data: Seq<char>) -> Option<Seq<char>> {
    let bytes = encode_utf8(data);
    let raster = qr_raster_of(bytes);
    if qr_encodable(bytes) {
        Some("data:image/png;base64,"@ + b64_encode(png_l8_of(raster.0, raster.1, raster.2)))
    } else {
        None
    }
}

/// Renders `data` as a QR symbol, encodes it as an 8-bit grayscale PNG and
/// returns it as a base64 data URL; the result is a function of the text
/// alone. Fails with `QrEncodingError` exactly when the text fits no QR
/// version; `ImageEncodingError` stays defensive and is proved unreachable,
/// since a rendered symbol always has positive dimensions.
pub fn generate_qr_code_base64(data: &str) -> (r: Result<String, TotpError>)
    ensures
        r is Ok <==> qr_encodable(encode_utf8(data@)),
        r matches Ok(s) ==> qr_data_url_of(data@) == Some(s@),
        r matches Err(e) ==> e == TotpError::QrEncodingError,
        r matches Ok(s) ==> s@.len() >= 22 && s@.take(22) == "data:image/png;base64,"@ && (
        b64_decode(s@.skip(22)) matches Some(png) && png.len() >= 33 && png.take(8)
            == png_signature() && png[24] == 8 && png[25] == 0),
{
    let rendered = match qr_render_luma(data.as_bytes()) {
        Some(t) => t,
        None => { return Err(TotpError::QrEncodingError) },
    };
    let (pixels, width, height) = rendered;
    let png = match png_encode_luma(&pixels, width, height) {
        Some(p) => p,
        None => { return Err(TotpError::ImageEncodingError) },
    };
    let url = png_data_url(&png);
    proof {
        reveal_strlit("data:image/png;base64,");
        lemma_base64_round_trip(png@);
        assert(url@.take(22) =~= "data:image/png;base64,"@);
        assert(url@.skip(22) =~= b64_encode(png@));
    }
    Ok(url)
}

} // verus!
