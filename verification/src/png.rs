//! Trusted boundary to the external still-image codec. The pack codec never
//! inspects pixel contents; it only transports the encoded byte range, so the
//! encoder's output is named abstractly and the decoder is its exact inverse
//! on that output, within the decoder's allocation limit.
use vstd::prelude::*;

use image::codecs::png::{CompressionType, FilterType, PngEncoder};
use image::{ColorType, ImageEncoder};

use crate::bitmap::{Bitmap, BitmapView};
use crate::PackError;

verus! {

/// The PNG byte stream the external encoder produces for a bitmap; a
/// function of the dimensions and pixel bytes alone.
pub uninterp spec fn png_encoding_of(img: BitmapView) -> Seq<u8>;

/// What the external image codec decodes a byte stream to, coerced to 8-bit
/// RGBA; a function of the bytes alone.
pub uninterp spec fn image_decoding_of(b: Seq<u8>) -> Result<BitmapView, PackError>;

/// The decoder enforces a fixed allocation limit: it reserves the decoded
/// buffer, four bytes per pixel for 8-bit RGBA, against a 512 MiB budget
/// before decoding, and refuses a larger image. Only a bitmap within that
/// budget is guaranteed to survive an encode-decode round trip.
pub open spec fn decode_fits(img: BitmapView) -> bool {
    4 * img.width * img.height <= 536870912
}

/// Relies on `image`'s `PngEncoder::write_image` with fixed quality
/// settings: the output is a function of the pixel data and dimensions
/// alone; for a well-formed RGBA8 buffer written to a byte sink, the only
/// failure is a zero width or height; and PNG is lossless for 8-bit RGBA,
/// so decoding the produced stream yields back exactly the encoded bitmap —
/// provided the decoder's allocation limit admits it.
#[verifier::external_body]
pub fn write_png(img: &Bitmap) -> (r: Result<Vec<u8>, PackError>)
    requires
        img@.wf(),
    ensures
        match r {
            Ok(b) => {
                &&& img@.width > 0
                &&& img@.height > 0
                &&& b@ == png_encoding_of(img@)
                &&& (decode_fits(img@) ==> image_decoding_of(png_encoding_of(img@)) == Ok::<
                    _,
                    PackError,
                >(img@))
            },
            Err(e) => {
                &&& e == PackError::ImageEncodeFailed
                &&& (img@.width == 0 || img@.height == 0)
            },
        },
{
    let mut out: Vec<u8> = Vec::new();
    let enc = PngEncoder::new_with_quality(&mut out, CompressionType::Best, FilterType::default());
    match enc.write_image(&img.data, img.width, img.height, ColorType::Rgba8) {
        Ok(()) => Ok(out),
        Err(_) => Err(PackError::ImageEncodeFailed),
    }
}

/// Relies on `image::load_from_memory` and `DynamicImage::into_rgba8`: the
/// decoded bitmap is a function of the bytes alone, and the raw buffer of an
/// `RgbaImage` holds exactly four bytes per pixel. The call sniffs the
/// format from the bytes, so it accepts any format the external codec
/// recognizes, not PNG streams alone — the same behavior the pack decoder
/// shows on embedded image payloads.
#[verifier::external_body]
pub fn read_png(bytes: &[u8]) -> (r: Result<Bitmap, PackError>)
    ensures
        match r {
            Ok(b) => {
                &&& image_decoding_of(bytes@) == Ok::<_, PackError>(b@)
                &&& b@.wf()
            },
            Err(e) => {
                &&& image_decoding_of(bytes@) == Err::<BitmapView, _>(e)
                &&& (e == PackError::ImageDecodeFailed || e
                    == PackError::UnsupportedImageColorModel)
            },
        },
{
    match image::load_from_memory(bytes) {
        Ok(decoded) => {
            let rgba = decoded.into_rgba8();
            let (width, height) = rgba.dimensions();
            Ok(Bitmap { width, height, data: rgba.into_raw() })
        },
        Err(_) => Err(PackError::ImageDecodeFailed),
    }
}

} // verus!
