//! Still pictures: JPEG for the relay, PNG for screenshots.

use image::ImageEncoder;
use vstd::prelude::*;

verus! {

/// An error of the `image` crate.
#[verifier::external_type_specification]
#[verifier::external_body]
pub struct ExImageError(image::ImageError);

/// The JPEG file that `image`'s encoder makes of packed RGB.
pub uninterp spec fn jpeg_bytes(rgb: Seq<u8>, w: u32, h: u32, quality: u8) -> Seq<u8>;

/// The PNG file that `image`'s encoder makes of packed RGB.
pub uninterp spec fn png_bytes(rgb: Seq<u8>, w: u32, h: u32) -> Seq<u8>;

/// Whether a JPEG can have this size.
pub open spec fn jpeg_size(w: u32, h: u32) -> bool {
    1 <= w <= 65535 && 1 <= h <= 65535
}

/// Whether a PNG can have this size.
pub open spec fn png_size(w: u32, h: u32) -> bool {
    w > 0 && h > 0
}

/// Calls `image::codecs::jpeg::JpegEncoder::write_image` on a vector. The
/// claim is that it succeeds exactly for sides from 1 to 65535, and that the
/// file depends on the pixels, the size and the quality alone. What the file
/// holds is not stated. The encoder panics on a buffer of another length.
#[verifier::external_body]
fn jpeg_encode(rgb: &[u8], w: u32, h: u32, quality: u8) -> (r: Result<Vec<u8>, image::ImageError>)
    requires
        rgb@.len() == w * h * 3,
    ensures
        r is Ok <==> jpeg_size(w, h),
        r matches Ok(v) ==> v@ == jpeg_bytes(rgb@, w, h, quality),
{
    let mut out = Vec::new();
    let encoder = image::codecs::jpeg::JpegEncoder::new_with_quality(&mut out, quality);
    encoder.write_image(rgb, w, h, image::ExtendedColorType::Rgb8)?;
    Ok(out)
}

/// Calls `image::codecs::png::PngEncoder::write_image` on a vector. The claim
/// is that it succeeds exactly for a picture that is not empty, and that the
/// file depends on the pixels and the size alone. What the file holds is not
/// stated. The encoder panics on a buffer of another length.
#[verifier::external_body]
fn png_encode(rgb: &[u8], w: u32, h: u32) -> (r: Result<Vec<u8>, image::ImageError>)
    requires
        rgb@.len() == w * h * 3,
    ensures
        r is Ok <==> png_size(w, h),
        r matches Ok(v) ==> v@ == png_bytes(rgb@, w, h),
{
    let mut out = Vec::new();
    let encoder = image::codecs::png::PngEncoder::new(&mut out);
    encoder.write_image(rgb, w, h, image::ExtendedColorType::Rgb8)?;
    Ok(out)
}

/// Why a picture could not be encoded.
#[derive(Debug, Clone, Copy, PartialEq, Eq, Structural)]
pub enum EncodeError {
    /// The format has no pictures of this size.
    BadSize,
}

/// Encodes packed RGB as JPEG.
pub fn encode_jpeg(rgb: &[u8], w: u32, h: u32, quality: u8) -> (r: Result<Vec<u8>, EncodeError>)
    requires
        rgb@.len() == w * h * 3,
    ensures
        r is Ok <==> jpeg_size(w, h),
        r matches Ok(v) ==> v@ == jpeg_bytes(rgb@, w, h, quality),
{
    match jpeg_encode(rgb, w, h, quality) {
        Ok(v) => Ok(v),
        Err(_) => Err(EncodeError::BadSize),
    }
}

/// Encodes packed RGB as PNG.
pub fn encode_png(rgb: &[u8], w: u32, h: u32) -> (r: Result<Vec<u8>, EncodeError>)
    requires
        rgb@.len() == w * h * 3,
    ensures
        r is Ok <==> png_size(w, h),
        r matches Ok(v) ==> v@ == png_bytes(rgb@, w, h),
{
    match png_encode(rgb, w, h) {
        Ok(v) => Ok(v),
        Err(_) => Err(EncodeError::BadSize),
    }
}

} // verus!
