//! Decoding and resampling of RGB bitmaps, done by the `image` crate.

use vstd::prelude::*;

verus! {

#[verifier::external_type_specification]
#[verifier::external_body]
pub struct ExImageError(image::ImageError);

/// What decoding `data` as an image file and converting it to 8-bit RGB gives:
/// width, height and the interleaved, row-major samples; `None` when the bytes
/// do not decode.
pub uninterp spec fn decoded_rgb8(data: Seq<u8>) -> Option<(u32, u32, Seq<u8>)>;

/// The interleaved samples of the `width` by `height` RGB bitmap `pixels`
/// resampled to `nwidth` by `nheight` with the triangle filter.
pub uninterp spec fn triangle_resized(
    pixels: Seq<u8>,
    width: u32,
    height: u32,
    nwidth: u32,
    nheight: u32,
) -> Seq<u8>;

/// Relies on `image::load_from_memory`, which guesses the format from the
/// bytes and decodes them, and on `DynamicImage::to_rgb8`, which converts the
/// result to 8-bit RGB. Both depend on the bytes alone.
#[verifier::external_body]
pub(crate) fn decode_rgb8(data: &[u8]) -> (r: Result<(u32, u32, Vec<u8>), image::ImageError>)
    ensures
        match r {
            Ok((w, h, p)) => decoded_rgb8(data@) == Some((w, h, p@)),
            Err(_) => decoded_rgb8(data@) is None,
        },
{
    let rgb = image::load_from_memory(data)?.to_rgb8();
    Ok((rgb.width(), rgb.height(), rgb.into_raw()))
}

/// Relies on `ImageBuffer::from_raw`, which accepts a buffer of at least
/// `3 * width * height` samples, and on `image::imageops::resize` with
/// `FilterType::Triangle`, whose result is a new buffer of
/// `3 * nwidth * nheight` samples. The vertical pass allocates
/// `4 * width * nheight` samples of 4 bytes each, which must fit.
#[verifier::external_body]
pub(crate) fn resize_triangle(pixels: Vec<u8>, width: u32, height: u32, nwidth: u32, nheight: u32) -> (r:
    Option<Vec<u8>>)
    requires
        pixels@.len() == 3 * width * height,
        16 * width * nheight <= isize::MAX,
        3 * nwidth * nheight <= isize::MAX,
    ensures
        r is Some,
        r matches Some(v) ==> v@ == triangle_resized(pixels@, width, height, nwidth, nheight)
            && v@.len() == 3 * nwidth * nheight,
{
    let img = image::RgbImage::from_raw(width, height, pixels)?;
    let filter = image::imageops::FilterType::Triangle;
    Some(image::imageops::resize(&img, nwidth, nheight, filter).into_raw())
}

} // verus!
