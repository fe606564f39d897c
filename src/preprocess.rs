//! From the bytes of an image file to the samples of a model input.

use vstd::prelude::*;

use crate::bitmap::{decode_rgb8, decoded_rgb8, resize_triangle, triangle_resized};
use crate::layout::{channel_first, to_channel_first};

verus! {

/// Side, in pixels, of the square that every image is resized to.
pub const INPUT_SIDE: u32 = 224;

/// Number of samples in one model input: three planes of
/// `INPUT_SIDE` by `INPUT_SIDE`.
pub const INPUT_LEN: usize = 150528;

/// Why an image file could not be turned into a model input.
#[derive(Debug)]
pub enum PreprocessError {
    /// The bytes are not an image in a supported format.
    Undecodable(image::ImageError),
    /// The decoder returned a sample count that does not match its dimensions.
    SampleCount,
    /// Resampling an image this wide needs a buffer larger than the machine
    /// can address.
    TooWide,
}

/// Whether the buffers of resampling a bitmap `width` pixels wide to
/// `INPUT_SIDE` rows fit in the address space.
pub open spec fn fits_resampling(width: u32) -> bool {
    16 * width * INPUT_SIDE <= isize::MAX
}

/// The model input made from the image file `data`, when there is one: the
/// decoded bitmap resized to `INPUT_SIDE` square, in channel-first order.
pub open spec fn preprocessed(data: Seq<u8>) -> Option<Seq<u8>> {
    match decoded_rgb8(data) {
        Some((w, h, p)) => if p.len() == 3 * w * h && fits_resampling(w) {
            Some(
                channel_first(
                    triangle_resized(p, w, h, INPUT_SIDE, INPUT_SIDE),
                    INPUT_SIDE as nat,
                    INPUT_SIDE as nat,
                ),
            )
        } else {
            None
        },
        None => None,
    }
}

/// Decodes the image file `data`, resizes it to `INPUT_SIDE` by `INPUT_SIDE`
/// pixels with the triangle filter (no cropping, aspect ratio not kept) and
/// lays its samples out channel-first: element `(c, y, x)` is channel `c`
/// (red, green, blue) of the pixel at column `x`, row `y`.
pub fn preprocess_image(data: &[u8]) -> (r: Result<Vec<u8>, PreprocessError>)
    ensures
        decoded_rgb8(data@) is None <==> r matches Err(PreprocessError::Undecodable(_)),
        r matches Err(PreprocessError::SampleCount) <==> (decoded_rgb8(data@) matches Some(
            (w, h, p),
        ) && p.len() != 3 * w * h),
        r matches Err(PreprocessError::TooWide) <==> (decoded_rgb8(data@) matches Some((w, h, p))
            && p.len() == 3 * w * h && !fits_resampling(w)),
        r matches Ok(t) ==> Some(t@) == preprocessed(data@),
        r matches Ok(t) ==> t@.len() == INPUT_LEN,
        preprocessed(data@) is Some ==> r is Ok,
{
    let (width, height, pixels) = match decode_rgb8(data) {
        Ok(decoded) => decoded,
        Err(e) => {
            return Err(PreprocessError::Undecodable(e));
        },
    };
    assert(3 * (width as u128) * (height as u128) <= 3 * 0xffff_ffffu128 * 0xffff_ffffu128)
        by (nonlinear_arith)
        requires
            width <= u32::MAX,
            height <= u32::MAX,
    ;
    if pixels.len() as u128 != 3 * (width as u128) * (height as u128) {
        return Err(PreprocessError::SampleCount);
    }
    if 16 * (width as u128) * (INPUT_SIDE as u128) > isize::MAX as u128 {
        return Err(PreprocessError::TooWide);
    }
    assert(3 * INPUT_SIDE * INPUT_SIDE <= isize::MAX);
    let resized = resize_triangle(pixels, width, height, INPUT_SIDE, INPUT_SIDE).unwrap();
    let planes = to_channel_first(&resized, INPUT_SIDE as usize, INPUT_SIDE as usize);
    Ok(planes)
}

} // verus!
