//! The quantizer that finds the dominant colors of an image.
use vstd::prelude::*;

use color_thief::Error as ColorThiefError;

use crate::color::Rgb;

verus! {

/// The quantizer's sampling step; 1 reads every pixel.
pub const QUALITY: u8 = 1;
/// The most dominant colors asked of the quantizer.
pub const MAX_COLORS: u8 = 15;
/// The most pixel bytes handed to the quantizer: 32 million RGBA pixels. It
/// sums the colors of the pixels it samples in `i32`, up to 252 a pixel, and
/// at one pixel in four this bound keeps those sums from overflowing.
pub const MAX_PIXEL_BYTES: usize = 128_000_000;

/// color-thief's error type, carried through without looking inside.
#[verifier::external_type_specification]
#[verifier::external_body]
pub struct ExColorThiefError(ColorThiefError);

/// The dominant colors that color-thief finds in RGBA pixel bytes, most
/// dominant first; none when it reports an error.
pub uninterp spec fn dominant_colors_of(pixels: Seq<u8>, quality: u8, max_colors: u8) -> Option<
    Seq<Rgb>,
>;

/// Relies on `color_thief::get_palette` over RGBA bytes: a deterministic
/// function of its arguments that returns at least one color (its queue of
/// boxes is never empty) and keeps at most `max_colors`. It asserts
/// `0 < quality <= 10` and `max_colors > 1`, and overflows its `i32` color
/// sums beyond `MAX_PIXEL_BYTES`.
#[verifier::external_body]
pub(crate) fn quantize(pixels: &Vec<u8>, quality: u8, max_colors: u8) -> (r: Result<
    Vec<Rgb>,
    ColorThiefError,
>)
    requires
        0 < quality <= 10,
        max_colors > 1,
        pixels.len() <= MAX_PIXEL_BYTES,
    ensures
        match r {
            Ok(v) => dominant_colors_of(pixels@, quality, max_colors) == Some(v@) && 1 <= v.len()
                <= max_colors,
            Err(_) => dominant_colors_of(pixels@, quality, max_colors) is None,
        },
{
    color_thief::get_palette(pixels.as_slice(), color_thief::ColorFormat::Rgba, quality, max_colors)
        .map(|colors| colors.iter().map(|c| Rgb { red: c.r, green: c.g, blue: c.b }).collect())
}

} // verus!
