//! Handing rasters to the encoders: pictures of the `image` crate for still
//! files, frames of the `gif` crate for the animation.

use vstd::prelude::*;
use crate::raster::Raster;

verus! {

/// The bytes of the RGB picture that shows `samples` in gray: each sample
/// three times over, as red, green and blue.
pub open spec fn gray_to_rgb(samples: Seq<u8>) -> Seq<u8> {
    Seq::new(3 * samples.len(), |j: int| samples[j / 3])
}

/// `pixels` are RGB bytes of a gray picture: whole pixels, the three channels
/// of each pixel equal.
pub open spec fn is_gray_rgb(pixels: Seq<u8>) -> bool {
    &&& pixels.len() % 3 == 0
    &&& forall|j: int| 0 <= j < pixels.len() ==> #[trigger] pixels[j] == pixels[j - j % 3]
}

/// An RGB picture of the `image` crate, eight bits to the channel, ready for
/// that crate's encoders.
///
/// Trusted: Verus does not look inside an `image::ImageBuffer`. Contracts
/// speak of a picture through `picture_width`, `picture_height` and
/// `picture_bytes`.
#[verifier::external_body]
pub struct Picture {
    /// The picture itself.
    pub image: image::RgbImage,
}

/// The width of the picture in pixels, as `ImageBuffer::width` gives it.
pub uninterp spec fn picture_width(picture: Picture) -> nat;

/// The height of the picture in pixels, as `ImageBuffer::height` gives it.
pub uninterp spec fn picture_height(picture: Picture) -> nat;

/// The bytes of the picture, as `ImageBuffer::as_raw` gives them: row by row,
/// three bytes to the pixel.
pub uninterp spec fn picture_bytes(picture: Picture) -> Seq<u8>;

/// The three channels of the gray pixel `(x, y)`.
fn gray_pixel(raster: &Raster, x: u32, y: u32) -> (channels: [u8; 3])
    requires
        x < raster@.width,
        y < raster@.height,
    ensures
        channels@ == seq![
            raster@.at(x as int, y as int),
            raster@.at(x as int, y as int),
            raster@.at(x as int, y as int),
        ],
{
    let value = raster.sample(x, y);
    [value, value, value]
}

/// Trusted: a call of `image::ImageBuffer::from_fn`.
///
/// `from_fn` makes a picture of the given width and height. It allocates
/// three bytes for each pixel, which must not come to more than `isize::MAX`
/// bytes, and then calls the closure once for each pixel `(x, y)`, `x` below
/// the width and `y` below the height, and stores the three channels that it
/// returns at bytes `3 * (y * width + x)` and the two that follow. The closure
/// returns the gray pixel of the raster.
#[verifier::external_body]
fn picture_from_fn(raster: &Raster) -> (picture: Picture)
    requires
        raster@.wf(),
        3 * (raster@.width * raster@.height) <= isize::MAX,
    ensures
        picture_width(picture) == raster@.width,
        picture_height(picture) == raster@.height,
        picture_bytes(picture) == gray_to_rgb(raster@.samples),
{
    Picture {
        image: image::ImageBuffer::from_fn(
            raster.width(),
            raster.height(),
            |x, y| image::Rgb(gray_pixel(raster, x, y)),
        ),
    }
}

/// The raster as an RGB picture for the `image` crate's encoders, or `None`
/// when a picture of that size cannot be allocated.
pub fn to_picture(raster: &Raster) -> (picture: Option<Picture>)
    ensures
        picture.is_some() <==> 3 * (raster@.width * raster@.height) <= isize::MAX,
        picture matches Some(p) ==> {
            &&& picture_width(p) == raster@.width
            &&& picture_height(p) == raster@.height
            &&& picture_bytes(p) == gray_to_rgb(raster@.samples)
        },
{
    let count = raster.samples().len();
    if count <= (isize::MAX as usize) / 3 {
        Some(picture_from_fn(raster))
    } else {
        None
    }
}

/// Trusted: `gif::Frame`, one picture of an animation as the `gif` crate's
/// encoder takes it. Verus does not look inside.
#[verifier::external_type_specification]
#[verifier::external_body]
pub struct ExFrame<'a>(gif::Frame<'a>);

/// The frame that `gif::Frame::from_rgb` makes of a gray picture of `width` by
/// `height` pixels with the RGB bytes `pixels`.
pub uninterp spec fn frame_from_rgb(width: u16, height: u16, pixels: Seq<u8>) -> gif::Frame<
    'static,
>;

/// Trusted: a call of `gif::Frame::from_rgb`.
///
/// `from_rgb` panics unless there are three bytes for each pixel, and first
/// copies the pixels into a buffer of four bytes each. Of a picture with at
/// most 256 colours, as every gray one is, it makes a frame of the given size
/// whose palette holds the picture's colours in rising order and whose buffer
/// holds each pixel's place in the palette: the frame depends on nothing but
/// the arguments.
#[verifier::external_body]
fn frame_of_rgb(width: u16, height: u16, pixels: &[u8]) -> (frame: gif::Frame<'static>)
    requires
        pixels@.len() == 3 * (width * height),
        4 * (width * height) <= isize::MAX,
        is_gray_rgb(pixels@),
    ensures
        frame == frame_from_rgb(width, height, pixels@),
{
    gif::Frame::from_rgb(width, height, pixels)
}

/// `pixels` can be made into a frame of `width` by `height` pixels: both
/// dimensions fit the 16 bits that the format has for them, there are three
/// bytes for each pixel, and the picture is gray.
pub open spec fn frame_fits(width: u32, height: u32, pixels: Seq<u8>) -> bool {
    &&& width <= u16::MAX
    &&& height <= u16::MAX
    &&& pixels.len() == 3 * (width * height)
    &&& 4 * (width * height) <= isize::MAX
    &&& is_gray_rgb(pixels)
}

/// Whether `pixels` are RGB bytes of a gray picture.
pub fn has_gray_pixels(pixels: &[u8]) -> (gray: bool)
    ensures
        gray == is_gray_rgb(pixels@),
{
    if pixels.len() % 3 != 0 {
        return false;
    }
    let mut at: usize = 0;
    while at < pixels.len()
        invariant
            at <= pixels.len(),
            at % 3 == 0,
            pixels@.len() % 3 == 0,
            forall|j: int| 0 <= j < at ==> #[trigger] pixels@[j] == pixels@[j - j % 3],
        decreases pixels.len() - at,
    {
        if pixels[at + 1] != pixels[at] || pixels[at + 2] != pixels[at] {
            proof {
                let j = if pixels@[at + 1] != pixels@[at as int] {
                    at + 1
                } else {
                    at + 2
                };
                assert(pixels@[j] != pixels@[j - j % 3]);
            }
            return false;
        }
        at = at + 3;
    }
    true
}

/// The GIF frame of a gray picture of `width` by `height` pixels with the RGB
/// bytes `pixels`, or `None` when no frame can be made of them.
pub fn gray_frame(width: u32, height: u32, pixels: &[u8]) -> (frame: Option<gif::Frame<'static>>)
    ensures
        frame.is_some() <==> frame_fits(width, height, pixels@),
        frame matches Some(f) ==> f == frame_from_rgb(width as u16, height as u16, pixels@),
{
    if width > 0xffff || height > 0xffff {
        return None;
    }
    assert(width * height <= 0xffff * 0xffff) by (nonlinear_arith)
        requires
            width <= 0xffff,
            height <= 0xffff,
    ;
    let area: u64 = width as u64 * height as u64;
    if pixels.len() as u64 != 3 * area || 4 * area > isize::MAX as u64 {
        return None;
    }
    if !has_gray_pixels(pixels) {
        return None;
    }
    Some(frame_of_rgb(width as u16, height as u16, pixels))
}

} // verus!
