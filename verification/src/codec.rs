//! The image codecs and samplers this crate relies on. Nothing in this file is
//! proved: each function states what is taken on trust from the `image` crate.

use crate::raster::pixel_at;
use image::ImageDecoder;
use image::ImageEncoder;
use vstd::prelude::*;

verus! {

/// The error type of the `image` crate, carried through unopened.
#[verifier::external_type_specification]
#[verifier::external_body]
pub struct ExImageError(image::ImageError);

/// Result of `image`'s source-over blend of the RGBA pixel `top` onto `bottom`
/// where `top` is neither fully transparent nor fully opaque.
pub uninterp spec fn blended(bottom: Seq<u8>, top: Seq<u8>) -> Seq<u8>;

/// What `image`'s PNG encoder makes of an RGBA image: the bytes of the file, or
/// `None` where it refuses the image.
pub uninterp spec fn png_encoding(width: u32, height: u32, pixels: Seq<u8>) -> Option<Seq<u8>>;

/// Decodes an encoded image with `image::ImageReader`, turns it upright with
/// `DynamicImage::apply_orientation` as its embedded orientation says, and hands it
/// out as RGBA bytes with its width and height. Nothing is claimed of the outcome.
#[verifier::external_body]
pub(crate) fn decode_rgba(bytes: &Vec<u8>) -> (res: Result<(u32, u32, Vec<u8>), image::ImageError>) {
    let cursor = std::io::Cursor::new(bytes.as_slice());
    let reader = image::ImageReader::new(cursor).with_guessed_format()?;
    let mut decoder = reader.into_decoder()?;
    let orientation = decoder.orientation()?;
    let mut decoded = image::DynamicImage::from_decoder(decoder)?;
    decoded.apply_orientation(orientation);
    let rgba = decoded.into_rgba8();
    Ok((rgba.width(), rgba.height(), rgba.into_raw()))
}

/// Stretches an RGBA image to `new_width` by `new_height` with
/// `image::imageops::resize` and the Lanczos filter. The claim: the result has the
/// size asked for. The bounds keep the sampler's buffers within what can be allocated.
#[verifier::external_body]
pub(crate) fn resize_exact_rgba(
    pixels: &Vec<u8>,
    width: u32,
    height: u32,
    new_width: u32,
    new_height: u32,
) -> (res: Vec<u8>)
    requires
        pixels@.len() == 4 * width * height,
        width > 0,
        height > 0,
        new_width > 0,
        new_height > 0,
        32 * width * new_height <= usize::MAX,
        32 * new_width * new_height <= usize::MAX,
    ensures
        res@.len() == 4 * new_width * new_height,
{
    let source = image::ImageBuffer::<image::Rgba<u8>, &[u8]>::from_raw(width, height, pixels).unwrap();
    let filter = image::imageops::FilterType::Lanczos3;
    image::imageops::resize(&source, new_width, new_height, filter).into_raw()
}

/// Scales an RGBA image with `DynamicImage::resize_to_fill` and the Lanczos filter, so
/// that it covers `new_width` by `new_height`, and crops the middle. Nothing is claimed
/// of the outcome, which comes with its own width and height. Before it crops, the
/// function scales the image so that one side is the side asked for and the other is
/// at most the source's side times the scale, rounded, which the two quotients bound;
/// the bounds keep that image within 32-bit sides and each buffer of the sampler
/// within what can be allocated.
#[verifier::external_body]
pub(crate) fn resize_to_fill_rgba(
    pixels: &Vec<u8>,
    width: u32,
    height: u32,
    new_width: u32,
    new_height: u32,
) -> (res: (u32, u32, Vec<u8>))
    requires
        pixels@.len() == 4 * width * height,
        width > 0,
        height > 0,
        new_width > 0,
        new_height > 0,
        width * new_height / (height as int) + 1 <= u32::MAX,
        height * new_width / (width as int) + 1 <= u32::MAX,
        32 * (width * new_height) <= usize::MAX,
        32 * (width * (height * new_width / (width as int) + 1)) <= usize::MAX,
        8 * (new_width * (height * new_width / (width as int) + 1)) <= usize::MAX,
        8 * ((width * new_height / (height as int) + 1) * new_height) <= usize::MAX,
        8 * (new_width * new_height) <= usize::MAX,
{
    let buffer = image::RgbaImage::from_raw(width, height, pixels.clone()).unwrap();
    let source = image::DynamicImage::ImageRgba8(buffer);
    let filter = image::imageops::FilterType::Lanczos3;
    let filled = source.resize_to_fill(new_width, new_height, filter).into_rgba8();
    (filled.width(), filled.height(), filled.into_raw())
}

/// Paints the RGBA image `top` onto `bottom` with `image::imageops::overlay`, its
/// corner at `(x, y)`. The claim: the buffer keeps its length; outside `top` every pixel
/// stays; under a fully transparent pixel of `top` it stays, under a fully opaque one it
/// becomes that pixel, under any other it becomes their blend. No side is zero, so that
/// the size of each buffer can be computed in any order of its factors.
#[verifier::external_body]
pub(crate) fn overlay_rgba(
    bottom: Vec<u8>,
    bottom_width: u32,
    bottom_height: u32,
    top: &Vec<u8>,
    top_width: u32,
    top_height: u32,
    x: u32,
    y: u32,
) -> (out: Vec<u8>)
    requires
        bottom_width > 0,
        bottom_height > 0,
        top_width > 0,
        top_height > 0,
        bottom@.len() == 4 * bottom_width * bottom_height,
        top@.len() == 4 * top_width * top_height,
        x + top_width <= bottom_width,
        y + top_height <= bottom_height,
    ensures
        out@.len() == bottom@.len(),
        forall|i: int, j: int|
            0 <= i < bottom_width && 0 <= j < bottom_height && !(x <= i < x + top_width && y <= j
                < y + top_height) ==> #[trigger] pixel_at(out@, bottom_width as nat, i, j) == pixel_at(
                bottom@,
                bottom_width as nat,
                i,
                j,
            ),
        forall|i: int, j: int|
            x <= i < x + top_width && y <= j < y + top_height ==> #[trigger] pixel_at(
                out@,
                bottom_width as nat,
                i,
                j,
            ) == ({
                let under = pixel_at(bottom@, bottom_width as nat, i, j);
                let over = pixel_at(top@, top_width as nat, i - x, j - y);
                if over[3] == 0 {
                    under
                } else if over[3] == 255 {
                    over
                } else {
                    blended(under, over)
                }
            }),
{
    let mut canvas = image::RgbaImage::from_raw(bottom_width, bottom_height, bottom).unwrap();
    let over = image::ImageBuffer::<image::Rgba<u8>, &[u8]>::from_raw(top_width, top_height, top).unwrap();
    image::imageops::overlay(&mut canvas, &over, i64::from(x), i64::from(y));
    canvas.into_raw()
}

/// Encodes an RGBA image as a PNG file with `image::codecs::png::PngEncoder`, into
/// memory. The claim: whether the encoder accepts the image, and the bytes it writes,
/// are as `png_encoding` names them for this image.
#[verifier::external_body]
pub(crate) fn encode_png_rgba(pixels: &Vec<u8>, width: u32, height: u32) -> (res: Result<
    Vec<u8>,
    image::ImageError,
>)
    requires
        pixels@.len() == 4 * width * height,
    ensures
        res matches Ok(bytes) ==> png_encoding(width, height, pixels@) == Some(bytes@),
        res is Err ==> png_encoding(width, height, pixels@) is None,
{
    let mut out: Vec<u8> = Vec::new();
    let encoder = image::codecs::png::PngEncoder::new(&mut out);
    encoder.write_image(pixels, width, height, image::ExtendedColorType::Rgba8)?;
    Ok(out)
}

/// The text of an `image` error, as its `Display` gives it.
#[verifier::external_body]
pub(crate) fn image_error_text(error: &image::ImageError) -> (text: String) {
    error.to_string()
}

} // verus!
