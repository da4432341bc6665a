//! Decoding, resizing and encoding of images.

use crate::codec::{decode_rgba, encode_png_rgba, png_encoding, resize_exact_rgba, resize_to_fill_rgba};
use crate::errors::{or_image_error, AppError};
use crate::raster::{Raster, RasterView};
use vstd::prelude::*;
use vstd::string::StringExecFns;

verus! {

/// Whether an image of `width` by `height` can be stretched to `new_width` by
/// `new_height`: no side is zero and the working buffers can be allocated.
pub open spec fn stretchable(width: nat, height: nat, new_width: nat, new_height: nat) -> bool {
    &&& width > 0
    &&& height > 0
    &&& new_width > 0
    &&& new_height > 0
    &&& 32 * width * new_height <= usize::MAX
    &&& 32 * new_width * new_height <= usize::MAX
}

/// How far a side of the scaled image may reach before it is cropped, where the
/// image is scaled so that its other side grows from `other` to `new_other`.
pub open spec fn fill_reach(side: nat, other: nat, new_other: nat) -> nat {
    side * new_other / other + 1
}

/// Whether an image of `width` by `height` can be scaled and cropped to fill
/// `new_width` by `new_height`: no side is zero, the scaled image before cropping has
/// sides that fit in 32 bits, and the working buffers can be allocated.
pub open spec fn fillable(width: nat, height: nat, new_width: nat, new_height: nat) -> bool {
    let reach_across = fill_reach(width, height, new_height);
    let reach_down = fill_reach(height, width, new_width);
    &&& width > 0
    &&& height > 0
    &&& new_width > 0
    &&& new_height > 0
    &&& reach_across <= u32::MAX
    &&& reach_down <= u32::MAX
    &&& 32 * (width * new_height) <= usize::MAX
    &&& 32 * (width * reach_down) <= usize::MAX
    &&& 8 * (new_width * reach_down) <= usize::MAX
    &&& 8 * (reach_across * new_height) <= usize::MAX
    &&& 8 * (new_width * new_height) <= usize::MAX
}

/// Whether the PNG encoder accepts the image.
pub open spec fn png_encodable(image: RasterView) -> bool {
    png_encoding(image.width as u32, image.height as u32, image.pixels) is Some
}

/// The PNG file of an image that the encoder accepts.
pub open spec fn png_file(image: RasterView) -> Seq<u8>
    recommends
        png_encodable(image),
{
    png_encoding(image.width as u32, image.height as u32, image.pixels)->Some_0
}

fn is_stretchable(width: u32, height: u32, new_width: u32, new_height: u32) -> (ok: bool)
    ensures
        ok == stretchable(width as nat, height as nat, new_width as nat, new_height as nat),
{
    if width == 0 || height == 0 || new_width == 0 || new_height == 0 {
        return false;
    }
    assert(width * new_height <= 0xFFFF_FFFF * 0xFFFF_FFFF && new_width * new_height
        <= 0xFFFF_FFFF * 0xFFFF_FFFF) by (nonlinear_arith)
        requires
            width <= 0xFFFF_FFFF,
            new_width <= 0xFFFF_FFFF,
            new_height <= 0xFFFF_FFFF,
    ;
    assert(32 * width * new_height == 32 * (width * new_height) && 32 * new_width * new_height
        == 32 * (new_width * new_height)) by (nonlinear_arith);
    let limit = usize::MAX as u128;
    let working: u128 = 32 * (width as u128 * new_height as u128);
    let output: u128 = 32 * (new_width as u128 * new_height as u128);
    working <= limit && output <= limit
}

fn is_fillable(width: u32, height: u32, new_width: u32, new_height: u32) -> (ok: bool)
    ensures
        ok == fillable(width as nat, height as nat, new_width as nat, new_height as nat),
{
    if width == 0 || height == 0 || new_width == 0 || new_height == 0 {
        return false;
    }
    proof {
        lemma_product_of_sides(width as nat, new_height as nat);
        lemma_product_of_sides(height as nat, new_width as nat);
        lemma_product_of_sides(new_width as nat, new_height as nat);
    }
    let limit = usize::MAX as u128;
    let side_limit = u32::MAX as u128;
    let reach_across: u128 = (width as u128 * new_height as u128) / (height as u128) + 1;
    let reach_down: u128 = (height as u128 * new_width as u128) / (width as u128) + 1;
    if reach_across > side_limit || reach_down > side_limit {
        return false;
    }
    proof {
        lemma_product_of_sides(width as nat, reach_down as nat);
        lemma_product_of_sides(new_width as nat, reach_down as nat);
        lemma_product_of_sides(reach_across as nat, new_height as nat);
    }
    32 * (width as u128 * new_height as u128) <= limit && 32 * (width as u128 * reach_down)
        <= limit && 8 * (new_width as u128 * reach_down) <= limit && 8 * (reach_across
        * new_height as u128) <= limit && 8 * (new_width as u128 * new_height as u128) <= limit
}

/// The product of two sides that fit in 32 bits fits in 64.
proof fn lemma_product_of_sides(a: nat, b: nat)
    by (nonlinear_arith)
    requires
        a <= 0xFFFF_FFFF,
        b <= 0xFFFF_FFFF,
    ensures
        a * b <= 0xFFFF_FFFF * 0xFFFF_FFFF,
{
}

impl Raster {
    /// The image that a decoder's outcome stands for: its bytes with their size, or
    /// an image error where decoding failed or the bytes do not match the size.
    pub fn from_decoded(outcome: Result<(u32, u32, Vec<u8>), image::ImageError>) -> (res: Result<
        Raster,
        AppError,
    >)
        ensures
            res matches Err(error) ==> error is Image,
            res is Ok <==> (outcome matches Ok(parts) && parts.2@.len() == 4 * parts.0 * parts.1),
            res matches Ok(image) ==> (outcome matches Ok(parts) && image@.wf() && image@ == (RasterView {
                width: parts.0 as nat,
                height: parts.1 as nat,
                pixels: parts.2@,
            })),
    {
        match outcome {
            Ok((width, height, pixels)) => match Raster::from_raw(width, height, pixels) {
                Some(image) => Ok(image),
                None => Err(
                    AppError::Image(String::from_str("pixel data does not match the image size")),
                ),
            },
            Err(error) => Err(AppError::from_image(&error)),
        }
    }

    /// Decodes an encoded image (PNG or JPEG) and turns it upright as its embedded
    /// orientation says. Fails with an image error where the bytes cannot be decoded.
    pub fn decode(bytes: &Vec<u8>) -> (res: Result<Raster, AppError>)
        ensures
            res matches Err(error) ==> error is Image,
            res matches Ok(image) ==> image@.wf(),
    {
        Raster::from_decoded(decode_rgba(bytes))
    }

    /// The image that a scaled and cropped outcome stands for, which must have the
    /// size that was asked for; an image error otherwise.
    pub fn from_filled(outcome: (u32, u32, Vec<u8>), new_width: u32, new_height: u32) -> (res:
        Result<Raster, AppError>)
        ensures
            res matches Err(error) ==> error is Image,
            res is Ok <==> (outcome.0 == new_width && outcome.1 == new_height && outcome.2@.len()
                == 4 * new_width * new_height),
            res matches Ok(image) ==> image@.wf() && image@ == (RasterView {
                width: new_width as nat,
                height: new_height as nat,
                pixels: outcome.2@,
            }),
    {
        let (width, height, pixels) = outcome;
        if width != new_width || height != new_height {
            return Err(AppError::Image(String::from_str("resized image has an unexpected size")));
        }
        match Raster::from_raw(width, height, pixels) {
            Some(image) => Ok(image),
            None => Err(
                AppError::Image(String::from_str("pixel data does not match the image size")),
            ),
        }
    }

    /// Stretches the image to `new_width` by `new_height` with a high-quality filter,
    /// without keeping its proportions. Fails with an image error exactly where the
    /// sizes are not `stretchable`.
    pub fn resize_exact(&self, new_width: u32, new_height: u32) -> (res: Result<Raster, AppError>)
        ensures
            res is Ok <==> stretchable(
                self@.width,
                self@.height,
                new_width as nat,
                new_height as nat,
            ),
            res matches Ok(image) ==> image@.wf() && image@.width == new_width && image@.height
                == new_height,
            res matches Err(error) ==> error is Image,
    {
        let width = self.width();
        let height = self.height();
        if !is_stretchable(width, height, new_width, new_height) {
            return Err(AppError::Image(String::from_str("image size out of range")));
        }
        let pixels = resize_exact_rgba(self.as_bytes(), width, height, new_width, new_height);
        match Raster::from_raw(new_width, new_height, pixels) {
            Some(image) => Ok(image),
            None => Err(AppError::Image(String::from_str("image size out of range"))),
        }
    }

    /// Scales the image with a high-quality filter until it covers `new_width` by
    /// `new_height`, keeping its proportions, and crops the middle. Fails with an image
    /// error where the sizes are not `fillable`.
    pub fn resize_to_fill(&self, new_width: u32, new_height: u32) -> (res: Result<Raster, AppError>)
        ensures
            res is Ok ==> fillable(self@.width, self@.height, new_width as nat, new_height as nat),
            res matches Ok(image) ==> image@.wf() && image@.width == new_width && image@.height
                == new_height,
            res matches Err(error) ==> error is Image,
    {
        let width = self.width();
        let height = self.height();
        if !is_fillable(width, height, new_width, new_height) {
            return Err(AppError::Image(String::from_str("image size out of range")));
        }
        let outcome = resize_to_fill_rgba(self.as_bytes(), width, height, new_width, new_height);
        Raster::from_filled(outcome, new_width, new_height)
    }

    /// The image as a PNG file. Fails with an image error exactly where the encoder
    /// refuses the image.
    pub fn encode_png(&self) -> (res: Result<Vec<u8>, AppError>)
        ensures
            res is Ok <==> png_encodable(self@),
            res matches Ok(bytes) ==> bytes@ == png_file(self@),
            res matches Err(error) ==> error is Image,
    {
        let width = self.width();
        let height = self.height();
        or_image_error(encode_png_rgba(self.as_bytes(), width, height))
    }
}

} // verus!
