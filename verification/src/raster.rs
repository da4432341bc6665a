//! Images held as plain RGBA bytes, four to a pixel (red, green, blue, alpha), row
//! after row.

use crate::codec::{blended, overlay_rgba};
use vstd::arithmetic::div_mod::{
    lemma_div_pos_is_pos, lemma_fundamental_div_mod, lemma_mod_bound, lemma_multiply_divide_lt,
};
use vstd::prelude::*;

verus! {

/// Position of pixel `(x, y)` in the byte buffer of an image `width` pixels wide.
pub open spec fn pixel_offset(width: nat, x: int, y: int) -> int {
    4 * (y * width + x)
}

/// A pixel inside a `width` by `height` image lies wholly inside the buffer, rows follow
/// one another without gaps, and columns lie four bytes apart.
pub proof fn lemma_pixel_offset(width: nat, height: nat, x: int, y: int)
    by (nonlinear_arith)
    requires
        0 <= x < width,
        0 <= y < height,
    ensures
        0 <= pixel_offset(width, x, y),
        pixel_offset(width, x, y) + 4 <= 4 * width * height,
        pixel_offset(width, x, y) + 4 <= 4 * (width * height),
        pixel_offset(width, x + 1, y) == pixel_offset(width, x, y) + 4,
        pixel_offset(width, 0, y + 1) == pixel_offset(width, width as int, y),
        pixel_offset(width, 0, y) == 4 * (y * width),
{
}

/// Channel `c` of pixel `(x, y)` in the bytes of an image `width` pixels wide.
pub open spec fn channel_at(pixels: Seq<u8>, width: nat, x: int, y: int, c: int) -> u8 {
    pixels[pixel_offset(width, x, y) + c]
}

/// The four bytes of pixel `(x, y)` in the bytes of an image `width` pixels wide.
pub open spec fn pixel_at(pixels: Seq<u8>, width: nat, x: int, y: int) -> Seq<u8> {
    pixels.subrange(pixel_offset(width, x, y), pixel_offset(width, x, y) + 4)
}

/// Pixel `(i, j)` of the bottom image once `top` has been painted over it with its
/// corner at `(x, y)`: outside `top` the pixel stays; a fully transparent pixel of
/// `top` leaves it, a fully opaque one replaces it, any other is blended in.
pub open spec fn painted_pixel(
    bottom: Seq<u8>,
    bottom_width: nat,
    top: Seq<u8>,
    top_width: nat,
    top_height: nat,
    x: int,
    y: int,
    i: int,
    j: int,
) -> Seq<u8> {
    let under = pixel_at(bottom, bottom_width, i, j);
    if x <= i < x + top_width && y <= j < y + top_height {
        let over = pixel_at(top, top_width, i - x, j - y);
        if over[3] == 0 {
            under
        } else if over[3] == 255 {
            over
        } else {
            blended(under, over)
        }
    } else {
        under
    }
}

/// Pixels are laid out in reading order: one that comes earlier, in an earlier row or
/// further left in the same row, ends before a later one begins.
pub proof fn lemma_offset_order(width: nat, x1: int, y1: int, x2: int, y2: int)
    by (nonlinear_arith)
    requires
        0 <= x1 < width,
        0 <= x2 <= width,
        0 <= y1,
        y1 < y2 || (y1 == y2 && x1 < x2),
    ensures
        pixel_offset(width, x1, y1) + 4 <= pixel_offset(width, x2, y2),
{
}

/// The end of one row is the start of the next.
pub proof fn lemma_row_end(width: nat, y: int)
    by (nonlinear_arith)
    ensures
        pixel_offset(width, width as int, y) == pixel_offset(width, 0, y + 1),
{
}

/// What an image is: its size and its bytes.
pub struct RasterView {
    pub width: nat,
    pub height: nat,
    pub pixels: Seq<u8>,
}

impl RasterView {
    /// The buffer holds exactly four bytes for each pixel.
    pub open spec fn wf(self) -> bool {
        &&& self.width <= u32::MAX
        &&& self.height <= u32::MAX
        &&& self.pixels.len() == 4 * self.width * self.height
    }

    /// Whether `(x, y)` names a pixel of the image.
    pub open spec fn contains(self, x: int, y: int) -> bool {
        0 <= x < self.width && 0 <= y < self.height
    }

    /// Channel `c` (0 red, 1 green, 2 blue, 3 alpha) of pixel `(x, y)`.
    pub open spec fn channel(self, x: int, y: int, c: int) -> u8 {
        channel_at(self.pixels, self.width, x, y, c)
    }

    /// Whether `self` is the `width` by `height` window of `source` whose corner is `(x, y)`.
    pub open spec fn is_window_of(self, source: RasterView, x: int, y: int) -> bool {
        &&& self.wf()
        &&& x + self.width <= source.width
        &&& y + self.height <= source.height
        &&& forall|i: int, j: int, c: int|
            0 <= i < self.width && 0 <= j < self.height && 0 <= c < 4 ==> #[trigger] self.channel(
                i,
                j,
                c,
            ) == source.channel(x + i, y + j, c)
    }
}

/// The `width` by `height` window of `source` whose corner is `(x, y)`.
pub open spec fn window(source: RasterView, x: int, y: int, width: nat, height: nat) -> RasterView {
    RasterView {
        width,
        height,
        pixels: Seq::new(
            4 * width * height,
            |k: int|
                source.channel(x + (k / 4) % (width as int), y + (k / 4) / (width as int), k % 4),
        ),
    }
}

/// Every byte position of an image is one channel of one pixel.
pub proof fn lemma_position_is_channel(width: nat, height: nat, k: int)
    requires
        0 <= k < 4 * width * height,
    ensures
        width > 0,
        0 <= (k / 4) % (width as int) < width,
        0 <= (k / 4) / (width as int) < height,
        0 <= k % 4 < 4,
        pixel_offset(width, (k / 4) % (width as int), (k / 4) / (width as int)) + k % 4 == k,
{
    let w = width as int;
    assert(width > 0 && 4 * width * height == 4 * (w * height)) by (nonlinear_arith)
        requires
            0 <= k < 4 * width * height,
            w == width,
    ;
    let q = k / 4;
    lemma_mod_bound(q, w);
    lemma_div_pos_is_pos(q, w);
    lemma_multiply_divide_lt(q, w, height as int);
    lemma_fundamental_div_mod(q, w);
    assert(w * (q / w) == (q / w) * w) by (nonlinear_arith);
}

/// An image that holds, pixel for pixel, what the source holds under it is the window.
pub proof fn lemma_window_unique(image: RasterView, source: RasterView, x: int, y: int)
    requires
        image.is_window_of(source, x, y),
    ensures
        image == window(source, x, y, image.width, image.height),
{
    let w = window(source, x, y, image.width, image.height);
    assert forall|k: int| 0 <= k < image.pixels.len() implies image.pixels[k] == w.pixels[k] by {
        lemma_position_is_channel(image.width, image.height, k);
        let i = (k / 4) % (image.width as int);
        let j = (k / 4) / (image.width as int);
        assert(image.channel(i, j, k % 4) == source.channel(x + i, y + j, k % 4));
    }
    assert(image.pixels =~= w.pixels);
}

/// An RGBA image with eight bits per channel.
pub struct Raster {
    width: u32,
    height: u32,
    pixels: Vec<u8>,
}

impl View for Raster {
    type V = RasterView;

    closed spec fn view(&self) -> RasterView {
        RasterView {
            width: self.width as nat,
            height: self.height as nat,
            pixels: self.pixels@,
        }
    }
}

impl Raster {
    #[verifier::type_invariant]
    spec fn inv(self) -> bool {
        self.pixels@.len() == 4 * self.width * self.height
    }

    /// Builds an image from its bytes; `None` when the buffer has the wrong length.
    pub fn from_raw(width: u32, height: u32, pixels: Vec<u8>) -> (res: Option<Raster>)
        ensures
            res is Some <==> pixels@.len() == 4 * width * height,
            res matches Some(r) ==> r@.wf() && r@ == (RasterView {
                width: width as nat,
                height: height as nat,
                pixels: pixels@,
            }),
    {
        assert(width * height <= 0xFFFF_FFFF * 0xFFFF_FFFF) by (nonlinear_arith)
            requires
                width <= 0xFFFF_FFFF,
                height <= 0xFFFF_FFFF,
        ;
        let area: u64 = width as u64 * height as u64;
        assert(4 * width * height == 4 * (width * height)) by (nonlinear_arith);
        if pixels.len() as u128 == 4 * (area as u128) {
            Some(Raster { width, height, pixels })
        } else {
            None
        }
    }

    /// Width in pixels.
    pub fn width(&self) -> (w: u32)
        ensures
            w == self@.width,
            self@.wf(),
    {
        proof {
            use_type_invariant(self);
        }
        self.width
    }

    /// Height in pixels.
    pub fn height(&self) -> (h: u32)
        ensures
            h == self@.height,
            self@.wf(),
    {
        proof {
            use_type_invariant(self);
        }
        self.height
    }

    /// The bytes of the image, row after row.
    pub fn as_bytes(&self) -> (bytes: &Vec<u8>)
        ensures
            bytes@ == self@.pixels,
            self@.wf(),
    {
        proof {
            use_type_invariant(self);
        }
        &self.pixels
    }

    /// Gives the buffer back.
    pub fn into_raw(self) -> (bytes: Vec<u8>)
        ensures
            bytes@ == self@.pixels,
            self@.wf(),
    {
        proof {
            use_type_invariant(&self);
        }
        self.pixels
    }

    /// Channel `c` of pixel `(x, y)`.
    pub fn channel(&self, x: u32, y: u32, c: usize) -> (v: u8)
        requires
            self@.contains(x as int, y as int),
            c < 4,
        ensures
            v == self@.channel(x as int, y as int, c as int),
    {
        proof {
            use_type_invariant(self);
            lemma_pixel_offset(self@.width, self@.height, x as int, y as int);
        }
        let start = self.offset(x, y);
        self.pixels[start + c]
    }

    /// A fully transparent black image; `None` when its buffer would take more than
    /// half of the address space.
    pub fn transparent(width: u32, height: u32) -> (res: Option<Raster>)
        ensures
            res is Some <==> 8 * width * height <= usize::MAX,
            res matches Some(r) ==> r@.wf() && r@.width == width && r@.height == height
                && forall|k: int| 0 <= k < r@.pixels.len() ==> r@.pixels[k] == 0,
    {
        assert(width * height <= 0xFFFF_FFFF * 0xFFFF_FFFF) by (nonlinear_arith)
            requires
                width <= 0xFFFF_FFFF,
                height <= 0xFFFF_FFFF,
        ;
        assert(4 * width * height == 4 * (width * height) && 8 * width * height == 8 * (width
            * height)) by (nonlinear_arith);
        let bytes: u128 = 4 * (width as u128 * height as u128);
        if 2 * bytes > usize::MAX as u128 {
            return None;
        }
        let pixels = vec![0u8; bytes as usize];
        Some(Raster { width, height, pixels })
    }

    /// Copies the `width` by `height` window whose corner is `(x, y)`; `None` when the
    /// window does not fit inside the image.
    pub fn region(&self, x: u32, y: u32, width: u32, height: u32) -> (res: Option<Raster>)
        ensures
            res is Some <==> x + width <= self@.width && y + height <= self@.height,
            res matches Some(r) ==> r@ == window(
                self@,
                x as int,
                y as int,
                width as nat,
                height as nat,
            ),
    {
        proof {
            use_type_invariant(self);
        }
        if x as u64 + width as u64 > self.width as u64 || y as u64 + height as u64
            > self.height as u64 {
            return None;
        }
        let ghost src = self@;
        let ghost out_w = width as nat;
        let ghost out_h = height as nat;
        let mut pixels: Vec<u8> = Vec::new();
        let mut j: u32 = 0;
        while j < height
            invariant
                self@ == src,
                src.wf(),
                out_w == width,
                out_h == height,
                x + width <= src.width,
                y + height <= src.height,
                j <= height,
                pixels@.len() == pixel_offset(out_w, 0, j as int),
                forall|i: int, r: int, c: int|
                    0 <= i < out_w && 0 <= r < j && 0 <= c < 4 ==> #[trigger] channel_at(pixels@, out_w, i, r, c) == src.channel(x + i, y + r, c),
            decreases height - j,
        {
            let mut i: u32 = 0;
            while i < width
                invariant
                    self@ == src,
                    src.wf(),
                    out_w == width,
                    out_h == height,
                    x + width <= src.width,
                    y + height <= src.height,
                    j < height,
                    i <= width,
                    pixels@.len() == pixel_offset(out_w, i as int, j as int),
                    forall|a: int, r: int, c: int|
                        0 <= a < out_w && 0 <= r < j && 0 <= c < 4
                            ==> #[trigger] channel_at(pixels@, out_w, a, r, c) == src.channel(
                            x + a,
                            y + r,
                            c,
                        ),
                    forall|a: int, c: int|
                        0 <= a < i && 0 <= c < 4 ==> #[trigger] channel_at(pixels@, out_w, a, j as int, c) == src.channel(x + a, y + j, c),
                decreases width - i,
            {
                let start = self.offset(x + i, y + j);
                let ghost before = pixels@;
                pixels.push(self.pixels[start]);
                pixels.push(self.pixels[start + 1]);
                pixels.push(self.pixels[start + 2]);
                pixels.push(self.pixels[start + 3]);
                proof {
                    lemma_pixel_offset(out_w, out_h, i as int, j as int);
                    assert forall|a: int, r: int, c: int|
                        0 <= a < out_w && 0 <= r < j && 0 <= c < 4 implies #[trigger] channel_at(pixels@, out_w, a, r, c) == src.channel(x + a, y + r, c) by {
                        lemma_pixel_offset(out_w, out_h, a, r);
                        lemma_offset_order(out_w, a, r, i as int, j as int);
                        assert(channel_at(pixels@, out_w, a, r, c) == channel_at(before, out_w, a, r, c));
                    }
                    assert forall|a: int, c: int| 0 <= a < i + 1 && 0 <= c < 4 implies #[trigger] channel_at(pixels@, out_w, a, j as int, c) == src.channel(x + a, y + j, c) by {
                        if a < i {
                            lemma_pixel_offset(out_w, out_h, a, j as int);
                            lemma_offset_order(out_w, a, j as int, i as int, j as int);
                            assert(channel_at(pixels@, out_w, a, j as int, c) == channel_at(before, out_w, a, j as int, c));
                        }
                    }
                }
                i += 1;
            }
            proof {
                lemma_row_end(out_w, j as int);
            }
            j += 1;
        }
        proof {
            assert(pixel_offset(out_w, 0, height as int) == 4 * out_w * out_h) by (nonlinear_arith)
                requires
                    out_h == height,
            ;
        }
        let out = Raster { width, height, pixels };
        proof {
            assert forall|a: int, r: int, c: int|
                0 <= a < out@.width && 0 <= r < out@.height && 0 <= c < 4 implies #[trigger] out@.channel(
                a,
                r,
                c,
            ) == src.channel(x + a, y + r, c) by {
            }
            lemma_window_unique(out@, src, x as int, y as int);
        }
        Some(out)
    }

    /// The image with `tile` painted onto it, its corner at `(x, y)`, blended by the
    /// alpha of `tile`. Where `tile` does not fit inside the image, or either is
    /// empty, the image is handed back as it was.
    pub fn overlay(self, tile: &Raster, x: u32, y: u32) -> (out: Raster)
        ensures
            out@.wf(),
            out@.width == self@.width,
            out@.height == self@.height,
            !(x + tile@.width <= self@.width && y + tile@.height <= self@.height) ==> out@
                == self@,
            x + tile@.width <= self@.width && y + tile@.height <= self@.height ==> forall|
                i: int,
                j: int,
            |
                0 <= i < self@.width && 0 <= j < self@.height ==> #[trigger] pixel_at(
                    out@.pixels,
                    self@.width,
                    i,
                    j,
                ) == painted_pixel(
                    self@.pixels,
                    self@.width,
                    tile@.pixels,
                    tile@.width,
                    tile@.height,
                    x as int,
                    y as int,
                    i,
                    j,
                ),
    {
        proof {
            use_type_invariant(&self);
            use_type_invariant(tile);
        }
        if x as u64 + tile.width as u64 > self.width as u64 || y as u64 + tile.height as u64
            > self.height as u64 {
            return self;
        }
        if tile.width == 0 || tile.height == 0 || self.width == 0 || self.height == 0 {
            // Nothing to paint, or nothing to paint on.
            return self;
        }
        let width = self.width;
        let height = self.height;
        let pixels = overlay_rgba(
            self.pixels,
            width,
            height,
            &tile.pixels,
            tile.width,
            tile.height,
            x,
            y,
        );
        Raster { width, height, pixels }
    }

    /// Position of pixel `(x, y)` in the buffer.
    fn offset(&self, x: u32, y: u32) -> (start: usize)
        requires
            self@.contains(x as int, y as int),
        ensures
            start == pixel_offset(self@.width, x as int, y as int),
            start + 4 <= self@.pixels.len(),
    {
        proof {
            use_type_invariant(self);
            lemma_pixel_offset(self@.width, self@.height, x as int, y as int);
            assert(4 * self.width * self.height == 4 * (self.width * self.height))
                by (nonlinear_arith);
            assert(0 <= y * self.width && y * self.width + x < self.width * self.height)
                by (nonlinear_arith)
                requires
                    0 <= x < self.width,
                    0 <= y < self.height,
            ;
        }
        let len = self.pixels.len();
        assert(4 * (y * self.width + x) + 4 <= len);
        (y as usize * self.width as usize + x as usize) * 4
    }
}

} // verus!
