//! Weighted average colour of an image under a mask.

use crate::color::Color;
use crate::fixed::ONE;
use crate::mask::{lemma_sum_weights_bounds, sum_weights, weights_in_range, MaskView, WeightingMask};
use crate::raster::{Raster, RasterView};
use vstd::prelude::*;

verus! {

/// Channel `channel` of the pixel at position `index` in reading order.
pub open spec fn sample(pixels: Seq<u8>, index: int, channel: int) -> u8 {
    pixels[4 * index + channel]
}

/// Sum over the first `count` pixels of channel value times weight.
pub open spec fn weighted_sum(pixels: Seq<u8>, weights: Seq<u32>, channel: int, count: nat) -> nat
    decreases count,
{
    if count == 0 {
        0
    } else {
        weighted_sum(pixels, weights, channel, (count - 1) as nat) + sample(
            pixels,
            count - 1,
            channel,
        ) as nat * weights[count - 1] as nat
    }
}

/// Weighted mean of one channel, in fixed point, rounded down.
pub open spec fn weighted_channel(pixels: Seq<u8>, weights: Seq<u32>, channel: int) -> nat {
    (weighted_sum(pixels, weights, channel, weights.len()) * ONE / sum_weights(weights) as int) as nat
}

/// Weighted average colour of `image` under `mask`: pixel `i` in reading order is
/// weighted by weight `i`.
pub open spec fn weighted_average(image: RasterView, mask: MaskView) -> Color {
    Color {
        r: weighted_channel(image.pixels, mask.weights, 0) as u32,
        g: weighted_channel(image.pixels, mask.weights, 1) as u32,
        b: weighted_channel(image.pixels, mask.weights, 2) as u32,
    }
}

/// A weighted sum is at most 255 times the sum of the weights used.
pub proof fn lemma_weighted_sum_bound(pixels: Seq<u8>, weights: Seq<u32>, channel: int, count: nat)
    requires
        count <= weights.len(),
    ensures
        weighted_sum(pixels, weights, channel, count) <= 255 * sum_weights(
            weights.subrange(0, count as int),
        ),
    decreases count,
{
    if count > 0 {
        let upto = weights.subrange(0, count as int);
        lemma_weighted_sum_bound(pixels, weights, channel, (count - 1) as nat);
        assert(upto.drop_last() == weights.subrange(0, count - 1));
        let p = sample(pixels, count - 1, channel) as nat;
        let w = weights[count - 1] as nat;
        assert(p * w <= 255 * w) by (nonlinear_arith)
            requires
                p <= 255,
        ;
    }
}

/// Where every pixel has the value `v` in a channel, the weighted sum of that channel
/// is `v` times the sum of the weights used.
pub proof fn lemma_weighted_sum_constant(
    pixels: Seq<u8>,
    weights: Seq<u32>,
    channel: int,
    count: nat,
    v: u8,
)
    requires
        count <= weights.len(),
        forall|i: int| 0 <= i < count ==> #[trigger] sample(pixels, i, channel) == v,
    ensures
        weighted_sum(pixels, weights, channel, count) == v * sum_weights(
            weights.subrange(0, count as int),
        ),
    decreases count,
{
    if count > 0 {
        let upto = weights.subrange(0, count as int);
        lemma_weighted_sum_constant(pixels, weights, channel, (count - 1) as nat, v);
        assert(upto.drop_last() == weights.subrange(0, count - 1));
        let s = sum_weights(weights.subrange(0, count - 1)) as int;
        let w = weights[count - 1] as int;
        let vi = v as int;
        assert(vi * s + vi * w == vi * (s + w)) by (nonlinear_arith);
        let total = sum_weights(upto) as int;
        assert(vi * total == vi * s + vi * w) by (nonlinear_arith)
            requires
                total == s + w,
        ;
    } else {
        let total = sum_weights(weights.subrange(0, 0)) as int;
        assert(v * total == 0) by (nonlinear_arith)
            requires
                total == 0,
        ;
    }
}

/// The weighted average of an image of one colour is that colour exactly, under any mask.
pub proof fn lemma_average_of_uniform_image(image: RasterView, mask: MaskView, r: u8, g: u8, b: u8)
    requires
        image.wf(),
        mask.wf(),
        image.width == mask.size,
        image.height == mask.size,
        forall|i: int| 0 <= i < image.width * image.height ==> #[trigger] sample(image.pixels, i, 0) == r,
        forall|i: int| 0 <= i < image.width * image.height ==> #[trigger] sample(image.pixels, i, 1) == g,
        forall|i: int| 0 <= i < image.width * image.height ==> #[trigger] sample(image.pixels, i, 2) == b,
    ensures
        weighted_average(image, mask) == (Color { r: (r * ONE) as u32, g: (g * ONE) as u32, b: (b * ONE) as u32 }),
{
    let w = mask.weights;
    let n = w.len();
    assert(w.subrange(0, n as int) == w);
    lemma_sum_weights_bounds(w);
    assert(n > 0) by (nonlinear_arith)
        requires
            n == mask.size * mask.size,
            mask.size > 0,
    ;
    let total = sum_weights(w);
    lemma_weighted_sum_constant(image.pixels, w, 0, n, r);
    lemma_weighted_sum_constant(image.pixels, w, 1, n, g);
    lemma_weighted_sum_constant(image.pixels, w, 2, n, b);
    lemma_scaled_quotient(r as nat, total);
    lemma_scaled_quotient(g as nat, total);
    lemma_scaled_quotient(b as nat, total);
}

/// `(v * total) * ONE / total` is `v * ONE`.
proof fn lemma_scaled_quotient(v: nat, total: nat)
    by (nonlinear_arith)
    requires
        total > 0,
    ensures
        ((v * total) * ONE) / (total as int) == v * ONE,
{
}

/// One term of a weighted sum is small.
proof fn lemma_term_bound(p: u8, w: u32)
    by (nonlinear_arith)
    ensures
        p * w <= 255 * 0xFFFF_FFFF,
{
}

/// A quotient of a weighted sum by the total weight stays within the channel range.
proof fn lemma_quotient_bound(sum: nat, total: nat)
    by (nonlinear_arith)
    requires
        total > 0,
        sum <= 255 * total,
    ensures
        sum * ONE / (total as int) <= 255 * ONE,
        sum * ONE <= 255 * ONE * total,
{
}

/// Weighted average colour of `img` under `mask`, which must have the size of the image.
pub fn tiles_avg_rgb(img: &Raster, mask: &WeightingMask) -> (color: Color)
    requires
        img@.width == mask@.size,
        img@.height == mask@.size,
    ensures
        color == weighted_average(img@, mask@),
        color.valid(),
{
    let weights = mask.weights();
    let pixels = img.as_bytes();
    let total = mask.total_weight();
    let n = weights.len();
    assert(4 * mask@.size * mask@.size == 4 * (mask@.size * mask@.size)) by (nonlinear_arith);
    let mut r: u128 = 0;
    let mut g: u128 = 0;
    let mut b: u128 = 0;
    let len = pixels.len();
    let mut i: usize = 0;
    while i < n
        invariant
            i <= n,
            n == weights@.len(),
            pixels@.len() == 4 * n,
            len == pixels@.len(),
            weights_in_range(weights@),
            r == weighted_sum(pixels@, weights@, 0, i as nat),
            g == weighted_sum(pixels@, weights@, 1, i as nat),
            b == weighted_sum(pixels@, weights@, 2, i as nat),
        decreases n - i,
    {
        proof {
            lemma_weighted_sum_bound(pixels@, weights@, 0, i as nat);
            lemma_weighted_sum_bound(pixels@, weights@, 1, i as nat);
            lemma_weighted_sum_bound(pixels@, weights@, 2, i as nat);
            let upto = weights@.subrange(0, i as int);
            assert forall|k: int| 0 <= k < upto.len() implies 1 <= #[trigger] upto[k] <= ONE by {
            }
            lemma_sum_weights_bounds(upto);
            assert(upto.len() * ONE <= usize::MAX * ONE) by (nonlinear_arith)
                requires
                    upto.len() <= usize::MAX,
            ;
        }
        let w = weights[i] as u128;
        let base = 4 * i;
        proof {
            lemma_term_bound(pixels@[base as int], weights@[i as int]);
            lemma_term_bound(pixels@[base + 1], weights@[i as int]);
            lemma_term_bound(pixels@[base + 2], weights@[i as int]);
        }
        r = r + pixels[base] as u128 * w;
        g = g + pixels[base + 1] as u128 * w;
        b = b + pixels[base + 2] as u128 * w;
        i += 1;
    }
    proof {
        assert(weights@.subrange(0, n as int) == weights@);
        lemma_weighted_sum_bound(pixels@, weights@, 0, n as nat);
        lemma_weighted_sum_bound(pixels@, weights@, 1, n as nat);
        lemma_weighted_sum_bound(pixels@, weights@, 2, n as nat);
        lemma_sum_weights_bounds(weights@);
        assert(weights@.len() * ONE <= usize::MAX * ONE) by (nonlinear_arith)
            requires
                weights@.len() <= usize::MAX,
        ;
        lemma_quotient_bound(r as nat, total as nat);
        lemma_quotient_bound(g as nat, total as nat);
        lemma_quotient_bound(b as nat, total as nat);
    }
    let one = ONE as u128;
    Color { r: (r * one / total) as u32, g: (g * one / total) as u32, b: (b * one / total) as u32 }
}

} // verus!
