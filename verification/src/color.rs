//! Average colours and the squared Euclidean distance between them.

use crate::fixed::{CHANNEL_LIMIT, ONE};
use vstd::prelude::*;

verus! {

/// An RGB colour whose channels are fixed-point numbers in `[0, 255]`.
#[derive(Clone, Copy, Debug, PartialEq, Eq, Structural)]
pub struct Color {
    pub r: u32,
    pub g: u32,
    pub b: u32,
}

/// Square of the difference of two channel values.
pub open spec fn channel_gap_sq(a: u32, b: u32) -> nat {
    ((a - b) * (a - b)) as nat
}

/// Squared Euclidean distance between two colours, in squared fixed-point units.
pub open spec fn distance_sq(a: Color, b: Color) -> nat {
    channel_gap_sq(a.r, b.r) + channel_gap_sq(a.g, b.g) + channel_gap_sq(a.b, b.b)
}

fn gap_sq(a: u32, b: u32) -> (d: u128)
    ensures
        d == channel_gap_sq(a, b),
        d <= 0xFFFF_FFFF * 0xFFFF_FFFF,
{
    let hi: u128 = if a >= b { a as u128 } else { b as u128 };
    let lo: u128 = if a >= b { b as u128 } else { a as u128 };
    let gap: u128 = hi - lo;
    assert(gap * gap <= 0xFFFF_FFFF * 0xFFFF_FFFF) by (nonlinear_arith)
        requires
            0 <= gap <= 0xFFFF_FFFF,
    ;
    assert(gap * gap == (a - b) * (a - b)) by (nonlinear_arith)
        requires
            gap == a - b || gap == b - a,
    ;
    gap * gap
}

impl Color {
    /// Every channel lies in `[0, 255]`.
    pub open spec fn valid(self) -> bool {
        self.r <= CHANNEL_LIMIT && self.g <= CHANNEL_LIMIT && self.b <= CHANNEL_LIMIT
    }

    /// The colour of three whole-number channel values.
    pub fn from_rgb8(r: u8, g: u8, b: u8) -> (c: Color)
        ensures
            c.valid(),
            c.r == r * ONE,
            c.g == g * ONE,
            c.b == b * ONE,
    {
        Color { r: r as u32 * ONE, g: g as u32 * ONE, b: b as u32 * ONE }
    }

    /// Squared Euclidean distance to `other`.
    pub fn distance_sq(&self, other: &Color) -> (d: u128)
        ensures
            d == distance_sq(*self, *other),
    {
        gap_sq(self.r, other.r) + gap_sq(self.g, other.g) + gap_sq(self.b, other.b)
    }
}

/// The squared distance of two colours fits well within 128 bits.
pub proof fn lemma_distance_sq_bound(a: Color, b: Color)
    ensures
        distance_sq(a, b) <= 3 * (0xFFFF_FFFF * 0xFFFF_FFFF),
{
    lemma_gap_bound(a.r, b.r);
    lemma_gap_bound(a.g, b.g);
    lemma_gap_bound(a.b, b.b);
}

proof fn lemma_gap_bound(a: u32, b: u32)
    by (nonlinear_arith)
    ensures
        0 <= (a - b) * (a - b) <= 0xFFFF_FFFF * 0xFFFF_FFFF,
{
}

proof fn lemma_square_zero(x: int)
    by (nonlinear_arith)
    ensures
        x * x >= 0,
        x * x == 0 <==> x == 0,
        x * x == (-x) * (-x),
{
}

/// The distance is symmetric, and zero exactly between equal colours.
pub proof fn lemma_distance_sq_metric(a: Color, b: Color)
    ensures
        distance_sq(a, b) == distance_sq(b, a),
        distance_sq(a, b) == 0 <==> a == b,
{
    lemma_square_zero(a.r - b.r);
    lemma_square_zero(a.g - b.g);
    lemma_square_zero(a.b - b.b);
}

} // verus!
