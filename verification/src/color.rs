//! Colours with four 8-bit channels, and the squared distance between them.

use vstd::prelude::*;

verus! {

/// A colour sample: red, green, blue and alpha, each in `0..=255`.
#[derive(Clone, Copy, Debug, PartialEq, Eq, Structural)]
pub struct Rgba {
    pub r: u8,
    pub g: u8,
    pub b: u8,
    pub a: u8,
}

/// Largest squared distance between two colours: three channels that each
/// differ by 255.
pub const MAX_DISTANCE: u32 = 195075;

/// Squared Euclidean distance of two colours over red, green and blue.
/// Alpha takes no part in it.
pub open spec fn distance_sq(p: Rgba, q: Rgba) -> int {
    (p.r - q.r) * (p.r - q.r) + (p.g - q.g) * (p.g - q.g) + (p.b - q.b) * (p.b - q.b)
}

fn gap_sq(x: u8, y: u8) -> (d: u32)
    ensures
        d == (x - y) * (x - y),
        d <= 65025,
{
    let gap: u32 = if x >= y {
        (x - y) as u32
    } else {
        (y - x) as u32
    };
    assert(gap * gap == (x - y) * (x - y)) by (nonlinear_arith)
        requires
            gap == x - y || gap == y - x,
    ;
    assert(gap * gap <= 65025) by (nonlinear_arith)
        requires
            gap <= 255,
    ;
    gap * gap
}

impl Rgba {
    /// A colour from its four channels.
    pub fn new(r: u8, g: u8, b: u8, a: u8) -> (c: Rgba)
        ensures
            c == (Rgba { r, g, b, a }),
    {
        Rgba { r, g, b, a }
    }

    /// An opaque colour from red, green and blue.
    pub fn opaque(r: u8, g: u8, b: u8) -> (c: Rgba)
        ensures
            c == (Rgba { r, g, b, a: 255 }),
    {
        Rgba { r, g, b, a: 255 }
    }

    /// Squared distance to `other` over red, green and blue.
    pub fn distance_sq(&self, other: &Rgba) -> (d: u32)
        ensures
            d == distance_sq(*self, *other),
            d <= MAX_DISTANCE,
    {
        gap_sq(self.r, other.r) + gap_sq(self.g, other.g) + gap_sq(self.b, other.b)
    }
}

/// Two colours agree in red, green and blue.
pub open spec fn same_rgb(p: Rgba, q: Rgba) -> bool {
    p.r == q.r && p.g == q.g && p.b == q.b
}

/// The distance is symmetric, it lies between zero and `MAX_DISTANCE`, and
/// it is zero exactly between colours that agree in red, green and blue.
pub proof fn lemma_distance_sq(p: Rgba, q: Rgba)
    ensures
        distance_sq(p, q) == distance_sq(q, p),
        0 <= distance_sq(p, q) <= MAX_DISTANCE,
        distance_sq(p, q) == 0 <==> same_rgb(p, q),
{
    assert((p.r - q.r) * (p.r - q.r) <= 65025) by (nonlinear_arith)
        requires
            -255 <= p.r - q.r <= 255,
    ;
    assert((p.g - q.g) * (p.g - q.g) <= 65025) by (nonlinear_arith)
        requires
            -255 <= p.g - q.g <= 255,
    ;
    assert((p.b - q.b) * (p.b - q.b) <= 65025) by (nonlinear_arith)
        requires
            -255 <= p.b - q.b <= 255,
    ;
    let dr = p.r - q.r;
    let dg = p.g - q.g;
    let db = p.b - q.b;
    assert(dr * dr >= 0 && (dr * dr == 0 <==> dr == 0)) by (nonlinear_arith);
    assert(dg * dg >= 0 && (dg * dg == 0 <==> dg == 0)) by (nonlinear_arith);
    assert(db * db >= 0 && (db * db == 0 <==> db == 0)) by (nonlinear_arith);
    assert((q.r - p.r) * (q.r - p.r) == dr * dr) by (nonlinear_arith)
        requires
            dr == p.r - q.r,
    ;
    assert((q.g - p.g) * (q.g - p.g) == dg * dg) by (nonlinear_arith)
        requires
            dg == p.g - q.g,
    ;
    assert((q.b - p.b) * (q.b - p.b) == db * db) by (nonlinear_arith)
        requires
            db == p.b - q.b,
    ;
}

} // verus!
