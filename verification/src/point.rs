//! One cell of a pattern: where it was sampled and the colour it shows.

use vstd::prelude::*;
use crate::color::Rgba;

verus! {

/// A grid cell of the pattern. `x` is the column of the cell in the grid,
/// `y` its negated row, so that a chart drawn upward shows the image
/// upright.
#[derive(Clone, Copy, Debug, PartialEq, Eq, Structural)]
pub struct ColorPoint {
    pub x: i64,
    pub y: i64,
    pub color: Rgba,
}

impl ColorPoint {
    /// A point at `(x, y)` with the given colour.
    pub fn new(x: i64, y: i64, color: Rgba) -> (p: ColorPoint)
        ensures
            p == (ColorPoint { x, y, color }),
    {
        ColorPoint { x, y, color }
    }

    /// The same position with another colour.
    pub fn recolored(&self, color: Rgba) -> (p: ColorPoint)
        ensures
            p == (ColorPoint { x: self.x, y: self.y, color }),
    {
        ColorPoint { x: self.x, y: self.y, color }
    }
}

} // verus!
