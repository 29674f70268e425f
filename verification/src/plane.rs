//! Vectors in the plane with whole coordinates.

use vstd::prelude::*;

verus! {

/// A vector in the plane.
#[derive(Clone, Copy, Debug, PartialEq, Eq, Structural)]
pub struct Vector {
    pub x: i32,
    pub y: i32,
}

impl Vector {
    /// The square of the length. It has to fit an `i32`.
    pub fn distance_sqd(&self) -> (d: i32)
        requires
            self.x * self.x + self.y * self.y <= i32::MAX,
        ensures
            d == self.x * self.x + self.y * self.y,
    {
        assert(0 <= self.x * self.x && 0 <= self.y * self.y) by (nonlinear_arith);
        self.x * self.x + self.y * self.y
    }

    /// The vector of length zero.
    pub fn zero() -> (v: Vector)
        ensures
            v == (Vector { x: 0, y: 0 }),
    {
        Vector { x: 0, y: 0 }
    }
}

/// The vector with the given coordinates.
pub fn build_vec(x: i32, y: i32) -> (v: Vector)
    ensures
        v == (Vector { x, y }),
{
    Vector { x, y: y }
}

/// The sum of two vectors given as pairs. Both coordinates of the sum have
/// to fit an `i32`.
pub fn vector_add(a: (i32, i32), b: (i32, i32)) -> (sum: (i32, i32))
    requires
        i32::MIN <= a.0 + b.0 <= i32::MAX,
        i32::MIN <= a.1 + b.1 <= i32::MAX,
    ensures
        sum.0 == a.0 + b.0,
        sum.1 == a.1 + b.1,
{
    (a.0 + b.0, a.1 + b.1)
}

} // verus!
