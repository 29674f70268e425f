//! Running totals of the colours of a cluster, and their mean.

use vstd::prelude::*;
use crate::color::Rgba;

verus! {

/// The channel totals of a number of colours.
#[derive(Clone, Copy, Debug)]
pub struct AvgColor {
    red: u128,
    green: u128,
    blue: u128,
    num: usize,
}

impl AvgColor {
    /// The total of the red channels.
    pub closed spec fn red(&self) -> int {
        self.red as int
    }

    /// The total of the green channels.
    pub closed spec fn green(&self) -> int {
        self.green as int
    }

    /// The total of the blue channels.
    pub closed spec fn blue(&self) -> int {
        self.blue as int
    }

    /// The number of colours added.
    pub closed spec fn num(&self) -> int {
        self.num as int
    }

    /// No channel total exceeds what `num` colours can add up to.
    pub closed spec fn wf(&self) -> bool {
        &&& self.red <= 255 * self.num
        &&& self.green <= 255 * self.num
        &&& self.blue <= 255 * self.num
    }

    /// The totals of no colours.
    pub fn new() -> (avg: AvgColor)
        ensures
            avg.wf(),
            avg.red() == 0,
            avg.green() == 0,
            avg.blue() == 0,
            avg.num() == 0,
    {
        AvgColor { red: 0, green: 0, blue: 0, num: 0 }
    }

    /// The number of colours added.
    pub fn count(&self) -> (n: usize)
        ensures
            n == self.num(),
    {
        self.num
    }

    /// Adds one colour to the totals.
    pub fn add_color(&mut self, c: Rgba)
        requires
            old(self).wf(),
            old(self).num() < usize::MAX,
        ensures
            final(self).wf(),
            final(self).red() == old(self).red() + c.r,
            final(self).green() == old(self).green() + c.g,
            final(self).blue() == old(self).blue() + c.b,
            final(self).num() == old(self).num() + 1,
    {
        self.red = self.red + c.r as u128;
        self.green = self.green + c.g as u128;
        self.blue = self.blue + c.b as u128;
        self.num = self.num + 1;
    }

    /// The mean of the colours added, each channel rounded down, as an
    /// opaque colour. Black where none was added.
    pub fn compute_average(&self) -> (c: Rgba)
        requires
            self.wf(),
        ensures
            c == mean_of(self.red(), self.green(), self.blue(), self.num()),
    {
        if self.num == 0 {
            Rgba { r: 0, g: 0, b: 0, a: 255 }
        } else {
            let n = self.num as u128;
            proof {
                lemma_mean_bound(self.red as int, n as int);
                lemma_mean_bound(self.green as int, n as int);
                lemma_mean_bound(self.blue as int, n as int);
            }
            Rgba {
                r: (self.red / n) as u8,
                g: (self.green / n) as u8,
                b: (self.blue / n) as u8,
                a: 255,
            }
        }
    }
}

/// The opaque colour whose channels are the given totals divided by `num`,
/// rounded down; black where `num` is zero.
pub open spec fn mean_of(red: int, green: int, blue: int, num: int) -> Rgba {
    if num <= 0 {
        Rgba { r: 0, g: 0, b: 0, a: 255 }
    } else {
        Rgba { r: (red / num) as u8, g: (green / num) as u8, b: (blue / num) as u8, a: 255 }
    }
}

/// The mean of values of at most 255 is at most 255.
pub proof fn lemma_mean_bound(total: int, num: int)
    requires
        0 <= total <= 255 * num,
        0 < num,
    ensures
        0 <= total / num <= 255,
{
    assert(0 <= total / num <= 255) by (nonlinear_arith)
        requires
            0 <= total <= 255 * num,
            0 < num,
    ;
}

/// The mean of `num` equal values is that value.
pub proof fn lemma_mean_of_equal(value: int, num: int)
    requires
        0 < num,
    ensures
        (value * num) / num == value,
{
    assert((value * num) / num == value) by (nonlinear_arith)
        requires
            0 < num,
    ;
}

} // verus!
