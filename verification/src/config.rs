//! The settings of a pattern, and how its derived settings follow an edit.
//!
//! Width and height give the grid, `num_colors` the palette, and
//! `num_days` an estimate of the work: the cells of the grid divided by
//! `PIXELS_PER_DAY_AVG`. An edit of width or height recomputes the days; an
//! edit of the days recomputes width and height and keeps their ratio.

use vstd::prelude::*;

verus! {

/// The cells that are stitched in a day, on average.
pub const PIXELS_PER_DAY_AVG: i32 = 80;

/// `root` is the square root of `n`, rounded down.
pub open spec fn is_floor_sqrt(root: int, n: int) -> bool {
    0 <= root && root * root <= n < (root + 1) * (root + 1)
}

/// The square root of `n`, rounded down.
pub open spec fn floor_sqrt(n: int) -> int {
    choose|root: int| is_floor_sqrt(root, n)
}

/// The days that a grid of the given width and height takes.
pub open spec fn days_for(width: int, height: int) -> int {
    width * height / 80
}

/// A value as an `i32`, or `i32::MAX` where it is greater.
pub open spec fn saturated(value: int) -> int {
    if value > i32::MAX {
        i32::MAX as int
    } else {
        value
    }
}

/// The width of the grid that takes `days` days and has the ratio of
/// `height` to `width`: the root of `80 * days * width / height`, rounded
/// down.
pub open spec fn width_for(days: int, width: int, height: int) -> int {
    saturated(floor_sqrt(80 * days * width / height))
}

/// The height of the grid that takes `days` days and has the ratio of
/// `height` to `width`: the root of `80 * days * height / width`, rounded
/// down.
pub open spec fn height_for(days: int, width: int, height: int) -> int {
    saturated(floor_sqrt(80 * days * height / width))
}

/// Only one number is the rounded-down root of `n`.
pub proof fn lemma_floor_sqrt_unique(a: int, b: int, n: int)
    requires
        is_floor_sqrt(a, n),
        is_floor_sqrt(b, n),
    ensures
        a == b,
{
    if a < b {
        assert((a + 1) * (a + 1) <= b * b) by (nonlinear_arith)
            requires
                0 <= a,
                a + 1 <= b,
        ;
    } else if b < a {
        assert((b + 1) * (b + 1) <= a * a) by (nonlinear_arith)
            requires
                0 <= b,
                b + 1 <= a,
        ;
    }
}

/// The square root of `n`, rounded down.
pub fn isqrt(n: u128) -> (root: u64)
    requires
        n < 0x1_0000_0000_0000_0000_0000,
    ensures
        is_floor_sqrt(root as int, n as int),
        root == floor_sqrt(n as int),
{
    let mut low: u128 = 0;
    let mut high: u128 = 0x100_0000_0000;
    assert(high * high == 0x1_0000_0000_0000_0000_0000) by (nonlinear_arith)
        requires
            high == 0x100_0000_0000,
    ;
    while high - low > 1
        invariant
            low < high <= 0x100_0000_0000,
            low * low <= n < high * high,
        decreases high - low,
    {
        let mid: u128 = low + (high - low) / 2;
        assert(mid * mid <= 0x100_0000_0000 * 0x100_0000_0000) by (nonlinear_arith)
            requires
                mid <= 0x100_0000_0000,
        ;
        if mid * mid <= n {
            low = mid;
        } else {
            high = mid;
        }
    }
    proof {
        assert(high == low + 1);
        assert(is_floor_sqrt(low as int, n as int));
        lemma_floor_sqrt_unique(low as int, floor_sqrt(n as int), n as int);
    }
    low as u64
}

/// The width, height and days that the settings last brought in line.
#[derive(Clone, Copy, Debug)]
pub struct LastSync {
    width: i32,
    height: i32,
    days: i32,
}

impl View for LastSync {
    type V = (int, int, int);

    /// Width, height and days.
    closed spec fn view(&self) -> (int, int, int) {
        (self.width as int, self.height as int, self.days as int)
    }
}

/// The settings of a pattern. Beside the four settings it remembers the
/// width, height and days that it last brought in line, so that the next
/// edit can be told from them.
#[derive(Clone, Copy, Debug)]
pub struct Config {
    pub num_width: i32,
    pub num_height: i32,
    pub num_days: i32,
    pub num_colors: i32,
    pub last: LastSync,
}

impl Config {
    /// The width, height and days that were last brought in line.
    pub open spec fn cache(self) -> (int, int, int) {
        self.last@
    }

    /// Width or height differ from what was last brought in line.
    pub open spec fn dims_edited(self) -> bool {
        self.cache().0 != self.num_width || self.cache().1 != self.num_height
    }

    /// The days differ from what was last brought in line.
    pub open spec fn days_edited(self) -> bool {
        self.cache().2 != self.num_days
    }

    /// Nothing was edited since the settings were brought in line.
    pub open spec fn synced(self) -> bool {
        !self.dims_edited() && !self.days_edited()
    }

    /// Settings from the four values, in line with themselves.
    pub fn new(num_width: i32, num_height: i32, num_days: i32, num_colors: i32) -> (config: Config)
        ensures
            config.num_width == num_width,
            config.num_height == num_height,
            config.num_days == num_days,
            config.num_colors == num_colors,
            config.synced(),
    {
        let mut config = Config {
            num_width,
            num_height,
            num_days,
            num_colors,
            last: LastSync { width: -1, height: -1, days: -1 },
        };
        config.sync_columns();
        config
    }

    /// Brings the derived settings in line after an edit, and says whether
    /// there was one.
    ///
    /// Where width or height were edited, the days follow from them; the
    /// grid must then fit an `i32`. Else, where the days were edited, width
    /// and height follow from the days and from the ratio they had, which
    /// must be one of positive sides. Either way the settings are then in
    /// line, so that a second call changes nothing.
    pub fn recalculate_columns(&mut self) -> (changed: bool)
        requires
            old(self).dims_edited() ==> {
                &&& old(self).num_width >= 0
                &&& old(self).num_height >= 0
                &&& old(self).num_width * old(self).num_height <= i32::MAX
            },
            !old(self).dims_edited() && old(self).days_edited() ==> {
                &&& old(self).num_width > 0
                &&& old(self).num_height > 0
                &&& old(self).num_days >= 0
            },
        ensures
            changed == !old(self).synced(),
            final(self).synced(),
            final(self).num_colors == old(self).num_colors,
            old(self).dims_edited() ==> {
                &&& final(self).num_width == old(self).num_width
                &&& final(self).num_height == old(self).num_height
                &&& final(self).num_days == days_for(
                    old(self).num_width as int,
                    old(self).num_height as int,
                )
            },
            !old(self).dims_edited() && old(self).days_edited() ==> {
                &&& final(self).num_days == old(self).num_days
                &&& final(self).num_width == width_for(
                    old(self).num_days as int,
                    old(self).num_width as int,
                    old(self).num_height as int,
                )
                &&& final(self).num_height == height_for(
                    old(self).num_days as int,
                    old(self).num_width as int,
                    old(self).num_height as int,
                )
            },
            old(self).synced() ==> *final(self) == *old(self),
    {
        let mut changed = false;
        if self.last.width != self.num_width || self.last.height != self.num_height {
            self.num_days = (self.num_width * self.num_height) / PIXELS_PER_DAY_AVG;
            self.sync_columns();
            changed = true;
        }
        if self.last.days != self.num_days {
            let width = scaled_side(self.num_days, self.num_width, self.num_height);
            let height = scaled_side(self.num_days, self.num_height, self.num_width);
            self.num_width = width;
            self.num_height = height;
            self.sync_columns();
            changed = true;
        }
        changed
    }

    /// Whether a pattern under these settings differs from one under
    /// `earlier`: the grid or the number of colours is another.
    pub fn changes_pattern(&self, earlier: &Config) -> (differs: bool)
        ensures
            differs == (self.num_width != earlier.num_width || self.num_height
                != earlier.num_height || self.num_colors != earlier.num_colors),
    {
        self.num_width != earlier.num_width || self.num_height != earlier.num_height
            || self.num_colors != earlier.num_colors
    }

    /// Takes the settings as they stand for brought in line.
    pub fn sync_columns(&mut self)
        ensures
            final(self).synced(),
            final(self).num_width == old(self).num_width,
            final(self).num_height == old(self).num_height,
            final(self).num_days == old(self).num_days,
            final(self).num_colors == old(self).num_colors,
    {
        self.last = LastSync { width: self.num_width, height: self.num_height, days: self.num_days };
    }
}

/// The side of the grid of `days` days that stands to the other side as
/// `side` stands to `other`.
fn scaled_side(days: i32, side: i32, other: i32) -> (scaled: i32)
    requires
        days >= 0,
        side > 0,
        other > 0,
    ensures
        scaled == saturated(floor_sqrt(80 * days * side / (other as int))),
{
    assert(0 <= 80 * days * side <= 80 * 0x8000_0000 * 0x8000_0000) by (nonlinear_arith)
        requires
            0 <= days < 0x8000_0000,
            0 < side < 0x8000_0000,
    ;
    let cells: u128 = 80 * (days as u128) * (side as u128);
    let root = isqrt(cells / (other as u128));
    if root > 0x7fff_ffff {
        0x7fff_ffff
    } else {
        root as i32
    }
}

impl Default for Config {
    /// A grid of 40 by 30 cells in 24 colours, which takes 15 days.
    fn default() -> (config: Config)
        ensures
            config.num_width == 40,
            config.num_height == 30,
            config.num_days == 15,
            config.num_colors == 24,
            config.synced(),
    {
        Config::new(40, 30, 15, 24)
    }
}

} // verus!
