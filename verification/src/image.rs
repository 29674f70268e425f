//! The decoded image that a pattern is sampled from.

use vstd::prelude::*;
use crate::color::Rgba;

verus! {

/// What a pixel buffer holds: its extent and its pixels, row after row.
pub struct Image {
    pub width: nat,
    pub height: nat,
    pub pixels: Seq<Rgba>,
}

impl Image {
    /// The pixels fill the extent exactly, and neither side is longer
    /// than `MAX_EXTENT`.
    pub open spec fn wf(self) -> bool {
        &&& self.pixels.len() == self.width * self.height
        &&& self.width <= MAX_EXTENT
        &&& self.height <= MAX_EXTENT
    }

    /// The pixel in column `x` of row `y`.
    pub open spec fn pixel(self, x: int, y: int) -> Rgba {
        self.pixels[x + y * self.width]
    }
}

/// Largest width and height of a pixel buffer.
pub const MAX_EXTENT: usize = 0x7fff_ffff;

/// A read-only buffer of pixels in row-major order.
#[derive(Debug)]
pub struct PixelBuffer {
    width: usize,
    height: usize,
    pixels: Vec<Rgba>,
}

impl View for PixelBuffer {
    type V = Image;

    closed spec fn view(&self) -> Image {
        Image { width: self.width as nat, height: self.height as nat, pixels: self.pixels@ }
    }
}

impl PixelBuffer {
    #[verifier::type_invariant]
    spec fn inv(self) -> bool {
        &&& self.pixels@.len() == self.width * self.height
        &&& self.width <= MAX_EXTENT
        &&& self.height <= MAX_EXTENT
    }

    /// A buffer of the given extent, if the pixels fill it exactly and
    /// neither side is longer than `MAX_EXTENT`.
    pub fn new(width: usize, height: usize, pixels: Vec<Rgba>) -> (buffer: Option<PixelBuffer>)
        ensures
            buffer.is_some() <==> (pixels.len() == width * height && width <= MAX_EXTENT && height
                <= MAX_EXTENT),
            buffer matches Some(b) ==> b@ == (Image {
                width: width as nat,
                height: height as nat,
                pixels: pixels@,
            }),
    {
        if width > MAX_EXTENT || height > MAX_EXTENT {
            return None;
        }
        assert(width * height <= 0x7fff_ffff * 0x7fff_ffff) by (nonlinear_arith)
            requires
                width <= 0x7fff_ffff,
                height <= 0x7fff_ffff,
        ;
        let area: u64 = width as u64 * height as u64;
        if pixels.len() as u64 != area {
            return None;
        }
        Some(PixelBuffer { width, height, pixels })
    }

    /// The number of columns.
    pub fn width(&self) -> (w: usize)
        ensures
            w == self@.width,
            w <= MAX_EXTENT,
            self@.wf(),
    {
        proof {
            use_type_invariant(self);
        }
        self.width
    }

    /// The number of rows.
    pub fn height(&self) -> (h: usize)
        ensures
            h == self@.height,
            h <= MAX_EXTENT,
            self@.wf(),
    {
        proof {
            use_type_invariant(self);
        }
        self.height
    }

    /// The pixel in column `x` of row `y`.
    pub fn pixel(&self, x: usize, y: usize) -> (c: Rgba)
        requires
            x < self@.width,
            y < self@.height,
        ensures
            c == self@.pixel(x as int, y as int),
    {
        proof {
            use_type_invariant(self);
            lemma_offset_in_range(x as int, y as int, self.width as int, self.height as int);
            assert(self.width * self.height == self.pixels.len());
        }
        self.pixels[x + y * self.width]
    }
}

impl Clone for PixelBuffer {
    /// A copy that holds the same pixels.
    fn clone(&self) -> (copy: PixelBuffer)
        ensures
            copy@ == self@,
    {
        proof {
            use_type_invariant(self);
        }
        let mut pixels: Vec<Rgba> = Vec::new();
        let mut k: usize = 0;
        while k < self.pixels.len()
            invariant
                k <= self.pixels.len(),
                pixels@ == self.pixels@.take(k as int),
            decreases self.pixels.len() - k,
        {
            pixels.push(self.pixels[k]);
            assert(pixels@ =~= self.pixels@.take(k + 1));
            k += 1;
        }
        assert(pixels@ =~= self.pixels@);
        PixelBuffer { width: self.width, height: self.height, pixels }
    }
}

/// The offset of a pixel of an image lies within the image.
pub proof fn lemma_offset_in_range(x: int, y: int, width: int, height: int)
    requires
        0 <= x < width,
        0 <= y < height,
    ensures
        0 <= y * width,
        y * width + width <= width * height,
        0 <= x + y * width < width * height,
{
    assert(0 <= y * width && y * width + width <= width * height) by (nonlinear_arith)
        requires
            0 <= y < height,
            0 < width,
    ;
}

} // verus!
