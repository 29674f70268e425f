//! Sampling an image onto the grid of a pattern.
//!
//! The grid is laid over the whole image: cell `g` of `cells` along a side
//! of `extent` pixels reads the pixel at `g * extent / cells`, rounded
//! down. Every cell thus reads a pixel of the image, the first cell the
//! first pixel, and the cells come row after row. A point stands at its
//! cell: at the column, and at the negated row.

use vstd::prelude::*;
use crate::cancel::CancelToken;
use crate::config::Config;
use crate::image::{Image, PixelBuffer};
use crate::point::ColorPoint;

verus! {

/// The pixel that cell `cell` of `cells` reads along a side of `extent`
/// pixels.
pub open spec fn source_index(cell: int, extent: int, cells: int) -> int {
    cell * extent / cells
}

/// The number of cells along a side that is set to `setting`: none where
/// the setting is negative.
pub open spec fn side_cells(setting: int) -> int {
    if setting < 0 {
        0
    } else {
        setting
    }
}

/// The point that the cell in column `gx` of row `gy` gives: it stands at
/// `(gx, -gy)` and has the colour of the pixel that the cell reads.
pub open spec fn sample_at(image: Image, num_width: int, num_height: int, gx: int, gy: int) -> ColorPoint {
    ColorPoint {
        x: gx as i64,
        y: (-gy) as i64,
        color: image.pixel(
            source_index(gx, image.width as int, num_width),
            source_index(gy, image.height as int, num_height),
        ),
    }
}

/// There is nothing to sample: the image has no pixels or the grid no
/// cells.
pub open spec fn nothing_to_sample(image: Image, num_width: int, num_height: int) -> bool {
    image.width == 0 || image.height == 0 || num_width <= 0 || num_height <= 0
}

/// The points of the whole grid, row after row. An image without pixels
/// gives none.
pub open spec fn sampled(image: Image, num_width: int, num_height: int) -> Seq<ColorPoint> {
    if nothing_to_sample(image, num_width, num_height) {
        Seq::empty()
    } else {
        Seq::new(
            (num_width * num_height) as nat,
            |k: int| sample_at(image, num_width, num_height, k % num_width, k / num_width),
        )
    }
}

/// The first `rows` rows of the grid.
pub open spec fn sampled_rows(image: Image, num_width: int, num_height: int, rows: int) -> Seq<
    ColorPoint,
> {
    sampled(image, num_width, num_height).take(rows * side_cells(num_width))
}

/// Every cell reads a pixel of the image.
pub proof fn lemma_source_index(cell: int, extent: int, cells: int)
    requires
        0 <= cell < cells,
        0 < extent,
    ensures
        0 <= source_index(cell, extent, cells) < extent,
        cell == 0 ==> source_index(cell, extent, cells) == 0,
{
    assert(0 <= cell * extent < extent * cells) by (nonlinear_arith)
        requires
            0 <= cell < cells,
            0 < extent,
    ;
    assert(0 <= (cell * extent) / cells < extent) by (nonlinear_arith)
        requires
            0 <= cell * extent < extent * cells,
            0 < cells,
    ;
    assert(0 * extent == 0);
}

proof fn lemma_cell_of(k: int, gx: int, gy: int, num_width: int)
    requires
        0 <= gx < num_width,
        0 <= gy,
        k == gy * num_width + gx,
    ensures
        k % num_width == gx,
        k / num_width == gy,
{
    vstd::arithmetic::div_mod::lemma_fundamental_div_mod_converse(k, num_width, gy, gx);
}

/// The cell in column `gx` of row `gy` has its point at
/// `gy * num_width + gx` in the grid; the point stands at `(gx, -gy)` and
/// has the colour of a pixel of the image.
pub open spec fn cell_in_place(image: Image, num_width: int, num_height: int, gx: int, gy: int) -> bool {
    let k = gy * num_width + gx;
    let p = sampled(image, num_width, num_height)[k];
    let sx = source_index(gx, image.width as int, num_width);
    let sy = source_index(gy, image.height as int, num_height);
    &&& 0 <= k < num_width * num_height
    &&& p == sample_at(image, num_width, num_height, gx, gy)
    &&& p.x == gx
    &&& p.y == -gy
    &&& 0 <= sx < image.width
    &&& 0 <= sy < image.height
    &&& p.color == image.pixel(sx, sy)
}

/// The grid has a point for every cell and no other, and they come row
/// after row.
pub proof fn lemma_sampled_row_major(image: Image, num_width: int, num_height: int)
    requires
        image.wf(),
        image.width > 0,
        image.height > 0,
        0 < num_width <= i32::MAX,
        0 < num_height <= i32::MAX,
    ensures
        sampled(image, num_width, num_height).len() == num_width * num_height,
        forall|gx: int, gy: int|
            0 <= gx < num_width && 0 <= gy < num_height ==> #[trigger] cell_in_place(
                image,
                num_width,
                num_height,
                gx,
                gy,
            ),
{
    assert(num_width * num_height > 0) by (nonlinear_arith)
        requires
            num_width > 0,
            num_height > 0,
    ;
    assert forall|gx: int, gy: int|
        0 <= gx < num_width && 0 <= gy < num_height implies #[trigger] cell_in_place(
        image,
        num_width,
        num_height,
        gx,
        gy,
    ) by {
        let k = gy * num_width + gx;
        lemma_cell_of(k, gx, gy, num_width);
        assert(0 <= gy * num_width && gy * num_width + num_width <= num_width * num_height)
            by (nonlinear_arith)
            requires
                0 <= gy < num_height,
                0 < num_width,
        ;
        lemma_source_index(gx, image.width as int, num_width);
        lemma_source_index(gy, image.height as int, num_height);
    }
}

/// A grid of one cell gives one point: the first pixel of the image, at
/// the origin.
pub proof fn lemma_sampled_single_cell(image: Image)
    requires
        image.wf(),
        image.width > 0,
        image.height > 0,
    ensures
        sampled(image, 1, 1) == seq![ColorPoint { x: 0, y: 0, color: image.pixels[0] }],
{
    lemma_source_index(0, image.width as int, 1);
    lemma_source_index(0, image.height as int, 1);
    assert(sampled(image, 1, 1) =~= seq![ColorPoint { x: 0, y: 0, color: image.pixels[0] }]);
}

fn source_pixel(cell: usize, extent: usize, cells: usize) -> (at: usize)
    requires
        cell < cells <= 0x7fff_ffff,
        0 < extent <= 0x7fff_ffff,
    ensures
        at == source_index(cell as int, extent as int, cells as int),
        at < extent,
{
    proof {
        lemma_source_index(cell as int, extent as int, cells as int);
        assert(cell * extent <= 0x7fff_ffff * 0x7fff_ffff) by (nonlinear_arith)
            requires
                cell <= 0x7fff_ffff,
                extent <= 0x7fff_ffff,
        ;
    }
    ((cell as u64 * extent as u64) / cells as u64) as usize
}

/// Samples `image` onto the grid of `config`, row after row.
///
/// Where there is nothing to sample, no points come back and the token is
/// not polled. Else the token is polled before every row. If it trips, the
/// rows sampled so far come back, which is no pattern; if it does not, the
/// whole grid does.
pub fn sample(image: &PixelBuffer, config: &Config, token: &mut CancelToken) -> (points: Vec<ColorPoint>)
    ensures
        nothing_to_sample(image@, config.num_width as int, config.num_height as int) ==> {
            &&& points@.len() == 0
            &&& *final(token) == *old(token)
        },
        !nothing_to_sample(image@, config.num_width as int, config.num_height as int)
            ==> exists|rows: int|
            {
                &&& 0 <= rows <= config.num_height
                &&& points@ == sampled_rows(
                    image@,
                    config.num_width as int,
                    config.num_height as int,
                    rows,
                )
                &&& final(token).tripped() <==> rows < config.num_height
            },
        !final(token).tripped() ==> points@ == sampled(
            image@,
            config.num_width as int,
            config.num_height as int,
        ),
        old(token).tripped() ==> final(token).tripped(),
        old(token).tripped() ==> points@.len() == 0,
        final(token).signal() == old(token).signal(),
        old(token).signal() is None && !old(token).tripped() ==> !final(token).tripped(),
{
    let mut points: Vec<ColorPoint> = Vec::new();
    let width = image.width();
    let height = image.height();
    let ghost whole = sampled(image@, config.num_width as int, config.num_height as int);
    if width == 0 || height == 0 || config.num_width <= 0 || config.num_height <= 0 {
        proof {
            assert(points@ =~= whole);
        }
        return points;
    }
    let num_width = config.num_width as usize;
    let num_height = config.num_height as usize;
    let mut gy: usize = 0;
    while gy < num_height
        invariant
            width == image@.width,
            height == image@.height,
            image@.wf(),
            0 < width <= 0x7fff_ffff,
            0 < height <= 0x7fff_ffff,
            num_width == config.num_width,
            num_height == config.num_height,
            0 < num_width <= 0x7fff_ffff,
            0 < num_height <= 0x7fff_ffff,
            whole == sampled(image@, config.num_width as int, config.num_height as int),
            gy <= num_height,
            points@ == whole.take(gy * num_width),
            gy * num_width <= whole.len(),
            old(token).tripped() ==> token.tripped(),
            old(token).tripped() ==> gy == 0,
            gy > 0 ==> !token.tripped(),
            token.signal() == old(token).signal(),
            old(token).signal() is None && !old(token).tripped() ==> !token.tripped(),
        decreases num_height - gy,
    {
        if token.poll() {
            proof {
                assert(points@ == sampled_rows(
                    image@,
                    config.num_width as int,
                    config.num_height as int,
                    gy as int,
                ));
            }
            return points;
        }
        let sy = source_pixel(gy, height, num_height);
        let ghost row_start = points@;
        proof {
            assert(gy * num_width + num_width <= num_width * num_height) by (nonlinear_arith)
                requires
                    gy < num_height,
                    0 < num_width,
            ;
        }
        let mut gx: usize = 0;
        while gx < num_width
            invariant
                width == image@.width,
                height == image@.height,
                image@.wf(),
                0 < width <= 0x7fff_ffff,
                0 < height <= 0x7fff_ffff,
                0 < num_width <= 0x7fff_ffff,
                0 < num_height <= 0x7fff_ffff,
                num_width == config.num_width,
                num_height == config.num_height,
                whole == sampled(image@, config.num_width as int, config.num_height as int),
                gy < num_height,
                gx <= num_width,
                sy == source_index(gy as int, height as int, num_height as int),
                sy < height,
                gy * num_width + num_width <= num_width * num_height,
                points@ == whole.take(gy * num_width + gx),
            decreases num_width - gx,
        {
            let sx = source_pixel(gx, width, num_width);
            let color = image.pixel(sx, sy);
            points.push(ColorPoint { x: gx as i64, y: -(gy as i64), color });
            proof {
                let k = gy * num_width + gx;
                lemma_cell_of(k, gx as int, gy as int, num_width as int);
                assert(whole[k] == sample_at(
                    image@,
                    num_width as int,
                    num_height as int,
                    gx as int,
                    gy as int,
                ));
                assert(points@ =~= whole.take(k + 1));
            }
            gx += 1;
        }
        proof {
            assert((gy + 1) * num_width == gy * num_width + num_width) by (nonlinear_arith);
        }
        gy += 1;
    }
    proof {
        assert(num_height * num_width == num_width * num_height) by (nonlinear_arith);
        assert(points@ =~= whole);
        assert(points@ == sampled_rows(
            image@,
            config.num_width as int,
            config.num_height as int,
            num_height as int,
        ));
    }
    points
}

} // verus!
