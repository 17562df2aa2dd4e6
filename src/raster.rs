//! Decoded RGB images held row by row, the region of interest, and the mean
//! colour of a region.
use vstd::prelude::*;
use vstd::arithmetic::div_mod::{lemma_div_by_multiple, lemma_div_is_ordered};

verus! {

#[derive(Clone, Copy, Debug, PartialEq, Eq, Structural)]
pub struct Rgb {
    pub r: u8,
    pub g: u8,
    pub b: u8,
}

/// An image of `height` rows of `width` pixels each.
pub struct Raster {
    pub width: u32,
    pub height: u32,
    pub rows: Vec<Vec<Rgb>>,
}

/// A rectangle of pixels: `width` columns from column `x`, `height` rows
/// from row `y`.
#[derive(Clone, Copy, Debug, PartialEq, Eq, Structural)]
pub struct Roi {
    pub x: u32,
    pub y: u32,
    pub width: u32,
    pub height: u32,
}

impl Raster {
    pub open spec fn wf(&self) -> bool {
        &&& self.rows@.len() == self.height
        &&& forall|y: int| 0 <= y < self.height ==> (#[trigger] self.rows@[y])@.len() == self.width
    }

    /// The pixel in column `x` of row `y`.
    pub open spec fn pixel(&self, x: int, y: int) -> Rgb {
        self.rows@[y]@[x]
    }
}

impl Roi {
    /// The rectangle lies inside the image.
    pub open spec fn fits(&self, image: &Raster) -> bool {
        &&& self.x + self.width <= image.width
        &&& self.y + self.height <= image.height
    }
}

/// Channel `ch` (0 red, 1 green, 2 blue) of a pixel.
pub open spec fn channel(p: Rgb, ch: int) -> int {
    if ch == 0 {
        p.r as int
    } else if ch == 1 {
        p.g as int
    } else {
        p.b as int
    }
}

pub open spec fn row_sum(row: Seq<Rgb>, ch: int) -> int
    decreases row.len(),
{
    if row.len() == 0 {
        0
    } else {
        row_sum(row.drop_last(), ch) + channel(row.last(), ch)
    }
}

/// The sum of channel `ch` over every pixel of the rows.
pub open spec fn rows_sum(rows: Seq<Vec<Rgb>>, ch: int) -> int
    decreases rows.len(),
{
    if rows.len() == 0 {
        0
    } else {
        rows_sum(rows.drop_last(), ch) + row_sum(rows.last()@, ch)
    }
}

/// The mean of channel `ch`, truncated.
pub open spec fn channel_mean(image: Raster, ch: int) -> int {
    rows_sum(image.rows@, ch) / (image.width * image.height)
}

proof fn lemma_row_sum_bound(row: Seq<Rgb>, ch: int)
    ensures
        0 <= row_sum(row, ch) <= 255 * row.len(),
    decreases row.len(),
{
    if row.len() > 0 {
        lemma_row_sum_bound(row.drop_last(), ch);
    }
}

proof fn lemma_rows_sum_bound(rows: Seq<Vec<Rgb>>, ch: int, w: int)
    requires
        forall|y: int| 0 <= y < rows.len() ==> (#[trigger] rows[y])@.len() == w,
    ensures
        0 <= rows_sum(rows, ch) <= 255 * w * rows.len(),
    decreases rows.len(),
{
    if rows.len() > 0 {
        let n = rows.len() - 1;
        assert forall|y: int| 0 <= y < n implies (#[trigger] rows.drop_last()[y])@.len() == w by {
            assert(rows.drop_last()[y] == rows[y]);
        }
        lemma_rows_sum_bound(rows.drop_last(), ch, w);
        lemma_row_sum_bound(rows.last()@, ch);
        assert(255 * w * n + 255 * w == 255 * w * rows.len()) by (nonlinear_arith)
            requires
                n == rows.len() - 1,
        ;
    }
}

/// Extracts the region `roi` of `image`.
pub fn crop_image(image: &Raster, roi: &Roi) -> (r: Raster)
    requires
        image.wf(),
        roi.fits(image),
    ensures
        r.wf(),
        r.width == roi.width,
        r.height == roi.height,
        forall|x: int, y: int|
            0 <= x < r.width && 0 <= y < r.height ==> #[trigger] r.pixel(x, y) == image.pixel(
                x + roi.x,
                y + roi.y,
            ),
{
    let mut rows: Vec<Vec<Rgb>> = Vec::new();
    let mut y: u32 = 0;
    while y < roi.height
        invariant
            image.wf(),
            roi.fits(image),
            y <= roi.height,
            rows@.len() == y,
            forall|j: int| 0 <= j < y ==> (#[trigger] rows@[j])@.len() == roi.width,
            forall|x: int, j: int|
                0 <= x < roi.width && 0 <= j < y ==> #[trigger] rows@[j]@[x] == image.pixel(
                    x + roi.x,
                    j + roi.y,
                ),
        decreases roi.height - y,
    {
        let src = &image.rows[(roi.y + y) as usize];
        let mut row: Vec<Rgb> = Vec::new();
        let mut x: u32 = 0;
        while x < roi.width
            invariant
                image.wf(),
                roi.fits(image),
                y < roi.height,
                *src == image.rows@[roi.y + y],
                x <= roi.width,
                row@.len() == x,
                forall|i: int| 0 <= i < x ==> #[trigger] row@[i] == image.pixel(i + roi.x, roi.y + y),
            decreases roi.width - x,
        {
            row.push(src[(roi.x + x) as usize]);
            x = x + 1;
        }
        rows.push(row);
        y = y + 1;
    }
    Raster { width: roi.width, height: roi.height, rows }
}

/// The mean colour of an image: each channel summed over every pixel and
/// divided by the number of pixels, truncated.
pub fn mean_color(image: &Raster) -> (r: Rgb)
    requires
        image.wf(),
        image.width > 0,
        image.height > 0,
    ensures
        r.r == channel_mean(*image, 0),
        r.g == channel_mean(*image, 1),
        r.b == channel_mean(*image, 2),
{
    let mut sr: u128 = 0;
    let mut sg: u128 = 0;
    let mut sb: u128 = 0;
    let mut y: usize = 0;
    while y < image.rows.len()
        invariant
            image.wf(),
            y <= image.height,
            sr == rows_sum(image.rows@.take(y as int), 0),
            sg == rows_sum(image.rows@.take(y as int), 1),
            sb == rows_sum(image.rows@.take(y as int), 2),
            sr <= 255 * 0x1_0000_0000 * y,
            sg <= 255 * 0x1_0000_0000 * y,
            sb <= 255 * 0x1_0000_0000 * y,
            image.height <= 0xffff_ffff,
        decreases image.height - y,
    {
        let row = &image.rows[y];
        let mut x: usize = 0;
        let mut tr: u128 = 0;
        let mut tg: u128 = 0;
        let mut tb: u128 = 0;
        while x < row.len()
            invariant
                row@.len() == image.width,
                x <= row@.len(),
                tr == row_sum(row@.take(x as int), 0),
                tg == row_sum(row@.take(x as int), 1),
                tb == row_sum(row@.take(x as int), 2),
                tr <= 255 * x,
                tg <= 255 * x,
                tb <= 255 * x,
            decreases row@.len() - x,
        {
            assert(row@.take(x + 1).drop_last() =~= row@.take(x as int));
            let p = row[x];
            tr = tr + p.r as u128;
            tg = tg + p.g as u128;
            tb = tb + p.b as u128;
            x = x + 1;
        }
        assert(row@.take(x as int) =~= row@);
        assert(tr <= 255 * 0x1_0000_0000 && tg <= 255 * 0x1_0000_0000 && tb <= 255 * 0x1_0000_0000);
        assert(image.rows@.take(y + 1).drop_last() =~= image.rows@.take(y as int));
        proof {
            let b = 255 * 0x1_0000_0000int;
            assert(b * (y + 1) <= b * 0x1_0000_0000) by (nonlinear_arith)
                requires
                    y + 1 <= 0x1_0000_0000,
                    b > 0,
            ;
            assert(b * y + b == b * (y + 1)) by (nonlinear_arith);
        }
        sr = sr + tr;
        sg = sg + tg;
        sb = sb + tb;
        y = y + 1;
    }
    assert(image.rows@.take(y as int) =~= image.rows@);
    assert((image.width as int) * (image.height as int) <= 0xffff_ffff * 0xffff_ffff) by (
    nonlinear_arith)
        requires
            image.width <= 0xffff_ffff,
            image.height <= 0xffff_ffff,
    ;
    let n: u128 = image.width as u128 * image.height as u128;
    proof {
        let w = image.width as int;
        let h = image.height as int;
        assert(n == w * h);
        assert(0 < w * h) by (nonlinear_arith)
            requires
                0 < w,
                0 < h,
        ;
        assert(255 * w * h == 255 * (w * h)) by (nonlinear_arith);
        lemma_div_by_multiple(255, w * h);
        assert forall|ch: int| 0 <= ch < 3 implies channel_mean(*image, ch) <= 255 by {
            lemma_rows_sum_bound(image.rows@, ch, w);
            lemma_div_is_ordered(rows_sum(image.rows@, ch), 255 * (w * h), w * h);
        }
        assert(channel_mean(*image, 0) <= 255);
        assert(channel_mean(*image, 1) <= 255);
        assert(channel_mean(*image, 2) <= 255);
    }
    Rgb { r: (sr / n) as u8, g: (sg / n) as u8, b: (sb / n) as u8 }
}

proof fn lemma_row_sum_uniform(row: Seq<Rgb>, c: Rgb, ch: int)
    requires
        forall|x: int| 0 <= x < row.len() ==> #[trigger] row[x] == c,
    ensures
        row_sum(row, ch) == row.len() * channel(c, ch),
    decreases row.len(),
{
    if row.len() > 0 {
        lemma_row_sum_uniform(row.drop_last(), c, ch);
        assert(row.len() * channel(c, ch) == (row.len() - 1) * channel(c, ch) + channel(c, ch))
            by (nonlinear_arith);
    }
}

proof fn lemma_rows_sum_uniform(rows: Seq<Vec<Rgb>>, c: Rgb, ch: int, w: int)
    requires
        forall|y: int| 0 <= y < rows.len() ==> (#[trigger] rows[y])@.len() == w,
        forall|x: int, y: int|
            0 <= y < rows.len() && 0 <= x < w ==> #[trigger] rows[y]@[x] == c,
    ensures
        rows_sum(rows, ch) == rows.len() * w * channel(c, ch),
    decreases rows.len(),
{
    if rows.len() > 0 {
        let n = rows.len() - 1;
        assert forall|y: int| 0 <= y < n implies (#[trigger] rows.drop_last()[y])@.len() == w by {
            assert(rows.drop_last()[y] == rows[y]);
        }
        assert forall|x: int, y: int| 0 <= y < n && 0 <= x < w implies #[trigger] rows.drop_last()[
            y
        ]@[x] == c by {
            assert(rows.drop_last()[y] == rows[y]);
        }
        lemma_rows_sum_uniform(rows.drop_last(), c, ch, w);
        assert(rows.drop_last().len() == n);
        assert(rows_sum(rows.drop_last(), ch) == n * w * channel(c, ch));
        assert forall|x: int| 0 <= x < rows.last()@.len() implies #[trigger] rows.last()@[x] == c by {
            assert(rows[n]@[x] == c);
        }
        assert(rows.last()@.len() == w);
        lemma_row_sum_uniform(rows.last()@, c, ch);
        assert(row_sum(rows.last()@, ch) == w * channel(c, ch));
        assert(rows.len() * w * channel(c, ch) == n * w * channel(c, ch) + w * channel(c, ch))
            by (nonlinear_arith)
            requires
                n == rows.len() - 1,
        ;
    } else {
        assert(0 * w * channel(c, ch) == 0) by (nonlinear_arith);
    }
}

/// The mean colour of an image whose pixels are all one colour is that
/// colour.
pub proof fn lemma_uniform_mean(image: Raster, c: Rgb)
    requires
        image.wf(),
        image.width > 0,
        image.height > 0,
        forall|x: int, y: int|
            0 <= x < image.width && 0 <= y < image.height ==> #[trigger] image.pixel(x, y) == c,
    ensures
        channel_mean(image, 0) == c.r,
        channel_mean(image, 1) == c.g,
        channel_mean(image, 2) == c.b,
{
    let w = image.width as int;
    let h = image.height as int;
    assert forall|x: int, y: int|
        0 <= y < image.rows@.len() && 0 <= x < w implies #[trigger] image.rows@[y]@[x] == c by {
        assert(image.pixel(x, y) == c);
    }
    assert forall|ch: int| 0 <= ch < 3 implies channel_mean(image, ch) == channel(c, ch) by {
        lemma_rows_sum_uniform(image.rows@, c, ch, w);
        assert(h * w * channel(c, ch) == channel(c, ch) * (w * h)) by (nonlinear_arith);
        assert(0 < w * h) by (nonlinear_arith)
            requires
                0 < w,
                0 < h,
        ;
        lemma_div_by_multiple(channel(c, ch), w * h);
    }
    assert(channel_mean(image, 0) == channel(c, 0));
    assert(channel_mean(image, 1) == channel(c, 1));
    assert(channel_mean(image, 2) == channel(c, 2));
}

} // verus!
