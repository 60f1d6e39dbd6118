//! The mean colour of a rectangular block of pixels.

use crate::raster::Raster;
use crate::rgb::{Channel, RGB};
use vstd::arithmetic::div_mod::*;
use vstd::prelude::*;

verus! {

/// The sum of one channel over the pixels `x0 .. x1` of a row.
pub open spec fn row_sum(row: Seq<RGB>, x0: int, x1: int, ch: Channel) -> int
    decreases x1 - x0,
{
    if x1 <= x0 {
        0
    } else {
        row_sum(row, x0, x1 - 1, ch) + row[x1 - 1].channel(ch)
    }
}

/// The sum of one channel over the columns `x0 .. x1` of the rows `y0 .. y1`.
pub open spec fn region_sum(
    grid: Seq<Seq<RGB>>,
    x0: int,
    x1: int,
    y0: int,
    y1: int,
    ch: Channel,
) -> int
    decreases y1 - y0,
{
    if y1 <= y0 {
        0
    } else {
        region_sum(grid, x0, x1, y0, y1 - 1, ch) + row_sum(grid[y1 - 1], x0, x1, ch)
    }
}

/// The number of pixels in the columns `x0 .. x1` of the rows `y0 .. y1`.
pub open spec fn region_count(x0: int, x1: int, y0: int, y1: int) -> int {
    (x1 - x0) * (y1 - y0)
}

/// The mean of one channel over a region: its sum divided by the number of
/// pixels, rounded down.
pub open spec fn channel_mean(
    grid: Seq<Seq<RGB>>,
    x0: int,
    x1: int,
    y0: int,
    y1: int,
    ch: Channel,
) -> int {
    region_sum(grid, x0, x1, y0, y1, ch) / region_count(x0, x1, y0, y1)
}

/// The mean colour of a region, channel by channel.
pub open spec fn block_average(grid: Seq<Seq<RGB>>, x0: int, x1: int, y0: int, y1: int) -> RGB {
    RGB {
        r: channel_mean(grid, x0, x1, y0, y1, Channel::Red) as u8,
        g: channel_mean(grid, x0, x1, y0, y1, Channel::Green) as u8,
        b: channel_mean(grid, x0, x1, y0, y1, Channel::Blue) as u8,
    }
}

/// `end`, or `len` where `end` lies beyond it.
pub open spec fn clamped(end: int, len: int) -> int {
    if end < len {
        end
    } else {
        len
    }
}

/// A sum over part of a row lies between zero and 255 for each pixel.
pub proof fn lemma_row_sum_bounds(row: Seq<RGB>, x0: int, x1: int, ch: Channel)
    requires
        x0 <= x1,
    ensures
        0 <= row_sum(row, x0, x1, ch) <= 255 * (x1 - x0),
    decreases x1 - x0,
{
    if x0 < x1 {
        lemma_row_sum_bounds(row, x0, x1 - 1, ch);
    }
}

/// A sum over a region lies between zero and 255 for each pixel.
pub proof fn lemma_region_sum_bounds(
    grid: Seq<Seq<RGB>>,
    x0: int,
    x1: int,
    y0: int,
    y1: int,
    ch: Channel,
)
    requires
        x0 <= x1,
        y0 <= y1,
    ensures
        0 <= region_sum(grid, x0, x1, y0, y1, ch) <= 255 * region_count(x0, x1, y0, y1),
    decreases y1 - y0,
{
    if y0 < y1 {
        lemma_region_sum_bounds(grid, x0, x1, y0, y1 - 1, ch);
        lemma_row_sum_bounds(grid[y1 - 1], x0, x1, ch);
        assert((x1 - x0) * (y1 - y0) == (x1 - x0) * (y1 - 1 - y0) + (x1 - x0))
            by (nonlinear_arith);
    } else {
        assert((x1 - x0) * (y1 - y0) == 0) by (nonlinear_arith)
            requires
                y1 == y0,
        ;
    }
}

/// The mean of a channel over a region that holds a pixel is a channel value.
pub proof fn lemma_channel_mean_bounds(
    grid: Seq<Seq<RGB>>,
    x0: int,
    x1: int,
    y0: int,
    y1: int,
    ch: Channel,
)
    requires
        x0 < x1,
        y0 < y1,
    ensures
        0 <= channel_mean(grid, x0, x1, y0, y1, ch) <= 255,
{
    let n = region_count(x0, x1, y0, y1);
    let s = region_sum(grid, x0, x1, y0, y1, ch);
    lemma_region_sum_bounds(grid, x0, x1, y0, y1, ch);
    assert(n > 0) by (nonlinear_arith)
        requires
            n == (x1 - x0) * (y1 - y0),
            x0 < x1,
            y0 < y1,
    ;
    assert(0 <= s / n <= 255) by (nonlinear_arith)
        requires
            0 <= s <= 255 * n,
            n > 0,
    ;
}

proof fn lemma_row_sum_constant(row: Seq<RGB>, x0: int, x1: int, c: RGB, ch: Channel)
    requires
        x0 <= x1,
        forall|x: int| x0 <= x < x1 ==> #[trigger] row[x] == c,
    ensures
        row_sum(row, x0, x1, ch) == c.channel(ch) * (x1 - x0),
    decreases x1 - x0,
{
    let v = c.channel(ch);
    if x0 < x1 {
        lemma_row_sum_constant(row, x0, x1 - 1, c, ch);
        assert(row[x1 - 1] == c);
        assert(v * (x1 - x0) == v * (x1 - 1 - x0) + v) by (nonlinear_arith);
    } else {
        assert(v * (x1 - x0) == 0) by (nonlinear_arith)
            requires
                x1 == x0,
        ;
    }
}

proof fn lemma_region_sum_constant(
    grid: Seq<Seq<RGB>>,
    x0: int,
    x1: int,
    y0: int,
    y1: int,
    c: RGB,
    ch: Channel,
)
    requires
        x0 <= x1,
        y0 <= y1,
        forall|x: int, y: int| x0 <= x < x1 && y0 <= y < y1 ==> #[trigger] grid[y][x] == c,
    ensures
        region_sum(grid, x0, x1, y0, y1, ch) == c.channel(ch) * region_count(x0, x1, y0, y1),
    decreases y1 - y0,
{
    let v = c.channel(ch);
    if y0 < y1 {
        lemma_region_sum_constant(grid, x0, x1, y0, y1 - 1, c, ch);
        assert forall|x: int| x0 <= x < x1 implies #[trigger] grid[y1 - 1][x] == c by {}
        lemma_row_sum_constant(grid[y1 - 1], x0, x1, c, ch);
        assert(v * ((x1 - x0) * (y1 - y0)) == v * ((x1 - x0) * (y1 - 1 - y0)) + v * (x1 - x0))
            by (nonlinear_arith);
    } else {
        assert(v * ((x1 - x0) * (y1 - y0)) == 0) by (nonlinear_arith)
            requires
                y1 == y0,
        ;
    }
}

/// The mean colour of a block whose pixels all have the colour `c` is `c`.
pub proof fn lemma_average_of_constant_block(
    grid: Seq<Seq<RGB>>,
    x0: int,
    x1: int,
    y0: int,
    y1: int,
    c: RGB,
)
    requires
        x0 < x1,
        y0 < y1,
        forall|x: int, y: int| x0 <= x < x1 && y0 <= y < y1 ==> #[trigger] grid[y][x] == c,
    ensures
        block_average(grid, x0, x1, y0, y1) == c,
{
    let n = region_count(x0, x1, y0, y1);
    assert(n > 0) by (nonlinear_arith)
        requires
            n == (x1 - x0) * (y1 - y0),
            x0 < x1,
            y0 < y1,
    ;
    lemma_region_sum_constant(grid, x0, x1, y0, y1, c, Channel::Red);
    lemma_region_sum_constant(grid, x0, x1, y0, y1, c, Channel::Green);
    lemma_region_sum_constant(grid, x0, x1, y0, y1, c, Channel::Blue);
    lemma_div_by_multiple(c.r as int, n);
    lemma_div_by_multiple(c.g as int, n);
    lemma_div_by_multiple(c.b as int, n);
}

/// The mean colour of the pixels of `raster` in the columns `x0 .. x1` of the
/// rows `y0 .. y1`.
///
/// Either range may reach beyond the raster; what lies outside is left out of
/// the mean. The part inside must hold at least one pixel.
pub fn average_block(raster: &Raster, x0: usize, x1: usize, y0: usize, y1: usize) -> (avg: RGB)
    requires
        x0 < x1,
        x0 < raster.spec_width(),
        y0 < y1,
        y0 < raster.spec_height(),
    ensures
        avg == block_average(
            raster@,
            x0 as int,
            clamped(x1 as int, raster.spec_width() as int),
            y0 as int,
            clamped(y1 as int, raster.spec_height() as int),
        ),
{
    proof {
        use_type_invariant(raster);
    }
    let width: usize = raster.width();
    let height: usize = raster.height();
    let xe: usize = if x1 < width { x1 } else { width };
    let ye: usize = if y1 < height { y1 } else { height };
    let mut red: u128 = 0;
    let mut green: u128 = 0;
    let mut blue: u128 = 0;
    let mut y: usize = y0;
    while y < ye
        invariant
            raster.wf(),
            x0 < xe <= raster.spec_width(),
            y0 <= y <= ye <= raster.spec_height(),
            red == region_sum(raster@, x0 as int, xe as int, y0 as int, y as int, Channel::Red),
            green == region_sum(raster@, x0 as int, xe as int, y0 as int, y as int, Channel::Green),
            blue == region_sum(raster@, x0 as int, xe as int, y0 as int, y as int, Channel::Blue),
        decreases ye - y,
    {
        proof {
            lemma_region_sum_bounds(raster@, x0 as int, xe as int, y0 as int, y as int, Channel::Red);
            lemma_region_sum_bounds(raster@, x0 as int, xe as int, y0 as int, y as int, Channel::Green);
            lemma_region_sum_bounds(raster@, x0 as int, xe as int, y0 as int, y as int, Channel::Blue);
            assert(region_count(x0 as int, xe as int, y0 as int, y as int) <= 0xffff_ffff
                * 0xffff_ffff) by (nonlinear_arith)
                requires
                    0 <= xe - x0 <= 0xffff_ffff,
                    0 <= y - y0 <= 0xffff_ffff,
            ;
        }
        let ghost row = raster@[y as int];
        let ghost red0 = red as int;
        let ghost green0 = green as int;
        let ghost blue0 = blue as int;
        let mut x: usize = x0;
        while x < xe
            invariant
                raster.wf(),
                x0 <= x <= xe <= raster.spec_width(),
                y < raster.spec_height(),
                row == raster@[y as int],
                0 <= red0 <= 255 * (0xffff_ffff * 0xffff_ffff),
                0 <= green0 <= 255 * (0xffff_ffff * 0xffff_ffff),
                0 <= blue0 <= 255 * (0xffff_ffff * 0xffff_ffff),
                red == red0 + row_sum(row, x0 as int, x as int, Channel::Red),
                green == green0 + row_sum(row, x0 as int, x as int, Channel::Green),
                blue == blue0 + row_sum(row, x0 as int, x as int, Channel::Blue),
            decreases xe - x,
        {
            proof {
                lemma_row_sum_bounds(row, x0 as int, x as int, Channel::Red);
                lemma_row_sum_bounds(row, x0 as int, x as int, Channel::Green);
                lemma_row_sum_bounds(row, x0 as int, x as int, Channel::Blue);
            }
            let p: RGB = raster.pixel_at(x, y);
            red = red + p.r as u128;
            green = green + p.g as u128;
            blue = blue + p.b as u128;
            x += 1;
        }
        y += 1;
    }
    proof {
        lemma_region_sum_bounds(raster@, x0 as int, xe as int, y0 as int, ye as int, Channel::Red);
        lemma_channel_mean_bounds(raster@, x0 as int, xe as int, y0 as int, ye as int, Channel::Red);
        lemma_channel_mean_bounds(raster@, x0 as int, xe as int, y0 as int, ye as int, Channel::Green);
        lemma_channel_mean_bounds(raster@, x0 as int, xe as int, y0 as int, ye as int, Channel::Blue);
        assert(0 < region_count(x0 as int, xe as int, y0 as int, ye as int) <= 0xffff_ffff
            * 0xffff_ffff) by (nonlinear_arith)
            requires
                0 < xe - x0 <= 0xffff_ffff,
                0 < ye - y0 <= 0xffff_ffff,
        ;
    }
    let count: u128 = ((xe - x0) as u128) * ((ye - y0) as u128);
    RGB { r: (red / count) as u8, g: (green / count) as u8, b: (blue / count) as u8 }
}

} // verus!
