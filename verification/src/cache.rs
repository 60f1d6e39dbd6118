//! The cache of averaged pixels that a raster is reduced to.

use crate::average::{average_block, block_average, lemma_average_of_constant_block};
use crate::printimage::PrintImageError;
use crate::raster::{image_rows, image_width, rectangular, rows_view, Raster};
use crate::rgb::RGB;
use crate::scale::{
    axis_valid, block_count, block_end, block_step, lemma_block_count_bounds,
    lemma_block_count_empty, lemma_block_count_positive, lemma_block_count_within_one,
    lemma_block_starts_inside, lemma_unit_ratio_step, step_of, Scale,
};
use image::DynamicImage;
use image::ImageError;
use vstd::prelude::*;

verus! {

/// Both factors of `scale` can scale a raster of `width` by `height` pixels.
pub open spec fn scale_valid(width: int, height: int, scale: Scale) -> bool {
    axis_valid(width, scale.x) && axis_valid(height, scale.y)
}

/// The mean colour of the block in column `column` of line `line` of the
/// blocks.
/// The blocks at the right and lower edges end where the raster ends.
pub open spec fn scaled_cell(
    grid: Seq<Seq<RGB>>,
    width: int,
    height: int,
    w_step: int,
    h_step: int,
    column: int,
    line: int,
) -> RGB {
    block_average(
        grid,
        column * w_step,
        block_end(column * w_step, w_step, width),
        line * h_step,
        block_end(line * h_step, h_step, height),
    )
}

/// One line of the blocks: one mean colour for each block, left to right.
pub open spec fn scaled_row(
    grid: Seq<Seq<RGB>>,
    width: int,
    height: int,
    w_step: int,
    h_step: int,
    line: int,
) -> Seq<RGB> {
    Seq::new(
        block_count(width, w_step) as nat,
        |column: int| scaled_cell(grid, width, height, w_step, h_step, column, line),
    )
}

/// A grid of `width` by `height` pixels cut into blocks of `w_step` by
/// `h_step` pixels, each block replaced by its mean colour.
pub open spec fn scaled_grid(
    grid: Seq<Seq<RGB>>,
    width: int,
    height: int,
    w_step: int,
    h_step: int,
) -> Seq<Seq<RGB>> {
    Seq::new(
        block_count(height, h_step) as nat,
        |line: int| scaled_row(grid, width, height, w_step, h_step, line),
    )
}

/// The size of a scaled grid. It has one row for each block of the height,
/// and every row has one cell for each block of the width. Along each axis
/// that is at least the number of blocks asked for and at most the number of
/// pixels; it is the number asked for, or one more, where the division of the
/// axis by that number leaves over no more pixels than one block holds.
pub proof fn lemma_scaled_grid_size(grid: Seq<Seq<RGB>>, width: int, height: int, scale: Scale)
    requires
        scale_valid(width, height, scale),
    ensures
        ({
            let w_step = step_of(width, scale.x);
            let h_step = step_of(height, scale.y);
            let columns = block_count(width, w_step);
            let lines = block_count(height, h_step);
            let cells = scaled_grid(grid, width, height, w_step, h_step);
            &&& cells.len() == lines
            &&& rectangular(cells, columns as nat)
            &&& scale.x.scaled(width) <= columns <= width
            &&& scale.y.scaled(height) <= lines <= height
            &&& width % scale.x.scaled(width) <= w_step ==> columns <= scale.x.scaled(width) + 1
            &&& height % scale.y.scaled(height) <= h_step ==> lines <= scale.y.scaled(height) + 1
        }),
{
    lemma_block_count_bounds(width, scale.x);
    lemma_block_count_bounds(height, scale.y);
    if width % scale.x.scaled(width) <= step_of(width, scale.x) {
        lemma_block_count_within_one(width, scale.x);
    }
    if height % scale.y.scaled(height) <= step_of(height, scale.y) {
        lemma_block_count_within_one(height, scale.y);
    }
}

/// Cut into blocks of one pixel, a rectangular grid stays as it is.
pub proof fn lemma_unit_steps_keep_pixels(grid: Seq<Seq<RGB>>, width: int, height: int)
    requires
        0 <= width,
        grid.len() == height,
        rectangular(grid, width as nat),
    ensures
        scaled_grid(grid, width, height, 1, 1) == grid,
{
    let cells = scaled_grid(grid, width, height, 1, 1);
    assert(cells.len() == grid.len());
    assert forall|line: int| 0 <= line < height implies #[trigger] cells[line] == grid[line] by {
        assert(cells[line].len() == grid[line].len());
        assert forall|column: int| 0 <= column < width implies #[trigger] cells[line][column]
            == grid[line][column] by {
            lemma_average_of_constant_block(
                grid,
                column,
                column + 1,
                line,
                line + 1,
                grid[line][column],
            );
        }
        assert(cells[line] =~= grid[line]);
    }
    assert(cells =~= grid);
}

/// Under a scale of one on both axes, the scaled grid of a raster that holds
/// a pixel is the raster's own grid.
pub proof fn lemma_scale_one_keeps_pixels(
    grid: Seq<Seq<RGB>>,
    width: int,
    height: int,
    scale: Scale,
)
    requires
        1 <= width,
        1 <= height,
        grid.len() == height,
        rectangular(grid, width as nat),
        scale.x.positive(),
        scale.x.num == scale.x.den,
        scale.y.positive(),
        scale.y.num == scale.y.den,
    ensures
        scale_valid(width, height, scale),
        scaled_grid(grid, width, height, step_of(width, scale.x), step_of(height, scale.y))
            == grid,
{
    lemma_unit_ratio_step(width, scale.x);
    lemma_unit_ratio_step(height, scale.y);
    lemma_unit_steps_keep_pixels(grid, width, height);
}

/// A rectangular grid of mean colours. Once built it does not change, and it
/// keeps nothing of the raster that it was built from.
///
/// The view is the sequence of rows, top to bottom.
pub struct ImageCache {
    grid: Vec<Vec<RGB>>,
}

impl View for ImageCache {
    type V = Seq<Seq<RGB>>;

    closed spec fn view(&self) -> Seq<Seq<RGB>> {
        rows_view(self.grid@)
    }
}

impl ImageCache {
    /// The number of rows.
    pub open spec fn spec_height(&self) -> nat {
        self@.len()
    }

    /// The number of cells in the first row; zero where there is no row.
    pub open spec fn spec_width(&self) -> nat {
        if self@.len() == 0 {
            0
        } else {
            self@[0].len()
        }
    }

    /// Every row has as many cells as the first. This holds of every cache
    /// that exists.
    #[verifier::type_invariant]
    pub open spec fn wf(&self) -> bool {
        rectangular(self@, self.spec_width())
    }

    /// Cuts `raster` into blocks of `w_step` by `h_step` pixels and takes the
    /// mean of each, line of blocks by line of blocks.
    fn assemble(raster: &Raster, w_step: usize, h_step: usize) -> (grid: Vec<Vec<RGB>>)
        requires
            1 <= w_step,
            1 <= h_step,
        ensures
            rows_view(grid@) == scaled_grid(
                raster@,
                raster.spec_width() as int,
                raster.spec_height() as int,
                w_step as int,
                h_step as int,
            ),
    {
        proof {
            use_type_invariant(raster);
        }
        let width: usize = raster.width();
        let height: usize = raster.height();
        let columns: usize = if width == 0 { 0 } else { (width - 1) / w_step + 1 };
        let lines: usize = if height == 0 { 0 } else { (height - 1) / h_step + 1 };
        proof {
            lemma_block_count_empty(w_step as int);
            lemma_block_count_empty(h_step as int);
        }
        let mut grid: Vec<Vec<RGB>> = Vec::new();
        let mut line: usize = 0;
        while line < lines
            invariant
                raster.wf(),
                width == raster.spec_width(),
                height == raster.spec_height(),
                1 <= w_step,
                1 <= h_step,
                columns == block_count(width as int, w_step as int),
                lines == block_count(height as int, h_step as int),
                line <= lines,
                grid@.len() == line,
                forall|k: int|
                    0 <= k < line ==> (#[trigger] grid@[k])@ == scaled_row(
                        raster@,
                        width as int,
                        height as int,
                        w_step as int,
                        h_step as int,
                        k,
                    ),
            decreases lines - line,
        {
            proof {
                lemma_block_starts_inside(height as int, h_step as int, line as int);
            }
            let y0: usize = line * h_step;
            let y1: usize = if h_step < height - y0 { y0 + h_step } else { height };
            let mut row: Vec<RGB> = Vec::new();
            let mut column: usize = 0;
            while column < columns
                invariant
                    raster.wf(),
                    width == raster.spec_width(),
                    height == raster.spec_height(),
                    1 <= w_step,
                    1 <= h_step,
                    columns == block_count(width as int, w_step as int),
                    line < block_count(height as int, h_step as int),
                    y0 == line * h_step,
                    y0 < height,
                    y1 == block_end(y0 as int, h_step as int, height as int),
                    y0 < y1 <= height,
                    column <= columns,
                    row@.len() == column,
                    forall|j: int|
                        0 <= j < column ==> #[trigger] row@[j] == scaled_cell(
                            raster@,
                            width as int,
                            height as int,
                            w_step as int,
                            h_step as int,
                            j,
                            line as int,
                        ),
                decreases columns - column,
            {
                proof {
                    lemma_block_starts_inside(width as int, w_step as int, column as int);
                }
                let x0: usize = column * w_step;
                let x1: usize = if w_step < width - x0 { x0 + w_step } else { width };
                row.push(average_block(raster, x0, x1, y0, y1));
                column += 1;
            }
            assert(row@ =~= scaled_row(
                raster@,
                width as int,
                height as int,
                w_step as int,
                h_step as int,
                line as int,
            ));
            grid.push(row);
            line += 1;
        }
        assert(rows_view(grid@) =~= scaled_grid(
            raster@,
            width as int,
            height as int,
            w_step as int,
            h_step as int,
        ));
        grid
    }

    /// Builds the cache of `raster` under `scale`, and gives the raster up.
    ///
    /// Each axis is cut into blocks of [`step_of`] pixels, and each cell of the
    /// cache is the mean colour of one block. `InvalidScale` is returned
    /// exactly where a factor cannot scale its axis; no cache is built then.
    pub fn build_from_raster(raster: Raster, scale: Scale) -> (res: Result<
        ImageCache,
        PrintImageError,
    >)
        ensures
            res is Ok <==> scale_valid(
                raster.spec_width() as int,
                raster.spec_height() as int,
                scale,
            ),
            res matches Ok(cache) ==> {
                &&& cache.wf()
                &&& cache@ == scaled_grid(
                    raster@,
                    raster.spec_width() as int,
                    raster.spec_height() as int,
                    step_of(raster.spec_width() as int, scale.x),
                    step_of(raster.spec_height() as int, scale.y),
                )
                &&& cache.spec_height() == block_count(
                    raster.spec_height() as int,
                    step_of(raster.spec_height() as int, scale.y),
                )
                &&& cache.spec_width() == block_count(
                    raster.spec_width() as int,
                    step_of(raster.spec_width() as int, scale.x),
                )
            },
            res matches Err(e) ==> e is InvalidScale,
    {
        let w_step: usize = match block_step(raster.width(), scale.x) {
            Ok(step) => step,
            Err(e) => {
                return Err(e);
            },
        };
        let h_step: usize = match block_step(raster.height(), scale.y) {
            Ok(step) => step,
            Err(e) => {
                return Err(e);
            },
        };
        let grid: Vec<Vec<RGB>> = Self::assemble(&raster, w_step, h_step);
        proof {
            use_type_invariant(&raster);
            lemma_block_count_positive(raster.spec_height() as int, h_step as int);
        }
        Ok(ImageCache { grid })
    }

    /// Builds the cache that holds every pixel of `raster` as one cell.
    pub fn build_unscaled(raster: Raster) -> (cache: ImageCache)
        ensures
            cache.wf(),
            cache@ == raster@,
            cache.spec_height() == raster.spec_height(),
            raster.spec_height() > 0 ==> cache.spec_width() == raster.spec_width(),
    {
        proof {
            use_type_invariant(&raster);
        }
        ImageCache { grid: raster.into_rows() }
    }

    /// Builds the cache of a decoded image under `scale`, or hands on the
    /// failure to decode it, unchanged, as an `ImageLoadError`.
    pub fn build_from_decoded(decoded: Result<DynamicImage, ImageError>, scale: Scale) -> (res:
        Result<ImageCache, PrintImageError>)
        ensures
            decoded matches Err(cause) ==> res == Err::<ImageCache, PrintImageError>(
                PrintImageError::ImageLoadError(cause),
            ),
            decoded matches Ok(img) ==> {
                &&& res is Ok <==> scale_valid(
                    image_width(img) as int,
                    image_rows(img).len() as int,
                    scale,
                )
                &&& res matches Ok(cache) ==> {
                    &&& cache.wf()
                    &&& cache@ == scaled_grid(
                        image_rows(img),
                        image_width(img) as int,
                        image_rows(img).len() as int,
                        step_of(image_width(img) as int, scale.x),
                        step_of(image_rows(img).len() as int, scale.y),
                    )
                }
                &&& res matches Err(e) ==> e is InvalidScale
            },
    {
        match decoded {
            Ok(img) => Self::build_from_raster(Raster::from_image(&img), scale),
            Err(cause) => Err(PrintImageError::ImageLoadError(cause)),
        }
    }

    /// Builds the cache that holds every pixel of a decoded image as one
    /// cell, or hands on the failure to decode it, unchanged, as an
    /// `ImageLoadError`.
    pub fn build_unscaled_from_decoded(decoded: Result<DynamicImage, ImageError>) -> (res: Result<
        ImageCache,
        PrintImageError,
    >)
        ensures
            decoded matches Err(cause) ==> res == Err::<ImageCache, PrintImageError>(
                PrintImageError::ImageLoadError(cause),
            ),
            decoded matches Ok(img) ==> {
                &&& res matches Ok(cache)
                &&& cache.wf()
                &&& cache@ == image_rows(img)
            },
    {
        match decoded {
            Ok(img) => Ok(Self::build_unscaled(Raster::from_image(&img))),
            Err(cause) => Err(PrintImageError::ImageLoadError(cause)),
        }
    }

    /// The number of rows.
    pub fn height(&self) -> (h: usize)
        ensures
            h == self.spec_height(),
    {
        self.grid.len()
    }

    /// The number of cells in a row; zero for a cache without rows.
    pub fn width(&self) -> (w: usize)
        ensures
            w == self.spec_width(),
    {
        if self.grid.len() == 0 {
            0
        } else {
            self.grid[0].len()
        }
    }

    /// The cell in column `x` of row `y`.
    pub fn cell(&self, x: usize, y: usize) -> (c: RGB)
        requires
            x < self.spec_width(),
            y < self.spec_height(),
        ensures
            c == self@[y as int][x as int],
    {
        proof {
            use_type_invariant(self);
        }
        assert(self@[y as int].len() == self.spec_width());
        self.grid[y][x]
    }
}

} // verus!
