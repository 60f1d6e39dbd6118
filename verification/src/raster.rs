//! A decoded image held in memory: a rectangular grid of colours.

use crate::rgb::RGB;
use image::DynamicImage;
use image::GenericImageView;
use vstd::prelude::*;

verus! {

/// A decoded image of the `image` crate. Its pixels are read through
/// [`image_dimensions`] and [`image_pixel`] only.
#[verifier::external_type_specification]
#[verifier::external_body]
pub struct ExDynamicImage(image::DynamicImage);

/// The pixels of a decoded image as rows of colours, top to bottom, each row
/// left to right, the alpha channel left out.
pub uninterp spec fn image_rows(img: DynamicImage) -> Seq<Seq<RGB>>;

/// The width in pixels of a decoded image.
pub uninterp spec fn image_width(img: DynamicImage) -> nat;

/// Calls `GenericImageView::dimensions` on a `DynamicImage`, which returns the
/// image's width and height. The contract says that these are the width and
/// the number of rows of the image, and that every row is as long as the width.
#[verifier::external_body]
fn image_dimensions(img: &DynamicImage) -> (dims: (u32, u32))
    ensures
        dims.0 == image_width(*img),
        dims.1 == image_rows(*img).len(),
        rectangular(image_rows(*img), dims.0 as nat),
{
    img.dimensions()
}

/// Calls `GenericImageView::get_pixel` on a `DynamicImage`, which panics
/// outside the image and otherwise returns the pixel at `(x, y)` as 8-bit
/// RGBA. The contract says that the red, green and blue samples returned are
/// the colour in column `x` of row `y`.
#[verifier::external_body]
fn image_pixel(img: &DynamicImage, x: u32, y: u32) -> (p: RGB)
    requires
        x < image_width(*img),
        y < image_rows(*img).len(),
    ensures
        p == image_rows(*img)[y as int][x as int],
{
    let pixel = img.get_pixel(x, y);
    RGB { r: pixel[0], g: pixel[1], b: pixel[2] }
}

/// Every row of `grid` is `width` pixels long.
pub open spec fn rectangular(grid: Seq<Seq<RGB>>, width: nat) -> bool {
    forall|y: int| 0 <= y < grid.len() ==> (#[trigger] grid[y]).len() == width
}

/// The grids that [`Raster::from_rows`] accepts: all rows as long as the
/// first, and neither side longer than `u32::MAX`.
pub open spec fn grid_fits(grid: Seq<Seq<RGB>>) -> bool {
    &&& grid.len() <= u32::MAX
    &&& grid.len() > 0 ==> grid[0].len() <= u32::MAX && rectangular(grid, grid[0].len())
}

/// The rows of colours that a vector of rows holds.
pub open spec fn rows_view(rows: Seq<Vec<RGB>>) -> Seq<Seq<RGB>> {
    rows.map_values(|row: Vec<RGB>| row@)
}

/// A rectangular grid of colours, row-major, with its origin at the top left.
///
/// The view is the sequence of rows, top to bottom; each row is the sequence of
/// its pixels, left to right. The width is kept beside the rows, so that a
/// raster without rows still has one.
pub struct Raster {
    width: usize,
    rows: Vec<Vec<RGB>>,
}

impl View for Raster {
    type V = Seq<Seq<RGB>>;

    closed spec fn view(&self) -> Seq<Seq<RGB>> {
        rows_view(self.rows@)
    }
}

impl Raster {
    /// The number of pixels in a row.
    pub closed spec fn spec_width(&self) -> nat {
        self.width as nat
    }

    /// The number of rows.
    pub open spec fn spec_height(&self) -> nat {
        self@.len()
    }

    /// The raster is a rectangle whose sides fit in 32 bits. This holds of
    /// every raster that exists.
    #[verifier::type_invariant]
    pub open spec fn wf(&self) -> bool {
        &&& self.spec_width() <= u32::MAX
        &&& self.spec_height() <= u32::MAX
        &&& rectangular(self@, self.spec_width())
    }

    /// Builds a raster from its rows. The width is the length of the first
    /// row, or zero where there is none. Rows of different lengths, or a side
    /// longer than `u32::MAX`, give `None`.
    pub fn from_rows(rows: Vec<Vec<RGB>>) -> (res: Option<Raster>)
        ensures
            res is Some <==> grid_fits(rows_view(rows@)),
            res matches Some(raster) ==> {
                &&& raster.wf()
                &&& raster@ == rows_view(rows@)
                &&& raster.spec_width() == (if rows@.len() == 0 {
                    0
                } else {
                    rows@[0]@.len()
                })
            },
    {
        let height: usize = rows.len();
        if height > u32::MAX as usize {
            return None;
        }
        if height == 0 {
            return Some(Raster { width: 0, rows });
        }
        let width: usize = rows[0].len();
        if width > u32::MAX as usize {
            return None;
        }
        let mut y: usize = 1;
        while y < height
            invariant
                1 <= y <= height,
                height == rows@.len(),
                width == rows@[0]@.len(),
                forall|k: int| 0 <= k < y ==> (#[trigger] rows@[k])@.len() == width,
            decreases height - y,
        {
            if rows[y].len() != width {
                assert(rows_view(rows@)[y as int].len() != rows_view(rows@)[0].len());
                return None;
            }
            y += 1;
        }
        assert(rectangular(rows_view(rows@), width as nat));
        Some(Raster { width, rows })
    }

    /// Copies the pixels of a decoded image, dropping the alpha channel.
    pub fn from_image(img: &DynamicImage) -> (raster: Raster)
        ensures
            raster.wf(),
            raster@ == image_rows(*img),
            raster.spec_width() == image_width(*img),
    {
        let dims: (u32, u32) = image_dimensions(img);
        let width: u32 = dims.0;
        let height: u32 = dims.1;
        let mut rows: Vec<Vec<RGB>> = Vec::new();
        let mut y: u32 = 0;
        while y < height
            invariant
                y <= height,
                width == image_width(*img),
                height == image_rows(*img).len(),
                rectangular(image_rows(*img), width as nat),
                rows@.len() == y,
                forall|k: int| 0 <= k < y ==> (#[trigger] rows@[k])@ == image_rows(*img)[k],
            decreases height - y,
        {
            let mut row: Vec<RGB> = Vec::new();
            let mut x: u32 = 0;
            while x < width
                invariant
                    x <= width,
                    y < height,
                    width == image_width(*img),
                    height == image_rows(*img).len(),
                    image_rows(*img)[y as int].len() == width,
                    row@.len() == x,
                    forall|j: int| 0 <= j < x ==> #[trigger] row@[j] == image_rows(*img)[y as int][j],
                decreases width - x,
            {
                row.push(image_pixel(img, x, y));
                x += 1;
            }
            assert(row@ == image_rows(*img)[y as int]);
            rows.push(row);
            y += 1;
        }
        assert(rows_view(rows@) == image_rows(*img));
        Raster { width: width as usize, rows }
    }

    /// Gives up the raster for its rows.
    pub fn into_rows(self) -> (rows: Vec<Vec<RGB>>)
        ensures
            rows_view(rows@) == self@,
    {
        self.rows
    }

    /// The number of pixels in a row.
    pub fn width(&self) -> (w: usize)
        ensures
            w == self.spec_width(),
    {
        self.width
    }

    /// The number of rows.
    pub fn height(&self) -> (h: usize)
        ensures
            h == self.spec_height(),
    {
        self.rows.len()
    }

    /// The colour at column `x` of row `y`.
    pub fn pixel_at(&self, x: usize, y: usize) -> (p: RGB)
        requires
            x < self.spec_width(),
            y < self.spec_height(),
        ensures
            p == self@[y as int][x as int],
    {
        proof {
            use_type_invariant(self);
        }
        assert(self@[y as int].len() == self.spec_width());
        self.rows[y][x]
    }
}

} // verus!
