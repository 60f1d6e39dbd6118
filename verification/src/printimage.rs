//! Errors, and the text that a cache of pixels is printed as.

use crate::cache::ImageCache;
use crate::rgb::RGB;
use colored::Colorize;
use vstd::prelude::*;

verus! {

/// The error of the `image` crate, kept as it came.
#[verifier::external_type_specification]
#[verifier::external_body]
pub struct ExImageError(image::ImageError);

/// What can go wrong between an image file and its cache of pixels.
#[derive(Debug)]
pub enum PrintImageError {
    /// The image could not be read or decoded; the cause is inside.
    ImageLoadError(image::ImageError),
    /// A scale factor is not positive, or leaves an axis without a block.
    InvalidScale,
    /// Two caches differ in size where they must not. Kept for operations on
    /// two caches; none of this crate returns it.
    MismatchedSize,
}

/// The decimal digit `d` as a character.
pub open spec fn digit(d: int) -> char {
    ('0' as int + d) as char
}

/// A number from 0 to 255 written in decimal, without leading zeros.
pub open spec fn decimal(n: int) -> Seq<char> {
    if n < 10 {
        seq![digit(n)]
    } else if n < 100 {
        seq![digit(n / 10), digit(n % 10)]
    } else {
        seq![digit(n / 100), digit(n / 10 % 10), digit(n % 10)]
    }
}

/// Two full blocks: the glyph that stands for one coloured cell.
pub open spec fn block_glyph() -> Seq<char> {
    seq!['\u{2588}', '\u{2588}']
}

/// `text` between the escape sequence that selects the rendition `style` and
/// the one that resets it.
pub open spec fn styled(style: Seq<char>, text: Seq<char>) -> Seq<char> {
    seq!['\x1b', '['] + style + seq!['m'] + text + seq!['\x1b', '[', '0', 'm']
}

/// The rendition that sets the foreground to a 24-bit colour.
pub open spec fn truecolor_style(pixel: RGB) -> Seq<char> {
    seq!['3', '8', ';', '2', ';'] + decimal(pixel.r as int) + seq![';'] + decimal(pixel.g as int)
        + seq![';'] + decimal(pixel.b as int)
}

/// The renditions that set the foreground to one of the sixteen named colours.
pub open spec fn named_style(style: Seq<char>) -> bool {
    exists|code: int| (30 <= code <= 37 || 90 <= code <= 97) && style == decimal(code)
}

/// What a coloured cell may be printed as: the bare glyph where colours are
/// switched off, the glyph in the cell's own colour where the terminal takes
/// 24-bit colours, and else the glyph in one of the sixteen named colours.
pub open spec fn colored_block(pixel: RGB, text: Seq<char>) -> bool {
    ||| text == block_glyph()
    ||| text == styled(truecolor_style(pixel), block_glyph())
    ||| exists|style: Seq<char>| named_style(style) && text == styled(style, block_glyph())
}

/// Calls `Colorize::color` of the `colored` crate on the glyph, with
/// `Color::TrueColor`, and formats the result. The crate decides from the
/// environment, the terminal and its own override whether to colour, and
/// whether with the colour given or with the nearest of its sixteen named
/// colours; the contract allows each of these outcomes and no other.
#[verifier::external_body]
fn paint_block(pixel: RGB) -> (text: String)
    ensures
        colored_block(pixel, text@),
{
    let color = colored::Color::TrueColor { r: pixel.r, g: pixel.g, b: pixel.b };
    format!("{}", "\u{2588}\u{2588}".color(color))
}

/// The text of one cell as a block in the cell's colour.
pub fn handle_pixel_rgb(pixel: RGB) -> (text: String)
    ensures
        colored_block(pixel, text@),
{
    paint_block(pixel)
}

/// The brightness that picks a cell's character: red, and green twice.
/// Blue does not count.
pub open spec fn luminance_sum(pixel: RGB) -> int {
    pixel.r + pixel.g + pixel.g
}

/// The character for a brightness from 0 to 765, in nine bins of 85 from the
/// darkest to the brightest.
pub open spec fn ascii_glyph(sum: int) -> char {
    if sum <= 85 {
        ' '
    } else if sum <= 170 {
        ':'
    } else if sum <= 255 {
        ';'
    } else if sum <= 340 {
        '='
    } else if sum <= 425 {
        '*'
    } else if sum <= 510 {
        '#'
    } else if sum <= 595 {
        '@'
    } else if sum <= 680 {
        '&'
    } else {
        '%'
    }
}

/// The text of one cell as a single character picked by its brightness.
pub fn handle_pixel_ascii(pixel: RGB) -> (text: String)
    ensures
        text@ == seq![ascii_glyph(luminance_sum(pixel))],
{
    let sum: u32 = pixel.r as u32 + pixel.g as u32 + pixel.g as u32;
    let character: &str = if sum <= 85 {
        " "
    } else if sum <= 170 {
        ":"
    } else if sum <= 255 {
        ";"
    } else if sum <= 340 {
        "="
    } else if sum <= 425 {
        "*"
    } else if sum <= 510 {
        "#"
    } else if sum <= 595 {
        "@"
    } else if sum <= 680 {
        "&"
    } else {
        "%"
    };
    proof {
        reveal_strlit(" ");
        reveal_strlit(":");
        reveal_strlit(";");
        reveal_strlit("=");
        reveal_strlit("*");
        reveal_strlit("#");
        reveal_strlit("@");
        reveal_strlit("&");
        reveal_strlit("%");
        assert(character@ =~= seq![ascii_glyph(luminance_sum(pixel))]);
    }
    character.to_owned()
}

/// The texts of the cells of one row, one after the other.
pub open spec fn line_text(cells: Seq<Seq<char>>) -> Seq<char>
    decreases cells.len(),
{
    if cells.len() == 0 {
        Seq::empty()
    } else {
        line_text(cells.drop_last()) + cells.last()
    }
}

/// The lines of a page from top to bottom, each ended by a line break.
pub open spec fn page_text(lines: Seq<Seq<Seq<char>>>) -> Seq<char>
    decreases lines.len(),
{
    if lines.len() == 0 {
        Seq::empty()
    } else {
        page_text(lines.drop_last()) + line_text(lines.last()) + seq!['\n']
    }
}

/// The characters of each string of a row.
pub open spec fn row_texts(cells: Seq<String>) -> Seq<Seq<char>> {
    cells.map_values(|cell: String| cell@)
}

/// The characters of each string of a grid.
pub open spec fn grid_texts(cells: Seq<Seq<String>>) -> Seq<Seq<Seq<char>>> {
    cells.map_values(|row: Seq<String>| row_texts(row))
}

/// `cells` holds, for the first `count` cells of `row`, a string that
/// `handle_pixel` may return for it.
pub open spec fn row_handled<F: Fn(RGB) -> String>(
    row: Seq<RGB>,
    count: int,
    cells: Seq<String>,
    handle_pixel: F,
) -> bool {
    &&& cells.len() == count
    &&& forall|x: int| 0 <= x < count ==> call_ensures(handle_pixel, (row[x],), #[trigger] cells[x])
}

/// `cells` holds, for every cell of `grid`, a string that `handle_pixel` may
/// return for it.
pub open spec fn grid_handled<F: Fn(RGB) -> String>(
    grid: Seq<Seq<RGB>>,
    cells: Seq<Seq<String>>,
    handle_pixel: F,
) -> bool {
    &&& cells.len() == grid.len()
    &&& forall|y: int|
        0 <= y < grid.len() ==> row_handled(grid[y], grid[y].len() as int, #[trigger] cells[y], handle_pixel)
}

/// The text of every cell of a grid under the mapping to single characters.
pub open spec fn ascii_texts(grid: Seq<Seq<RGB>>) -> Seq<Seq<Seq<char>>> {
    grid.map_values(
        |row: Seq<RGB>| row.map_values(|pixel: RGB| seq![ascii_glyph(luminance_sum(pixel))]),
    )
}

/// Under the mapping to single characters a grid has one page only: whatever
/// strings [`handle_pixel_ascii`] returned for its cells, their texts are
/// those of [`ascii_texts`].
pub proof fn lemma_ascii_page(grid: Seq<Seq<RGB>>, cells: Seq<Seq<String>>)
    requires
        grid_handled(grid, cells, handle_pixel_ascii),
    ensures
        grid_texts(cells) == ascii_texts(grid),
{
    let texts = grid_texts(cells);
    let wanted = ascii_texts(grid);
    assert forall|y: int| 0 <= y < grid.len() implies #[trigger] texts[y] == wanted[y] by {
        assert(row_handled(grid[y], grid[y].len() as int, cells[y], handle_pixel_ascii));
        assert forall|x: int| 0 <= x < grid[y].len() implies #[trigger] texts[y][x]
            == wanted[y][x] by {
            assert(call_ensures(handle_pixel_ascii, (grid[y][x],), cells[y][x]));
        }
        assert(texts[y] =~= wanted[y]);
    }
    assert(texts =~= wanted);
}

/// The page that a cache is printed as: its rows from top to bottom, each
/// cell turned into text by `handle_pixel`, from left to right, and a line
/// break after each row.
pub fn render_img<F: Fn(RGB) -> String>(cache: &ImageCache, handle_pixel: F) -> (text: String)
    requires
        forall|y: int, x: int|
            0 <= y < cache@.len() && 0 <= x < cache@[y].len() ==> call_requires(
                handle_pixel,
                (#[trigger] cache@[y][x],),
            ),
    ensures
        exists|cells: Seq<Seq<String>>|
            grid_handled(cache@, cells, handle_pixel) && text@ == page_text(grid_texts(cells)),
{
    proof {
        use_type_invariant(cache);
    }
    let height: usize = cache.height();
    let width: usize = cache.width();
    let mut text: String = String::new();
    let ghost mut lines: Seq<Seq<String>> = Seq::empty();
    let mut y: usize = 0;
    while y < height
        invariant
            cache.wf(),
            height == cache.spec_height(),
            width == cache.spec_width(),
            y <= height,
            forall|y: int, x: int|
                0 <= y < cache@.len() && 0 <= x < cache@[y].len() ==> call_requires(
                    handle_pixel,
                    (#[trigger] cache@[y][x],),
                ),
            lines.len() == y,
            forall|k: int|
                0 <= k < y ==> row_handled(
                    cache@[k],
                    cache@[k].len() as int,
                    #[trigger] lines[k],
                    handle_pixel,
                ),
            text@ == page_text(grid_texts(lines)),
        decreases height - y,
    {
        let ghost page: Seq<char> = text@;
        let ghost mut cells: Seq<String> = Seq::empty();
        assert(cache@[y as int].len() == width);
        let mut x: usize = 0;
        while x < width
            invariant
                cache.wf(),
                height == cache.spec_height(),
                width == cache.spec_width(),
                y < height,
                x <= width,
                cache@[y as int].len() == width,
                forall|y: int, x: int|
                    0 <= y < cache@.len() && 0 <= x < cache@[y].len() ==> call_requires(
                        handle_pixel,
                        (#[trigger] cache@[y][x],),
                    ),
                row_handled(cache@[y as int], x as int, cells, handle_pixel),
                text@ == page + line_text(row_texts(cells)),
            decreases width - x,
        {
            let cell: String = handle_pixel(cache.cell(x, y));
            text.append(cell.as_str());
            proof {
                let longer: Seq<String> = cells.push(cell);
                assert(row_texts(longer).drop_last() =~= row_texts(cells));
                assert(row_texts(longer).last() == cell@);
                cells = longer;
            }
            x += 1;
        }
        text.append("\n");
        proof {
            reveal_strlit("\n");
            assert("\n"@ =~= seq!['\n']);
            let longer: Seq<Seq<String>> = lines.push(cells);
            assert(grid_texts(longer).drop_last() =~= grid_texts(lines));
            assert(grid_texts(longer).last() == row_texts(cells));
            lines = longer;
        }
        y += 1;
    }
    proof {
        assert(grid_handled(cache@, lines, handle_pixel));
    }
    text
}

} // verus!
