//! Filling a band of pixels.

use vstd::prelude::*;

verus! {

/// One pixel: red, green and blue, eight bits each.
pub type Rgb = (u8, u8, u8);

/// Colour of a pixel whose point never left the escape radius.
pub const BACKGROUND: Rgb = (40, 40, 40);

/// Colour of every pixel of a buffer that nothing was rendered into yet.
pub const BLANK: Rgb = (0, 0, 0);

/// Iteration limit of a render for which none is asked.
pub const DEFAULT_LIMIT: u32 = 255;

/// Position in a row-major buffer of the pixel at `column`, `row` of an image
/// `width` pixels wide.
pub open spec fn pixel_index_spec(width: int, column: int, row: int) -> int {
    row * width + column
}

/// Position in the buffer of the pixel at `column`, `row` of an image of
/// `bounds.0` columns and `bounds.1` rows.
pub fn pixel_index(bounds: (usize, usize), column: usize, row: usize) -> (index: usize)
    requires
        column < bounds.0,
        row < bounds.1,
        bounds.0 * bounds.1 <= usize::MAX,
    ensures
        index == pixel_index_spec(bounds.0 as int, column as int, row as int),
        index < bounds.0 * bounds.1,
{
    proof {
        lemma_pixel_index_in_range(bounds.0 as int, bounds.1 as int, column as int, row as int);
    }
    row * bounds.0 + column
}

/// A buffer for an image of `bounds.0` columns and `bounds.1` rows, every
/// pixel blank.
pub fn blank_buffer(bounds: (usize, usize)) -> (pixels: Vec<Rgb>)
    requires
        bounds.0 * bounds.1 <= usize::MAX,
    ensures
        pixels@.len() == bounds.0 * bounds.1,
        forall|i: int| 0 <= i < pixels@.len() ==> pixels@[i] == BLANK,
{
    let total = bounds.0 * bounds.1;
    let mut pixels: Vec<Rgb> = Vec::with_capacity(total);
    let mut filled: usize = 0;
    while filled < total
        invariant
            filled <= total,
            pixels@.len() == filled,
            forall|i: int| 0 <= i < pixels@.len() ==> pixels@[i] == BLANK,
        decreases total - filled,
    {
        pixels.push(BLANK);
        filled = filled + 1;
    }
    pixels
}

/// What `render` may write for an escape result `escape`: the background for
/// a point that stayed bounded, else a colour that `gradient` gives for the
/// iteration count.
pub open spec fn colours<G: Fn(u32) -> Rgb>(gradient: G, escape: Option<u32>, pixel: Rgb) -> bool {
    match escape {
        None => pixel == BACKGROUND,
        Some(count) => gradient.ensures((count,), pixel),
    }
}

/// What `render` may write at `column`, `row`: the colour of some result that
/// `escape` gives there.
pub open spec fn shades<E: Fn(usize, usize) -> Option<u32>, G: Fn(u32) -> Rgb>(
    escape: E,
    gradient: G,
    column: usize,
    row: usize,
    pixel: Rgb,
) -> bool {
    exists|result: Option<u32>| #[trigger]
        escape.ensures((column, row), result) && colours(gradient, result, pixel)
}

/// Colour for one escape result.
pub fn pixel_colour<G: Fn(u32) -> Rgb>(escape: Option<u32>, gradient: &G) -> (pixel: Rgb)
    requires
        escape matches Some(count) ==> gradient.requires((count,)),
    ensures
        colours(*gradient, escape, pixel),
{
    match escape {
        None => BACKGROUND,
        Some(count) => gradient(count),
    }
}

/// Fills `pixels`, a row-major buffer of `bounds.0` columns and `bounds.1`
/// rows, pixel by pixel: `escape` says whether the point behind a pixel
/// escapes and after how many iterations, `gradient` turns an iteration count
/// into a colour, and a point that stays bounded gets the background colour.
pub fn render<E: Fn(usize, usize) -> Option<u32>, G: Fn(u32) -> Rgb>(
    pixels: &mut [Rgb],
    bounds: (usize, usize),
    escape: E,
    gradient: G,
)
    requires
        old(pixels)@.len() == bounds.0 * bounds.1,
        forall|column: usize, row: usize|
            column < bounds.0 && row < bounds.1 ==> #[trigger] escape.requires((column, row)),
        forall|column: usize, row: usize, count: u32|
            column < bounds.0 && row < bounds.1 && #[trigger] escape.ensures(
                (column, row),
                Some(count),
            ) ==> gradient.requires((count,)),
    ensures
        final(pixels)@.len() == old(pixels)@.len(),
        forall|column: usize, row: usize|
            column < bounds.0 && row < bounds.1 ==> shades(
                escape,
                gradient,
                column,
                row,
                final(pixels)@[#[trigger] pixel_index_spec(
                    bounds.0 as int,
                    column as int,
                    row as int,
                )],
            ),
{
    let (width, height) = bounds;
    assert(width * height <= usize::MAX) by {
        assert(pixels@.len() == pixels.len());
    }
    let mut row: usize = 0;
    while row < height
        invariant
            row <= height,
            pixels@.len() == width * height <= usize::MAX,
            forall|c: usize, r: usize| c < width && r < height ==> #[trigger] escape.requires((c, r)),
            forall|c: usize, r: usize, count: u32|
                c < width && r < height && #[trigger] escape.ensures((c, r), Some(count))
                    ==> gradient.requires((count,)),
            forall|c: usize, r: usize|
                c < width && r < row ==> shades(
                    escape,
                    gradient,
                    c,
                    r,
                    pixels@[#[trigger] pixel_index_spec(width as int, c as int, r as int)],
                ),
        decreases height - row,
    {
        let mut column: usize = 0;
        while column < width
            invariant
                row < height,
                column <= width,
                pixels@.len() == width * height <= usize::MAX,
                forall|c: usize, r: usize|
                    c < width && r < height ==> #[trigger] escape.requires((c, r)),
                forall|c: usize, r: usize, count: u32|
                    c < width && r < height && #[trigger] escape.ensures((c, r), Some(count))
                        ==> gradient.requires((count,)),
                forall|c: usize, r: usize|
                    c < width && (r < row || (r == row && c < column)) ==> shades(
                        escape,
                        gradient,
                        c,
                        r,
                        pixels@[#[trigger] pixel_index_spec(width as int, c as int, r as int)],
                    ),
            decreases width - column,
        {
            let result = escape(column, row);
            let pixel = pixel_colour(result, &gradient);
            proof {
                lemma_pixel_index_in_range(width as int, height as int, column as int, row as int);
            }
            let ghost before = pixels@;
            let index = pixel_index((width, height), column, row);
            pixels[index] = pixel;
            proof {
                assert(shades(escape, gradient, column, row, pixel));
                assert forall|c: usize, r: usize|
                    c < width && (r < row || (r == row && c <= column)) implies shades(
                    escape,
                    gradient,
                    c,
                    r,
                    pixels@[#[trigger] pixel_index_spec(width as int, c as int, r as int)],
                ) by {
                    lemma_pixel_index_in_range(width as int, height as int, c as int, r as int);
                    if c != column || r != row {
                        lemma_pixel_index_is_injective(
                            width as int,
                            c as int,
                            r as int,
                            column as int,
                            row as int,
                        );
                        assert(pixels@[pixel_index_spec(width as int, c as int, r as int)]
                            == before[pixel_index_spec(width as int, c as int, r as int)]);
                    }
                }
            }
            column = column + 1;
        }
        row = row + 1;
    }
}

/// A pixel inside the image has its place inside the buffer.
pub proof fn lemma_pixel_index_in_range(width: int, height: int, column: int, row: int)
    requires
        0 <= column < width,
        0 <= row < height,
    ensures
        0 <= row * width <= pixel_index_spec(width, column, row) < width * height,
{
    assert(0 <= row * width && row * width + width <= width * height) by (nonlinear_arith)
        requires
            0 <= row < height,
            0 < width,
    ;
}

/// Two different pixels of one image have different places in the buffer.
pub proof fn lemma_pixel_index_is_injective(width: int, c1: int, r1: int, c2: int, r2: int)
    requires
        0 <= c1 < width,
        0 <= c2 < width,
        0 <= r1,
        0 <= r2,
        c1 != c2 || r1 != r2,
    ensures
        pixel_index_spec(width, c1, r1) != pixel_index_spec(width, c2, r2),
{
    if r1 < r2 {
        assert(r1 * width + width <= r2 * width) by (nonlinear_arith)
            requires
                r1 < r2,
                0 < width,
        ;
    } else if r2 < r1 {
        assert(r2 * width + width <= r1 * width) by (nonlinear_arith)
            requires
                r2 < r1,
                0 < width,
        ;
    }
}

} // verus!
