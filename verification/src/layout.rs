//! How the slices of the bands sit in the buffer of the whole image, and why
//! filling them one by one fills the image.

use crate::bands::{joins, lemma_rows_extent, lemma_tiling_drop_last, lemma_tiling_within, tiles, Band};
use crate::raster::{lemma_pixel_index_in_range, pixel_index_spec};
use vstd::prelude::*;

verus! {

/// Whether each of `parts` has the length of the band it stands for.
pub open spec fn fits<A>(parts: Seq<Seq<A>>, bands: Seq<Band>, width: int) -> bool {
    &&& parts.len() == bands.len()
    &&& forall|i: int| 0 <= i < parts.len() ==> (#[trigger] parts[i]).len() == bands[i].height * width
}

/// Whether `buffer` holds `pixel` at `place`.
pub open spec fn placed<A>(buffer: Seq<A>, place: int, pixel: A) -> bool {
    0 <= place < buffer.len() && buffer[place] == pixel
}

/// A pixel of a band has, in the band's slice, the place that it has in the
/// buffer of the image, counted from the first pixel of the band's top row.
pub proof fn lemma_band_pixel_index(width: int, top: int, column: int, row: int)
    ensures
        top * width + pixel_index_spec(width, column, row) == pixel_index_spec(
            width,
            column,
            top + row,
        ),
{
    assert((top + row) * width == top * width + row * width) by (nonlinear_arith);
}

/// The slices of the bands of a tiling, joined in order, are as long as the
/// buffer of the image, and each slice starts where its band's top row
/// starts in that buffer.
pub proof fn lemma_joined_bands<A>(parts: Seq<Seq<A>>, bands: Seq<Band>, width: int, height: int)
    requires
        0 <= width,
        tiles(bands, height),
        fits(parts, bands, width),
    ensures
        parts.flatten().len() == width * height,
        forall|i: int, k: int|
            0 <= i < parts.len() && 0 <= k < parts[i].len() ==> placed(
                parts.flatten(),
                bands[i].top * width + k,
                #[trigger] parts[i][k],
            ),
    decreases parts.len(),
{
    if parts.len() == 0 {
        assert(width * height == 0) by (nonlinear_arith)
            requires
                height == 0,
        ;
    } else {
        let head = parts.drop_last();
        let last = bands.last();
        lemma_tiling_drop_last(bands, height);
        assert(fits(head, bands.drop_last(), width)) by {
            assert forall|i: int| 0 <= i < head.len() implies (#[trigger] head[i]).len()
                == bands.drop_last()[i].height * width by {
                assert(head[i] == parts[i]);
            }
        }
        lemma_joined_bands(head, bands.drop_last(), width, last.top as int);
        assert(parts =~= head.push(parts.last()));
        head.lemma_flatten_push(parts.last());
        lemma_tiling_within(bands, height, bands.len() - 1);
        lemma_rows_extent(width, height, last.top as int, last.height as int);
        assert(width * last.top == last.top * width) by (nonlinear_arith);
        assert forall|i: int, k: int| 0 <= i < parts.len() && 0 <= k < parts[i].len() implies placed(
            parts.flatten(),
            bands[i].top * width + k,
            #[trigger] parts[i][k],
        ) by {
            lemma_tiling_within(bands, height, i);
            lemma_rows_extent(width, height, bands[i].top as int, bands[i].height as int);
            if i < head.len() {
                assert(head[i] == parts[i]);
                assert(bands.drop_last()[i] == bands[i]);
                assert(placed(head.flatten(), bands[i].top * width + k, head[i][k]));
            } else {
                assert(parts[i] == parts.last());
                assert(bands[i] == last);
            }
        }
    }
}

/// Band by band is the same as all at once: if every slice of a tiling holds,
/// for each pixel of its band, what `shade` gives for the place of that pixel
/// in the image, then the slices joined in order hold, for each pixel of the
/// image, what `shade` gives for it. So what a buffer holds once all its
/// bands are filled does not depend on how many bands there were.
pub proof fn lemma_banded_is_whole<A>(
    parts: Seq<Seq<A>>,
    bands: Seq<Band>,
    width: int,
    height: int,
    shade: spec_fn(int, int) -> A,
)
    requires
        0 <= width,
        tiles(bands, height),
        fits(parts, bands, width),
        forall|i: int, column: int, row: int|
            0 <= i < parts.len() && 0 <= column < width && 0 <= row < bands[i].height
                ==> #[trigger] parts[i][pixel_index_spec(width, column, row)] == shade(
                column,
                bands[i].top + row,
            ),
    ensures
        parts.flatten().len() == width * height,
        forall|column: int, row: int|
            0 <= column < width && 0 <= row < height ==> parts.flatten()[#[trigger] pixel_index_spec(
                width,
                column,
                row,
            )] == shade(column, row),
{
    lemma_joined_bands(parts, bands, width, height);
    assert forall|column: int, row: int| 0 <= column < width && 0 <= row < height implies parts.flatten()[
    #[trigger] pixel_index_spec(width, column, row)] == shade(column, row) by {
        let i = crate::bands::lemma_tiling_covers(bands, height, row);
        let local = row - bands[i].top;
        let k = pixel_index_spec(width, column, local);
        lemma_pixel_index_in_range(width, bands[i].height as int, column, local);
        assert(bands[i].height * width == width * bands[i].height) by (nonlinear_arith);
        lemma_band_pixel_index(width, bands[i].top as int, column, local);
        assert(parts[i][k] == shade(column, bands[i].top + local));
        assert(placed(parts.flatten(), bands[i].top * width + k, parts[i][k]));
    }
}

} // verus!
