//! Cutting an image into horizontal bands, one per worker.

use vstd::prelude::*;
use crate::raster::Rgb;

verus! {

/// Number of workers of a render for which none is asked.
pub const DEFAULT_WORKERS: usize = 8;

/// A run of consecutive image rows: rows `top .. top + height`.
#[derive(Clone, Copy, Debug, PartialEq, Eq, Structural)]
pub struct Band {
    /// Index of the first row of the band.
    pub top: usize,
    /// Number of rows in the band.
    pub height: usize,
}

impl Band {
    /// One past the last row of the band.
    pub open spec fn bottom(self) -> int {
        self.top + self.height
    }

    /// Whether `row` lies in the band.
    pub open spec fn holds(self, row: int) -> bool {
        self.top <= row < self.bottom()
    }
}

/// Rows given to every band but the last: the quotient of `height` by
/// `workers`, plus one, so that `workers` bands always reach the last row.
pub open spec fn rows_per_band_spec(height: int, workers: int) -> int {
    height / workers + 1
}

/// Number of bands: as many full bands as fit, and one more for what is left.
pub open spec fn band_count_spec(height: int, workers: int) -> int {
    let rows = rows_per_band_spec(height, workers);
    (height + rows - 1) / rows
}

/// The band at `index`: it starts `index` full bands down and takes a full
/// band of rows, or what is left of the image if that is less.
pub open spec fn band_spec(height: int, workers: int, index: int) -> Band {
    let rows = rows_per_band_spec(height, workers);
    let top = index * rows;
    Band {
        top: top as usize,
        height: (if height - top < rows {
            height - top
        } else {
            rows
        }) as usize,
    }
}

/// All bands of an image of `height` rows, top to bottom.
pub open spec fn bands_spec(height: int, workers: int) -> Seq<Band> {
    Seq::new(
        band_count_spec(height, workers) as nat,
        |index: int| band_spec(height, workers, index),
    )
}

/// Whether the band at `i` starts where the band before it ends, or at row 0
/// if it is the first.
pub open spec fn joins(bands: Seq<Band>, i: int) -> bool {
    bands[i].top == (if i == 0 {
        0
    } else {
        bands[i - 1].bottom()
    })
}

/// `bands` cut rows `0 .. height` into runs that follow one another without
/// a gap: the first starts at row 0, each next one where the one before it
/// ends, the last ends at `height`, and none is empty.
pub open spec fn tiles(bands: Seq<Band>, height: int) -> bool {
    &&& forall|i: int| 0 <= i < bands.len() ==> (#[trigger] bands[i]).height > 0
    &&& forall|i: int| 0 <= i < bands.len() ==> #[trigger] joins(bands, i)
    &&& (if bands.len() == 0 {
        height == 0
    } else {
        bands.last().bottom() == height
    })
}

/// Whether `row` lies in one of `bands`.
pub open spec fn covered(bands: Seq<Band>, row: int) -> bool {
    exists|i: int| 0 <= i < bands.len() && (#[trigger] bands[i]).holds(row)
}

/// Rows in all of `bands` together.
pub open spec fn total_rows(bands: Seq<Band>) -> int
    decreases bands.len(),
{
    if bands.len() == 0 {
        0
    } else {
        total_rows(bands.drop_last()) + bands.last().height
    }
}

/// Pixels in all of `bands` together, in an image `width` pixels wide.
pub open spec fn total_pixels(bands: Seq<Band>, width: int) -> int
    decreases bands.len(),
{
    if bands.len() == 0 {
        0
    } else {
        total_pixels(bands.drop_last(), width) + bands.last().height * width
    }
}

/// Rows per band for an image of `height` rows shared among `workers` workers.
pub fn rows_per_band(height: usize, workers: usize) -> (rows: usize)
    requires
        workers >= 1,
        height < usize::MAX,
    ensures
        rows == rows_per_band_spec(height as int, workers as int),
        rows >= 1,
        rows * workers > height,
{
    proof {
        lemma_rows_reach(height as int, workers as int);
    }
    height / workers + 1
}

/// The bands of an image of `height` rows shared among `workers` workers,
/// top to bottom.
pub fn bands(height: usize, workers: usize) -> (all: Vec<Band>)
    requires
        workers >= 1,
        height < usize::MAX,
    ensures
        all@ == bands_spec(height as int, workers as int),
        all@.len() <= workers,
        tiles(all@, height as int),
{
    let rows = rows_per_band(height, workers);
    let mut all: Vec<Band> = Vec::new();
    let mut top: usize = 0;
    proof {
        lemma_band_count(height as int, workers as int);
        assert(0 * rows == 0) by (nonlinear_arith);
    }
    while top < height
        invariant
            workers >= 1,
            rows == rows_per_band_spec(height as int, workers as int),
            rows >= 1,
            top <= height < usize::MAX,
            top < height ==> top == all@.len() * rows,
            top == height ==> all@.len() == band_count_spec(height as int, workers as int),
            forall|i: int|
                0 <= i < all@.len() ==> all@[i] == band_spec(height as int, workers as int, i),
        decreases height - top,
    {
        let left = height - top;
        let tall = if left < rows {
            left
        } else {
            rows
        };
        proof {
            let count = all@.len() as int;
            assert((count + 1) * rows == count * rows + rows) by (nonlinear_arith);
            if top + tall == height {
                lemma_band_count(height as int, workers as int);
                assert(count + 1 == band_count_spec(height as int, workers as int)) by (nonlinear_arith)
                    requires
                        count * rows < height <= (count + 1) * rows,
                        (band_count_spec(height as int, workers as int) - 1) * rows < height
                            <= band_count_spec(height as int, workers as int) * rows,
                        rows >= 1,
                ;
            }
        }
        all.push(Band { top, height: tall });
        top = top + tall;
    }
    proof {
        assert(all@ =~= bands_spec(height as int, workers as int));
        lemma_bands_tile(height as int, workers as int);
    }
    all
}

/// Hands out the buffer of an image band by band: one slice for each of
/// `bands`, in their order, each holding the pixels of its band's rows.
pub fn split_bands<'a>(pixels: &'a mut [Rgb], bounds: (usize, usize), bands: &Vec<Band>) -> (parts:
    Vec<&'a mut [Rgb]>)
    requires
        old(pixels)@.len() == bounds.0 * bounds.1,
        tiles(bands@, bounds.1 as int),
    ensures
        parts@.len() == bands@.len(),
        forall|i: int|
            0 <= i < parts@.len() ==> #[trigger] parts@[i]@ == old(pixels)@.subrange(
                bands@[i].top * bounds.0,
                bands@[i].bottom() * bounds.0,
            ),
        final(pixels)@ == Seq::new(parts@.len(), |i: int| final(parts@[i])@).flatten(),
{
    let (width, height) = bounds;
    let ghost start = pixels@;
    let ghost whole = final(pixels)@;
    let mut parts: Vec<&'a mut [Rgb]> = Vec::new();
    let mut rest: &'a mut [Rgb] = pixels;
    let mut index: usize = 0;
    let ghost mut taken: int = 0;
    proof {
        assert(start.len() == rest.len());
        lemma_rows_extent(width as int, height as int, 0, 0);
        assert(rest@ =~= start.subrange(taken * width, start.len() as int));
        assert(Seq::new(0nat, |i: int| final(parts@[i])@) =~= Seq::<Seq<Rgb>>::empty());
    }
    while index < bands.len()
        invariant
            index <= bands@.len(),
            parts@.len() == index,
            start.len() == width * height <= usize::MAX,
            tiles(bands@, height as int),
            taken == (if index == 0 {
                0
            } else {
                bands@[index - 1].bottom()
            }),
            0 <= taken <= height,
            0 <= taken * width <= width * height,
            rest@ == start.subrange(taken * width, start.len() as int),
            forall|i: int|
                0 <= i < index ==> #[trigger] parts@[i]@ == start.subrange(
                    bands@[i].top * width,
                    bands@[i].bottom() * width,
                ),
            whole == Seq::new(parts@.len(), |i: int| final(parts@[i])@).flatten() + final(rest)@,
        decreases bands@.len() - index,
    {
        let band = bands[index];
        proof {
            lemma_tiling_within(bands@, height as int, index as int);
            assert(joins(bands@, index as int));
            lemma_rows_extent(width as int, height as int, band.top as int, band.height as int);
        }
        let ghost before = Seq::new(parts@.len(), |i: int| final(parts@[i])@);
        let ghost rest_after = final(rest)@;
        let (head, tail) = rest.split_at_mut(band.height * width);
        let ghost head_after = final(head)@;
        let ghost tail_after = final(tail)@;
        proof {
            assert(rest_after == head_after + tail_after);
            assert(head@ =~= start.subrange(band.top * width, band.bottom() * width));
            assert(tail@ =~= start.subrange(band.bottom() * width, start.len() as int));
            taken = band.bottom();
        }
        parts.push(head);
        rest = tail;
        proof {
            let after = Seq::new(parts@.len(), |i: int| final(parts@[i])@);
            assert(after =~= before.push(head_after));
            before.lemma_flatten_push(head_after);
            assert(whole =~= after.flatten() + tail_after);
        }
        index = index + 1;
    }
    proof {
        lemma_rows_extent(width as int, height as int, height as int, 0);
        assert(rest@.len() == 0);
    }
    parts
}

/// Rows `top .. top + tall` of an image hold the pixels at places
/// `top * width .. (top + tall) * width` of its buffer, `tall * width` of
/// them, all inside the buffer.
pub proof fn lemma_rows_extent(width: int, height: int, top: int, tall: int)
    requires
        0 <= width,
        0 <= top,
        0 <= tall,
        top + tall <= height,
    ensures
        0 <= top * width <= (top + tall) * width <= width * height,
        (top + tall) * width == top * width + tall * width,
        0 <= tall * width,
{
    assert((top + tall) * width == top * width + tall * width) by (nonlinear_arith);
    assert(0 <= top * width && 0 <= tall * width) by (nonlinear_arith)
        requires
            0 <= width,
            0 <= top,
            0 <= tall,
    ;
    assert((top + tall) * width <= width * height) by (nonlinear_arith)
        requires
            0 <= width,
            top + tall <= height,
    ;
}

/// `workers` bands of `rows_per_band_spec` rows reach past the last row.
pub proof fn lemma_rows_reach(height: int, workers: int)
    requires
        height >= 0,
        workers >= 1,
    ensures
        1 <= rows_per_band_spec(height, workers) <= height + 1,
        rows_per_band_spec(height, workers) * workers > height,
{
    let q = height / workers;
    assert(0 <= q <= height && (q + 1) * workers > height) by (nonlinear_arith)
        requires
            height >= 0,
            workers >= 1,
            q == height / workers,
    ;
}

/// The number of bands is the least number of full bands that hold every
/// row, and never more than the number of workers.
pub proof fn lemma_band_count(height: int, workers: int)
    requires
        height >= 0,
        workers >= 1,
    ensures
        0 <= band_count_spec(height, workers) <= workers,
        height == 0 ==> band_count_spec(height, workers) == 0,
        height > 0 ==> (band_count_spec(height, workers) - 1) * rows_per_band_spec(height, workers)
            < height,
        height <= band_count_spec(height, workers) * rows_per_band_spec(height, workers),
{
    lemma_rows_reach(height, workers);
    let rows = rows_per_band_spec(height, workers);
    let count = (height + rows - 1) / rows;
    assert(count * rows <= height + rows - 1 < (count + 1) * rows) by (nonlinear_arith)
        requires
            rows >= 1,
            count == (height + rows - 1) / rows,
    ;
    assert((count + 1) * rows == count * rows + rows) by (nonlinear_arith);
    assert((count - 1) * rows == count * rows - rows) by (nonlinear_arith);
    assert(count >= 0) by (nonlinear_arith)
        requires
            rows >= 1,
            height >= 0,
            height + rows - 1 < (count + 1) * rows,
    ;
    assert(count <= workers) by (nonlinear_arith)
        requires
            rows >= 1,
            count * rows <= height + rows - 1,
            rows * workers > height,
    ;
    if height == 0 {
        assert(count == 0) by (nonlinear_arith)
            requires
                rows >= 1,
                count >= 0,
                count * rows <= rows - 1,
        ;
    }
}

/// The band at `index` starts `index` full bands down, ends a full band
/// further on or at the foot of the image, and is not empty.
pub proof fn lemma_band_rows(height: int, workers: int, index: int)
    requires
        0 <= height <= usize::MAX,
        workers >= 1,
        0 <= index < band_count_spec(height, workers),
    ensures
        band_spec(height, workers, index).top == index * rows_per_band_spec(height, workers),
        band_spec(height, workers, index).height > 0,
        band_spec(height, workers, index).bottom() <= height,
        index + 1 < band_count_spec(height, workers) ==> band_spec(height, workers, index).bottom()
            == (index + 1) * rows_per_band_spec(height, workers),
        index + 1 == band_count_spec(height, workers) ==> band_spec(
            height,
            workers,
            index,
        ).bottom() == height,
{
    lemma_rows_reach(height, workers);
    lemma_band_count(height, workers);
    let rows = rows_per_band_spec(height, workers);
    let count = band_count_spec(height, workers);
    assert(0 <= index * rows <= (count - 1) * rows) by (nonlinear_arith)
        requires
            0 <= index <= count - 1,
            rows >= 1,
    ;
    assert((index + 1) * rows == index * rows + rows) by (nonlinear_arith);
    if index + 1 < count {
        assert((index + 1) * rows <= (count - 1) * rows) by (nonlinear_arith)
            requires
                index + 1 <= count - 1,
                rows >= 1,
        ;
    }
}

/// The bands of an image tile its rows.
pub proof fn lemma_bands_tile(height: int, workers: int)
    requires
        0 <= height <= usize::MAX,
        workers >= 1,
    ensures
        tiles(bands_spec(height, workers), height),
{
    let all = bands_spec(height, workers);
    lemma_band_count(height, workers);
    assert forall|i: int| 0 <= i < all.len() implies (#[trigger] all[i]).height > 0 by {
        lemma_band_rows(height, workers, i);
    }
    assert forall|i: int| 0 <= i < all.len() implies #[trigger] joins(all, i) by {
        lemma_band_rows(height, workers, i);
        if i > 0 {
            lemma_band_rows(height, workers, i - 1);
        }
    }
    if all.len() > 0 {
        lemma_band_rows(height, workers, all.len() - 1);
        assert(all.last() == band_spec(height, workers, all.len() - 1));
    } else {
        assert(0 * rows_per_band_spec(height, workers) == 0) by (nonlinear_arith);
    }
}

/// In a tiling a band ends no later than any band after it starts.
pub proof fn lemma_tiling_is_ordered(bands: Seq<Band>, height: int, i: int, j: int)
    requires
        tiles(bands, height),
        0 <= i < j < bands.len(),
    ensures
        bands[i].bottom() <= bands[j].top,
    decreases j - i,
{
    assert(joins(bands, j));
    if i + 1 < j {
        lemma_tiling_is_ordered(bands, height, i, j - 1);
    }
}

/// Every band of a tiling lies inside the image.
pub proof fn lemma_tiling_within(bands: Seq<Band>, height: int, i: int)
    requires
        tiles(bands, height),
        0 <= i < bands.len(),
    ensures
        0 <= bands[i].top < bands[i].bottom() <= height,
{
    assert(joins(bands, i));
    if i > 0 {
        lemma_tiling_is_ordered(bands, height, 0, i);
        assert(joins(bands, 0));
    }
    if i + 1 < bands.len() {
        lemma_tiling_is_ordered(bands, height, i, bands.len() - 1);
    }
}

/// A tiling without its last band tiles the rows above that band.
pub proof fn lemma_tiling_drop_last(bands: Seq<Band>, height: int)
    requires
        tiles(bands, height),
        bands.len() > 0,
    ensures
        tiles(bands.drop_last(), bands.last().top as int),
{
    let shorter = bands.drop_last();
    assert forall|i: int| 0 <= i < shorter.len() implies #[trigger] joins(shorter, i) by {
        assert(joins(bands, i));
    }
    assert(joins(bands, bands.len() - 1));
}

/// Every row of the image lies in a band of a tiling; the result is the
/// index of that band.
pub proof fn lemma_tiling_covers(bands: Seq<Band>, height: int, row: int) -> (i: int)
    requires
        tiles(bands, height),
        0 <= row < height,
    ensures
        0 <= i < bands.len(),
        bands[i].holds(row),
    decreases bands.len(),
{
    if bands.last().top <= row {
        bands.len() - 1
    } else {
        lemma_tiling_drop_last(bands, height);
        lemma_tiling_covers(bands.drop_last(), bands.last().top as int, row)
    }
}

/// The bands of a tiling hold as many rows as the image has, and as many
/// pixels.
pub proof fn lemma_tiling_totals(bands: Seq<Band>, width: int, height: int)
    requires
        tiles(bands, height),
    ensures
        total_rows(bands) == height,
        total_pixels(bands, width) == width * height,
    decreases bands.len(),
{
    if bands.len() == 0 {
        assert(width * height == 0) by (nonlinear_arith)
            requires
                height == 0,
        ;
    } else {
        lemma_tiling_drop_last(bands, height);
        lemma_tiling_totals(bands.drop_last(), width, bands.last().top as int);
        assert(width * bands.last().top + bands.last().height * width == width * height)
            by (nonlinear_arith)
            requires
                bands.last().top + bands.last().height == height,
        ;
    }
}

/// The bands of an image part its rows: every row of the image lies in a
/// band, a band ends before the next one starts, no band is empty or reaches
/// outside the image, and together the bands hold as many pixels as the image.
pub proof fn lemma_bands_part_the_image(width: int, height: int, workers: int)
    requires
        0 <= height <= usize::MAX,
        workers >= 1,
    ensures
        forall|row: int| 0 <= row < height ==> #[trigger] covered(bands_spec(height, workers), row),
        forall|i: int, j: int|
            0 <= i < j < bands_spec(height, workers).len() ==> (#[trigger] bands_spec(
                height,
                workers,
            )[i]).bottom() <= (#[trigger] bands_spec(height, workers)[j]).top,
        forall|i: int|
            0 <= i < bands_spec(height, workers).len() ==> 0 <= (#[trigger] bands_spec(
                height,
                workers,
            )[i]).top < bands_spec(height, workers)[i].bottom() <= height,
        total_pixels(bands_spec(height, workers), width) == width * height,
{
    let all = bands_spec(height, workers);
    lemma_bands_tile(height, workers);
    lemma_tiling_totals(all, width, height);
    assert forall|row: int| 0 <= row < height implies #[trigger] covered(all, row) by {
        let i = lemma_tiling_covers(all, height, row);
        assert(all[i].holds(row));
    }
    assert forall|i: int, j: int| 0 <= i < j < all.len() implies (#[trigger] all[i]).bottom() <= (
    #[trigger] all[j]).top by {
        lemma_tiling_is_ordered(all, height, i, j);
    }
    assert forall|i: int| 0 <= i < all.len() implies 0 <= (#[trigger] all[i]).top
        < all[i].bottom() <= height by {
        lemma_tiling_within(all, height, i);
    }
}

} // verus!
