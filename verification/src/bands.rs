//! Horizontal bands: how the rows of a picture are shared out among workers.
//!
//! A picture of `height` rows is cut into consecutive bands of `rows_per_band`
//! rows each; the last band takes what is left. The bands are numbered from the
//! top, starting at zero.

use vstd::prelude::*;

verus! {

/// A run of consecutive rows of the picture.
#[derive(Copy, Clone, Debug, PartialEq, Eq, Structural)]
pub struct Band {
    /// The picture row that is the band's row zero.
    pub top: usize,
    /// Number of rows in the band.
    pub height: usize,
}

impl Band {
    /// Width and height of the band in pixels.
    pub fn bounds(&self, width: usize) -> (bounds: (usize, usize))
        ensures
            bounds == (width, self.height),
    {
        (width, self.height)
    }

    /// The picture pixel at the band's upper left corner.
    pub fn upper_left_pixel(&self) -> (pixel: (usize, usize))
        ensures
            pixel == (0usize, self.top),
    {
        (0, self.top)
    }

    /// The picture pixel just past the band's lower right corner: one column
    /// right of the last column, one row below the last row.
    pub fn lower_right_pixel(&self, width: usize) -> (pixel: (usize, usize))
        requires
            self.top + self.height <= usize::MAX,
        ensures
            pixel == (width, (self.top + self.height) as usize),
    {
        (width, self.top + self.height)
    }

    /// Number of bytes that the band takes in the picture's buffer.
    pub fn byte_len(&self, width: usize) -> (len: usize)
        requires
            self.height * width * 3 <= usize::MAX,
        ensures
            len == self.height * width * 3,
    {
        assert(self.height * width <= self.height * width * 3) by (nonlinear_arith);
        self.height * width * 3
    }
}

/// Number of bands that a picture of `height` rows is cut into.
pub open spec fn band_count(rows_per_band: int, height: int) -> int {
    (height + rows_per_band - 1) / rows_per_band
}

/// First picture row of band number `index`.
pub open spec fn band_top(index: int, rows_per_band: int) -> int {
    index * rows_per_band
}

/// Number of rows of band number `index`: a full band, or the rest of the
/// picture where less than a full band is left.
pub open spec fn band_height(index: int, rows_per_band: int, height: int) -> int {
    let rest = height - band_top(index, rows_per_band);
    if rest < rows_per_band {
        rest
    } else {
        rows_per_band
    }
}

/// Band number `index` of the picture.
pub open spec fn band_at(index: int, rows_per_band: int, height: int) -> Band {
    Band {
        top: band_top(index, rows_per_band) as usize,
        height: band_height(index, rows_per_band, height) as usize,
    }
}

/// Number of the band that holds picture row `row`.
pub open spec fn band_of_row(row: int, rows_per_band: int) -> int {
    row / rows_per_band
}

/// The bands of a picture, from the top down.
pub open spec fn band_layout(rows_per_band: int, height: int) -> Seq<Band> {
    Seq::new(
        band_count(rows_per_band, height) as nat,
        |index: int| band_at(index, rows_per_band, height),
    )
}

/// A number is the number of a band exactly if that band would start inside
/// the picture.
pub proof fn lemma_band_numbers(index: int, rows_per_band: int, height: int)
    requires
        rows_per_band > 0,
        height >= 0,
        index >= 0,
    ensures
        index < band_count(rows_per_band, height) <==> band_top(index, rows_per_band) < height,
{
    let count = band_count(rows_per_band, height);
    assert(count * rows_per_band <= height + rows_per_band - 1 < (count + 1) * rows_per_band)
        by (nonlinear_arith)
        requires
            rows_per_band > 0,
            count == (height + rows_per_band - 1) / rows_per_band,
    ;
    if index < count {
        assert(index * rows_per_band <= (count - 1) * rows_per_band) by (nonlinear_arith)
            requires
                index <= count - 1,
                rows_per_band > 0,
        ;
        assert((count - 1) * rows_per_band == count * rows_per_band - rows_per_band)
            by (nonlinear_arith);
    } else {
        assert(index * rows_per_band >= count * rows_per_band) by (nonlinear_arith)
            requires
                index >= count,
                rows_per_band > 0,
        ;
        assert((count + 1) * rows_per_band == count * rows_per_band + rows_per_band)
            by (nonlinear_arith);
    }
}

/// A band lies inside the picture, holds at least one row and at most
/// `rows_per_band`, and the next band starts where it ends.
pub proof fn lemma_band_rows(index: int, rows_per_band: int, height: int)
    requires
        rows_per_band > 0,
        height >= 0,
        0 <= index < band_count(rows_per_band, height),
    ensures
        0 <= band_top(index, rows_per_band) < height,
        1 <= band_height(index, rows_per_band, height) <= rows_per_band,
        band_top(index, rows_per_band) + band_height(index, rows_per_band, height) <= height,
        index + 1 < band_count(rows_per_band, height) ==> band_top(index + 1, rows_per_band)
            == band_top(index, rows_per_band) + band_height(index, rows_per_band, height),
        index + 1 == band_count(rows_per_band, height) ==> band_top(index, rows_per_band)
            + band_height(index, rows_per_band, height) == height,
{
    lemma_band_numbers(index, rows_per_band, height);
    lemma_band_numbers(index + 1, rows_per_band, height);
    assert(index * rows_per_band >= 0) by (nonlinear_arith)
        requires
            index >= 0,
            rows_per_band > 0,
    ;
    assert((index + 1) * rows_per_band == index * rows_per_band + rows_per_band)
        by (nonlinear_arith);
}

/// Every row of the picture lies in the band that `band_of_row` names.
pub proof fn lemma_row_in_band(row: int, rows_per_band: int, height: int)
    requires
        rows_per_band > 0,
        0 <= row < height,
    ensures
        0 <= band_of_row(row, rows_per_band) < band_count(rows_per_band, height),
        band_top(band_of_row(row, rows_per_band), rows_per_band) <= row < band_top(
            band_of_row(row, rows_per_band),
            rows_per_band,
        ) + band_height(band_of_row(row, rows_per_band), rows_per_band, height),
{
    let index = row / rows_per_band;
    assert(0 <= index && index * rows_per_band <= row < index * rows_per_band + rows_per_band)
        by (nonlinear_arith)
        requires
            rows_per_band > 0,
            0 <= row,
            index == row / rows_per_band,
    ;
    lemma_band_numbers(index, rows_per_band, height);
}

/// A row lies in no other band: the bands do not overlap.
pub proof fn lemma_band_of_row_unique(index: int, row: int, rows_per_band: int, height: int)
    requires
        rows_per_band > 0,
        0 <= index,
        band_top(index, rows_per_band) <= row < band_top(index, rows_per_band) + band_height(
            index,
            rows_per_band,
            height,
        ),
    ensures
        band_of_row(row, rows_per_band) == index,
{
    assert(row / rows_per_band == index) by (nonlinear_arith)
        requires
            rows_per_band > 0,
            0 <= index,
            index * rows_per_band <= row < index * rows_per_band + rows_per_band,
    ;
}

/// Band number `index` is chunk number `index` of the picture's buffer when
/// the buffer is cut into chunks of `rows_per_band` whole rows, the last chunk
/// taking the rest: the band starts at the chunk's first byte, takes the
/// chunk's length, and its height is that length in whole rows.
pub proof fn lemma_band_is_chunk(index: int, rows_per_band: int, width: int, height: int)
    requires
        rows_per_band > 0,
        width > 0,
        height >= 0,
        0 <= index < band_count(rows_per_band, height),
    ensures
        ({
            let chunk = rows_per_band * width * 3;
            let total = width * height * 3;
            let first = index * chunk;
            let len = if total - first < chunk {
                total - first
            } else {
                chunk
            };
            &&& first == band_top(index, rows_per_band) * width * 3
            &&& first < total
            &&& len == band_height(index, rows_per_band, height) * width * 3
            &&& len / (width * 3) == band_height(index, rows_per_band, height)
        }),
{
    lemma_band_rows(index, rows_per_band, height);
    let top = band_top(index, rows_per_band);
    let rows = band_height(index, rows_per_band, height);
    let row_len = width * 3;
    assert(index * (rows_per_band * width * 3) == top * width * 3) by (nonlinear_arith)
        requires
            top == index * rows_per_band,
    ;
    assert(top * width * 3 == top * row_len && rows * width * 3 == rows * row_len && width
        * height * 3 == height * row_len && rows_per_band * width * 3 == rows_per_band * row_len)
        by (nonlinear_arith)
        requires
            row_len == width * 3,
    ;
    assert(top * row_len < height * row_len) by (nonlinear_arith)
        requires
            0 <= top < height,
            row_len > 0,
    ;
    assert(height * row_len - top * row_len == (height - top) * row_len) by (nonlinear_arith);
    assert((height - top < rows_per_band) == ((height - top) * row_len < rows_per_band * row_len))
        by (nonlinear_arith)
        requires
            row_len > 0,
    ;
    assert((rows * row_len) / row_len == rows) by (nonlinear_arith)
        requires
            row_len > 0,
            rows >= 0,
    ;
}

/// Rows per band for a given number of workers: one more than the rows that
/// each worker would get of an even share.
pub fn rows_per_band(height: usize, workers: usize) -> (rows: usize)
    requires
        workers > 0,
        height / workers < usize::MAX,
    ensures
        rows == height / workers + 1,
{
    height / workers + 1
}

/// The number of processors of this machine, as `num_cpus::get` reports it.
/// Nothing is claimed of the number: it depends on the machine and on the
/// limits set for the process.
#[verifier::external_body]
fn available_workers() -> (workers: usize) {
    num_cpus::get()
}

/// Rows per band for this machine, with one worker per processor: what
/// `checked_rows_per_band` gives for the number of processors that the machine
/// reports, whatever that number is.
pub fn rows_per_band_for_machine(height: usize) -> (rows: Option<usize>)
    ensures
        exists|workers: usize| rows == #[trigger] rows_for_workers(height, workers),
{
    let workers = available_workers();
    checked_rows_per_band(height, workers)
}

/// Rows per band for a number of workers that may be anything: nothing for no
/// worker at all, and nothing where one more than a worker's share of the rows
/// does not fit the machine's integers.
pub open spec fn rows_for_workers(height: usize, workers: usize) -> Option<usize> {
    if workers == 0 || height / workers >= usize::MAX {
        None
    } else {
        Some((height / workers + 1) as usize)
    }
}

/// Rows per band for a number of workers that may be anything. Returns a
/// number exactly where `rows_per_band` can be asked.
pub fn checked_rows_per_band(height: usize, workers: usize) -> (rows: Option<usize>)
    ensures
        rows == rows_for_workers(height, workers),
        rows is Some <==> workers > 0 && height / workers < usize::MAX,
{
    if workers == 0 || height / workers == usize::MAX {
        None
    } else {
        Some(rows_per_band(height, workers))
    }
}

/// With `rows_per_band` rows to a band there are no more bands than workers.
pub proof fn lemma_bands_within_workers(height: int, workers: int)
    requires
        height >= 0,
        workers > 0,
    ensures
        band_count(height / workers + 1, height) <= workers,
{
    let rows = height / workers + 1;
    assert(rows > 0 && workers * rows > height) by (nonlinear_arith)
        requires
            height >= 0,
            workers > 0,
            rows == height / workers + 1,
    ;
    lemma_band_numbers(workers, rows, height);
}

/// Cuts a picture of `height` rows into bands of `rows_per_band` rows.
pub fn split_bands(rows_per_band: usize, height: usize) -> (bands: Vec<Band>)
    requires
        rows_per_band > 0,
    ensures
        bands@ == band_layout(rows_per_band as int, height as int),
{
    let mut bands: Vec<Band> = Vec::new();
    let mut top: usize = 0;
    while top < height
        invariant
            rows_per_band > 0,
            top <= height,
            bands@.len() <= band_count(rows_per_band as int, height as int),
            top == height || top == band_top(bands@.len() as int, rows_per_band as int),
            top == height ==> band_top(bands@.len() as int, rows_per_band as int) >= height,
            forall|k: int|
                0 <= k < bands@.len() ==> bands@[k] == band_at(
                    k,
                    rows_per_band as int,
                    height as int,
                ),
        decreases height - top,
    {
        let rest: usize = height - top;
        let rows: usize = if rest < rows_per_band {
            rest
        } else {
            rows_per_band
        };
        proof {
            let index = bands@.len() as int;
            lemma_band_numbers(index, rows_per_band as int, height as int);
            assert(band_top(index + 1, rows_per_band as int) == band_top(
                index,
                rows_per_band as int,
            ) + rows_per_band) by (nonlinear_arith);
        }
        bands.push(Band { top, height: rows });
        top = top + rows;
    }
    proof {
        let count = bands@.len() as int;
        lemma_band_numbers(count, rows_per_band as int, height as int);
        assert(band_top(0, rows_per_band as int) == 0);
        assert(bands@ =~= band_layout(rows_per_band as int, height as int));
    }
    bands
}

} // verus!
