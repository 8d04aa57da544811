//! The picture does not depend on its bands.
//!
//! A pixel is drawn from what the escape function returns for it within its
//! band. Where that answer is the same in whatever band the pixel is asked, the
//! bytes of the picture are the same however the picture is cut, and a band
//! rendered on its own fits into the picture without a seam.

use crate::bands::{band_at, band_of_row, lemma_row_in_band, Band};
use crate::generator::{
    band_escape_returns, band_pixel_drawn, band_rendered, color_follows, picture_pixel_drawn,
    picture_rendered, pixel_drawn,
};
use crate::models::PlotColorSchema;
use crate::pixels::{pixel_holds, pixel_index};
use vstd::prelude::*;

verus! {

/// The shading function gives one colour for each scheme, count and limit.
pub open spec fn shade_is_function<S>(shade: &S) -> bool
    where S: Fn(PlotColorSchema, usize, usize) -> [u8; 3]
{
    forall|schema: PlotColorSchema, count: usize, limit: usize, one: [u8; 3], other: [u8; 3]|
        #[trigger] call_ensures(*shade, (schema, count, limit), one) && #[trigger] call_ensures(
            *shade,
            (schema, count, limit),
            other,
        ) ==> one@ == other@
}

/// The escape function gives one answer for each pixel of the picture, in
/// whatever band the pixel is asked: the answer depends on the pixel's column
/// and on its row counted from the top of the picture.
pub open spec fn escape_agrees_across_bands<E>(escape: &E, limit: usize) -> bool
    where E: Fn(Band, (usize, usize), usize) -> Option<usize>
{
    forall|
        one: Band,
        other: Band,
        here: (usize, usize),
        there: (usize, usize),
        first: Option<usize>,
        second: Option<usize>,
    |
        here.0 == there.0 && one.top + here.1 == other.top + there.1
            && #[trigger] band_escape_returns(escape, one, here, limit, first)
            && #[trigger] band_escape_returns(escape, other, there, limit, second) ==> first
            == second
}

/// Where the shading function gives one colour per input, the colouring rule
/// gives one colour per escape result.
pub proof fn lemma_one_color<S>(
    count: Option<usize>,
    limit: usize,
    color_schema: PlotColorSchema,
    shade: &S,
    one: [u8; 3],
    other: [u8; 3],
)
    where S: Fn(PlotColorSchema, usize, usize) -> [u8; 3]
    requires
        shade_is_function(shade),
        color_follows(count, limit, color_schema, shade, one),
        color_follows(count, limit, color_schema, shade, other),
    ensures
        one@ == other@,
{
}

/// Two drawn pixels whose escape results cannot differ hold the same bytes,
/// where the shading function gives one colour per input.
pub proof fn lemma_drawn_alike<S>(
    one: Seq<u8>,
    here: int,
    counted_here: spec_fn(Option<usize>) -> bool,
    other: Seq<u8>,
    there: int,
    counted_there: spec_fn(Option<usize>) -> bool,
    limit: usize,
    color_schema: PlotColorSchema,
    shade: &S,
)
    where S: Fn(PlotColorSchema, usize, usize) -> [u8; 3]
    requires
        shade_is_function(shade),
        pixel_drawn(one, here, counted_here, limit, color_schema, shade),
        pixel_drawn(other, there, counted_there, limit, color_schema, shade),
        forall|first: Option<usize>, second: Option<usize>|
            #[trigger] counted_here(first) && #[trigger] counted_there(second) ==> first == second,
    ensures
        one[3 * here] == other[3 * there],
        one[3 * here + 1] == other[3 * there + 1],
        one[3 * here + 2] == other[3 * there + 2],
{
    let (k, shown) = choose|k: Option<usize>, shown: [u8; 3]|
        counted_here(k) && #[trigger] color_follows(k, limit, color_schema, shade, shown)
            && pixel_holds(one, here, shown);
    let (m, seen) = choose|m: Option<usize>, seen: [u8; 3]|
        counted_there(m) && #[trigger] color_follows(m, limit, color_schema, shade, seen)
            && pixel_holds(other, there, seen);
    assert(k == m);
    lemma_one_color(k, limit, color_schema, shade, shown, seen);
}

/// One pixel of the picture holds the same bytes under two ways of cutting the
/// picture into bands, on the conditions of `lemma_picture_independent_of_bands`.
pub proof fn lemma_picture_pixels_alike<E, S>(
    one: Seq<u8>,
    rows_one: usize,
    other: Seq<u8>,
    rows_other: usize,
    bounds: (usize, usize),
    col: usize,
    row: usize,
    limit: usize,
    color_schema: PlotColorSchema,
    escape: &E,
    shade: &S,
)
    where
        E: Fn(Band, (usize, usize), usize) -> Option<usize>,
        S: Fn(PlotColorSchema, usize, usize) -> [u8; 3],
    requires
        rows_one > 0,
        rows_other > 0,
        col < bounds.0,
        row < bounds.1,
        picture_pixel_drawn(one, rows_one, bounds, col, row, limit, color_schema, escape, shade),
        picture_pixel_drawn(
            other,
            rows_other,
            bounds,
            col,
            row,
            limit,
            color_schema,
            escape,
            shade,
        ),
        escape_agrees_across_bands(escape, limit),
        shade_is_function(shade),
    ensures
        ({
            let place = pixel_index(bounds.0 as int, col as int, row as int);
            &&& one[3 * place] == other[3 * place]
            &&& one[3 * place + 1] == other[3 * place + 1]
            &&& one[3 * place + 2] == other[3 * place + 2]
        }),
{
    let height = bounds.1 as int;
    let home = band_at(band_of_row(row as int, rows_one as int), rows_one as int, height);
    let away = band_at(band_of_row(row as int, rows_other as int), rows_other as int, height);
    lemma_row_in_band(row as int, rows_one as int, height);
    lemma_row_in_band(row as int, rows_other as int, height);
    let here: (usize, usize) = (col, (row - home.top) as usize);
    let there: (usize, usize) = (col, (row - away.top) as usize);
    let counted_here = |count: Option<usize>| call_ensures(*escape, (home, here, limit), count);
    let counted_there = |count: Option<usize>| call_ensures(*escape, (away, there, limit), count);
    assert forall|first: Option<usize>, second: Option<usize>|
        #[trigger] counted_here(first) && #[trigger] counted_there(second) implies first
        == second by {
        assert(band_escape_returns(escape, home, here, limit, first));
        assert(band_escape_returns(escape, away, there, limit, second));
    }
    let place = pixel_index(bounds.0 as int, col as int, row as int);
    lemma_drawn_alike(
        one,
        place,
        counted_here,
        other,
        place,
        counted_there,
        limit,
        color_schema,
        shade,
    );
}

/// The picture does not depend on how it is cut into bands: two renderings of
/// the same picture with different band heights hold the same bytes, where the
/// escape function agrees across bands and the shading function gives one
/// colour per input.
pub proof fn lemma_picture_independent_of_bands<E, S>(
    one: Seq<u8>,
    rows_one: usize,
    other: Seq<u8>,
    rows_other: usize,
    bounds: (usize, usize),
    limit: usize,
    color_schema: PlotColorSchema,
    escape: &E,
    shade: &S,
)
    where
        E: Fn(Band, (usize, usize), usize) -> Option<usize>,
        S: Fn(PlotColorSchema, usize, usize) -> [u8; 3],
    requires
        rows_one > 0,
        rows_other > 0,
        picture_rendered(one, rows_one, bounds, limit, color_schema, escape, shade),
        picture_rendered(other, rows_other, bounds, limit, color_schema, escape, shade),
        escape_agrees_across_bands(escape, limit),
        shade_is_function(shade),
    ensures
        one == other,
{
    let width = bounds.0 as int;
    let height = bounds.1 as int;
    assert forall|at: int| 0 <= at < one.len() implies one[at] == other[at] by {
        let place = at / 3;
        assert(0 < width && 0 <= place < width * height) by (nonlinear_arith)
            requires
                0 <= at < width * height * 3,
                place == at / 3,
                0 <= width,
                0 <= height,
        ;
        let row = place / width;
        let col = place % width;
        assert(0 <= row < height && 0 <= col < width && row * width + col == place)
            by (nonlinear_arith)
            requires
                0 < width,
                0 <= place < width * height,
                row == place / width,
                col == place % width,
        ;
        lemma_picture_pixels_alike(
            one,
            rows_one,
            other,
            rows_other,
            bounds,
            col as usize,
            row as usize,
            limit,
            color_schema,
            escape,
            shade,
        );
    }
    assert(one =~= other);
}

/// Bands meet without a seam: a pixel rendered as part of a band, wherever the
/// band starts, holds the same bytes as that pixel in a rendering of the whole
/// picture (in one piece, or cut in any other way), on the conditions of
/// `lemma_picture_independent_of_bands`. `local` is the escape function that the
/// band was rendered with: it asks `escape` for the band.
pub proof fn lemma_band_matches_picture<E, L, S>(
    band_pixels: Seq<u8>,
    band: Band,
    local: &L,
    picture: Seq<u8>,
    rows_per_band: usize,
    bounds: (usize, usize),
    col: usize,
    row: usize,
    limit: usize,
    color_schema: PlotColorSchema,
    escape: &E,
    shade: &S,
)
    where
        E: Fn(Band, (usize, usize), usize) -> Option<usize>,
        L: Fn((usize, usize), usize) -> Option<usize>,
        S: Fn(PlotColorSchema, usize, usize) -> [u8; 3],
    requires
        rows_per_band > 0,
        col < bounds.0,
        row < band.height,
        band.top + band.height <= bounds.1,
        band_rendered(band_pixels, (bounds.0, band.height), limit, color_schema, local, shade),
        forall|pixel: (usize, usize), count: Option<usize>|
            #[trigger] call_ensures(*local, (pixel, limit), count) ==> band_escape_returns(
                escape,
                band,
                pixel,
                limit,
                count,
            ),
        picture_rendered(picture, rows_per_band, bounds, limit, color_schema, escape, shade),
        escape_agrees_across_bands(escape, limit),
        shade_is_function(shade),
    ensures
        ({
            let here = pixel_index(bounds.0 as int, col as int, row as int);
            let there = pixel_index(bounds.0 as int, col as int, band.top + row);
            &&& band_pixels[3 * here] == picture[3 * there]
            &&& band_pixels[3 * here + 1] == picture[3 * there + 1]
            &&& band_pixels[3 * here + 2] == picture[3 * there + 2]
        }),
{
    let height = bounds.1 as int;
    let down: usize = (band.top + row) as usize;
    let home = band_at(
        band_of_row(down as int, rows_per_band as int),
        rows_per_band as int,
        height,
    );
    lemma_row_in_band(down as int, rows_per_band as int, height);
    let there: (usize, usize) = (col, (down - home.top) as usize);
    assert(band_pixel_drawn(band_pixels, bounds.0, col, row, limit, color_schema, local, shade));
    assert(picture_pixel_drawn(
        picture,
        rows_per_band,
        bounds,
        col,
        down,
        limit,
        color_schema,
        escape,
        shade,
    ));
    let counted_here = |count: Option<usize>| call_ensures(*local, ((col, row), limit), count);
    let counted_there = |count: Option<usize>| call_ensures(*escape, (home, there, limit), count);
    assert forall|first: Option<usize>, second: Option<usize>|
        #[trigger] counted_here(first) && #[trigger] counted_there(second) implies first
        == second by {
        assert(band_escape_returns(escape, band, (col, row), limit, first));
        assert(band_escape_returns(escape, home, there, limit, second));
    }
    lemma_drawn_alike(
        band_pixels,
        pixel_index(bounds.0 as int, col as int, row as int),
        counted_here,
        picture,
        pixel_index(bounds.0 as int, col as int, down as int),
        counted_there,
        limit,
        color_schema,
        shade,
    );
}

} // verus!
