//! Rendering: from escape counts to colours, from colours to the bytes of a
//! band, and from bands to the whole picture.
//!
//! Two functions come from the caller. The escape function says, for a pixel
//! and an iteration limit, after how many iterations the pixel's point left the
//! escape radius, if it did. The shading function computes the colours of the
//! gradient schemes.

use crate::bands::{
    band_at, band_count, band_height, band_layout, band_of_row, band_top, lemma_band_numbers,
    lemma_band_of_row_unique, lemma_band_rows, split_bands, Band,
};
use crate::color_schemas::{
    color_logarithmic_mapping, color_palette, logarithm_count, palette_color,
};
use crate::models::PlotColorSchema;
use crate::pixels::{
    lemma_pixel_fits, lemma_pixel_in_picture, lemma_pixels_apart, lemma_row_bytes, pixel_holds,
    pixel_index,
};
use vstd::prelude::*;

verus! {

/// The colour of a point that never left the escape radius.
pub open spec fn black() -> Seq<u8> {
    seq![0u8, 0u8, 0u8]
}

/// The shading function can be called for every count that the colouring rule
/// may hand to it under `limit`.
pub open spec fn shade_accepts<S>(shade: &S, limit: usize) -> bool
    where S: Fn(PlotColorSchema, usize, usize) -> [u8; 3]
{
    forall|schema: PlotColorSchema, count: usize|
        schema != PlotColorSchema::Palette && (schema == PlotColorSchema::LogarithmicMapping
            ==> count >= 1) ==> #[trigger] call_requires(*shade, (schema, count, limit))
}

/// The colouring rule: `color` is a colour that an escape result may get.
/// No escape is black in every scheme. The palette is looked up by the count.
/// The logarithmic mapping shades the count raised to at least one, every other
/// scheme shades the count as it is.
pub open spec fn color_follows<S>(
    count: Option<usize>,
    limit: usize,
    color_schema: PlotColorSchema,
    shade: &S,
    color: [u8; 3],
) -> bool
    where S: Fn(PlotColorSchema, usize, usize) -> [u8; 3]
{
    match count {
        None => color@ == black(),
        Some(count) => match color_schema {
            PlotColorSchema::Palette => color@ == palette_color(count as nat),
            PlotColorSchema::LogarithmicMapping => call_ensures(
                *shade,
                (color_schema, logarithm_count(count), limit),
                color,
            ),
            _ => call_ensures(*shade, (color_schema, count, limit), color),
        },
    }
}

/// Turns an escape result into a colour by the colouring rule.
pub fn escape_time_to_color<S>(
    count: Option<usize>,
    limit: usize,
    color_schema: PlotColorSchema,
    shade: &S,
) -> (color: [u8; 3])
    where S: Fn(PlotColorSchema, usize, usize) -> [u8; 3]
    requires
        limit > 0,
        shade_accepts(shade, limit),
    ensures
        color_follows(count, limit, color_schema, shade, color),
{
    match count {
        None => {
            let color: [u8; 3] = [0, 0, 0];
            assert(color@ =~= black());
            color
        },
        Some(count) => match color_schema {
            PlotColorSchema::Palette => color_palette(count),
            PlotColorSchema::LogarithmicMapping => color_logarithmic_mapping(count, limit, shade),
            _ => shade(color_schema, count, limit),
        },
    }
}

/// Pixel number `index` of the buffer holds a colour that the colouring rule
/// gives to one of the escape results that `counted` admits.
pub open spec fn pixel_drawn<S>(
    pixels: Seq<u8>,
    index: int,
    counted: spec_fn(Option<usize>) -> bool,
    limit: usize,
    color_schema: PlotColorSchema,
    shade: &S,
) -> bool
    where S: Fn(PlotColorSchema, usize, usize) -> [u8; 3]
{
    exists|count: Option<usize>, color: [u8; 3]|
        counted(count) && #[trigger] color_follows(count, limit, color_schema, shade, color)
            && pixel_holds(pixels, index, color)
}

/// Pixel (`col`, `row`) of a band is drawn from what the escape function
/// returns for it.
pub open spec fn band_pixel_drawn<E, S>(
    pixels: Seq<u8>,
    width: usize,
    col: usize,
    row: usize,
    limit: usize,
    color_schema: PlotColorSchema,
    escape: &E,
    shade: &S,
) -> bool
    where
        E: Fn((usize, usize), usize) -> Option<usize>,
        S: Fn(PlotColorSchema, usize, usize) -> [u8; 3],
{
    pixel_drawn(
        pixels,
        pixel_index(width as int, col as int, row as int),
        |count: Option<usize>| call_ensures(*escape, ((col, row), limit), count),
        limit,
        color_schema,
        shade,
    )
}

/// The buffer holds a band of `bounds.0` by `bounds.1` pixels in which every
/// pixel is drawn from what the escape function returns for it.
pub open spec fn band_rendered<E, S>(
    pixels: Seq<u8>,
    bounds: (usize, usize),
    limit: usize,
    color_schema: PlotColorSchema,
    escape: &E,
    shade: &S,
) -> bool
    where
        E: Fn((usize, usize), usize) -> Option<usize>,
        S: Fn(PlotColorSchema, usize, usize) -> [u8; 3],
{
    &&& pixels.len() == bounds.0 * bounds.1 * 3
    &&& forall|col: usize, row: usize|
        col < bounds.0 && row < bounds.1 ==> #[trigger] band_pixel_drawn(
            pixels,
            bounds.0,
            col,
            row,
            limit,
            color_schema,
            escape,
            shade,
        )
}

/// The escape function can be called for every pixel of a band, under `limit`.
pub open spec fn escape_accepts<E>(escape: &E, bounds: (usize, usize), limit: usize) -> bool
    where E: Fn((usize, usize), usize) -> Option<usize>
{
    forall|col: usize, row: usize|
        col < bounds.0 && row < bounds.1 ==> #[trigger] call_requires(
            *escape,
            ((col, row), limit),
        )
}

/// Renders one band into its slice of the picture: for every pixel, asks the
/// escape function, colours the result and writes the three bytes.
pub fn render<E, S>(
    pixels: &mut [u8],
    bounds: (usize, usize),
    limit: usize,
    color_schema: PlotColorSchema,
    escape: &E,
    shade: &S,
)
    where
        E: Fn((usize, usize), usize) -> Option<usize>,
        S: Fn(PlotColorSchema, usize, usize) -> [u8; 3],
    requires
        old(pixels)@.len() == bounds.0 * bounds.1 * 3,
        limit > 0,
        escape_accepts(escape, bounds, limit),
        shade_accepts(shade, limit),
    ensures
        band_rendered(final(pixels)@, bounds, limit, color_schema, escape, shade),
{
    let width: usize = bounds.0;
    let height: usize = bounds.1;
    let total: usize = pixels.len();
    let mut row: usize = 0;
    while row < height
        invariant
            width == bounds.0,
            height == bounds.1,
            row <= height,
            pixels@.len() == width * height * 3,
            pixels@.len() == total,
            limit > 0,
            escape_accepts(escape, bounds, limit),
            shade_accepts(shade, limit),
            forall|c: usize, r: usize|
                c < width && r < row ==> #[trigger] band_pixel_drawn(
                    pixels@,
                    width,
                    c,
                    r,
                    limit,
                    color_schema,
                    escape,
                    shade,
                ),
        decreases height - row,
    {
        let mut col: usize = 0;
        while col < width
            invariant
                width == bounds.0,
                height == bounds.1,
                row < height,
                col <= width,
                pixels@.len() == width * height * 3,
                pixels@.len() == total,
                limit > 0,
                escape_accepts(escape, bounds, limit),
                shade_accepts(shade, limit),
                forall|c: usize, r: usize|
                    c < width && (r < row || (r == row && c < col)) ==> #[trigger] band_pixel_drawn(
                        pixels@,
                        width,
                        c,
                        r,
                        limit,
                        color_schema,
                        escape,
                        shade,
                    ),
            decreases width - col,
        {
            let count = escape((col, row), limit);
            let color = escape_time_to_color(count, limit, color_schema, shade);
            proof {
                lemma_pixel_fits(width as int, height as int, col as int, row as int);
            }
            let at: usize = (row * width + col) * 3;
            let ghost before = pixels@;
            pixels[at] = color[0];
            pixels[at + 1] = color[1];
            pixels[at + 2] = color[2];
            proof {
                let now = pixels@;
                assert(pixel_holds(now, pixel_index(width as int, col as int, row as int), color));
                assert forall|c: usize, r: usize|
                    c < width && (r < row || (r == row && c < col + 1))
                    implies #[trigger] band_pixel_drawn(
                    now,
                    width,
                    c,
                    r,
                    limit,
                    color_schema,
                    escape,
                    shade,
                ) by {
                    if r == row && c == col {
                        let counted = |k: Option<usize>| call_ensures(*escape, ((c, r), limit), k);
                        assert(counted(count));
                    } else {
                        lemma_pixels_apart(
                            width as int,
                            c as int,
                            r as int,
                            col as int,
                            row as int,
                        );
                        lemma_pixel_fits(width as int, height as int, c as int, r as int);
                        let counted = |k: Option<usize>| call_ensures(*escape, ((c, r), limit), k);
                        let index = pixel_index(width as int, c as int, r as int);
                        assert(band_pixel_drawn(
                            before,
                            width,
                            c,
                            r,
                            limit,
                            color_schema,
                            escape,
                            shade,
                        ));
                        let (k, shown) = choose|k: Option<usize>, shown: [u8; 3]|
                            counted(k) && #[trigger] color_follows(
                                k,
                                limit,
                                color_schema,
                                shade,
                                shown,
                            ) && pixel_holds(before, index, shown);
                        assert(pixel_holds(now, index, shown));
                    }
                }
            }
            col += 1;
        }
        row += 1;
    }
}

/// The escape function can be called for a pixel of a band.
pub open spec fn band_escape_accepts<E>(
    escape: &E,
    band: Band,
    pixel: (usize, usize),
    limit: usize,
) -> bool
    where E: Fn(Band, (usize, usize), usize) -> Option<usize>
{
    call_requires(*escape, (band, pixel, limit))
}

/// The escape function may return `count` for a pixel of a band.
pub open spec fn band_escape_returns<E>(
    escape: &E,
    band: Band,
    pixel: (usize, usize),
    limit: usize,
    count: Option<usize>,
) -> bool
    where E: Fn(Band, (usize, usize), usize) -> Option<usize>
{
    call_ensures(*escape, (band, pixel, limit), count)
}

/// Pixel (`col`, `row`) of the whole picture is drawn from what the escape
/// function returns for it inside its band: the function is asked with the
/// band and with the pixel's place in that band.
pub open spec fn picture_pixel_drawn<E, S>(
    pixels: Seq<u8>,
    rows_per_band: usize,
    bounds: (usize, usize),
    col: usize,
    row: usize,
    limit: usize,
    color_schema: PlotColorSchema,
    escape: &E,
    shade: &S,
) -> bool
    where
        E: Fn(Band, (usize, usize), usize) -> Option<usize>,
        S: Fn(PlotColorSchema, usize, usize) -> [u8; 3],
{
    let band = band_at(
        band_of_row(row as int, rows_per_band as int),
        rows_per_band as int,
        bounds.1 as int,
    );
    pixel_drawn(
        pixels,
        pixel_index(bounds.0 as int, col as int, row as int),
        |count: Option<usize>|
            call_ensures(*escape, (band, (col, (row - band.top) as usize), limit), count),
        limit,
        color_schema,
        shade,
    )
}

/// The buffer holds the whole picture, every pixel drawn within its band.
pub open spec fn picture_rendered<E, S>(
    pixels: Seq<u8>,
    rows_per_band: usize,
    bounds: (usize, usize),
    limit: usize,
    color_schema: PlotColorSchema,
    escape: &E,
    shade: &S,
) -> bool
    where
        E: Fn(Band, (usize, usize), usize) -> Option<usize>,
        S: Fn(PlotColorSchema, usize, usize) -> [u8; 3],
{
    &&& pixels.len() == bounds.0 * bounds.1 * 3
    &&& forall|col: usize, row: usize|
        col < bounds.0 && row < bounds.1 ==> #[trigger] picture_pixel_drawn(
            pixels,
            rows_per_band,
            bounds,
            col,
            row,
            limit,
            color_schema,
            escape,
            shade,
        )
}

/// The escape function can be called for every pixel of every band of the
/// picture, under `limit`.
pub open spec fn picture_escape_accepts<E>(
    escape: &E,
    rows_per_band: usize,
    bounds: (usize, usize),
    limit: usize,
) -> bool
    where E: Fn(Band, (usize, usize), usize) -> Option<usize>
{
    forall|index: int, col: usize, row: usize|
        0 <= index < band_count(rows_per_band as int, bounds.1 as int) && col < bounds.0 && row
            < band_height(index, rows_per_band as int, bounds.1 as int)
            ==> #[trigger] call_requires(
            *escape,
            (band_at(index, rows_per_band as int, bounds.1 as int), (col, row), limit),
        )
}

/// Renders the whole picture: cuts it into bands of `rows_per_band` rows and
/// renders each band into its own part of the buffer. Within a band the escape
/// function is asked with the band and the pixel's place in it, so that it can
/// map the pixel through the band's own corners.
pub fn generate<E, S>(
    rows_per_band: usize,
    bounds: (usize, usize),
    limit: usize,
    color_schema: PlotColorSchema,
    escape: &E,
    shade: &S,
) -> (pixels: Vec<u8>)
    where
        E: Fn(Band, (usize, usize), usize) -> Option<usize>,
        S: Fn(PlotColorSchema, usize, usize) -> [u8; 3],
    requires
        rows_per_band > 0,
        bounds.0 > 0,
        bounds.1 > 0,
        bounds.0 * bounds.1 * 3 <= usize::MAX,
        limit > 0,
        picture_escape_accepts(escape, rows_per_band, bounds, limit),
        shade_accepts(shade, limit),
    ensures
        picture_rendered(pixels@, rows_per_band, bounds, limit, color_schema, escape, shade),
{
    let width: usize = bounds.0;
    let height: usize = bounds.1;
    proof {
        lemma_row_bytes(width as int, height as int, height as int);
        lemma_row_bytes(width as int, height as int, 1);
        lemma_band_numbers(0, rows_per_band as int, height as int);
    }
    let row_len: usize = width * 3;
    let total: usize = row_len * height;
    let mut pixels: Vec<u8> = vec![0u8; total];
    let bands = split_bands(rows_per_band, height);
    let ghost mut drawn: int = 0;
    let mut index: usize = 0;
    while index < bands.len()
        invariant
            width == bounds.0,
            height == bounds.1,
            width > 0,
            rows_per_band > 0,
            limit > 0,
            row_len == width * 3,
            total == width * height * 3,
            pixels@.len() == total,
            bands@ == band_layout(rows_per_band as int, height as int),
            index <= bands@.len(),
            0 <= drawn <= height,
            index < bands@.len() ==> drawn == band_top(index as int, rows_per_band as int),
            index == bands@.len() ==> drawn == height,
            picture_escape_accepts(escape, rows_per_band, bounds, limit),
            shade_accepts(shade, limit),
            forall|col: usize, row: usize|
                col < width && row < drawn ==> #[trigger] picture_pixel_drawn(
                    pixels@,
                    rows_per_band,
                    bounds,
                    col,
                    row,
                    limit,
                    color_schema,
                    escape,
                    shade,
                ),
        decreases bands@.len() - index,
    {
        let band: Band = bands[index];
        proof {
            lemma_band_rows(index as int, rows_per_band as int, height as int);
            lemma_row_bytes(width as int, height as int, band.top as int);
            lemma_row_bytes(width as int, height as int, band.top + band.height);
            assert((band.top + band.height) * (width * 3) == band.top * (width * 3) + band.height
                * (width * 3)) by (nonlinear_arith);
        }
        let offset: usize = band.top * row_len;
        let len: usize = band.height * row_len;
        let local = |pixel: (usize, usize), cap: usize| -> (count: Option<usize>)
            requires
                band_escape_accepts(escape, band, pixel, cap),
            ensures
                band_escape_returns(escape, band, pixel, cap, count),
            { escape(band, pixel, cap) };
        let ghost before = pixels@;
        let ghost mut chunk_after: Seq<u8> = Seq::empty();
        {
            let whole: &mut [u8] = pixels.as_mut_slice();
            let (_, tail) = whole.split_at_mut(offset);
            let (chunk, _) = tail.split_at_mut(len);
            assert(chunk@.len() == width * band.height * 3) by (nonlinear_arith)
                requires
                    chunk@.len() == band.height * (width * 3),
            ;
            render(chunk, (width, band.height), limit, color_schema, &local, shade);
            proof {
                chunk_after = chunk@;
            }
        }
        proof {
            let now = pixels@;
            assert(now.len() == total);
            assert(forall|i: int| 0 <= i < offset ==> now[i] == before[i]);
            assert(forall|i: int| 0 <= i < len ==> now[offset + i] == chunk_after[i]);
            assert forall|col: usize, row: usize|
                col < width && row < drawn + band.height implies #[trigger] picture_pixel_drawn(
                    now,
                    rows_per_band,
                    bounds,
                    col,
                    row,
                    limit,
                    color_schema,
                    escape,
                    shade,
                ) by {
                let home = band_at(
                    band_of_row(row as int, rows_per_band as int),
                    rows_per_band as int,
                    height as int,
                );
                let counted = |count: Option<usize>|
                    call_ensures(*escape, (home, (col, (row - home.top) as usize), limit), count);
                let place = pixel_index(width as int, col as int, row as int);
                if row < drawn {
                    assert(picture_pixel_drawn(
                        before,
                        rows_per_band,
                        bounds,
                        col,
                        row,
                        limit,
                        color_schema,
                        escape,
                        shade,
                    ));
                    let (k, shown) = choose|k: Option<usize>, shown: [u8; 3]|
                        counted(k) && #[trigger] color_follows(k, limit, color_schema, shade, shown)
                            && pixel_holds(before, place, shown);
                    lemma_pixel_fits(width as int, drawn, col as int, row as int);
                    assert(drawn * width * 3 == offset) by (nonlinear_arith)
                        requires
                            offset == drawn * (width * 3),
                    ;
                    assert(width * drawn * 3 == drawn * width * 3) by (nonlinear_arith);
                    assert(pixel_holds(now, place, shown));
                } else {
                    let inner: usize = (row - band.top) as usize;
                    lemma_band_of_row_unique(
                        index as int,
                        row as int,
                        rows_per_band as int,
                        height as int,
                    );
                    assert(home == band);
                    assert(band_pixel_drawn(
                        chunk_after,
                        width,
                        col,
                        inner,
                        limit,
                        color_schema,
                        &local,
                        shade,
                    ));
                    let within = |count: Option<usize>|
                        call_ensures(local, ((col, inner), limit), count);
                    let spot = pixel_index(width as int, col as int, inner as int);
                    let (k, shown) = choose|k: Option<usize>, shown: [u8; 3]|
                        within(k) && #[trigger] color_follows(k, limit, color_schema, shade, shown)
                            && pixel_holds(chunk_after, spot, shown);
                    assert(counted(k));
                    lemma_pixel_fits(width as int, band.height as int, col as int, inner as int);
                    lemma_pixel_in_picture(width as int, band.top as int, col as int, inner as int);
                    assert(width * band.height * 3 == len) by (nonlinear_arith)
                        requires
                            len == band.height * (width * 3),
                    ;
                    assert(pixel_holds(now, place, shown));
                }
            }
            drawn = drawn + band.height;
            if index + 1 < bands@.len() {
                lemma_band_rows(index + 1, rows_per_band as int, height as int);
            }
        }
        index += 1;
    }
    pixels
}

} // verus!
