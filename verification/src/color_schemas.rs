//! Colour schemes, as far as they are decided on integers alone.
//!
//! The palette is a table. The hue rotation picks one of six arrangements of
//! its channels by the hue in whole degrees. The logarithmic mapping guards the
//! count it hands on. The gradients themselves are computed by a shading
//! function that the caller supplies: it takes the scheme, a count and the
//! iteration limit, and returns the colour.

use crate::models::PlotColorSchema;
use vstd::prelude::*;

verus! {

/// Number of entries in the palette.
pub const PALETTE_LEN: usize = 16;

/// The fixed palette, one red-green-blue triple per entry.
pub open spec fn palette_table() -> Seq<Seq<u8>> {
    seq![
        seq![66u8, 30u8, 15u8],
        seq![25u8, 7u8, 26u8],
        seq![9u8, 1u8, 47u8],
        seq![4u8, 4u8, 73u8],
        seq![0u8, 7u8, 100u8],
        seq![12u8, 44u8, 138u8],
        seq![24u8, 82u8, 177u8],
        seq![57u8, 125u8, 209u8],
        seq![134u8, 181u8, 229u8],
        seq![211u8, 236u8, 248u8],
        seq![241u8, 233u8, 191u8],
        seq![248u8, 201u8, 95u8],
        seq![255u8, 170u8, 0u8],
        seq![204u8, 128u8, 0u8],
        seq![153u8, 87u8, 0u8],
        seq![106u8, 52u8, 3u8],
    ]
}

/// The palette colour of an iteration count: the table is walked cyclically.
pub open spec fn palette_color(count: nat) -> Seq<u8> {
    palette_table()[(count % 16) as int]
}

/// Looks the iteration count up in the palette, wrapping every sixteen counts.
pub fn color_palette(count: usize) -> (color: [u8; 3])
    ensures
        color@ == palette_color(count as nat),
{
    let palette: [[u8; 3]; 16] = [
        [66, 30, 15],
        [25, 7, 26],
        [9, 1, 47],
        [4, 4, 73],
        [0, 7, 100],
        [12, 44, 138],
        [24, 82, 177],
        [57, 125, 209],
        [134, 181, 229],
        [211, 236, 248],
        [241, 233, 191],
        [248, 201, 95],
        [255, 170, 0],
        [204, 128, 0],
        [153, 87, 0],
        [106, 52, 3],
    ];
    let color: [u8; 3] = palette[count % PALETTE_LEN];
    assert(color@ =~= palette_color(count as nat));
    color
}

/// The colour of a fully saturated, fully bright hue. The hue, in whole
/// degrees, selects one of six sectors of sixty degrees; in each, one channel is
/// full, one is off, and one holds the `partial` level. Hues of 300 degrees and
/// more all fall into the last sector.
pub open spec fn hue_sector_color(hue: int, partial: u8) -> Seq<u8> {
    if hue < 60 {
        seq![255u8, partial, 0u8]
    } else if hue < 120 {
        seq![partial, 255u8, 0u8]
    } else if hue < 180 {
        seq![0u8, 255u8, partial]
    } else if hue < 240 {
        seq![0u8, partial, 255u8]
    } else if hue < 300 {
        seq![partial, 0u8, 255u8]
    } else {
        seq![255u8, 0u8, partial]
    }
}

/// Arranges the channels of a hue: `hue` is the hue in whole degrees, `partial`
/// the level of the one channel that is neither full nor off.
pub fn hue_rotation(hue: u32, partial: u8) -> (color: [u8; 3])
    ensures
        color@ == hue_sector_color(hue as int, partial),
{
    let color: [u8; 3] = if hue < 60 {
        [255, partial, 0]
    } else if hue < 120 {
        [partial, 255, 0]
    } else if hue < 180 {
        [0, 255, partial]
    } else if hue < 240 {
        [0, partial, 255]
    } else if hue < 300 {
        [partial, 0, 255]
    } else {
        [255, 0, partial]
    };
    assert(color@ =~= hue_sector_color(hue as int, partial));
    color
}

/// The count that the logarithmic mapping works on: the escape count, but at
/// least one, so that its logarithm exists.
pub open spec fn logarithm_count(count: usize) -> usize {
    if count < 1 {
        1
    } else {
        count
    }
}

/// Colours a raw escape count by the logarithmic mapping. The shading function
/// is never handed a count of zero: such a count is raised to one.
pub fn color_logarithmic_mapping<S>(count: usize, limit: usize, shade: &S) -> (color: [u8; 3])
    where S: Fn(PlotColorSchema, usize, usize) -> [u8; 3]
    requires
        call_requires(*shade, (PlotColorSchema::LogarithmicMapping, logarithm_count(count), limit)),
    ensures
        call_ensures(
            *shade,
            (PlotColorSchema::LogarithmicMapping, logarithm_count(count), limit),
            color,
        ),
{
    let raised: usize = if count < 1 {
        1
    } else {
        count
    };
    shade(PlotColorSchema::LogarithmicMapping, raised, limit)
}

/// Counts that differ by a whole number of palette lengths get the same palette
/// colour.
pub proof fn lemma_palette_wraps(count: nat, turns: nat)
    ensures
        palette_color(count + 16 * turns) == palette_color(count),
{
    assert((count + 16 * turns) % 16 == count % 16) by (nonlinear_arith);
}

} // verus!
