//! The layout of a picture's buffer: row after row, three bytes (red, green,
//! blue) per pixel.

use vstd::prelude::*;

verus! {

/// Number of a pixel in a buffer of rows of `width` pixels.
pub open spec fn pixel_index(width: int, col: int, row: int) -> int {
    row * width + col
}

/// Pixel number `index` of the buffer holds `color`.
pub open spec fn pixel_holds(pixels: Seq<u8>, index: int, color: [u8; 3]) -> bool {
    &&& pixels[3 * index] == color@[0]
    &&& pixels[3 * index + 1] == color@[1]
    &&& pixels[3 * index + 2] == color@[2]
}

/// A pixel inside a band lies inside the band's buffer.
pub proof fn lemma_pixel_fits(width: int, height: int, col: int, row: int)
    requires
        0 <= col < width,
        0 <= row < height,
    ensures
        0 <= pixel_index(width, col, row) < width * height,
        3 * pixel_index(width, col, row) + 3 <= width * height * 3,
{
    assert(row * width + width <= height * width) by (nonlinear_arith)
        requires
            0 <= row < height,
            0 < width,
    ;
    assert(row * width >= 0) by (nonlinear_arith)
        requires
            0 <= row,
            0 < width,
    ;
    assert(height * width == width * height) by (nonlinear_arith);
}

/// Two different pixels of a band have different numbers.
pub proof fn lemma_pixels_apart(width: int, col_a: int, row_a: int, col_b: int, row_b: int)
    requires
        0 <= col_a < width,
        0 <= col_b < width,
        0 <= row_a,
        0 <= row_b,
        col_a != col_b || row_a != row_b,
    ensures
        pixel_index(width, col_a, row_a) != pixel_index(width, col_b, row_b),
{
    if row_a < row_b {
        assert(row_a * width + width <= row_b * width) by (nonlinear_arith)
            requires
                row_a + 1 <= row_b,
                0 < width,
        ;
    } else if row_b < row_a {
        assert(row_b * width + width <= row_a * width) by (nonlinear_arith)
            requires
                row_b + 1 <= row_a,
                0 < width,
        ;
    }
}

/// The rows above row `row` of a picture take `row * width * 3` bytes, which
/// is no more than the whole picture takes.
pub proof fn lemma_row_bytes(width: int, height: int, row: int)
    requires
        0 <= width,
        0 <= row <= height,
    ensures
        0 <= row * (width * 3) <= width * height * 3,
        (width * 3) * height == width * height * 3,
{
    assert(0 <= row * (width * 3) <= height * (width * 3)) by (nonlinear_arith)
        requires
            0 <= width,
            0 <= row <= height,
    ;
    assert(height * (width * 3) == width * height * 3) by (nonlinear_arith);
    assert((width * 3) * height == width * height * 3) by (nonlinear_arith);
}

/// A pixel's place in the picture is its place in its band, moved down by the
/// rows above the band: bands meet without a seam.
pub proof fn lemma_pixel_in_picture(width: int, top: int, col: int, row: int)
    ensures
        pixel_index(width, col, top + row) == top * width + pixel_index(width, col, row),
        3 * pixel_index(width, col, top + row) == top * (width * 3) + 3 * pixel_index(
            width,
            col,
            row,
        ),
{
    assert((top + row) * width == top * width + row * width) by (nonlinear_arith);
    assert(top * (width * 3) == 3 * (top * width)) by (nonlinear_arith);
}

} // verus!
