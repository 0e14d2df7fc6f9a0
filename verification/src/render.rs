//! From modules to pixels.

use crate::drawer::grid::{at, inside, lemma_offset, LIGHT};
use crate::drawer::qr::QR;
use vstd::prelude::*;

verus! {

/// Width in modules of the light margin around a symbol.
pub const QUIET_ZONE: usize = 4;

/// A square picture in grey values, row by row: 0 is black, 255 white.
pub struct Raster {
    /// Number of pixels along one side.
    pub width: usize,
    pub pixels: Vec<u8>,
}

/// The grey value of the pixel in column `px` and row `py` of the picture
/// of a grid: the colour of the module that the pixel falls into, white in
/// the margin.
pub open spec fn pixel_color(grid: Seq<u8>, size: int, scale: int, px: int, py: int) -> u8 {
    let margin = QUIET_ZONE * scale;
    if margin <= px < margin + size * scale && margin <= py < margin + size * scale {
        at(grid, size, (px - margin) / scale, (py - margin) / scale)
    } else {
        LIGHT
    }
}

/// Side length in pixels of the picture of a symbol.
pub open spec fn raster_width(size: int, scale: int) -> int {
    (size + 2 * QUIET_ZONE) * scale
}

/// Whether a raster is the picture of a grid at a scale.
pub open spec fn depicts(raster: Raster, grid: Seq<u8>, size: int, scale: int) -> bool {
    &&& raster.width == raster_width(size, scale)
    &&& raster.pixels@.len() == raster.width * raster.width
    &&& forall|px: int, py: int|
        inside(raster.width as int, px, py) ==> #[trigger] at(
            raster.pixels@,
            raster.width as int,
            px,
            py,
        ) == pixel_color(grid, size, scale, px, py)
}

/// The picture of a symbol: every module a square of `pixel_size` pixels,
/// with a white margin of four modules on all sides.
pub fn render(qr: &QR, pixel_size: usize) -> (raster: Raster)
    requires
        qr.well_formed(),
        1 <= pixel_size <= 100,
    ensures
        depicts(raster, qr.matrix@, qr.size as int, pixel_size as int),
{
    let size: usize = qr.size;
    assert((size + 8) * pixel_size <= 18500 && size * pixel_size <= 17700) by (nonlinear_arith)
        requires
            size <= 177,
            pixel_size <= 100,
    ;
    let margin: usize = QUIET_ZONE * pixel_size;
    let inner: usize = size * pixel_size;
    let width: usize = (size + 2 * QUIET_ZONE) * pixel_size;
    assert(width == inner + 2 * margin) by (nonlinear_arith)
        requires
            width == (size + 8) * pixel_size,
            inner == size * pixel_size,
            margin == 4 * pixel_size,
    ;
    assert(width * width <= 342250000) by (nonlinear_arith)
        requires
            width <= 18500,
    ;
    let mut pixels: Vec<u8> = Vec::new();
    let mut py: usize = 0;
    while py < width
        invariant
            py <= width,
            qr.well_formed(),
            size == qr.size,
            1 <= pixel_size <= 100,
            margin == QUIET_ZONE * pixel_size,
            inner == size * pixel_size,
            width == inner + 2 * margin,
            width <= 18500,
            pixels@.len() == py * width,
            forall|a: int, b: int|
                0 <= a < width && 0 <= b < py ==> #[trigger] pixels@[b * width + a] == pixel_color(
                    qr.matrix@,
                    size as int,
                    pixel_size as int,
                    a,
                    b,
                ),
        decreases width - py,
    {
        let mut px: usize = 0;
        while px < width
            invariant
                px <= width,
                py < width,
                qr.well_formed(),
                size == qr.size,
                1 <= pixel_size <= 100,
                margin == QUIET_ZONE * pixel_size,
                inner == size * pixel_size,
                width == inner + 2 * margin,
                width <= 18500,
                pixels@.len() == py * width + px,
                forall|a: int, b: int|
                    0 <= a < width && 0 <= b < py ==> #[trigger] pixels@[b * width + a]
                        == pixel_color(qr.matrix@, size as int, pixel_size as int, a, b),
                forall|a: int|
                    0 <= a < px ==> #[trigger] pixels@[py * width + a] == pixel_color(
                        qr.matrix@,
                        size as int,
                        pixel_size as int,
                        a,
                        py as int,
                    ),
            decreases width - px,
        {
            let x_inside: bool = px >= margin && px < inner + margin;
            let y_inside: bool = py >= margin && py < inner + margin;
            let color: u8 = if x_inside && y_inside {
                let matrix_x: usize = (px - margin) / pixel_size;
                let matrix_y: usize = (py - margin) / pixel_size;
                assert(matrix_x < size && matrix_y < size) by (nonlinear_arith)
                    requires
                        matrix_x == (px - margin) / (pixel_size as int),
                        matrix_y == (py - margin) / (pixel_size as int),
                        0 <= px - margin < size * pixel_size,
                        0 <= py - margin < size * pixel_size,
                        pixel_size >= 1,
                ;
                qr.get_module(matrix_x, matrix_y)
            } else {
                255
            };
            let ghost before = pixels@;
            pixels.push(color);
            proof {
                assert forall|a: int, b: int| 0 <= a < width && 0 <= b < py implies #[trigger] pixels@[b
                    * width + a] == pixel_color(
                    qr.matrix@,
                    size as int,
                    pixel_size as int,
                    a,
                    b,
                ) by {
                    assert(b * width + a < py * width) by (nonlinear_arith)
                        requires
                            0 <= a < width,
                            0 <= b < py,
                    ;
                    assert(pixels@[b * width + a] == before[b * width + a]);
                }
            }
            px += 1;
        }
        proof {
            assert((py + 1) * width == py * width + width) by (nonlinear_arith);
            assert forall|a: int, b: int| 0 <= a < width && 0 <= b < py + 1 implies #[trigger] pixels@[b
                * width + a] == pixel_color(qr.matrix@, size as int, pixel_size as int, a, b) by {
                if b == py {
                    assert(pixels@[py * width + a] == pixel_color(
                        qr.matrix@,
                        size as int,
                        pixel_size as int,
                        a,
                        py as int,
                    ));
                }
            }
        }
        py += 1;
    }
    let raster = Raster { width, pixels };
    proof {
        assert forall|a: int, b: int| inside(width as int, a, b) implies #[trigger] at(
            raster.pixels@,
            width as int,
            a,
            b,
        ) == pixel_color(qr.matrix@, size as int, pixel_size as int, a, b) by {
            lemma_offset(width as int, a, b);
            assert(raster.pixels@[b * width + a] == pixel_color(
                qr.matrix@,
                size as int,
                pixel_size as int,
                a,
                b,
            ));
        }
    }
    raster
}

} // verus!
