use qrgen::drawer::QR;
use qrgen::encoder::ErrorCorrection;
use qrgen::render::{render, QUIET_ZONE};

#[test]
fn picture_has_a_margin_of_four_modules() {
    let qr = QR::create("Pretty cool!", ErrorCorrection::Low).unwrap();
    let raster = render(&qr, 10);
    assert_eq!(QUIET_ZONE, 4);
    assert_eq!(raster.width, 290);
    assert_eq!(raster.pixels.len(), 290 * 290);
    for py in 0..290 {
        for px in 0..290 {
            let inside = (40..250).contains(&px) && (40..250).contains(&py);
            let expected = if inside {
                qr.matrix[(py - 40) / 10 * 21 + (px - 40) / 10]
            } else {
                255
            };
            assert_eq!(raster.pixels[py * 290 + px], expected);
        }
    }
}

#[test]
fn picture_at_scale_one_is_the_grid_in_its_margin() {
    let qr = QR::create("1", ErrorCorrection::High).unwrap();
    let raster = render(&qr, 1);
    assert_eq!(raster.width, 29);
    assert_eq!(raster.pixels[0], 255);
    assert_eq!(raster.pixels[4 * 29 + 4], 0);
    assert_eq!(raster.pixels[4 * 29 + 3], 255);
    assert_eq!(raster.pixels[5 * 29 + 5], 255);
    assert_eq!(raster.pixels[6 * 29 + 6], 0);
    assert_eq!(raster.pixels[28 * 29 + 28], 255);
}
