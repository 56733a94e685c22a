use tp_led_matrix::Color;
use tp_led_matrix::Image;
use tp_led_matrix::output::byte_bits;
use tp_led_matrix::output::row_bytes;

#[test]
fn gamma_keeps_black_and_white_fixed() {
    let c = Color { r: 0, g: 0, b: 255 };
    let g = c.gamma_correct();
    assert_eq!(g.r, 0);
    assert_eq!(g.g, 0);
    assert_eq!(g.b, 255);
}

#[test]
fn gamma_dims_midrange() {
    let c = Color { r: 128, g: 64, b: 1 };
    let g = c.gamma_correct();
    assert_eq!(g.r, 64); // (128 * 128 + 127) / 255
    assert_eq!(g.g, 16); // (64 * 64 + 127) / 255
    assert_eq!(g.b, 0);
}

#[test]
fn div_round_rounds_half_up() {
    let c = Color { r: 255, g: 100, b: 3 };
    let d = c.div_round(2);
    assert_eq!(d.r, 128); // 127.5 rounds up
    assert_eq!(d.g, 50);
    assert_eq!(d.b, 2); // 1.5 rounds up
    let e = c.div_round(57);
    assert_eq!(e.r, 4); // 255 / 57 = 4.47...
}

#[test]
fn solid_image_has_one_color_everywhere() {
    let color = Color { r: 10, g: 20, b: 30 };
    let image = Image::new_solid(color);
    for row in 0..8 {
        for col in 0..8 {
            assert_eq!(image.get(row, col), color);
        }
    }
}

#[test]
fn default_image_is_black() {
    let image = Image::default();
    for row in 0..8 {
        for col in 0..8 {
            assert_eq!(image.get(row, col), Color { r: 0, g: 0, b: 0 });
        }
    }
}

#[test]
fn row_returns_the_requested_row() {
    let mut image = Image::default();
    let marker = Color { r: 1, g: 2, b: 3 };
    image.set_pixel(3, 5, marker);
    let row = image.row(3);
    assert_eq!(row.len(), 8);
    assert_eq!(row[5], marker);
    assert_eq!(row[0], Color { r: 0, g: 0, b: 0 });
}

#[test]
fn set_byte_addresses_pixels_in_wire_order() {
    let mut image = Image::default();
    image.set_byte(0, 9);
    assert_eq!(image.get(0, 0), Color { r: 9, g: 0, b: 0 });
    image.set_byte(5, 7);
    assert_eq!(image.get(0, 1), Color { r: 0, g: 0, b: 7 });
    image.set_byte(191, 42);
    assert_eq!(image.get(7, 7), Color { r: 0, g: 0, b: 42 });
}

#[test]
fn gradient_brightness_falls_off_with_distance() {
    let red = Color { r: 255, g: 0, b: 0 };
    let image = Image::gradient(red);
    // divisor 1 + row * row + col
    assert_eq!(image.get(0, 0), Color { r: 255, g: 0, b: 0 });
    assert_eq!(image.get(0, 1), Color { r: 128, g: 0, b: 0 }); // 255 / 2
    assert_eq!(image.get(1, 0), Color { r: 128, g: 0, b: 0 });
    assert_eq!(image.get(2, 0), Color { r: 51, g: 0, b: 0 }); // 255 / 5
    assert_eq!(image.get(7, 7), Color { r: 4, g: 0, b: 0 }); // 255 / 57
}

#[test]
fn row_bytes_are_reversed_gamma_corrected_bgr() {
    let mut row = Vec::new();
    for _ in 0..7 {
        row.push(Color { r: 0, g: 0, b: 0 });
    }
    row.push(Color { r: 255, g: 128, b: 64 });
    let bytes = row_bytes(&row);
    assert_eq!(bytes.len(), 24);
    // The last pixel of the row goes out first: blue, green, red.
    assert_eq!(bytes[0], 16); // gamma(64)
    assert_eq!(bytes[1], 64); // gamma(128)
    assert_eq!(bytes[2], 255); // gamma(255)
    // The first pixel of the row goes out last.
    assert_eq!(&bytes[21..24], &[0, 0, 0]);
}

#[test]
fn byte_bits_are_most_significant_first() {
    let bits = byte_bits(0b1011_0001);
    assert_eq!(
        bits,
        vec![true, false, true, true, false, false, false, true]
    );
}
