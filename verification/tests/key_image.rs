use launchpi::key_image::{draw_icon, encode_key_image, key_canvas, KeyIcon};
use launchpi::panels::RgbaColor;
use launchpi::streamdeck::KEY_IMAGE_BYTES;

#[test]
fn a_blank_face_takes_the_premultiplied_background() {
    let pixels = key_canvas(&Some(RgbaColor { red: 10, green: 20, blue: 30, alpha: 255 }));
    assert_eq!(pixels.len(), KEY_IMAGE_BYTES);
    assert!(pixels.chunks(3).all(|pixel| pixel == [10, 20, 30]));

    let half = key_canvas(&Some(RgbaColor { red: 255, green: 100, blue: 0, alpha: 128 }));
    assert_eq!(&half[0..3], &[128, 50, 0]);
    assert_eq!(&half[KEY_IMAGE_BYTES - 3..], &[128, 50, 0]);
}

#[test]
fn a_face_without_a_background_is_black() {
    let pixels = key_canvas(&None);
    assert_eq!(pixels.len(), KEY_IMAGE_BYTES);
    assert!(pixels.iter().all(|byte| *byte == 0));
}

#[test]
fn a_key_face_encodes_as_a_jpeg_stream() {
    let pixels = key_canvas(&Some(RgbaColor { red: 10, green: 20, blue: 30, alpha: 255 }));
    let image = encode_key_image(pixels, false);
    assert!(image.starts_with(&[0xff, 0xd8]));
    assert!(image.ends_with(&[0xff, 0xd9]));
    assert!(image.len() > 4);
    assert_ne!(image.len(), KEY_IMAGE_BYTES);
}

#[test]
fn a_uniform_face_encodes_the_same_turned_or_not() {
    let pixels = key_canvas(&Some(RgbaColor { red: 200, green: 0, blue: 0, alpha: 255 }));
    let upright = encode_key_image(pixels.clone(), false);
    let turned = encode_key_image(pixels, true);
    assert_eq!(upright, turned);
}

#[test]
fn a_turned_face_differs_from_the_upright_one() {
    let mut pixels = key_canvas(&None);
    pixels[0] = 255;
    pixels[1] = 255;
    pixels[2] = 255;
    let upright = encode_key_image(pixels.clone(), false);
    let turned = encode_key_image(pixels, true);
    assert!(turned.starts_with(&[0xff, 0xd8]));
    assert_ne!(upright, turned);
}

fn pixel(pixels: &[u8], x: usize, y: usize) -> [u8; 3] {
    let offset = (y * 96 + x) * 3;
    [pixels[offset], pixels[offset + 1], pixels[offset + 2]]
}

#[test]
fn a_square_icon_fills_its_box_and_nothing_else() {
    let mut pixels = key_canvas(&None);
    draw_icon(&mut pixels, KeyIcon::Square, (255, 255, 255));
    assert_eq!(pixel(&pixels, 28, 20), [255, 255, 255]);
    assert_eq!(pixel(&pixels, 67, 59), [255, 255, 255]);
    assert_eq!(pixel(&pixels, 27, 20), [0, 0, 0]);
    assert_eq!(pixel(&pixels, 68, 30), [0, 0, 0]);
    assert_eq!(pixel(&pixels, 40, 60), [0, 0, 0]);
    let painted = pixels.chunks(3).filter(|p| p[0] == 255).count();
    assert_eq!(painted, 40 * 40);
}

#[test]
fn a_circle_icon_is_centred_above_the_label() {
    let mut pixels = key_canvas(&Some(RgbaColor { red: 10, green: 20, blue: 30, alpha: 255 }));
    draw_icon(&mut pixels, KeyIcon::Circle, (200, 100, 50));
    assert_eq!(pixel(&pixels, 48, 40), [200, 100, 50]);
    assert_eq!(pixel(&pixels, 66, 40), [200, 100, 50]);
    assert_eq!(pixel(&pixels, 67, 40), [10, 20, 30]);
    assert_eq!(pixel(&pixels, 48, 22), [200, 100, 50]);
    assert_eq!(pixel(&pixels, 48, 21), [10, 20, 30]);
    assert_eq!(pixel(&pixels, 0, 0), [10, 20, 30]);
}

#[test]
fn a_pause_icon_is_two_bars_and_a_triangle_stops_at_its_box() {
    let mut pause = key_canvas(&None);
    draw_icon(&mut pause, KeyIcon::Pause, (1, 2, 3));
    assert_eq!(pixel(&pause, 28, 20), [1, 2, 3]);
    assert_eq!(pixel(&pause, 45, 40), [0, 0, 0]);
    assert_eq!(pixel(&pause, 67, 61), [1, 2, 3]);
    assert_eq!(pixel(&pause, 67, 62), [0, 0, 0]);

    let mut triangle = key_canvas(&None);
    draw_icon(&mut triangle, KeyIcon::Triangle, (9, 9, 9));
    assert_eq!(pixel(&triangle, 48, 20), [9, 9, 9]);
    assert_eq!(pixel(&triangle, 49, 20), [0, 0, 0]);
    assert_eq!(pixel(&triangle, 68, 61), [9, 9, 9]);
    assert_eq!(pixel(&triangle, 48, 62), [0, 0, 0]);
}

#[test]
fn a_face_with_colour_and_icon_encodes_as_a_jpeg() {
    let mut pixels = key_canvas(&Some(RgbaColor { red: 10, green: 20, blue: 30, alpha: 255 }));
    draw_icon(&mut pixels, KeyIcon::Circle, (255, 255, 255));
    let image = encode_key_image(pixels, false);
    assert!(image.starts_with(&[0xff, 0xd8]));
    assert!(image.ends_with(&[0xff, 0xd9]));
}
