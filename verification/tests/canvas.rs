use chicago_data_bot::canvas::{Canvas, PAPER_LEVEL, WIDTH};
use chicago_data_bot::error::BotError;

fn pixel(c: &Canvas, row: u32, col: u32) -> [u8; 3] {
    let i = ((row * WIDTH + col) * 3) as usize;
    [c.pixels[i], c.pixels[i + 1], c.pixels[i + 2]]
}

#[test]
fn new_canvas_is_paper() {
    let c = Canvas::new(3);
    assert_eq!(c.height, 3);
    assert_eq!(c.pixels.len(), 3 * 1200 * 3);
    assert!(c.pixels.iter().all(|&b| b == PAPER_LEVEL));
}

#[test]
fn rectangles_are_clipped_to_the_card() {
    let mut c = Canvas::new(4);
    c.rect(1198, 2, 10, 10, [1, 2, 3]);
    assert_eq!(pixel(&c, 2, 1198), [1, 2, 3]);
    assert_eq!(pixel(&c, 3, 1199), [1, 2, 3]);
    assert_eq!(pixel(&c, 1, 1199), [248, 248, 248]);
    assert_eq!(pixel(&c, 2, 1197), [248, 248, 248]);
    let painted = c.pixels.iter().filter(|&&b| b != PAPER_LEVEL).count();
    assert_eq!(painted, 2 * 2 * 3);
}

#[test]
fn blending_mixes_channels_and_ignores_pixels_off_the_card() {
    let mut c = Canvas::new(2);
    c.blend(5, 1, [0, 100, 255], 255);
    assert_eq!(pixel(&c, 1, 5), [0, 100, 255]);
    c.blend(6, 1, [0, 0, 0], 0);
    assert_eq!(pixel(&c, 1, 6), [248, 248, 248]);
    c.blend(7, 1, [0, 0, 0], 128);
    // (0 * 128 + 248 * 127) / 255 = 123
    assert_eq!(pixel(&c, 1, 7), [123, 123, 123]);
    let before = c.pixels.clone();
    c.blend(-1, 0, [0, 0, 0], 255);
    c.blend(1200, 0, [0, 0, 0], 255);
    c.blend(0, 2, [0, 0, 0], 255);
    assert_eq!(c.pixels, before);
}

#[test]
fn underlines_skip_glyph_ink() {
    let mut c = Canvas::new(20);
    c.rect(10, 12, 1, 1, [0, 0, 0]);
    assert!(!c.underline_clear(10, 10));
    assert!(c.underline_clear(11, 10));
    c.underline(10, 10, [9, 9, 9]);
    c.underline(11, 10, [9, 9, 9]);
    assert_eq!(pixel(&c, 10, 10), [248, 248, 248]);
    assert_eq!(pixel(&c, 10, 11), [9, 9, 9]);
    assert_eq!(pixel(&c, 11, 11), [9, 9, 9]);
    assert_eq!(pixel(&c, 12, 11), [248, 248, 248]);
    assert!(!c.underline_clear(1200, 5));
}

#[test]
fn cards_encode_as_png_of_the_right_size() {
    let png = Canvas::new(600).png().unwrap();
    assert!(png.len() < 2_000_000);
    assert_eq!(&png[0..8], b"\x89PNG\r\n\x1a\n");
    // IHDR: width then height, big endian.
    assert_eq!(&png[16..20], &1200u32.to_be_bytes());
    assert_eq!(&png[20..24], &600u32.to_be_bytes());
    let _ = BotError::CardTooLarge;
}
