use cosmic_toys::canvas::{fill_rect, outline_rect, put_pixel};
use cosmic_toys::font::{draw_text, text_height, text_width};

fn px(canvas: &[u8], cw: u32, x: u32, y: u32) -> [u8; 4] {
    let i = ((y * cw + x) * 4) as usize;
    [canvas[i], canvas[i + 1], canvas[i + 2], canvas[i + 3]]
}

#[test]
fn put_pixel_writes_and_clips() {
    let mut c = vec![0u8; 3 * 2 * 4];
    put_pixel(&mut c, 3, 2, 2, 1, [1, 2, 3, 4]);
    assert_eq!(px(&c, 3, 2, 1), [1, 2, 3, 4]);
    let before = c.clone();
    put_pixel(&mut c, 3, 2, 3, 0, [9, 9, 9, 9]);
    put_pixel(&mut c, 3, 2, -1, 0, [9, 9, 9, 9]);
    put_pixel(&mut c, 3, 2, 0, 2, [9, 9, 9, 9]);
    assert_eq!(c, before);
}

#[test]
fn fill_rect_clips_to_canvas() {
    let mut c = vec![0u8; 4 * 4 * 4];
    fill_rect(&mut c, 4, 4, -1, 2, 3, 5, [7, 7, 7, 7]);
    for y in 0..4 {
        for x in 0..4 {
            let inside = x < 2 && y >= 2;
            assert_eq!(px(&c, 4, x, y) == [7, 7, 7, 7], inside, "({x},{y})");
        }
    }
    let before = c.clone();
    fill_rect(&mut c, 4, 4, 0, 0, 0, 3, [1, 1, 1, 1]);
    fill_rect(&mut c, 4, 4, 0, 0, 3, -1, [1, 1, 1, 1]);
    assert_eq!(c, before);
}

#[test]
fn outline_rect_draws_the_border_only() {
    let mut c = vec![0u8; 5 * 5 * 4];
    outline_rect(&mut c, 5, 5, 1, 1, 3, 3, [5, 5, 5, 5]);
    for y in 0..5 {
        for x in 0..5 {
            let border = (1..=3).contains(&x) && (1..=3).contains(&y) && !(x == 2 && y == 2);
            assert_eq!(px(&c, 5, x, y) == [5, 5, 5, 5], border, "({x},{y})");
        }
    }
}

#[test]
fn text_metrics() {
    assert_eq!(text_width("", 3), 0);
    assert_eq!(text_width("#", 1), 5);
    assert_eq!(text_width("#1A2B3C", 3), 7 * 5 * 3 + 6 * 3);
    assert_eq!(text_width("ÉÉ", 2), 2 * 5 * 2 + 2);
    assert_eq!(text_height(3), 21);
}

#[test]
fn draw_text_renders_glyph_bits() {
    // "1" at scale 1: rows 00100, 01100, 00100 x4, 01110.
    let mut c = vec![0u8; 6 * 8 * 4];
    draw_text(&mut c, 6, 8, 0, 0, "1", [10, 20, 30], 1);
    let rows: [u8; 7] = [0b00100, 0b01100, 0b00100, 0b00100, 0b00100, 0b00100, 0b01110];
    for y in 0..8u32 {
        for x in 0..6u32 {
            let on = y < 7 && x < 5 && rows[y as usize] & (1 << (4 - x)) != 0;
            let expect = if on { [30, 20, 10, 0xFF] } else { [0, 0, 0, 0] };
            assert_eq!(px(&c, 6, x, y), expect, "({x},{y})");
        }
    }
}

#[test]
fn draw_text_scales_and_skips_unknown_characters() {
    let mut c = vec![0u8; 24 * 14 * 4];
    draw_text(&mut c, 24, 14, 0, 0, "g#", [255, 255, 255], 2);
    // 'g' has no glyph: its 12-pixel advance stays empty.
    for y in 0..14u32 {
        for x in 0..12u32 {
            assert_eq!(px(&c, 24, x, y), [0, 0, 0, 0]);
        }
    }
    // '#' row 0 is 01010: column 0 stays off, column 1 at scale 2 covers
    // x = 14..=15, rows 0..=1.
    assert_eq!(px(&c, 24, 12, 0), [0, 0, 0, 0]);
    assert_eq!(px(&c, 24, 13, 1), [0, 0, 0, 0]);
    assert_eq!(px(&c, 24, 14, 0), [255, 255, 255, 0xFF]);
    assert_eq!(px(&c, 24, 15, 1), [255, 255, 255, 0xFF]);
    assert_eq!(px(&c, 24, 16, 0), [0, 0, 0, 0]);
}

#[test]
fn draw_text_clips_at_edges() {
    let mut c = vec![0u8; 3 * 3 * 4];
    draw_text(&mut c, 3, 3, -2, -3, "8", [1, 2, 3], 1);
    // Visible part: glyph rows 3..5, columns 2..4 of "8" (01110, 10001, 10001).
    assert_eq!(px(&c, 3, 0, 0), [3, 2, 1, 0xFF]);
    assert_eq!(px(&c, 3, 1, 0), [3, 2, 1, 0xFF]);
    assert_eq!(px(&c, 3, 1, 2), [0, 0, 0, 0]);
    assert_eq!(px(&c, 3, 2, 0), [0, 0, 0, 0]);
    assert_eq!(px(&c, 3, 0, 1), [0, 0, 0, 0]);
    assert_eq!(px(&c, 3, 2, 1), [3, 2, 1, 0xFF]);
}

#[test]
fn drawing_leaves_bytes_past_the_canvas() {
    // A 3 x 2 canvas in a buffer eight bytes longer.
    let mut c = vec![0u8; 3 * 2 * 4 + 8];
    for b in c.iter_mut().skip(24) {
        *b = 0xAB;
    }
    fill_rect(&mut c, 3, 2, -5, -5, 50, 50, [1, 2, 3, 4]);
    outline_rect(&mut c, 3, 2, 0, 0, 3, 2, [5, 6, 7, 8]);
    put_pixel(&mut c, 3, 2, 3, 1, [9, 9, 9, 9]);
    draw_text(&mut c, 3, 2, 0, 0, "888", [7, 7, 7], 4);
    assert!(c[24..].iter().all(|&b| b == 0xAB));
    assert_eq!(px(&c, 3, 2, 1), [5, 6, 7, 8]);
}

#[test]
fn text_width_adds_up_over_concatenation() {
    for scale in 1..4u32 {
        let (a, b) = ("#12", "AB");
        assert_eq!(text_width(&format!("{a}{b}"), scale), text_width(a, scale) + scale + text_width(b, scale));
    }
}
