use cosmic_toys::picker::{draw_label, draw_magnifier, hex_color, render_slice, Capture};

fn px(canvas: &[u8], cw: u32, x: u32, y: u32) -> [u8; 4] {
    let i = ((y * cw + x) * 4) as usize;
    [canvas[i], canvas[i + 1], canvas[i + 2], canvas[i + 3]]
}

/// A `w` x `h` RGBA image whose pixel (x, y) is (x, y, x + y, 255).
fn gradient(w: u32, h: u32) -> Capture {
    let mut raw = Vec::new();
    for y in 0..h {
        for x in 0..w {
            raw.extend_from_slice(&[x as u8, y as u8, (x + y) as u8, 255]);
        }
    }
    Capture::new(raw, w, h).unwrap()
}

#[test]
fn hex_color_is_upper_case() {
    assert_eq!(hex_color(0xFF, 0xEF, 0xCD), "#FFEFCD");
    assert_eq!(hex_color(0x16, 0x00, 0x08), "#160008");
    assert_eq!(hex_color(0, 0, 0), "#000000");
}

#[test]
fn capture_rejects_bad_shapes() {
    assert!(Capture::new(vec![0; 16], 2, 2).is_some());
    assert!(Capture::new(vec![0; 15], 2, 2).is_none());
    assert!(Capture::new(Vec::new(), 0, 0).is_none());
    assert!(Capture::new(Vec::new(), 0, 5).is_none());
    let c = Capture::new(vec![0; 24], 3, 2).unwrap();
    assert_eq!((c.width(), c.height()), (3, 2));
}

#[test]
fn pick_hex_reads_and_clamps() {
    let cap = gradient(10, 10);
    // Output at (4, 2), pointer at (1, 3): image pixel (5, 5).
    assert_eq!(cap.pick_hex(4, 2, 1, 3), "#05050A");
    // Far outside: clamped to the corners.
    assert_eq!(cap.pick_hex(0, 0, -50, -50), "#000000");
    assert_eq!(cap.pick_hex(0, 0, 500, 500), "#090912");
}

#[test]
fn render_slice_shows_the_output_region_as_bgra() {
    let cap = gradient(4, 4);
    let mut c = vec![0u8; 2 * 2 * 4];
    render_slice(&mut c, 2, 2, &cap, 1, 2);
    assert_eq!(px(&c, 2, 0, 0), [3, 2, 1, 0xFF]);
    assert_eq!(px(&c, 2, 1, 1), [5, 3, 2, 0xFF]);
    // An output hanging past the image repeats the edge pixel.
    let mut c = vec![0u8; 2 * 2 * 4];
    render_slice(&mut c, 2, 2, &cap, 3, 3);
    assert_eq!(px(&c, 2, 1, 1), [6, 3, 3, 0xFF]);
}

#[test]
fn magnifier_ring_reticle_and_zoom() {
    let cap = gradient(64, 64);
    let (cw, ch) = (200u32, 200u32);
    let mut c = vec![0u8; (cw * ch * 4) as usize];
    draw_magnifier(&mut c, cw, ch, 100, 100, &cap, 0, 0);
    // Ring: distance 89 from the centre.
    assert_eq!(px(&c, cw, 189, 100), [0xFF, 0xFF, 0xFF, 0xFF]);
    // Outside the lens: untouched.
    assert_eq!(px(&c, cw, 191, 100), [0, 0, 0, 0]);
    assert_eq!(px(&c, cw, 170, 170), [0, 0, 0, 0]);
    // Reticle arm at dx = 4.
    assert_eq!(px(&c, cw, 104, 100), [0, 0, 0, 0xFF]);
    // Centre pixel shows the capture under the cursor (clamped to 63).
    assert_eq!(px(&c, cw, 100, 100), [126, 63, 63, 0xFF]);
    // Near the centre with a small canvas at the cursor (10, 10): dx = 9
    // shows capture pixel 10 + 9 / 8 = 11.
    let mut c = vec![0u8; (cw * ch * 4) as usize];
    draw_magnifier(&mut c, cw, ch, 100, 100, &cap, -90, -90);
    assert_eq!(px(&c, cw, 109, 100), [21, 10, 11, 0xFF]);
    // dx = -9 rounds toward zero: pixel 10 - 1 = 9.
    assert_eq!(px(&c, cw, 91, 100), [19, 10, 9, 0xFF]);
}

#[test]
fn label_pill_swatch_and_text() {
    let (cw, ch) = (200u32, 60u32);
    let mut c = vec![200u8; (cw * ch * 4) as usize];
    draw_label(&mut c, cw, ch, 100, 5, "#FF0000", [255, 0, 0]);
    // Label width: 21 + 8 + (7*15 + 6*3) + 16 = 168, left edge 100 - 84 = 16.
    // Rounded corner: the very corner pixel is skipped.
    assert_eq!(px(&c, cw, 16, 5), [200, 200, 200, 200]);
    // Inside the pill, away from swatch and text: dimmed.
    assert_eq!(px(&c, cw, 20, 9), [55, 55, 55, 0xFF]);
    // Swatch, BGRA.
    assert_eq!(px(&c, cw, 30, 20), [0, 0, 0xFF, 0xFF]);
    // Text starts at 16 + 8 + 21 + 8 = 53: '#' row 0 column 1 is set.
    assert_eq!(px(&c, cw, 53 + 3, 13), [0xFF, 0xFF, 0xFF, 0xFF]);
    // Outside the pill: untouched.
    assert_eq!(px(&c, cw, 10, 20), [200, 200, 200, 200]);
}

#[test]
fn integer_dimming_matches_float_blend() {
    for c in 0..=255u32 {
        let float = (c as u8 as f32 * 0.15 + 25.0) as u8;
        let int = (c * 15 / 100 + 25) as u8;
        assert_eq!(float, int, "channel {c}");
    }
}

#[test]
fn integer_corner_test_matches_float_distance() {
    for xm in 0..4i32 {
        for ym in 0..4i32 {
            let fx = xm as f32 - 4.0;
            let fy = ym as f32 - 4.0;
            let float = (fx * fx + fy * fy).sqrt() > 4.0;
            let int = (xm - 4) * (xm - 4) + (ym - 4) * (ym - 4) > 16;
            assert_eq!(float, int, "({xm},{ym})");
        }
    }
}

#[test]
fn picker_drawing_leaves_bytes_past_the_canvas() {
    let cap = gradient(8, 8);
    let (cw, ch) = (200u32, 60u32);
    let n = (cw * ch * 4) as usize;
    let mut c = vec![0u8; n + 12];
    for b in c.iter_mut().skip(n) {
        *b = 0x5A;
    }
    render_slice(&mut c, cw, ch, &cap, 0, 0);
    draw_magnifier(&mut c, cw, ch, 100, 50, &cap, 0, 0);
    draw_label(&mut c, cw, ch, 100, 40, "#0A0B0C", [10, 11, 12]);
    assert!(c[n..].iter().all(|&b| b == 0x5A));
}
