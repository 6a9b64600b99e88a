use cosmic_toys::ocr::{
    build_selected_text, copy_preview, hit, parse_tsv, selected_range, tsv_rows_of, PointerInput,
    Selection, Word, LEFT_BUTTON,
};
use cosmic_toys::ocr_draw::draw_ocr_overlay;

fn word(x: i32, y: i32, w: i32, h: i32, text: &str, block: u32, par: u32, line: u32, n: u32) -> Word {
    Word { x, y, w, h, text: text.to_string(), block, par, line, word_num: n }
}

const TSV: &str = "level\tpage_num\tblock_num\tpar_num\tline_num\tword_num\tleft\ttop\twidth\theight\tconf\ttext\n\
1\t1\t0\t0\t0\t0\t0\t0\t800\t600\t-1\t\n\
5\t1\t1\t1\t1\t1\t10\t20\t30\t12\t96.5\tHello\n\
5\t1\t1\t1\t1\t2\t45\t20\t40\t12\t12.0\tnoise\n\
5\t1\t1\t1\t2\t1\t10\t40\t50\t12\t91\t  World  \n\
5\t1\t1\t1\t2\t2\t70\t40\t5\t12\t90\t   \n";

#[test]
fn tsv_rows_skip_the_header() {
    let rows = tsv_rows_of(TSV);
    assert_eq!(rows.len(), 5);
    assert_eq!(rows[1][11], "Hello");
    assert_eq!(rows[1][10], "96.5");
}

#[test]
fn parse_tsv_keeps_confident_words_with_text() {
    // The verdicts on the confidence column, row by row (floor 30).
    let confident = vec![false, true, false, true, true];
    let words = parse_tsv(TSV, &confident);
    assert_eq!(words.len(), 2);
    assert_eq!(words[0].text, "Hello");
    assert_eq!((words[0].x, words[0].y, words[0].w, words[0].h), (10, 20, 30, 12));
    assert_eq!((words[0].block, words[0].par, words[0].line, words[0].word_num), (1, 1, 1, 1));
    assert_eq!(words[1].text, "World");
    assert_eq!(words[1].line, 2);
}

#[test]
fn parse_tsv_missing_verdicts_count_as_not_confident() {
    let words = parse_tsv(TSV, &vec![false, true]);
    assert_eq!(words.len(), 1);
    assert!(parse_tsv("", &Vec::new()).is_empty());
}

#[test]
fn parse_tsv_unparsable_numbers_read_as_zero() {
    let tsv = "header\n5\t1\tx\t1\t1\t1\t-7\t?\t30\t12\t99\tword\n";
    let words = parse_tsv(tsv, &vec![true]);
    assert_eq!(words.len(), 1);
    assert_eq!(words[0].block, 0);
    assert_eq!(words[0].x, -7);
    assert_eq!(words[0].y, 0);
}

#[test]
fn selection_range_and_text() {
    let words = vec![
        word(0, 0, 10, 10, "one", 1, 1, 1, 1),
        word(12, 0, 10, 10, "two", 1, 1, 1, 2),
        word(0, 12, 10, 10, "three", 1, 1, 2, 1),
    ];
    assert_eq!(selected_range(Some(2), Some(0)), Some((0, 2)));
    assert_eq!(selected_range(None, Some(0)), None);
    assert_eq!(build_selected_text(&words, Some(2), Some(0)), "one two\nthree");
    assert_eq!(build_selected_text(&words, Some(1), Some(1)), "two");
    assert_eq!(build_selected_text(&words, Some(1), Some(9)), "two\nthree");
    assert_eq!(build_selected_text(&words, Some(5), Some(9)), "");
    assert_eq!(build_selected_text(&words, None, None), "");
}

#[test]
fn hit_finds_the_first_box() {
    let words = vec![word(0, 0, 10, 10, "a", 1, 1, 1, 1), word(5, 5, 10, 10, "b", 1, 1, 1, 2)];
    assert_eq!(hit(&words, 7, 7), Some(0));
    assert_eq!(hit(&words, 12, 12), Some(1));
    assert_eq!(hit(&words, 10, 2), None);
    assert_eq!(hit(&words, -1, 0), None);
}

#[test]
fn click_drag_release_copies() {
    let mut s = Selection::new();
    assert!(s.pointer(PointerInput::Motion { hit: Some(0) }));
    assert!(!s.pointer(PointerInput::Motion { hit: Some(0) }));
    assert!(s.pointer(PointerInput::Press { button: LEFT_BUTTON, hit: Some(0) }));
    assert!(s.dragging);
    assert!(s.pointer(PointerInput::Motion { hit: Some(2) }));
    assert_eq!((s.anchor, s.cursor), (Some(0), Some(2)));
    assert!(!s.pointer(PointerInput::Release { button: LEFT_BUTTON }));
    assert!(s.copy_on_exit && s.exit && !s.dragging);
}

#[test]
fn other_buttons_and_misses() {
    let mut s = Selection::new();
    assert!(!s.pointer(PointerInput::Press { button: 0x111, hit: Some(1) }));
    assert_eq!(s.anchor, None);
    assert!(s.pointer(PointerInput::Press { button: LEFT_BUTTON, hit: Some(1) }));
    assert!(s.pointer(PointerInput::Press { button: LEFT_BUTTON, hit: None }));
    assert_eq!((s.anchor, s.cursor, s.dragging), (None, None, false));
    s.pointer(PointerInput::Release { button: LEFT_BUTTON });
    assert!(!s.copy_on_exit && !s.exit);
    assert!(!s.pointer(PointerInput::Leave));
    s.pointer(PointerInput::Motion { hit: Some(3) });
    assert!(s.pointer(PointerInput::Leave));
    assert_eq!(s.hovered, None);
}

#[test]
fn escape_leaves_without_copying() {
    let mut s = Selection::new();
    s.pointer(PointerInput::Press { button: LEFT_BUTTON, hit: Some(1) });
    s.escape();
    assert!(s.exit && !s.copy_on_exit);
}

#[test]
fn preview_flattens_and_cuts() {
    assert_eq!(copy_preview("a\nb"), "a b");
    let long: String = std::iter::repeat('x').take(61).collect();
    let expect: String = std::iter::repeat('x').take(60).collect::<String>() + "…";
    assert_eq!(copy_preview(&long), expect);
    let sixty: String = std::iter::repeat('y').take(60).collect();
    assert_eq!(copy_preview(&sixty), sixty);
}

fn px(canvas: &[u8], cw: u32, x: u32, y: u32) -> [u8; 4] {
    let i = ((y * cw + x) * 4) as usize;
    [canvas[i], canvas[i + 1], canvas[i + 2], canvas[i + 3]]
}

#[test]
fn overlay_underlines_highlights_and_outlines() {
    let words = vec![
        word(12, 12, 6, 4, "a", 1, 1, 1, 1),
        word(22, 13, 6, 4, "b", 1, 1, 1, 2),
        word(12, 30, 6, 4, "c", 1, 1, 2, 1),
        word(22, 30, 6, 4, "d", 1, 1, 2, 2),
    ];
    let (sw, sh) = (40u32, 40u32);
    let mut c = vec![9u8; (sw * sh * 4) as usize];
    // Output at (2, 2); words 0 and 1 selected; word 3 hovered.
    draw_ocr_overlay(&mut c, sw, sh, &words, 2, 2, Some(1), Some(0), Some(3));
    let tint = [(246u32 * 110 / 255) as u8, (130u32 * 110 / 255) as u8, (59u32 * 110 / 255) as u8, 110];
    assert_eq!(tint, [106, 56, 25, 110]);
    // The selected line: one strip from x 10 to 25, y 8 to 16 (2 rows of
    // padding above and below).
    assert_eq!(px(&c, sw, 10, 8), tint);
    assert_eq!(px(&c, sw, 25, 16), tint);
    assert_eq!(px(&c, sw, 18, 10), tint);
    assert_eq!(px(&c, sw, 26, 10), [0, 0, 0, 0]);
    assert_eq!(px(&c, sw, 10, 17), [0, 0, 0, 0]);
    // Word 2: underline on its bottom row.
    assert_eq!(px(&c, sw, 10, 31), [50, 50, 50, 50]);
    assert_eq!(px(&c, sw, 15, 31), [50, 50, 50, 50]);
    assert_eq!(px(&c, sw, 12, 29), [0, 0, 0, 0]);
    // Word 3: outline.
    assert_eq!(px(&c, sw, 20, 28), [140, 140, 140, 140]);
    assert_eq!(px(&c, sw, 25, 31), [140, 140, 140, 140]);
    assert_eq!(px(&c, sw, 21, 29), [0, 0, 0, 0]);
}

#[test]
fn overlay_without_selection_is_transparent_outside_marks() {
    let words = vec![word(100, 100, 6, 4, "far", 1, 1, 1, 1)];
    let mut c = vec![7u8; 8 * 8 * 4];
    draw_ocr_overlay(&mut c, 8, 8, &words, 0, 0, None, None, None);
    assert!(c.iter().all(|&b| b == 0));
}

#[test]
fn reading_order_sorts_by_keys_and_keeps_ties() {
    let words = vec![
        word(50, 0, 5, 5, "c", 1, 1, 2, 1),
        word(10, 0, 5, 5, "b", 1, 1, 1, 2),
        word(30, 0, 5, 5, "a2", 1, 1, 1, 1),
        word(30, 0, 5, 5, "a1", 1, 1, 1, 1),
        word(5, 0, 5, 5, "z", 0, 9, 9, 9),
        word(20, 0, 5, 5, "a0", 1, 1, 1, 1),
    ];
    let sorted = cosmic_toys::ocr::sort_reading_order(words);
    let texts: Vec<&str> = sorted.iter().map(|w| w.text.as_str()).collect();
    assert_eq!(texts, vec!["z", "a0", "a2", "a1", "b", "c"]);
    assert!(cosmic_toys::ocr::sort_reading_order(Vec::new()).is_empty());
}

#[test]
fn overlay_keeps_bytes_past_the_canvas_and_takes_far_coordinates() {
    let words = vec![
        word(i32::MAX - 3, 0, 10, 4, "edge", 1, 1, 1, 1),
        word(1, 1, 2, 2, "near", 1, 1, 1, 2),
    ];
    let mut c = vec![7u8; 4 * 4 * 4 + 4];
    draw_ocr_overlay(&mut c, 4, 4, &words, i32::MIN, 0, Some(0), Some(1), None);
    assert_eq!(&c[64..], &[7, 7, 7, 7]);
    // Output at i32::MIN: every word lies far to its right, off the canvas.
    assert!(c[..64].iter().all(|&b| b == 0));
}
