//! Rendering of the OCR overlay for one output: the selection painted as a
//! tinted strip per text line, every other word underlined, and the word
//! under the pointer outlined.

use vstd::prelude::*;
use crate::canvas::{
    canvas_fits, fill_rect, in_rect, lemma_painted_twice, on_canvas, on_outline, painted, pixel_byte,
    tail_kept,
};
use crate::ocr::{range_of, selected_range, Word};

verus! {

/// Alpha of the underline every unselected word gets.
pub const UNDERLINE_ALPHA: u8 = 50;

/// Alpha of the outline around the hovered word.
pub const HOVER_OUTLINE_ALPHA: u8 = 140;

/// Red, green and blue of the selection tint.
pub const HIGHLIGHT_R: u8 = 59;

pub const HIGHLIGHT_G: u8 = 130;

pub const HIGHLIGHT_B: u8 = 246;

/// Alpha of the selection tint: the text underneath still reads through.
pub const HIGHLIGHT_ALPHA: u8 = 110;

/// Rows added above and below each highlighted line so the fill reads as
/// one strip rather than tight boxes.
pub const HIGHLIGHT_VPAD: i32 = 2;

/// A value within the range of `i32`.
pub open spec fn in_i32(v: int) -> bool {
    i32::MIN <= v <= i32::MAX
}

/// A value within twice the range of `i32`: a sum of two `i32` values.
pub open spec fn in_two_i32(v: int) -> bool {
    2 * i32::MIN <= v <= 2 * i32::MAX
}

/// The premultiplied BGRA selection tint.
pub open spec fn highlight() -> Seq<u8> {
    seq![
        (HIGHLIGHT_B * HIGHLIGHT_ALPHA / 255) as u8,
        (HIGHLIGHT_G * HIGHLIGHT_ALPHA / 255) as u8,
        (HIGHLIGHT_R * HIGHLIGHT_ALPHA / 255) as u8,
        HIGHLIGHT_ALPHA,
    ]
}

/// The (block, paragraph, line) a word belongs to.
pub open spec fn line_key(w: Word) -> (u32, u32, u32) {
    (w.block, w.par, w.line)
}

/// The box `(x0, y0, x1, y1)` enclosing the words of `ws[lo..hi]` on line
/// `key`; `None` when none is.
pub open spec fn line_bounds(ws: Seq<Word>, lo: int, hi: int, key: (u32, u32, u32)) -> Option<
    (int, int, int, int),
>
    decreases hi - lo,
{
    if hi <= lo {
        None
    } else {
        let prev = line_bounds(ws, lo, hi - 1, key);
        let w = ws[hi - 1];
        if line_key(w) == key {
            match prev {
                None => Some((w.x as int, w.y as int, w.x + w.w, w.y + w.h)),
                Some((a, b, c, d)) => Some(
                    (
                        if w.x < a {
                            w.x as int
                        } else {
                            a
                        },
                        if w.y < b {
                            w.y as int
                        } else {
                            b
                        },
                        if w.x + w.w > c {
                            w.x + w.w
                        } else {
                            c
                        },
                        if w.y + w.h > d {
                            w.y + w.h
                        } else {
                            d
                        },
                    ),
                ),
            }
        } else {
            prev
        }
    }
}

/// The strip painted for a line with box `b`, in output coordinates.
pub open spec fn strip_rect_covers(b: (int, int, int, int), ox: int, oy: int, px: int, py: int) -> bool {
    in_rect(
        b.0 - ox,
        b.1 - oy - HIGHLIGHT_VPAD,
        b.2 - b.0,
        b.3 - b.1 + HIGHLIGHT_VPAD * 2,
        px,
        py,
    )
}

/// The end (exclusive) of the selected words that exist.
pub open spec fn selection_end(n: int, range: Option<(usize, usize)>) -> int {
    match range {
        None => 0,
        Some((lo, hi)) => if hi + 1 < n {
            hi + 1
        } else {
            n
        },
    }
}

pub open spec fn selection_start(range: Option<(usize, usize)>) -> int {
    match range {
        None => 0,
        Some((lo, hi)) => lo as int,
    }
}

/// Pixel `(px, py)` lies in the strip of the line of selected word `j`.
pub open spec fn strip_of_covers(
    ws: Seq<Word>,
    lo: int,
    end: int,
    j: int,
    ox: int,
    oy: int,
    px: int,
    py: int,
) -> bool {
    strip_rect_covers(line_bounds(ws, lo, end, line_key(ws[j]))->0, ox, oy, px, py)
}

/// Pixel `(px, py)` lies in the strip of some selected line.
pub open spec fn in_selection_strip(
    ws: Seq<Word>,
    range: Option<(usize, usize)>,
    ox: int,
    oy: int,
    px: int,
    py: int,
) -> bool {
    let lo = selection_start(range);
    let end = selection_end(ws.len() as int, range);
    exists|j: int| lo <= j < end && #[trigger] strip_of_covers(ws, lo, end, j, ox, oy, px, py)
}

pub open spec fn is_selected(range: Option<(usize, usize)>, i: int) -> bool {
    match range {
        None => false,
        Some((lo, hi)) => lo <= i <= hi,
    }
}

/// The word's box meets the `sw` x `sh` output (the test the drawing uses
/// to skip words).
pub open spec fn word_visible(w: Word, ox: int, oy: int, sw: u32, sh: u32) -> bool {
    !(w.x - ox + w.w <= 0 || w.y - oy + w.h <= 0 || w.x - ox >= sw || w.y - oy >= sh)
}

/// The mark of a word: its outline when hovered, else the underline along
/// its bottom row.
pub open spec fn mark_covers(w: Word, hovered: bool, ox: int, oy: int, px: int, py: int) -> bool {
    if hovered {
        on_outline(w.x - ox, w.y - oy, w.w as int, w.h as int, px, py)
    } else {
        in_rect(w.x - ox, w.y - oy + w.h - 1, w.w as int, 1, px, py)
    }
}

pub open spec fn mark_color(hovered: bool) -> Seq<u8> {
    if hovered {
        seq![HOVER_OUTLINE_ALPHA, HOVER_OUTLINE_ALPHA, HOVER_OUTLINE_ALPHA, HOVER_OUTLINE_ALPHA]
    } else {
        seq![UNDERLINE_ALPHA, UNDERLINE_ALPHA, UNDERLINE_ALPHA, UNDERLINE_ALPHA]
    }
}

/// The colour of the last of the first `n` words whose mark covers
/// `(px, py)`; `None` when no mark does. Selected words and words off the
/// output get no mark.
pub open spec fn top_mark(
    ws: Seq<Word>,
    n: int,
    range: Option<(usize, usize)>,
    hovered: Option<usize>,
    ox: int,
    oy: int,
    sw: u32,
    sh: u32,
    px: int,
    py: int,
) -> Option<Seq<u8>>
    decreases n,
{
    if n <= 0 {
        None
    } else {
        let i = n - 1;
        let h = hovered == Some(i as usize);
        if !is_selected(range, i) && word_visible(ws[i], ox, oy, sw, sh) && mark_covers(
            ws[i],
            h,
            ox,
            oy,
            px,
            py,
        ) {
            Some(mark_color(h))
        } else {
            top_mark(ws, n - 1, range, hovered, ox, oy, sw, sh, px, py)
        }
    }
}

/// Byte `k` of pixel `(px, py)` once the first `n` words are marked: the
/// topmost of their marks, else the selection tint, else transparent.
pub open spec fn layered_byte(
    ws: Seq<Word>,
    n: int,
    range: Option<(usize, usize)>,
    hovered: Option<usize>,
    ox: int,
    oy: int,
    sw: u32,
    sh: u32,
    px: int,
    py: int,
    k: int,
) -> u8 {
    match top_mark(ws, n, range, hovered, ox, oy, sw, sh, px, py) {
        Some(c) => c[k],
        None => if in_selection_strip(ws, range, ox, oy, px, py) {
            highlight()[k]
        } else {
            0
        },
    }
}

/// Byte `k` of pixel `(px, py)` of the overlay: the topmost word mark, else
/// the selection tint, else transparent.
pub open spec fn overlay_byte(
    ws: Seq<Word>,
    range: Option<(usize, usize)>,
    hovered: Option<usize>,
    ox: int,
    oy: int,
    sw: u32,
    sh: u32,
    px: int,
    py: int,
    k: int,
) -> u8 {
    layered_byte(ws, ws.len() as int, range, hovered, ox, oy, sw, sh, px, py, k)
}

/// The enclosing box of one selected line, as the drawing accumulates it.
struct LineBox {
    key: (u32, u32, u32),
    x0: i64,
    y0: i64,
    x1: i64,
    y1: i64,
}

impl LineBox {
    spec fn bounds(self) -> (int, int, int, int) {
        (self.x0 as int, self.y0 as int, self.x1 as int, self.y1 as int)
    }
}

proof fn lemma_line_bounds_absent(ws: Seq<Word>, lo: int, hi: int, key: (u32, u32, u32))
    requires
        forall|j: int| lo <= j < hi ==> line_key(#[trigger] ws[j]) != key,
    ensures
        line_bounds(ws, lo, hi, key) is None,
    decreases hi - lo,
{
    if hi > lo {
        lemma_line_bounds_absent(ws, lo, hi - 1, key);
    }
}

proof fn lemma_line_bounds_small(ws: Seq<Word>, lo: int, hi: int, key: (u32, u32, u32))
    requires
        0 <= lo,
        hi <= ws.len(),
    ensures
        line_bounds(ws, lo, hi, key) matches Some(b) ==> in_i32(b.0) && in_i32(b.1) && in_two_i32(b.2)
            && in_two_i32(b.3),
    decreases hi - lo,
{
    if hi > lo {
        lemma_line_bounds_small(ws, lo, hi - 1, key);
    }
}

/// Each recorded line carries the box of its words in `ws[lo..i]`.
spec fn lines_boxed(lines: Seq<LineBox>, ws: Seq<Word>, lo: int, i: int) -> bool {
    forall|t: int|
        0 <= t < lines.len() ==> line_bounds(ws, lo, i, (#[trigger] lines[t]).key) == Some(lines[t].bounds())
}

/// No line is recorded twice.
spec fn lines_distinct(lines: Seq<LineBox>) -> bool {
    forall|t: int, u: int|
        0 <= t < lines.len() && 0 <= u < lines.len() && t != u ==> (#[trigger] lines[t]).key
            != (#[trigger] lines[u]).key
}

/// Every recorded line is the line of one of the words `ws[lo..i]`.
spec fn lines_from_words(lines: Seq<LineBox>, ws: Seq<Word>, lo: int, i: int) -> bool {
    forall|t: int|
        0 <= t < lines.len() ==> exists|j: int|
            lo <= j < i && line_key(#[trigger] ws[j]) == (#[trigger] lines[t]).key
}

/// The line of every word of `ws[lo..i]` is recorded.
spec fn words_in_lines(lines: Seq<LineBox>, ws: Seq<Word>, lo: int, i: int) -> bool {
    forall|j: int|
        lo <= j < i ==> exists|t: int|
            0 <= t < lines.len() && (#[trigger] lines[t]).key == line_key(#[trigger] ws[j])
}

/// The lines recorded for `words[lo..i]`: each with the box of its words,
/// no line twice, every line one of those words', every word's line
/// recorded.
spec fn lines_of_words(lines: Seq<LineBox>, ws: Seq<Word>, lo: int, i: int) -> bool {
    &&& lines_boxed(lines, ws, lo, i)
    &&& lines_distinct(lines)
    &&& lines_from_words(lines, ws, lo, i)
    &&& words_in_lines(lines, ws, lo, i)
}

/// Index of the recorded line `key`, or `lines.len()` when none is.
fn find_line(lines: &Vec<LineBox>, key: (u32, u32, u32)) -> (r: usize)
    ensures
        r <= lines.len(),
        r < lines.len() ==> lines@[r as int].key == key,
        forall|u: int| 0 <= u < r ==> (#[trigger] lines@[u]).key != key,
{
    let mut t: usize = 0;
    while t < lines.len()
        invariant
            t <= lines.len(),
            forall|u: int| 0 <= u < t ==> (#[trigger] lines@[u]).key != key,
        decreases lines.len() - t,
    {
        if lines[t].key.0 == key.0 && lines[t].key.1 == key.1 && lines[t].key.2 == key.2 {
            return t;
        }
        t += 1;
    }
    t
}

/// The box of a line after word `w` joins it.
spec fn widened(b: (int, int, int, int), w: Word) -> (int, int, int, int) {
    (
        if w.x < b.0 {
            w.x as int
        } else {
            b.0
        },
        if w.y < b.1 {
            w.y as int
        } else {
            b.1
        },
        if w.x + w.w > b.2 {
            w.x + w.w
        } else {
            b.2
        },
        if w.y + w.h > b.3 {
            w.y + w.h
        } else {
            b.3
        },
    )
}

proof fn lemma_widen_boxed(before: Seq<LineBox>, nb: LineBox, ws: Seq<Word>, lo: int, i: int, t: int)
    requires
        lo <= i < ws.len(),
        lines_boxed(before, ws, lo, i),
        lines_distinct(before),
        0 <= t < before.len(),
        before[t].key == line_key(ws[i]),
        nb.key == before[t].key,
        nb.bounds() == widened(before[t].bounds(), ws[i]),
    ensures
        lines_boxed(before.update(t, nb), ws, lo, i + 1),
{
    let after = before.update(t, nb);
    assert forall|u: int|
        0 <= u < after.len() implies line_bounds(ws, lo, i + 1, (#[trigger] after[u]).key) == Some(
        after[u].bounds(),
    ) by {
        if u != t {
            assert(before[u].key != before[t].key);
            assert(after[u] == before[u]);
        }
    }
}

proof fn lemma_widen_keys(before: Seq<LineBox>, nb: LineBox, ws: Seq<Word>, lo: int, i: int, t: int)
    requires
        lo <= i < ws.len(),
        lines_distinct(before),
        lines_from_words(before, ws, lo, i),
        words_in_lines(before, ws, lo, i),
        0 <= t < before.len(),
        before[t].key == line_key(ws[i]),
        nb.key == before[t].key,
    ensures
        lines_distinct(before.update(t, nb)),
        lines_from_words(before.update(t, nb), ws, lo, i + 1),
        words_in_lines(before.update(t, nb), ws, lo, i + 1),
{
    let after = before.update(t, nb);
    assert forall|u: int|
        0 <= u < after.len() implies exists|j: int|
        lo <= j < i + 1 && line_key(#[trigger] ws[j]) == (#[trigger] after[u]).key by {
        assert(after[u].key == before[u].key);
        let j = choose|j: int| lo <= j < i && line_key(#[trigger] ws[j]) == (#[trigger] before[u]).key;
        assert(lo <= j < i + 1 && line_key(ws[j]) == after[u].key);
    }
    assert forall|j: int| lo <= j < i + 1 implies exists|u: int|
        0 <= u < after.len() && (#[trigger] after[u]).key == line_key(#[trigger] ws[j]) by {
        if j == i {
            assert(after[t].key == line_key(ws[j]));
        } else {
            let u = choose|u: int|
                0 <= u < before.len() && (#[trigger] before[u]).key == line_key(#[trigger] ws[j]);
            assert(after[u].key == before[u].key);
        }
    }
    assert forall|a: int, b: int|
        0 <= a < after.len() && 0 <= b < after.len() && a != b implies (#[trigger] after[a]).key
        != (#[trigger] after[b]).key by {
        assert(after[a].key == before[a].key && after[b].key == before[b].key);
    }
}

proof fn lemma_new_line(before: Seq<LineBox>, after: Seq<LineBox>, ws: Seq<Word>, lo: int, i: int)
    requires
        lo <= i < ws.len(),
        lines_of_words(before, ws, lo, i),
        forall|u: int| 0 <= u < before.len() ==> (#[trigger] before[u]).key != line_key(ws[i]),
        after.len() == before.len() + 1,
        after.last().key == line_key(ws[i]),
        after.last().bounds() == (ws[i].x as int, ws[i].y as int, ws[i].x + ws[i].w, ws[i].y + ws[i].h),
        forall|u: int| 0 <= u < before.len() ==> after[u] == before[u],
    ensures
        lines_of_words(after, ws, lo, i + 1),
{
    let key = line_key(ws[i]);
    assert forall|j: int| lo <= j < i implies line_key(#[trigger] ws[j]) != key by {
        if line_key(ws[j]) == key {
            let u = choose|u: int|
                0 <= u < before.len() && (#[trigger] before[u]).key == line_key(#[trigger] ws[j]);
            assert(before[u].key == key);
        }
    }
    lemma_line_bounds_absent(ws, lo, i, key);
    assert forall|u: int|
        0 <= u < after.len() implies line_bounds(ws, lo, i + 1, (#[trigger] after[u]).key) == Some(
        after[u].bounds(),
    ) by {
        if u < before.len() {
            assert(after[u] == before[u]);
        }
    }
    assert forall|u: int|
        0 <= u < after.len() implies exists|j: int|
        lo <= j < i + 1 && line_key(#[trigger] ws[j]) == (#[trigger] after[u]).key by {
        if u < before.len() {
            assert(after[u] == before[u]);
            let j = choose|j: int| lo <= j < i && line_key(#[trigger] ws[j]) == (#[trigger] before[u]).key;
            assert(lo <= j < i + 1 && line_key(ws[j]) == after[u].key);
        } else {
            assert(line_key(ws[i]) == after[u].key);
        }
    }
    assert forall|j: int| lo <= j < i + 1 implies exists|u: int|
        0 <= u < after.len() && (#[trigger] after[u]).key == line_key(#[trigger] ws[j]) by {
        if j == i {
            assert(after[before.len() as int].key == line_key(ws[j]));
        } else {
            let u = choose|u: int|
                0 <= u < before.len() && (#[trigger] before[u]).key == line_key(#[trigger] ws[j]);
            assert(after[u].key == before[u].key);
        }
    }
    assert forall|a: int, b: int|
        0 <= a < after.len() && 0 <= b < after.len() && a != b implies (#[trigger] after[a]).key
        != (#[trigger] after[b]).key by {
        if a < before.len() && b < before.len() {
            assert(after[a] == before[a] && after[b] == before[b]);
        } else if a < before.len() {
            assert(after[a] == before[a]);
        } else {
            assert(after[b] == before[b]);
        }
    }
}

/// Records word `i` in the lines of `words[lo..i]`.
fn add_word(lines: &mut Vec<LineBox>, words: &Vec<Word>, lo: usize, i: usize)
    requires
        lo <= i < words.len(),
        lines_of_words(old(lines)@, words@, lo as int, i as int),
    ensures
        lines_of_words(final(lines)@, words@, lo as int, i + 1),
{
    let w = &words[i];
    let key = (w.block, w.par, w.line);
    let right = w.x as i64 + w.w as i64;
    let bottom = w.y as i64 + w.h as i64;
    let t = find_line(lines, key);
    let ghost before = lines@;
    proof {
        lemma_line_bounds_small(words@, lo as int, i as int, key);
    }
    if t < lines.len() {
        let old_box = &lines[t];
        let nb = LineBox {
            key,
            x0: if (w.x as i64) < old_box.x0 {
                w.x as i64
            } else {
                old_box.x0
            },
            y0: if (w.y as i64) < old_box.y0 {
                w.y as i64
            } else {
                old_box.y0
            },
            x1: if right > old_box.x1 {
                right
            } else {
                old_box.x1
            },
            y1: if bottom > old_box.y1 {
                bottom
            } else {
                old_box.y1
            },
        };
        let ghost g = nb;
        lines.set(t, nb);
        proof {
            lemma_widen_boxed(before, g, words@, lo as int, i as int, t as int);
            lemma_widen_keys(before, g, words@, lo as int, i as int, t as int);
            assert(lines@ == before.update(t as int, g));
        }
    } else {
        lines.push(LineBox { key, x0: w.x as i64, y0: w.y as i64, x1: right, y1: bottom });
        proof {
            lemma_new_line(before, lines@, words@, lo as int, i as int);
        }
    }
}

/// The boxes of the lines of `words[lo..end]`, one per line, in order of
/// first appearance.
fn group_lines(words: &Vec<Word>, lo: usize, end: usize) -> (lines: Vec<LineBox>)
    requires
        lo <= end <= words.len(),
    ensures
        lines_of_words(lines@, words@, lo as int, end as int),
{
    let mut lines: Vec<LineBox> = Vec::new();
    let mut i: usize = lo;
    while i < end
        invariant
            lo <= i <= end <= words.len(),
                lines_of_words(lines@, words@, lo as int, i as int),
        decreases end - i,
    {
        add_word(&mut lines, words, lo, i);
        i += 1;
    }
    lines
}

/// Pixel `(px, py)` lies in the strip of recorded line `u`.
spec fn strip_at(lines: Seq<LineBox>, u: int, ox: int, oy: int, px: int, py: int) -> bool {
    strip_rect_covers(lines[u].bounds(), ox, oy, px, py)
}

spec fn in_strips(lines: Seq<LineBox>, n: int, ox: int, oy: int, px: int, py: int) -> bool {
    exists|u: int| 0 <= u < n && #[trigger] strip_at(lines, u, ox, oy, px, py)
}

proof fn lemma_strips_match(
    lines: Seq<LineBox>,
    ws: Seq<Word>,
    range: Option<(usize, usize)>,
    lo: int,
    end: int,
    ox: int,
    oy: int,
    px: int,
    py: int,
)
    requires
        lo == selection_start(range),
        end == selection_end(ws.len() as int, range),
        lines_of_words(lines, ws, lo, end) || (lines.len() == 0 && end <= lo),
    ensures
        in_strips(lines, lines.len() as int, ox, oy, px, py) == in_selection_strip(ws, range, ox, oy, px, py),
{
    if in_strips(lines, lines.len() as int, ox, oy, px, py) {
        let u = choose|u: int| 0 <= u < lines.len() && #[trigger] strip_at(lines, u, ox, oy, px, py);
        assert(lines_from_words(lines, ws, lo, end));
        let j = choose|j: int| lo <= j < end && line_key(#[trigger] ws[j]) == (#[trigger] lines[u]).key;
        assert(lines_boxed(lines, ws, lo, end));
        assert(line_bounds(ws, lo, end, lines[u].key) == Some(lines[u].bounds()));
        assert(strip_of_covers(ws, lo, end, j, ox, oy, px, py));
    }
    if in_selection_strip(ws, range, ox, oy, px, py) {
        let j = choose|j: int| lo <= j < end && #[trigger] strip_of_covers(ws, lo, end, j, ox, oy, px, py);
        assert(words_in_lines(lines, ws, lo, end));
        let u = choose|u: int| 0 <= u < lines.len() && (#[trigger] lines[u]).key == line_key(#[trigger] ws[j]);
        assert(lines_boxed(lines, ws, lo, end));
        assert(line_bounds(ws, lo, end, lines[u].key) == Some(lines[u].bounds()));
        assert(strip_at(lines, u, ox, oy, px, py));
    }
}

/// The part of the `w` x `h` rectangle at `(x, y)` that lies on a
/// `sw` x `sh` canvas, as `i32` coordinates (empty when nothing of it does).
fn clip_rect(x: i64, y: i64, w: i64, h: i64, sw: u32, sh: u32) -> (r: (i32, i32, i32, i32))
    requires
        sw <= i32::MAX,
        sh <= i32::MAX,
        -0x1_0000_0000_0000 <= x <= 0x1_0000_0000_0000,
        -0x1_0000_0000_0000 <= y <= 0x1_0000_0000_0000,
        -0x1_0000_0000_0000 <= w <= 0x1_0000_0000_0000,
        -0x1_0000_0000_0000 <= h <= 0x1_0000_0000_0000,
    ensures
        r.2 > 0 && r.3 > 0 ==> r.0 + r.2 - 1 <= i32::MAX && r.1 + r.3 - 1 <= i32::MAX,
        forall|px: int, py: int|
            on_canvas(sw, sh, px, py) ==> (in_rect(r.0 as int, r.1 as int, r.2 as int, r.3 as int, px, py)
                <==> in_rect(x as int, y as int, w as int, h as int, px, py)),
{
    if w <= 0 || h <= 0 {
        return (0, 0, 0, 0);
    }
    let x0: i64 = if x < 0 {
        0
    } else {
        x
    };
    let y0: i64 = if y < 0 {
        0
    } else {
        y
    };
    let x1: i64 = if x + w > sw as i64 {
        sw as i64
    } else {
        x + w
    };
    let y1: i64 = if y + h > sh as i64 {
        sh as i64
    } else {
        y + h
    };
    if x1 <= x0 || y1 <= y0 {
        return (0, 0, 0, 0);
    }
    (x0 as i32, y0 as i32, (x1 - x0) as i32, (y1 - y0) as i32)
}

/// Fills the `w` x `h` rectangle at `(x, y)`, given in wide coordinates,
/// clipped to the canvas.
fn fill_wide(canvas: &mut [u8], sw: u32, sh: u32, x: i64, y: i64, w: i64, h: i64, color: [u8; 4])
    requires
        canvas_fits(old(canvas)@, sw, sh),
        sw <= i32::MAX,
        sh <= i32::MAX,
        -0x1_0000_0000_0000 <= x <= 0x1_0000_0000_0000,
        -0x1_0000_0000_0000 <= y <= 0x1_0000_0000_0000,
        -0x1_0000_0000_0000 <= w <= 0x1_0000_0000_0000,
        -0x1_0000_0000_0000 <= h <= 0x1_0000_0000_0000,
    ensures
        painted(
            final(canvas)@,
            old(canvas)@,
            sw,
            sh,
            |px: int, py: int| in_rect(x as int, y as int, w as int, h as int, px, py),
            color@,
        ),
{
    let r = clip_rect(x, y, w, h, sw, sh);
    fill_rect(canvas, sw, sh, r.0, r.1, r.2, r.3, color);
    let ghost c1 = canvas@;
    assert forall|px: int, py: int, k: int|
        on_canvas(sw, sh, px, py) && 0 <= k < 4 implies #[trigger] pixel_byte(c1, sw as int, px, py, k)
            == if in_rect(x as int, y as int, w as int, h as int, px, py) {
            color@[k]
        } else {
            pixel_byte(old(canvas)@, sw as int, px, py, k)
        } by {
        assert(in_rect(r.0 as int, r.1 as int, r.2 as int, r.3 as int, px, py) <==> in_rect(
            x as int,
            y as int,
            w as int,
            h as int,
            px,
            py,
        ));
    }
}

/// Paints the strip of every recorded line onto a cleared canvas.
fn paint_strips(canvas: &mut [u8], sw: u32, sh: u32, lines: &Vec<LineBox>, ox: i32, oy: i32, color: [u8; 4])
    requires
        canvas_fits(old(canvas)@, sw, sh),
        0 < sw <= i32::MAX,
        0 < sh <= i32::MAX,
        forall|u: int|
            0 <= u < lines.len() ==> in_i32((#[trigger] lines@[u]).x0 as int) && in_i32(lines@[u].y0 as int)
                && in_two_i32(lines@[u].x1 as int) && in_two_i32(lines@[u].y1 as int),
        forall|px: int, py: int, k: int|
            on_canvas(sw, sh, px, py) && 0 <= k < 4 ==> #[trigger] pixel_byte(old(canvas)@, sw as int, px, py, k)
                == 0,
    ensures
        tail_kept(final(canvas)@, old(canvas)@, sw, sh),
        forall|px: int, py: int, k: int|
            on_canvas(sw, sh, px, py) && 0 <= k < 4 ==> #[trigger] pixel_byte(final(canvas)@, sw as int, px, py, k)
                == if in_strips(lines@, lines@.len() as int, ox as int, oy as int, px, py) {
                color@[k]
            } else {
                0
            },
{
    let ghost c0 = canvas@;
    let mut t: usize = 0;
    while t < lines.len()
        invariant
            t <= lines.len(),
            canvas_fits(canvas@, sw, sh),
            tail_kept(canvas@, c0, sw, sh),
            0 < sw <= i32::MAX,
            0 < sh <= i32::MAX,
            forall|u: int|
                0 <= u < lines.len() ==> in_i32((#[trigger] lines@[u]).x0 as int) && in_i32(lines@[u].y0 as int)
                    && in_two_i32(lines@[u].x1 as int) && in_two_i32(lines@[u].y1 as int),
            forall|px: int, py: int, k: int|
                on_canvas(sw, sh, px, py) && 0 <= k < 4 ==> #[trigger] pixel_byte(canvas@, sw as int, px, py, k)
                    == if in_strips(lines@, t as int, ox as int, oy as int, px, py) {
                    color@[k]
                } else {
                    0
                },
        decreases lines.len() - t,
    {
        let b = &lines[t];
        assert(in_i32(lines@[t as int].x0 as int));
        let sx = b.x0 - ox as i64;
        let sy = b.y0 - oy as i64 - HIGHLIGHT_VPAD as i64;
        let rw = b.x1 - b.x0;
        let rh = (b.y1 - b.y0) + HIGHLIGHT_VPAD as i64 * 2;
        let ghost before = canvas@;
        if !(sx + rw <= 0 || sy + rh <= 0 || sx >= sw as i64 || sy >= sh as i64) {
            fill_wide(canvas, sw, sh, sx, sy, rw, rh, color);
        }
        assert forall|px: int, py: int, k: int|
            on_canvas(sw, sh, px, py) && 0 <= k < 4 implies #[trigger] pixel_byte(canvas@, sw as int, px, py, k)
                == if in_strips(lines@, t + 1, ox as int, oy as int, px, py) {
                color@[k]
            } else {
                0
            } by {
            assert(pixel_byte(before, sw as int, px, py, k) == pixel_byte(before, sw as int, px, py, k));
            if strip_at(lines@, t as int, ox as int, oy as int, px, py) {
                assert(in_rect(sx as int, sy as int, rw as int, rh as int, px, py));
            }
            if in_strips(lines@, t as int, ox as int, oy as int, px, py) {
                let u = choose|u: int| 0 <= u < t && #[trigger] strip_at(lines@, u, ox as int, oy as int, px, py);
                assert(0 <= u < t + 1 && strip_at(lines@, u, ox as int, oy as int, px, py));
            }
            if in_strips(lines@, t + 1, ox as int, oy as int, px, py) && !strip_at(
                lines@,
                t as int,
                ox as int,
                oy as int,
                px,
                py,
            ) {
                let u = choose|u: int| 0 <= u < t + 1 && #[trigger] strip_at(lines@, u, ox as int, oy as int, px, py);
                assert(0 <= u < t && strip_at(lines@, u, ox as int, oy as int, px, py));
            }
        }
        t += 1;
    }
}

/// Clears every pixel of the canvas; bytes past the pixels stay.
fn clear_canvas(canvas: &mut [u8], sw: u32, sh: u32)
    requires
        canvas_fits(old(canvas)@, sw, sh),
    ensures
        tail_kept(final(canvas)@, old(canvas)@, sw, sh),
        forall|px: int, py: int, k: int|
            on_canvas(sw, sh, px, py) && 0 <= k < 4 ==> #[trigger] pixel_byte(final(canvas)@, sw as int, px, py, k)
                == 0,
{
    let ghost c0 = canvas@;
    proof {
        assert(sw * sh <= 0xFFFF_FFFF * 0xFFFF_FFFF) by (nonlinear_arith)
            requires
                sw <= 0xFFFF_FFFF,
                sh <= 0xFFFF_FFFF,
        ;
    }
    let n = ((sw as u64) * (sh as u64) * 4) as usize;
    let mut i: usize = 0;
    while i < n
        invariant
            i <= n,
            n == sw * sh * 4,
            n <= c0.len(),
            canvas@.len() == c0.len(),
            forall|j: int| 0 <= j < i ==> canvas@[j] == 0,
            forall|j: int| n <= j < c0.len() ==> canvas@[j] == c0[j],
        decreases n - i,
    {
        canvas[i] = 0;
        i += 1;
    }
    assert forall|px: int, py: int, k: int|
        on_canvas(sw, sh, px, py) && 0 <= k < 4 implies #[trigger] pixel_byte(canvas@, sw as int, px, py, k)
            == 0 by {
        crate::canvas::lemma_pixel_offset(sw, sh, px, py);
    }
}

/// Marks word `i` (underline, or outline when hovered) unless it is
/// selected or off the output.
fn mark_word(
    canvas: &mut [u8],
    sw: u32,
    sh: u32,
    words: &Vec<Word>,
    i: usize,
    ox: i32,
    oy: i32,
    range: Option<(usize, usize)>,
    hovered: Option<usize>,
)
    requires
        canvas_fits(old(canvas)@, sw, sh),
        0 < sw <= i32::MAX,
        0 < sh <= i32::MAX,
        i < words.len(),
    ensures
        tail_kept(final(canvas)@, old(canvas)@, sw, sh),
        forall|px: int, py: int, k: int|
            on_canvas(sw, sh, px, py) && 0 <= k < 4 ==> #[trigger] pixel_byte(final(canvas)@, sw as int, px, py, k)
                == if !is_selected(range, i as int) && word_visible(words@[i as int], ox as int, oy as int, sw, sh)
                && mark_covers(words@[i as int], hovered == Some(i), ox as int, oy as int, px, py) {
                mark_color(hovered == Some(i))[k]
            } else {
                pixel_byte(old(canvas)@, sw as int, px, py, k)
            },
{
    let w = &words[i];
    let sx0 = w.x as i64 - ox as i64;
    let sy0 = w.y as i64 - oy as i64;
    let ww = w.w as i64;
    let wh = w.h as i64;
    if sx0 + ww <= 0 || sy0 + wh <= 0 || sx0 >= sw as i64 || sy0 >= sh as i64 {
        return;
    }
    let selected = match range {
        Some((lo, hi)) => lo <= i && i <= hi,
        None => false,
    };
    if selected {
        return;
    }
    let is_hovered = match hovered {
        Some(h) => h == i,
        None => false,
    };
    if is_hovered {
        let c: [u8; 4] = [HOVER_OUTLINE_ALPHA, HOVER_OUTLINE_ALPHA, HOVER_OUTLINE_ALPHA, HOVER_OUTLINE_ALPHA];
        assert(c@ =~= mark_color(true));
        outline_wide(canvas, sw, sh, sx0, sy0, ww, wh, c);
    } else {
        let c: [u8; 4] = [UNDERLINE_ALPHA, UNDERLINE_ALPHA, UNDERLINE_ALPHA, UNDERLINE_ALPHA];
        assert(c@ =~= mark_color(false));
        fill_wide(canvas, sw, sh, sx0, sy0 + wh - 1, ww, 1, c);
    }
}

/// Draws the one-pixel border of the `w` x `h` rectangle at `(x, y)`,
/// given in wide coordinates, clipped to the canvas.
fn outline_wide(canvas: &mut [u8], sw: u32, sh: u32, x: i64, y: i64, w: i64, h: i64, color: [u8; 4])
    requires
        canvas_fits(old(canvas)@, sw, sh),
        sw <= i32::MAX,
        sh <= i32::MAX,
        -0x1_0000_0000 <= x <= 0x1_0000_0000,
        -0x1_0000_0000 <= y <= 0x1_0000_0000,
        -0x1_0000_0000 <= w <= 0x1_0000_0000,
        -0x1_0000_0000 <= h <= 0x1_0000_0000,
    ensures
        painted(
            final(canvas)@,
            old(canvas)@,
            sw,
            sh,
            |px: int, py: int| on_outline(x as int, y as int, w as int, h as int, px, py),
            color@,
        ),
{
    let ghost c0 = canvas@;
    if w <= 0 || h <= 0 {
        return;
    }
    fill_wide(canvas, sw, sh, x, y, w, 1, color);
    let ghost c1 = canvas@;
    fill_wide(canvas, sw, sh, x, y + h - 1, w, 1, color);
    let ghost c2 = canvas@;
    fill_wide(canvas, sw, sh, x, y, 1, h, color);
    let ghost c3 = canvas@;
    fill_wide(canvas, sw, sh, x + w - 1, y, 1, h, color);
    let ghost c4 = canvas@;
    let ghost top = |px: int, py: int| in_rect(x as int, y as int, w as int, 1, px, py);
    let ghost bottom = |px: int, py: int| in_rect(x as int, y + h - 1, w as int, 1, px, py);
    let ghost left = |px: int, py: int| in_rect(x as int, y as int, 1, h as int, px, py);
    let ghost right = |px: int, py: int| in_rect(x + w - 1, y as int, 1, h as int, px, py);
    proof {
        lemma_painted_twice(c0, c1, c2, sw, sh, top, bottom, color@);
        let tb = |px: int, py: int| top(px, py) || bottom(px, py);
        lemma_painted_twice(c0, c2, c3, sw, sh, tb, left, color@);
        let tbl = |px: int, py: int| tb(px, py) || left(px, py);
        lemma_painted_twice(c0, c3, c4, sw, sh, tbl, right, color@);
        let all = |px: int, py: int| tbl(px, py) || right(px, py);
        assert forall|px: int, py: int, k: int|
            on_canvas(sw, sh, px, py) && 0 <= k < 4 implies #[trigger] pixel_byte(
            c4,
            sw as int,
            px,
            py,
            k,
        ) == if on_outline(x as int, y as int, w as int, h as int, px, py) {
            color@[k]
        } else {
            pixel_byte(c0, sw as int, px, py, k)
        } by {
            assert(all(px, py) == on_outline(x as int, y as int, w as int, h as int, px, py));
        }
    }
}

/// Renders the OCR overlay for an output `sw` x `sh` pixels large whose
/// top-left corner sits at `(ox, oy)` in compositor space: a transparent
/// canvas, the selected words (between `anchor` and `cursor`) painted as
/// one tinted strip per text line, every other visible word underlined,
/// and the `hovered` word outlined instead when it is not selected.
pub fn draw_ocr_overlay(
    canvas: &mut [u8],
    sw: u32,
    sh: u32,
    words: &Vec<Word>,
    ox: i32,
    oy: i32,
    anchor: Option<usize>,
    cursor: Option<usize>,
    hovered: Option<usize>,
)
    requires
        canvas_fits(old(canvas)@, sw, sh),
    ensures
        tail_kept(final(canvas)@, old(canvas)@, sw, sh),
        forall|px: int, py: int, k: int|
            on_canvas(sw, sh, px, py) && 0 <= k < 4 ==> #[trigger] pixel_byte(final(canvas)@, sw as int, px, py, k)
                == overlay_byte(
                words@,
                range_of(anchor, cursor),
                hovered,
                ox as int,
                oy as int,
                sw,
                sh,
                px,
                py,
                k,
            ),
{
    if sw == 0 || sh == 0 {
        return;
    }
    proof {
        crate::canvas::lemma_pixel_offset(sw, sh, 0, 0);
    }
    let ghost ws = words@;
    let ghost c0 = canvas@;
    clear_canvas(canvas, sw, sh);
    let range = selected_range(anchor, cursor);
    let (lo, end) = match range {
        Some((lo, hi)) => (
            lo,
            if hi < words.len() {
                hi + 1
            } else {
                words.len()
            },
        ),
        None => (0, 0),
    };
    assert(lo == selection_start(range) && end == selection_end(ws.len() as int, range));
    let lines = if lo < end {
        group_lines(words, lo, end)
    } else {
        Vec::new()
    };
    proof {
        assert forall|u: int|
            0 <= u < lines.len() implies in_i32((#[trigger] lines@[u]).x0 as int) && in_i32(lines@[u].y0 as int)
            && in_two_i32(lines@[u].x1 as int) && in_two_i32(lines@[u].y1 as int) by {
            assert(lines_boxed(lines@, ws, lo as int, end as int));
            lemma_line_bounds_small(ws, lo as int, end as int, lines@[u].key);
        }
    }
    let a = HIGHLIGHT_ALPHA as u32;
    let tint: [u8; 4] = [
        ((HIGHLIGHT_B as u32 * a) / 255) as u8,
        ((HIGHLIGHT_G as u32 * a) / 255) as u8,
        ((HIGHLIGHT_R as u32 * a) / 255) as u8,
        HIGHLIGHT_ALPHA,
    ];
    assert(tint@ =~= highlight());
    paint_strips(canvas, sw, sh, &lines, ox, oy, tint);
    assert forall|px: int, py: int, k: int|
        on_canvas(sw, sh, px, py) && 0 <= k < 4 implies #[trigger] pixel_byte(canvas@, sw as int, px, py, k)
            == layered_byte(ws, 0, range, hovered, ox as int, oy as int, sw, sh, px, py, k) by {
        lemma_strips_match(lines@, ws, range, lo as int, end as int, ox as int, oy as int, px, py);
    }
    let mut i: usize = 0;
    while i < words.len()
        invariant
            i <= words.len(),
            ws == words@,
            canvas_fits(canvas@, sw, sh),
            tail_kept(canvas@, c0, sw, sh),
            0 < sw <= i32::MAX,
            0 < sh <= i32::MAX,
            range == range_of(anchor, cursor),
            forall|px: int, py: int, k: int|
                on_canvas(sw, sh, px, py) && 0 <= k < 4 ==> #[trigger] pixel_byte(canvas@, sw as int, px, py, k)
                    == layered_byte(ws, i as int, range, hovered, ox as int, oy as int, sw, sh, px, py, k),
        decreases words.len() - i,
    {
        let ghost before = canvas@;
        mark_word(canvas, sw, sh, words, i, ox, oy, range, hovered);
        assert forall|px: int, py: int, k: int|
            on_canvas(sw, sh, px, py) && 0 <= k < 4 implies #[trigger] pixel_byte(canvas@, sw as int, px, py, k)
                == layered_byte(ws, i + 1, range, hovered, ox as int, oy as int, sw, sh, px, py, k) by {
            assert(pixel_byte(before, sw as int, px, py, k) == layered_byte(
                ws,
                i as int,
                range,
                hovered,
                ox as int,
                oy as int,
                sw,
                sh,
                px,
                py,
                k,
            ));
        }
        i += 1;
    }
}

} // verus!
