//! Hand-crafted 5x7 pixel font for the hex-readout glyphs.
//!
//! Only the characters ever needed (`#0123456789ABCDEF`, plus `X` and space
//! for the ruler label) are encoded. Each glyph is 7 rows; the low 5 bits of
//! each row byte are the pixel mask (bit 4 = leftmost column, bit 0 =
//! rightmost). It renders crisp at any integer scale.

use vstd::prelude::*;
use crate::canvas::{canvas_fits, fill_rect, in_rect, painted, pixel_byte, on_canvas, lemma_painted_twice};
use crate::text::chars_of;
use vstd::arithmetic::div_mod::{lemma_fundamental_div_mod, lemma_fundamental_div_mod_converse};

verus! {

pub const GLYPH_W: u32 = 5;

pub const GLYPH_H: u32 = 7;

pub const SPACING: u32 = 1;

pub const FONT: [(char, [u8; 7]); 19] = [
    ('#', [0b01010, 0b01010, 0b11111, 0b01010, 0b11111, 0b01010, 0b01010]),
    ('0', [0b01110, 0b10001, 0b10011, 0b10101, 0b11001, 0b10001, 0b01110]),
    ('1', [0b00100, 0b01100, 0b00100, 0b00100, 0b00100, 0b00100, 0b01110]),
    ('2', [0b01110, 0b10001, 0b00001, 0b00010, 0b00100, 0b01000, 0b11111]),
    ('3', [0b11110, 0b00001, 0b00001, 0b01110, 0b00001, 0b00001, 0b11110]),
    ('4', [0b00010, 0b00110, 0b01010, 0b10010, 0b11111, 0b00010, 0b00010]),
    ('5', [0b11111, 0b10000, 0b11110, 0b00001, 0b00001, 0b10001, 0b01110]),
    ('6', [0b00110, 0b01000, 0b10000, 0b11110, 0b10001, 0b10001, 0b01110]),
    ('7', [0b11111, 0b00001, 0b00010, 0b00010, 0b00100, 0b00100, 0b00100]),
    ('8', [0b01110, 0b10001, 0b10001, 0b01110, 0b10001, 0b10001, 0b01110]),
    ('9', [0b01110, 0b10001, 0b10001, 0b01111, 0b00001, 0b00010, 0b01100]),
    ('A', [0b01110, 0b10001, 0b10001, 0b11111, 0b10001, 0b10001, 0b10001]),
    ('B', [0b11110, 0b10001, 0b10001, 0b11110, 0b10001, 0b10001, 0b11110]),
    ('C', [0b01110, 0b10001, 0b10000, 0b10000, 0b10000, 0b10001, 0b01110]),
    ('D', [0b11110, 0b10001, 0b10001, 0b10001, 0b10001, 0b10001, 0b11110]),
    ('E', [0b11111, 0b10000, 0b10000, 0b11110, 0b10000, 0b10000, 0b11111]),
    ('F', [0b11111, 0b10000, 0b10000, 0b11110, 0b10000, 0b10000, 0b10000]),
    ('X', [0b10001, 0b10001, 0b01010, 0b00100, 0b01010, 0b10001, 0b10001]),
    (' ', [0b00000, 0b00000, 0b00000, 0b00000, 0b00000, 0b00000, 0b00000]),
];

/// The rows of the first glyph for `c` among `entries`.
pub open spec fn glyph_in(entries: Seq<(char, [u8; 7])>, c: char) -> Option<[u8; 7]>
    decreases entries.len(),
{
    if entries.len() == 0 {
        None
    } else if entries[0].0 == c {
        Some(entries[0].1)
    } else {
        glyph_in(entries.drop_first(), c)
    }
}

/// The glyph the font holds for `c`.
pub open spec fn font_glyph(c: char) -> Option<[u8; 7]> {
    glyph_in(FONT@, c)
}

fn glyph(c: char) -> (r: Option<[u8; 7]>)
    ensures
        r == font_glyph(c),
{
    let font = FONT;
    let mut i: usize = 0;
    assert(font@.skip(0) =~= font@);
    while i < 19
        invariant
            i <= 19,
            font@ == FONT@,
            font@.len() == 19,
            glyph_in(font@, c) == glyph_in(font@.skip(i as int), c),
        decreases 19 - i,
    {
        assert(font@.skip(i as int).drop_first() =~= font@.skip(i + 1));
        if font[i].0 == c {
            return Some(font[i].1);
        }
        i += 1;
    }
    None
}

/// Whether column `col` (0 = leftmost) of a glyph row is lit.
pub open spec fn lit(row: u8, col: u32) -> bool {
    (row >> (4 - col) as u32) & 1 != 0
}

/// Width in pixels of `n` characters at integer `scale`, inter-character
/// spacing included.
pub open spec fn spec_text_width(n: nat, scale: nat) -> int {
    if n == 0 {
        0
    } else {
        n * GLYPH_W * scale + (n - 1) * SPACING * scale
    }
}

/// Width in pixels of a string at the given integer scale, including
/// inter-character spacing.
pub fn text_width(s: &str, scale: u32) -> (w: u32)
    requires
        s@.len() * GLYPH_W <= u32::MAX,
        spec_text_width(s@.len(), scale as nat) <= u32::MAX,
    ensures
        w == spec_text_width(s@.len(), scale as nat),
{
    let n = s.unicode_len();
    if n == 0 {
        return 0;
    }
    proof {
        assert(n * 5 * scale >= 0 && (n - 1) * scale >= 0) by (nonlinear_arith)
            requires
                n >= 1,
                scale >= 0,
        ;
        if scale > 0 {
            assert(n * 5 * scale >= n * 5) by (nonlinear_arith)
                requires
                    n >= 1,
                    scale >= 1,
            ;
        }
    }
    let n32 = n as u32;
    n32 * GLYPH_W * scale + (n32 - 1) * SPACING * scale
}

/// Drawing two non-empty texts one after the other takes the width of the
/// first, one spacing, and the width of the second: the width of the joined
/// text.
pub proof fn law_text_width_concat(a: Seq<char>, b: Seq<char>, scale: nat)
    requires
        a.len() > 0,
        b.len() > 0,
    ensures
        spec_text_width((a + b).len(), scale) == spec_text_width(a.len(), scale) + SPACING * scale
            + spec_text_width(b.len(), scale),
{
    let n1 = a.len();
    let n2 = b.len();
    assert((a + b).len() == n1 + n2);
    assert((n1 + n2) * 5 * scale + (n1 + n2 - 1) * 1 * scale == n1 * 5 * scale + (n1 - 1) * 1 * scale
        + 1 * scale + n2 * 5 * scale + (n2 - 1) * 1 * scale) by (nonlinear_arith);
}

/// Height in pixels of a line of text at integer `scale`.
pub fn text_height(scale: u32) -> (h: u32)
    requires
        GLYPH_H * scale <= u32::MAX,
    ensures
        h == GLYPH_H * scale,
{
    GLYPH_H * scale
}

/// The colour `[r, g, b]` as the bytes of an opaque BGRA pixel.
pub open spec fn bgra(color: [u8; 3]) -> Seq<u8> {
    seq![color@[2], color@[1], color@[0], 0xFFu8]
}

/// Pixel `(px, py)` is lit by `text` drawn with its top-left corner at
/// `(x, y)` and integer `scale`: every character advances `6 * scale`
/// pixels, and each lit glyph bit is a `scale` x `scale` block.
pub open spec fn text_covers(text: Seq<char>, x: int, y: int, scale: int, px: int, py: int) -> bool {
    let adv = 6 * scale;
    &&& scale > 0
    &&& px >= x && py >= y
    &&& (px - x) / adv < text.len()
    &&& (px - x) % adv < 5 * scale
    &&& py - y < 7 * scale
    &&& match font_glyph(text[(px - x) / adv]) {
        Some(rows) => lit(rows@[(py - y) / scale], (((px - x) % adv) / scale) as u32),
        None => false,
    }
}

/// Lit pixels whose glyph cell `(character, row, column)` comes before
/// `(j, r, c)`.
pub open spec fn covers_before(
    text: Seq<char>,
    x: int,
    y: int,
    scale: int,
    px: int,
    py: int,
    j: int,
    r: int,
    c: int,
) -> bool {
    let adv = 6 * scale;
    let cj = (px - x) / adv;
    let cr = (py - y) / scale;
    let cc = ((px - x) % adv) / scale;
    &&& text_covers(text, x, y, scale, px, py)
    &&& (cj < j || (cj == j && (cr < r || (cr == r && cc < c))))
}

/// The block of glyph cell `(j, r, c)` is exactly the pixels whose cell is
/// `(j, r, c)`.
proof fn lemma_cell(x: int, y: int, scale: int, j: int, r: int, c: int, px: int, py: int)
    requires
        scale > 0,
        0 <= j,
        0 <= r < 7,
        0 <= c < 5,
    ensures
        in_rect(x + j * (6 * scale) + c * scale, y + r * scale, scale, scale, px, py) <==> (px >= x
            && py >= y && (px - x) / (6 * scale) == j && (px - x) % (6 * scale) < 5 * scale && ((px
            - x) % (6 * scale)) / scale == c && py - y < 7 * scale && (py - y) / scale == r),
{
    let adv = 6 * scale;
    assert(j * adv >= 0 && c * scale >= 0 && r * scale >= 0 && c * scale <= 4 * scale && r * scale
        <= 6 * scale) by (nonlinear_arith)
        requires
            scale > 0,
            0 <= j,
            0 <= r < 7,
            0 <= c < 5,
            adv == 6 * scale,
    ;
    if in_rect(x + j * adv + c * scale, y + r * scale, scale, scale, px, py) {
        let dx = px - (x + j * adv + c * scale);
        let dy = py - (y + r * scale);
        lemma_fundamental_div_mod_converse(px - x, adv, j, c * scale + dx);
        lemma_fundamental_div_mod_converse(c * scale + dx, scale, c, dx);
        lemma_fundamental_div_mod_converse(py - y, scale, r, dy);
    }
    if px >= x && py >= y && (px - x) / adv == j && (px - x) % adv < 5 * scale && ((px - x) % adv)
        / scale == c && py - y < 7 * scale && (py - y) / scale == r {
        lemma_fundamental_div_mod(px - x, adv);
        lemma_fundamental_div_mod((px - x) % adv, scale);
        lemma_fundamental_div_mod(py - y, scale);
        assert(adv * j == j * adv) by (nonlinear_arith);
        assert(scale * c == c * scale) by (nonlinear_arith);
        assert(scale * r == r * scale) by (nonlinear_arith);
    }
}

/// A lit pixel's cell row is below 7 and its cell column below 5.
proof fn lemma_cell_bounds(text: Seq<char>, x: int, y: int, scale: int, px: int, py: int)
    requires
        text_covers(text, x, y, scale, px, py),
    ensures
        0 <= (px - x) / (6 * scale),
        0 <= (py - y) / scale < 7,
        0 <= ((px - x) % (6 * scale)) / scale < 5,
{
    let adv = 6 * scale;
    lemma_fundamental_div_mod(py - y, scale);
    lemma_fundamental_div_mod((px - x) % adv, scale);
    assert(0 <= (py - y) / scale < 7) by (nonlinear_arith)
        requires
            scale > 0,
            0 <= py - y < 7 * scale,
            py - y == scale * ((py - y) / scale) + (py - y) % scale,
            0 <= (py - y) % scale < scale,
    ;
    assert(0 <= ((px - x) % adv) / scale < 5) by (nonlinear_arith)
        requires
            scale > 0,
            0 <= (px - x) % adv < 5 * scale,
            (px - x) % adv == scale * (((px - x) % adv) / scale) + ((px - x) % adv) % scale,
            0 <= ((px - x) % adv) % scale < scale,
    ;
}

/// Renders `text` into `canvas` (BGRA layout) at top-left `(x, y)` with the
/// given solid `[r, g, b]` colour and integer pixel `scale`. Pixels outside
/// the canvas are silently clipped; characters without a glyph leave a gap.
pub fn draw_text(
    canvas: &mut [u8],
    cw: u32,
    ch: u32,
    x: i32,
    y: i32,
    text: &str,
    color: [u8; 3],
    scale: u32,
)
    requires
        canvas_fits(old(canvas)@, cw, ch),
        7 * scale <= i32::MAX,
        x + text@.len() * (6 * scale) <= i32::MAX,
        y + 7 * scale <= i32::MAX,
    ensures
        painted(
            final(canvas)@,
            old(canvas)@,
            cw,
            ch,
            |px: int, py: int| text_covers(text@, x as int, y as int, scale as int, px, py),
            bgra(color),
        ),
{
    let ghost c0 = canvas@;
    let ghost t = text@;
    let ghost s = scale as int;
    if scale == 0 {
        return;
    }
    let chars = chars_of(text);
    let n = chars.len();
    let adv: u32 = GLYPH_W * scale + SPACING * scale;
    let pixel: [u8; 4] = [color[2], color[1], color[0], 0xFF];
    assert(pixel@ =~= bgra(color));
    let mut cx: i32 = x;
    let mut j: usize = 0;
    while j < n
        invariant
            chars@ == t,
            n == t.len(),
            scale > 0,
            s == scale as int,
            adv == 6 * scale,
            7 * scale <= i32::MAX,
            x + n * (6 * scale) <= i32::MAX,
            y + 7 * scale <= i32::MAX,
            pixel@ == bgra(color),
            j <= n,
            cx == x + j * (6 * scale),
            canvas_fits(c0, cw, ch),
            painted(
                canvas@,
                c0,
                cw,
                ch,
                |px: int, py: int| covers_before(t, x as int, y as int, s, px, py, j as int, 0, 0),
                pixel@,
            ),
        decreases n - j,
    {
        proof {
            assert(j * (6 * scale) + 6 * scale == (j + 1) * (6 * scale)) by (nonlinear_arith);
            assert((j + 1) * (6 * scale) <= n * (6 * scale)) by (nonlinear_arith)
                requires
                    j + 1 <= n,
                    scale >= 0,
            ;
        }
        let g = glyph(chars[j]);
        match g {
            Some(rows) => {
                let mut r: u32 = 0;
                while r < 7
                    invariant
                        chars@ == t,
                        n == t.len(),
                        scale > 0,
                        s == scale as int,
                        j < n,
                        7 * scale <= i32::MAX,
                        x + n * (6 * scale) <= i32::MAX,
                        y + 7 * scale <= i32::MAX,
                        (j + 1) * (6 * scale) <= n * (6 * scale),
                        j * (6 * scale) + 6 * scale == (j + 1) * (6 * scale),
                        pixel@ == bgra(color),
                        font_glyph(t[j as int]) == Some(rows),
                        r <= 7,
                        cx == x + j * (6 * scale),
                        canvas_fits(c0, cw, ch),
                        painted(
                            canvas@,
                            c0,
                            cw,
                            ch,
                            |px: int, py: int|
                                covers_before(t, x as int, y as int, s, px, py, j as int, r as int, 0),
                            pixel@,
                        ),
                    decreases 7 - r,
                {
                    let row = rows[r as usize];
                    let mut c: u32 = 0;
                    while c < 5
                        invariant
                            chars@ == t,
                            n == t.len(),
                            scale > 0,
                            s == scale as int,
                            j < n,
                            7 * scale <= i32::MAX,
                            x + n * (6 * scale) <= i32::MAX,
                            y + 7 * scale <= i32::MAX,
                            (j + 1) * (6 * scale) <= n * (6 * scale),
                            j * (6 * scale) + 6 * scale == (j + 1) * (6 * scale),
                            pixel@ == bgra(color),
                            font_glyph(t[j as int]) == Some(rows),
                            row == rows@[r as int],
                            r < 7,
                            c <= 5,
                            cx == x + j * (6 * scale),
                            canvas_fits(c0, cw, ch),
                            painted(
                                canvas@,
                                c0,
                                cw,
                                ch,
                                |px: int, py: int|
                                    covers_before(
                                        t,
                                        x as int,
                                        y as int,
                                        s,
                                        px,
                                        py,
                                        j as int,
                                        r as int,
                                        c as int,
                                    ),
                                pixel@,
                            ),
                        decreases 5 - c,
                    {
                        let ghost before = canvas@;
                        let on = (row >> (GLYPH_W - 1 - c)) & 1 != 0;
                        assert(on == lit(row, c));
                        proof {
                            assert(c * scale <= 4 * scale && r * scale <= 6 * scale) by (nonlinear_arith)
                                requires
                                    c < 5,
                                    r < 7,
                                    scale > 0,
                            ;
                        }
                        if on {
                            let bx = cx + (c * scale) as i32;
                            let by = y + (r * scale) as i32;
                            fill_rect(canvas, cw, ch, bx, by, scale as i32, scale as i32, pixel);
                            proof {
                                assert((scale as i32) as int == s);
                                let ghost cell = |px: int, py: int|
                                    in_rect(
                                        bx as int,
                                        by as int,
                                        (scale as i32) as int,
                                        (scale as i32) as int,
                                        px,
                                        py,
                                    );
                                let ghost prev = |px: int, py: int|
                                    covers_before(
                                        t,
                                        x as int,
                                        y as int,
                                        s,
                                        px,
                                        py,
                                        j as int,
                                        r as int,
                                        c as int,
                                    );
                                lemma_painted_twice(c0, before, canvas@, cw, ch, prev, cell, pixel@);
                                assert forall|px: int, py: int, k: int|
                                    on_canvas(cw, ch, px, py) && 0 <= k < 4 implies #[trigger] pixel_byte(
                                    canvas@,
                                    cw as int,
                                    px,
                                    py,
                                    k,
                                ) == if covers_before(
                                    t,
                                    x as int,
                                    y as int,
                                    s,
                                    px,
                                    py,
                                    j as int,
                                    r as int,
                                    c + 1,
                                ) {
                                    pixel@[k]
                                } else {
                                    pixel_byte(c0, cw as int, px, py, k)
                                } by {
                                    lemma_cell(x as int, y as int, s, j as int, r as int, c as int, px, py);
                                    if text_covers(t, x as int, y as int, s, px, py) {
                                        lemma_cell_bounds(t, x as int, y as int, s, px, py);
                                    }
                                    assert((prev(px, py) || cell(px, py)) == covers_before(
                                        t,
                                        x as int,
                                        y as int,
                                        s,
                                        px,
                                        py,
                                        j as int,
                                        r as int,
                                        c + 1,
                                    ));
                                }
                            }
                        } else {
                            proof {
                                assert forall|px: int, py: int, k: int|
                                    on_canvas(cw, ch, px, py) && 0 <= k < 4 implies #[trigger] pixel_byte(
                                    canvas@,
                                    cw as int,
                                    px,
                                    py,
                                    k,
                                ) == if covers_before(
                                    t,
                                    x as int,
                                    y as int,
                                    s,
                                    px,
                                    py,
                                    j as int,
                                    r as int,
                                    c + 1,
                                ) {
                                    pixel@[k]
                                } else {
                                    pixel_byte(c0, cw as int, px, py, k)
                                } by {
                                    lemma_cell(x as int, y as int, s, j as int, r as int, c as int, px, py);
                                    if text_covers(t, x as int, y as int, s, px, py) {
                                        lemma_cell_bounds(t, x as int, y as int, s, px, py);
                                    }
                                    assert(covers_before(t, x as int, y as int, s, px, py, j as int, r as int, c as int)
                                        == covers_before(t, x as int, y as int, s, px, py, j as int, r as int, c + 1));
                                }
                            }
                        }
                        c += 1;
                    }
                    proof {
                        assert forall|px: int, py: int, k: int|
                            on_canvas(cw, ch, px, py) && 0 <= k < 4 implies #[trigger] pixel_byte(
                            canvas@,
                            cw as int,
                            px,
                            py,
                            k,
                        ) == if covers_before(t, x as int, y as int, s, px, py, j as int, r + 1, 0) {
                            pixel@[k]
                        } else {
                            pixel_byte(c0, cw as int, px, py, k)
                        } by {
                            if text_covers(t, x as int, y as int, s, px, py) {
                                lemma_cell_bounds(t, x as int, y as int, s, px, py);
                            }
                            assert(covers_before(t, x as int, y as int, s, px, py, j as int, r as int, 5)
                                == covers_before(t, x as int, y as int, s, px, py, j as int, r + 1, 0));
                        }
                    }
                    r += 1;
                }
                proof {
                    assert forall|px: int, py: int, k: int|
                        on_canvas(cw, ch, px, py) && 0 <= k < 4 implies #[trigger] pixel_byte(
                        canvas@,
                        cw as int,
                        px,
                        py,
                        k,
                    ) == if covers_before(t, x as int, y as int, s, px, py, j + 1, 0, 0) {
                        pixel@[k]
                    } else {
                        pixel_byte(c0, cw as int, px, py, k)
                    } by {
                        if text_covers(t, x as int, y as int, s, px, py) {
                            lemma_cell_bounds(t, x as int, y as int, s, px, py);
                        }
                        assert(covers_before(t, x as int, y as int, s, px, py, j as int, 7, 0)
                            == covers_before(t, x as int, y as int, s, px, py, j + 1, 0, 0));
                    }
                }
            },
            None => {
                proof {
                    assert forall|px: int, py: int, k: int|
                        on_canvas(cw, ch, px, py) && 0 <= k < 4 implies #[trigger] pixel_byte(
                        canvas@,
                        cw as int,
                        px,
                        py,
                        k,
                    ) == if covers_before(t, x as int, y as int, s, px, py, j + 1, 0, 0) {
                        pixel@[k]
                    } else {
                        pixel_byte(c0, cw as int, px, py, k)
                    } by {
                        if text_covers(t, x as int, y as int, s, px, py) {
                            lemma_cell_bounds(t, x as int, y as int, s, px, py);
                        }
                        assert(covers_before(t, x as int, y as int, s, px, py, j as int, 0, 0)
                            == covers_before(t, x as int, y as int, s, px, py, j + 1, 0, 0));
                    }
                }
            },
        }
        cx = cx + adv as i32;
        j += 1;
    }
    proof {
        assert forall|px: int, py: int, k: int|
            on_canvas(cw, ch, px, py) && 0 <= k < 4 implies #[trigger] pixel_byte(
            canvas@,
            cw as int,
            px,
            py,
            k,
        ) == if text_covers(t, x as int, y as int, s, px, py) {
            bgra(color)[k]
        } else {
            pixel_byte(c0, cw as int, px, py, k)
        } by {
            assert(covers_before(t, x as int, y as int, s, px, py, n as int, 0, 0)
                == text_covers(t, x as int, y as int, s, px, py));
        }
    }
}

} // verus!
