//! Pixel helpers over BGRA canvases: a canvas `cw` pixels wide and `ch`
//! high is a byte buffer with four bytes per pixel, rows top to bottom.
//! Drawing clips silently at the canvas edges.

use vstd::prelude::*;

verus! {

/// Byte `k` of pixel `(x, y)` of a canvas `cw` pixels wide.
pub open spec fn pixel_byte(c: Seq<u8>, cw: int, x: int, y: int, k: int) -> u8 {
    c[(y * cw + x) * 4 + k]
}

/// The buffer holds at least `cw * ch` pixels, and every byte offset of a
/// pixel fits in an `i32` (the offsets are computed in `i32`). Bytes past
/// the pixels are never drawn on.
pub open spec fn canvas_fits(c: Seq<u8>, cw: u32, ch: u32) -> bool {
    c.len() >= cw * ch * 4 && cw * ch * 4 <= i32::MAX
}

/// `new` is as long as `old`, and the bytes past the canvas's `cw * ch`
/// pixels are as in `old`.
pub open spec fn tail_kept(new: Seq<u8>, old: Seq<u8>, cw: u32, ch: u32) -> bool {
    &&& new.len() == old.len()
    &&& forall|i: int| cw * ch * 4 <= i < new.len() ==> #[trigger] new[i] == old[i]
}

pub open spec fn on_canvas(cw: u32, ch: u32, x: int, y: int) -> bool {
    0 <= x < cw && 0 <= y < ch
}

/// Pixel `(px, py)` lies in the `w` x `h` rectangle whose top-left corner
/// is `(x, y)`.
pub open spec fn in_rect(x: int, y: int, w: int, h: int, px: int, py: int) -> bool {
    x <= px < x + w && y <= py < y + h
}

/// Every pixel of `new` is `paint` where `covered` holds and as in `old`
/// elsewhere.
pub open spec fn painted(
    new: Seq<u8>,
    old: Seq<u8>,
    cw: u32,
    ch: u32,
    covered: spec_fn(int, int) -> bool,
    paint: Seq<u8>,
) -> bool {
    &&& tail_kept(new, old, cw, ch)
    &&& forall|px: int, py: int, k: int|
        on_canvas(cw, ch, px, py) && 0 <= k < 4 ==> #[trigger] pixel_byte(new, cw as int, px, py, k)
            == if covered(px, py) {
            paint[k]
        } else {
            pixel_byte(old, cw as int, px, py, k)
        }
}

pub proof fn lemma_pixel_offset(cw: u32, ch: u32, x: int, y: int)
    requires
        on_canvas(cw, ch, x, y),
        cw * ch * 4 <= i32::MAX,
    ensures
        0 <= y * cw + x < cw * ch,
        (y * cw + x) * 4 + 4 <= cw * ch * 4,
        cw <= i32::MAX,
        ch <= i32::MAX,
{
    assert(0 <= y * cw + x < cw * ch && (y * cw + x) * 4 + 4 <= cw * ch * 4) by (nonlinear_arith)
        requires
            0 <= x < cw,
            0 <= y < ch,
    ;
    assert(cw <= cw * ch && ch <= cw * ch) by (nonlinear_arith)
        requires
            0 <= x < cw,
            0 <= y < ch,
    ;
}

pub proof fn lemma_pixel_distinct(cw: int, x1: int, y1: int, k1: int, x2: int, y2: int, k2: int)
    requires
        0 <= x1 < cw,
        0 <= x2 < cw,
        0 <= y1,
        0 <= y2,
        0 <= k1 < 4,
        0 <= k2 < 4,
        (y1 * cw + x1) * 4 + k1 == (y2 * cw + x2) * 4 + k2,
    ensures
        x1 == x2 && y1 == y2 && k1 == k2,
{
    assert(y1 * cw + x1 == y2 * cw + x2);
    if y1 < y2 {
        assert(y1 * cw + cw <= y2 * cw) by (nonlinear_arith)
            requires
                y1 < y2,
                cw >= 0,
        ;
    } else if y2 < y1 {
        assert(y2 * cw + cw <= y1 * cw) by (nonlinear_arith)
            requires
                y2 < y1,
                cw >= 0,
        ;
    }
}

/// Writes `color` to pixel `(x, y)` when it lies on the canvas.
pub fn put_pixel(canvas: &mut [u8], cw: u32, ch: u32, x: i32, y: i32, color: [u8; 4])
    requires
        canvas_fits(old(canvas)@, cw, ch),
    ensures
        painted(
            final(canvas)@,
            old(canvas)@,
            cw,
            ch,
            |px: int, py: int| px == x && py == y,
            color@,
        ),
{
    if x < 0 || y < 0 || ch == 0 {
        return;
    }
    proof {
        assert(cw * ch >= cw) by (nonlinear_arith)
            requires
                ch >= 1,
                cw >= 0,
        ;
        if cw >= 1 {
            assert(cw * ch >= ch) by (nonlinear_arith)
                requires
                    cw >= 1,
                    ch >= 0,
            ;
        }
    }
    if x >= cw as i32 || y >= ch as i32 {
        return;
    }
    proof {
        lemma_pixel_offset(cw, ch, x as int, y as int);
        assert(y * cw <= i32::MAX) by (nonlinear_arith)
            requires
                0 <= y * cw + x < cw * ch,
                cw * ch * 4 <= i32::MAX,
                x >= 0,
        ;
    }
    let di = ((y * cw as i32 + x) * 4) as usize;
    let ghost old_c = canvas@;
    canvas[di] = color[0];
    canvas[di + 1] = color[1];
    canvas[di + 2] = color[2];
    canvas[di + 3] = color[3];
    assert forall|px: int, py: int, k: int|
        on_canvas(cw, ch, px, py) && 0 <= k < 4 implies #[trigger] pixel_byte(
        canvas@,
        cw as int,
        px,
        py,
        k,
    ) == if px == x && py == y {
        color@[k]
    } else {
        pixel_byte(old_c, cw as int, px, py, k)
    } by {
        lemma_pixel_offset(cw, ch, px, py);
        if px == x && py == y {
        } else {
            let i = (py * cw + px) * 4 + k;
            if i == di || i == di + 1 || i == di + 2 || i == di + 3 {
                lemma_pixel_distinct(cw as int, px, py, k, x as int, y as int, i - di);
            }
        }
    }
}

/// Fills the `w` x `h` rectangle at `(x, y)` with `color`, clipped to the
/// canvas. A rectangle with `w <= 0` or `h <= 0` paints nothing.
pub fn fill_rect(
    canvas: &mut [u8],
    cw: u32,
    ch: u32,
    x: i32,
    y: i32,
    w: i32,
    h: i32,
    color: [u8; 4],
)
    requires
        canvas_fits(old(canvas)@, cw, ch),
        w > 0 && h > 0 ==> x + w - 1 <= i32::MAX && y + h - 1 <= i32::MAX,
    ensures
        painted(
            final(canvas)@,
            old(canvas)@,
            cw,
            ch,
            |px: int, py: int| in_rect(x as int, y as int, w as int, h as int, px, py),
            color@,
        ),
{
    let ghost old_c = canvas@;
    let mut dy: i32 = 0;
    while dy < h
        invariant
            0 <= dy,
            h > 0 ==> dy <= h,
            h <= 0 ==> dy == 0,
            w > 0 && h > 0 ==> x + w - 1 <= i32::MAX && y + h - 1 <= i32::MAX,
            canvas_fits(old_c, cw, ch),
            painted(
                canvas@,
                old_c,
                cw,
                ch,
                |px: int, py: int| in_rect(x as int, y as int, w as int, dy as int, px, py),
                color@,
            ),
        decreases h - dy,
    {
        let mut dx: i32 = 0;
        while dx < w
            invariant
                0 <= dy < h,
                0 <= dx,
                w > 0 ==> dx <= w,
                w <= 0 ==> dx == 0,
                w > 0 && h > 0 ==> x + w - 1 <= i32::MAX && y + h - 1 <= i32::MAX,
                canvas_fits(old_c, cw, ch),
                painted(
                    canvas@,
                    old_c,
                    cw,
                    ch,
                    |px: int, py: int|
                        in_rect(x as int, y as int, w as int, dy as int, px, py) || (py == y + dy
                            && x <= px < x + dx),
                    color@,
                ),
            decreases w - dx,
        {
            let ghost before = canvas@;
            let ghost dx0 = dx;
            put_pixel(canvas, cw, ch, x + dx, y + dy, color);
            dx += 1;
            assert forall|px: int, py: int, k: int|
                on_canvas(cw, ch, px, py) && 0 <= k < 4 implies #[trigger] pixel_byte(
                canvas@,
                cw as int,
                px,
                py,
                k,
            ) == if in_rect(x as int, y as int, w as int, dy as int, px, py) || (py == y + dy && x
                <= px < x + dx) {
                color@[k]
            } else {
                pixel_byte(old_c, cw as int, px, py, k)
            } by {
                assert(pixel_byte(before, cw as int, px, py, k) == if in_rect(
                    x as int,
                    y as int,
                    w as int,
                    dy as int,
                    px,
                    py,
                ) || (py == y + dy && x <= px < x + dx0) {
                    color@[k]
                } else {
                    pixel_byte(old_c, cw as int, px, py, k)
                });
            }
        }
        let ghost dy0 = dy;
        let ghost after = canvas@;
        assert(w > 0 ==> dx == w);
        assert(painted(
                    after,
                    old_c,
                    cw,
                    ch,
                    |px: int, py: int|
                        in_rect(x as int, y as int, w as int, dy0 as int, px, py) || (py == y + dy0
                            && x <= px < x + dx),
                    color@,
                ));
        dy += 1;
        assert forall|px: int, py: int, k: int|
            on_canvas(cw, ch, px, py) && 0 <= k < 4 implies #[trigger] pixel_byte(
            canvas@,
            cw as int,
            px,
            py,
            k,
        ) == if in_rect(x as int, y as int, w as int, dy as int, px, py) {
            color@[k]
        } else {
            pixel_byte(old_c, cw as int, px, py, k)
        } by {
            assert(pixel_byte(after, cw as int, px, py, k) == if in_rect(
                x as int,
                y as int,
                w as int,
                dy0 as int,
                px,
                py,
            ) || (py == y + dy0 && x <= px < x + dx) {
                color@[k]
            } else {
                pixel_byte(old_c, cw as int, px, py, k)
            });
        }
    }
    let ghost fin = canvas@;
    assert forall|px: int, py: int, k: int|
        on_canvas(cw, ch, px, py) && 0 <= k < 4 implies #[trigger] pixel_byte(
        canvas@,
        cw as int,
        px,
        py,
        k,
    ) == if in_rect(x as int, y as int, w as int, h as int, px, py) {
        color@[k]
    } else {
        pixel_byte(old_c, cw as int, px, py, k)
    } by {
        assert(pixel_byte(fin, cw as int, px, py, k) == if in_rect(
            x as int,
            y as int,
            w as int,
            dy as int,
            px,
            py,
        ) {
            color@[k]
        } else {
            pixel_byte(old_c, cw as int, px, py, k)
        });
    }
}

} // verus!
verus! {

/// Painting twice: what the second painting covers, then what the first
/// covers, with the same colour.
pub proof fn lemma_painted_twice(
    c0: Seq<u8>,
    c1: Seq<u8>,
    c2: Seq<u8>,
    cw: u32,
    ch: u32,
    a: spec_fn(int, int) -> bool,
    b: spec_fn(int, int) -> bool,
    paint: Seq<u8>,
)
    requires
        painted(c1, c0, cw, ch, a, paint),
        painted(c2, c1, cw, ch, b, paint),
    ensures
        painted(c2, c0, cw, ch, |px: int, py: int| a(px, py) || b(px, py), paint),
{
    assert forall|px: int, py: int, k: int|
        on_canvas(cw, ch, px, py) && 0 <= k < 4 implies #[trigger] pixel_byte(
        c2,
        cw as int,
        px,
        py,
        k,
    ) == if a(px, py) || b(px, py) {
        paint[k]
    } else {
        pixel_byte(c0, cw as int, px, py, k)
    } by {
        assert(pixel_byte(c1, cw as int, px, py, k) == pixel_byte(c1, cw as int, px, py, k));
    }
}

/// Pixel `(px, py)` lies on the one-pixel border of the `w` x `h`
/// rectangle at `(x, y)`.
pub open spec fn on_outline(x: int, y: int, w: int, h: int, px: int, py: int) -> bool {
    &&& w > 0 && h > 0
    &&& in_rect(x, y, w, h, px, py)
    &&& (py == y || py == y + h - 1 || px == x || px == x + w - 1)
}

/// Draws the one-pixel border of the `w` x `h` rectangle at `(x, y)`,
/// clipped to the canvas. An empty rectangle draws nothing.
pub fn outline_rect(
    canvas: &mut [u8],
    cw: u32,
    ch: u32,
    x: i32,
    y: i32,
    w: i32,
    h: i32,
    color: [u8; 4],
)
    requires
        canvas_fits(old(canvas)@, cw, ch),
        w > 0 && h > 0 ==> x + w <= i32::MAX && y + h <= i32::MAX,
    ensures
        painted(
            final(canvas)@,
            old(canvas)@,
            cw,
            ch,
            |px: int, py: int| on_outline(x as int, y as int, w as int, h as int, px, py),
            color@,
        ),
{
    let ghost c0 = canvas@;
    if w <= 0 || h <= 0 {
        return;
    }
    fill_rect(canvas, cw, ch, x, y, w, 1, color);
    let ghost c1 = canvas@;
    fill_rect(canvas, cw, ch, x, y + h - 1, w, 1, color);
    let ghost c2 = canvas@;
    fill_rect(canvas, cw, ch, x, y, 1, h, color);
    let ghost c3 = canvas@;
    fill_rect(canvas, cw, ch, x + w - 1, y, 1, h, color);
    let ghost c4 = canvas@;
    let ghost top = |px: int, py: int| in_rect(x as int, y as int, w as int, 1, px, py);
    let ghost bottom = |px: int, py: int| in_rect(x as int, y + h - 1, w as int, 1, px, py);
    let ghost left = |px: int, py: int| in_rect(x as int, y as int, 1, h as int, px, py);
    let ghost right = |px: int, py: int| in_rect(x + w - 1, y as int, 1, h as int, px, py);
    proof {
        lemma_painted_twice(c0, c1, c2, cw, ch, top, bottom, color@);
        let tb = |px: int, py: int| top(px, py) || bottom(px, py);
        lemma_painted_twice(c0, c2, c3, cw, ch, tb, left, color@);
        let tbl = |px: int, py: int| tb(px, py) || left(px, py);
        lemma_painted_twice(c0, c3, c4, cw, ch, tbl, right, color@);
        let all = |px: int, py: int| tbl(px, py) || right(px, py);
        assert forall|px: int, py: int, k: int|
            on_canvas(cw, ch, px, py) && 0 <= k < 4 implies #[trigger] pixel_byte(
            c4,
            cw as int,
            px,
            py,
            k,
        ) == if on_outline(x as int, y as int, w as int, h as int, px, py) {
            color@[k]
        } else {
            pixel_byte(c0, cw as int, px, py, k)
        } by {
            assert(all(px, py) == on_outline(x as int, y as int, w as int, h as int, px, py));
        }
    }
}

} // verus!
