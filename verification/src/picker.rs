//! The colour picker's pixel work: the captured screen, the overlay that
//! shows it, the magnifier lens, the hex readout label and the pick.
//!
//! The capture is RGBA, row-major; overlay canvases are BGRA (see
//! [`crate::canvas`]).

use vstd::prelude::*;
use crate::canvas::{
    canvas_fits, fill_rect, in_rect, lemma_pixel_distinct, lemma_pixel_offset, on_canvas, pixel_byte,
    tail_kept,
};
use crate::font::{bgra, draw_text, spec_text_width, text_covers, text_height, text_width};
use crate::text::push_char;

verus! {

/// `v` clamped to `[lo, hi]`.
pub open spec fn clamp(v: int, lo: int, hi: int) -> int {
    if v < lo {
        lo
    } else if v > hi {
        hi
    } else {
        v
    }
}

/// An upper-case hexadecimal digit.
pub open spec fn hex_digit(n: int) -> char {
    if n < 10 {
        ('0' as int + n) as char
    } else {
        ('A' as int + n - 10) as char
    }
}

/// `#RRGGBB` in upper-case hexadecimal.
pub open spec fn hex_of(r: u8, g: u8, b: u8) -> Seq<char> {
    seq![
        '#',
        hex_digit(r as int / 16),
        hex_digit(r as int % 16),
        hex_digit(g as int / 16),
        hex_digit(g as int % 16),
        hex_digit(b as int / 16),
        hex_digit(b as int % 16),
    ]
}

fn hex_digit_char(n: u8) -> (c: char)
    requires
        n < 16,
    ensures
        c == hex_digit(n as int),
{
    if n < 10 {
        ((48 + n) as u8) as char
    } else {
        ((55 + n) as u8) as char
    }
}

/// The colour as `#RRGGBB`, upper case.
pub fn hex_color(r: u8, g: u8, b: u8) -> (s: String)
    ensures
        s@ == hex_of(r, g, b),
{
    let mut s = String::new();
    push_char(&mut s, '#');
    push_char(&mut s, hex_digit_char(r / 16));
    push_char(&mut s, hex_digit_char(r % 16));
    push_char(&mut s, hex_digit_char(g / 16));
    push_char(&mut s, hex_digit_char(g % 16));
    push_char(&mut s, hex_digit_char(b / 16));
    push_char(&mut s, hex_digit_char(b % 16));
    assert(s@ =~= hex_of(r, g, b));
    s
}

/// A captured screen image: RGBA bytes, row-major, at least one pixel, and
/// small enough that every byte offset fits in an `i32`.
pub struct Capture {
    raw: Vec<u8>,
    width: u32,
    height: u32,
}

impl Capture {
    #[verifier::type_invariant]
    spec fn inv(self) -> bool {
        &&& self.width >= 1
        &&& self.height >= 1
        &&& self.raw@.len() == self.width * self.height * 4
        &&& self.width * self.height * 4 <= i32::MAX
    }

    /// The image bytes.
    pub closed spec fn bytes(self) -> Seq<u8> {
        self.raw@
    }

    pub closed spec fn w(self) -> int {
        self.width as int
    }

    pub closed spec fn h(self) -> int {
        self.height as int
    }

    /// Byte `k` (R, G, B, A) of pixel `(x, y)`.
    pub open spec fn byte(self, x: int, y: int, k: int) -> u8 {
        self.bytes()[(y * self.w() + x) * 4 + k]
    }

    /// The capture pixel nearest to `(x, y)`: each coordinate clamped into
    /// the image.
    pub open spec fn clamped_byte(self, x: int, y: int, k: int) -> u8 {
        self.byte(clamp(x, 0, self.w() - 1), clamp(y, 0, self.h() - 1), k)
    }

    /// Wraps RGBA bytes of a `width` x `height` image; `None` when the
    /// length does not match, the image is empty, or it holds 2^31 bytes or
    /// more.
    pub fn new(raw: Vec<u8>, width: u32, height: u32) -> (r: Option<Capture>)
        ensures
            match r {
                Some(c) => c.bytes() == raw@ && c.w() == width && c.h() == height,
                None => !(width >= 1 && height >= 1 && raw@.len() == width * height * 4 && width
                    * height * 4 <= i32::MAX),
            },
    {
        if width == 0 || height == 0 {
            return None;
        }
        proof {
            assert(width * height <= 0xFFFF_FFFF * 0xFFFF_FFFF) by (nonlinear_arith)
                requires
                    width <= 0xFFFF_FFFF,
                    height <= 0xFFFF_FFFF,
            ;
        }
        let area = width as u64 * height as u64;
        if area > 0x1FFF_FFFF {
            return None;
        }
        if raw.len() as u64 != area * 4 {
            return None;
        }
        Some(Capture { raw, width, height })
    }

    pub fn width(&self) -> (w: u32)
        ensures
            w == self.w(),
    {
        self.width
    }

    pub fn height(&self) -> (h: u32)
        ensures
            h == self.h(),
    {
        self.height
    }

    /// Byte offset of pixel `(x, y)`, for `(x, y)` in the image.
    fn offset(&self, x: i32, y: i32) -> (i: usize)
        requires
            0 <= x < self.w(),
            0 <= y < self.h(),
        ensures
            i == (y * self.w() + x) * 4,
            i + 4 <= self.bytes().len(),
    {
        proof {
            use_type_invariant(self);
            lemma_pixel_offset(self.width, self.height, x as int, y as int);
            assert(y * self.width <= i32::MAX) by (nonlinear_arith)
                requires
                    0 <= y * self.width + x < self.width * self.height,
                    self.width * self.height * 4 <= i32::MAX,
                    x >= 0,
            ;
        }
        ((y * self.width as i32 + x) * 4) as usize
    }

    /// `v` clamped into `[0, n - 1]`.
    fn clamp_coord(v: i32, n: u32) -> (r: i32)
        requires
            1 <= n <= i32::MAX,
        ensures
            r == clamp(v as int, 0, n - 1),
    {
        let hi = n as i32 - 1;
        if v < 0 {
            0
        } else if v > hi {
            hi
        } else {
            v
        }
    }

    /// The red, green and blue of the capture pixel under the pointer at
    /// surface position `(sx, sy)` of an output whose top-left corner is at
    /// `(ox, oy)`, the position clamped into the image.
    pub fn pick_rgb(&self, ox: i32, oy: i32, sx: i32, sy: i32) -> (rgb: [u8; 3])
        requires
            i32::MIN <= ox + sx <= i32::MAX,
            i32::MIN <= oy + sy <= i32::MAX,
        ensures
            rgb[0] == self.clamped_byte(ox + sx, oy + sy, 0),
            rgb[1] == self.clamped_byte(ox + sx, oy + sy, 1),
            rgb[2] == self.clamped_byte(ox + sx, oy + sy, 2),
    {
        proof {
            use_type_invariant(self);
            assert(self.width <= self.width * self.height && self.height <= self.width
                * self.height) by (nonlinear_arith)
                requires
                    self.width >= 1,
                    self.height >= 1,
            ;
        }
        let x = Self::clamp_coord(ox + sx, self.width);
        let y = Self::clamp_coord(oy + sy, self.height);
        let i = self.offset(x, y);
        [self.raw[i], self.raw[i + 1], self.raw[i + 2]]
    }

    /// The hex of the capture pixel under the pointer at surface position
    /// `(sx, sy)` of an output whose top-left corner is at `(ox, oy)`, the
    /// position clamped into the image.
    pub fn pick_hex(&self, ox: i32, oy: i32, sx: i32, sy: i32) -> (s: String)
        requires
            i32::MIN <= ox + sx <= i32::MAX,
            i32::MIN <= oy + sy <= i32::MAX,
        ensures
            s@ == hex_of(
                self.clamped_byte(ox + sx, oy + sy, 0),
                self.clamped_byte(ox + sx, oy + sy, 1),
                self.clamped_byte(ox + sx, oy + sy, 2),
            ),
    {
        let rgb = self.pick_rgb(ox, oy, sx, sy);
        hex_color(rgb[0], rgb[1], rgb[2])
    }
}

/// Byte `k` of the opaque BGRA pixel showing capture pixel nearest to
/// `(x, y)`.
pub open spec fn shown_byte(cap: Capture, x: int, y: int, k: int) -> u8 {
    if k == 0 {
        cap.clamped_byte(x, y, 2)
    } else if k == 1 {
        cap.clamped_byte(x, y, 1)
    } else if k == 2 {
        cap.clamped_byte(x, y, 0)
    } else {
        0xFF
    }
}

/// Renders the slice of the capture under an output whose top-left corner
/// is at `(ox, oy)` onto that output's `sw` x `sh` canvas: every canvas
/// pixel shows the capture pixel at the same compositor position, clamped
/// into the image, opaque.
pub fn render_slice(canvas: &mut [u8], sw: u32, sh: u32, cap: &Capture, ox: i32, oy: i32)
    requires
        canvas_fits(old(canvas)@, sw, sh),
        ox + sw <= i32::MAX,
        oy + sh <= i32::MAX,
    ensures
        tail_kept(final(canvas)@, old(canvas)@, sw, sh),
        forall|x: int, y: int, k: int|
            on_canvas(sw, sh, x, y) && 0 <= k < 4 ==> #[trigger] pixel_byte(final(canvas)@, sw as int, x, y, k)
                == shown_byte(*cap, ox + x, oy + y, k),
{
    proof {
        use_type_invariant(cap);
    }
    let ghost c0 = canvas@;
    let mut y: u32 = 0;
    while y < sh
        invariant
            y <= sh,
            canvas_fits(c0, sw, sh),
            tail_kept(canvas@, c0, sw, sh),
            ox + sw <= i32::MAX,
            oy + sh <= i32::MAX,
            forall|px: int, py: int, k: int|
                on_canvas(sw, sh, px, py) && 0 <= k < 4 ==> #[trigger] pixel_byte(canvas@, sw as int, px, py, k)
                    == if py < y {
                    shown_byte(*cap, ox + px, oy + py, k)
                } else {
                    pixel_byte(c0, sw as int, px, py, k)
                },
        decreases sh - y,
    {
        let mut x: u32 = 0;
        while x < sw
            invariant
                x <= sw,
                y < sh,
                canvas_fits(c0, sw, sh),
                tail_kept(canvas@, c0, sw, sh),
                ox + sw <= i32::MAX,
                oy + sh <= i32::MAX,
                forall|px: int, py: int, k: int|
                    on_canvas(sw, sh, px, py) && 0 <= k < 4 ==> #[trigger] pixel_byte(canvas@, sw as int, px, py, k)
                        == if py < y || (py == y && px < x) {
                        shown_byte(*cap, ox + px, oy + py, k)
                    } else {
                        pixel_byte(c0, sw as int, px, py, k)
                    },
            decreases sw - x,
        {
            proof {
                use_type_invariant(cap);
                lemma_pixel_offset(sw, sh, x as int, y as int);
                assert(cap.width <= cap.width * cap.height && cap.height <= cap.width
                    * cap.height) by (nonlinear_arith)
                    requires
                        cap.width >= 1,
                        cap.height >= 1,
                ;
                assert(y * sw <= i32::MAX) by (nonlinear_arith)
                    requires
                        0 <= y * sw + x < sw * sh,
                        sw * sh * 4 <= i32::MAX,
                        x >= 0,
                ;
            }
            let sx = Capture::clamp_coord(ox + x as i32, cap.width);
            let sy = Capture::clamp_coord(oy + y as i32, cap.height);
            let si = cap.offset(sx, sy);
            let di = ((y * sw + x) * 4) as usize;
            let ghost before = canvas@;
            canvas[di] = cap.raw[si + 2];
            canvas[di + 1] = cap.raw[si + 1];
            canvas[di + 2] = cap.raw[si];
            canvas[di + 3] = 0xFF;
            assert forall|px: int, py: int, k: int|
                on_canvas(sw, sh, px, py) && 0 <= k < 4 implies #[trigger] pixel_byte(
                canvas@,
                sw as int,
                px,
                py,
                k,
            ) == if py < y || (py == y && px < x + 1) {
                shown_byte(*cap, ox + px, oy + py, k)
            } else {
                pixel_byte(c0, sw as int, px, py, k)
            } by {
                lemma_pixel_offset(sw, sh, px, py);
                let i = (py * sw + px) * 4 + k;
                if px == x && py == y {
                } else {
                    if i == di || i == di + 1 || i == di + 2 || i == di + 3 {
                        lemma_pixel_distinct(sw as int, px, py, k, x as int, y as int, i - di);
                    }
                    assert(pixel_byte(canvas@, sw as int, px, py, k) == pixel_byte(before, sw as int, px, py, k));
                }
            }
            x += 1;
        }
        y += 1;
    }
}


/// Radius of the magnifier lens in pixels.
pub const LENS_RADIUS: i32 = 90;

/// Capture pixels per lens pixel, inverted: the lens zooms 8x.
pub const LENS_ZOOM: i32 = 8;

/// Width of the white ring at the lens edge.
pub const LENS_RING: i32 = 3;

/// The reticle arms run from this distance from the centre ...
pub const RETICLE_GAP: i32 = 2;

/// ... to this one.
pub const RETICLE_HALF: i32 = 6;

pub open spec fn abs(v: int) -> int {
    if v < 0 {
        -v
    } else {
        v
    }
}

/// Integer division rounding toward zero, as Rust's `/` does.
pub open spec fn trunc_div(a: int, d: int) -> int {
    if a >= 0 {
        a / d
    } else {
        -((-a) / d)
    }
}

/// Offset `(dx, dy)` from the lens centre lies in the lens.
pub open spec fn in_lens(dx: int, dy: int) -> bool {
    -90 <= dx <= 90 && -90 <= dy <= 90 && dx * dx + dy * dy <= 90 * 90
}

/// Byte `k` of the lens pixel at offset `(dx, dy)` from the cursor at
/// surface position `(cx, cy)` of an output at `(ox, oy)`: white on the
/// ring, black on the reticle arms (the centre pixel stays visible), and
/// elsewhere the capture pixel `(dx / 8, dy / 8)` away from the cursor.
pub open spec fn lens_byte(cap: Capture, ox: int, oy: int, cx: int, cy: int, dx: int, dy: int, k: int) -> u8 {
    if dx * dx + dy * dy > 87 * 87 {
        0xFF
    } else if (dy == 0 && 2 <= abs(dx) <= 6) || (dx == 0 && 2 <= abs(dy) <= 6) {
        if k == 3 {
            0xFF
        } else {
            0
        }
    } else {
        shown_byte(cap, ox + cx + trunc_div(dx, 8), oy + cy + trunc_div(dy, 8), k)
    }
}

/// The pixel at the centre of the lens shows, as opaque BGRA, exactly the
/// capture pixel whose hex a click at the cursor picks.
pub proof fn law_lens_centre_is_pick(cap: Capture, ox: int, oy: int, cx: int, cy: int)
    ensures
        in_lens(0, 0),
        lens_byte(cap, ox, oy, cx, cy, 0, 0, 0) == cap.clamped_byte(ox + cx, oy + cy, 2),
        lens_byte(cap, ox, oy, cx, cy, 0, 0, 1) == cap.clamped_byte(ox + cx, oy + cy, 1),
        lens_byte(cap, ox, oy, cx, cy, 0, 0, 2) == cap.clamped_byte(ox + cx, oy + cy, 0),
        lens_byte(cap, ox, oy, cx, cy, 0, 0, 3) == 0xFF,
{
    assert(trunc_div(0, 8) == 0);
}

/// Draws the zoom magnifier centred at `(cx, cy)` on the canvas of an
/// output whose top-left corner is at `(img_ox, img_oy)`. The lens shows
/// the capture around the cursor zoomed 8x; a white ring frames it and a
/// black reticle marks the exact pixel. Pixels off the canvas are clipped.
#[verifier::spinoff_prover]
#[verifier::rlimit(40)]
pub fn draw_magnifier(
    canvas: &mut [u8],
    cw: u32,
    ch: u32,
    cx: i32,
    cy: i32,
    cap: &Capture,
    img_ox: i32,
    img_oy: i32,
)
    requires
        canvas_fits(old(canvas)@, cw, ch),
        i32::MIN + 90 <= cx <= i32::MAX - 90,
        i32::MIN + 90 <= cy <= i32::MAX - 90,
        i32::MIN + 12 <= img_ox + cx <= i32::MAX - 12,
        i32::MIN + 12 <= img_oy + cy <= i32::MAX - 12,
    ensures
        tail_kept(final(canvas)@, old(canvas)@, cw, ch),
        forall|px: int, py: int, k: int|
            on_canvas(cw, ch, px, py) && 0 <= k < 4 ==> #[trigger] pixel_byte(final(canvas)@, cw as int, px, py, k)
                == if in_lens(px - cx, py - cy) {
                lens_byte(*cap, img_ox as int, img_oy as int, cx as int, cy as int, px - cx, py - cy, k)
            } else {
                pixel_byte(old(canvas)@, cw as int, px, py, k)
            },
{
    proof {
        use_type_invariant(cap);
        assert(cap.width <= cap.width * cap.height && cap.height <= cap.width * cap.height) by (nonlinear_arith)
            requires
                cap.width >= 1,
                cap.height >= 1,
        ;
    }
    let ghost c0 = canvas@;
    let r2: i32 = LENS_RADIUS * LENS_RADIUS;
    let ring_inner: i32 = (LENS_RADIUS - LENS_RING) * (LENS_RADIUS - LENS_RING);
    let mut dy: i32 = -LENS_RADIUS;
    while dy <= LENS_RADIUS
        invariant
            -90 <= dy <= 91,
            r2 == 8100,
            ring_inner == 87 * 87,
            canvas_fits(c0, cw, ch),
            tail_kept(canvas@, c0, cw, ch),
            i32::MIN + 90 <= cx <= i32::MAX - 90,
            i32::MIN + 90 <= cy <= i32::MAX - 90,
            i32::MIN + 12 <= img_ox + cx <= i32::MAX - 12,
            i32::MIN + 12 <= img_oy + cy <= i32::MAX - 12,
            forall|px: int, py: int, k: int|
                on_canvas(cw, ch, px, py) && 0 <= k < 4 ==> #[trigger] pixel_byte(canvas@, cw as int, px, py, k)
                    == if in_lens(px - cx, py - cy) && py - cy < dy {
                    lens_byte(*cap, img_ox as int, img_oy as int, cx as int, cy as int, px - cx, py - cy, k)
                } else {
                    pixel_byte(c0, cw as int, px, py, k)
                },
        decreases 91 - dy,
    {
        let py = cy + dy;
        let mut dx: i32 = -LENS_RADIUS;
        while dx <= LENS_RADIUS
            invariant
                -90 <= dy <= 90,
                -90 <= dx <= 91,
                py == cy + dy,
                r2 == 8100,
                ring_inner == 87 * 87,
                canvas_fits(c0, cw, ch),
                tail_kept(canvas@, c0, cw, ch),
                i32::MIN + 90 <= cx <= i32::MAX - 90,
                i32::MIN + 90 <= cy <= i32::MAX - 90,
                i32::MIN + 12 <= img_ox + cx <= i32::MAX - 12,
                i32::MIN + 12 <= img_oy + cy <= i32::MAX - 12,
                forall|qx: int, qy: int, k: int|
                    on_canvas(cw, ch, qx, qy) && 0 <= k < 4 ==> #[trigger] pixel_byte(canvas@, cw as int, qx, qy, k)
                        == if in_lens(qx - cx, qy - cy) && (qy - cy < dy || (qy - cy == dy && qx - cx < dx)) {
                        lens_byte(*cap, img_ox as int, img_oy as int, cx as int, cy as int, qx - cx, qy - cy, k)
                    } else {
                        pixel_byte(c0, cw as int, qx, qy, k)
                    },
            decreases 91 - dx,
        {
            let px = cx + dx;
            proof {
                assert(0 <= dx * dx <= 8100 && 0 <= dy * dy <= 8100) by (nonlinear_arith)
                    requires
                        -90 <= dx <= 90,
                        -90 <= dy <= 90,
                ;
            }
            let dist_sq = dx * dx + dy * dy;
            let ghost before = canvas@;
            let on = ch > 0 && px >= 0 && py >= 0 && (px as i64) < (cw as i64) && (py as i64) < (ch as i64)
                && dist_sq <= r2;
            if on {
                proof {
                    lemma_pixel_offset(cw, ch, px as int, py as int);
                    assert(py * cw <= i32::MAX) by (nonlinear_arith)
                        requires
                            0 <= py * cw + px < cw * ch,
                            cw * ch * 4 <= i32::MAX,
                            px >= 0,
                    ;
                }
                let di = ((py * cw as i32 + px) * 4) as usize;
                let adx = if dx < 0 {
                    -dx
                } else {
                    dx
                };
                let ady = if dy < 0 {
                    -dy
                } else {
                    dy
                };
                let b: [u8; 4] = if dist_sq > ring_inner {
                    [0xFF, 0xFF, 0xFF, 0xFF]
                } else if (dy == 0 && RETICLE_GAP <= adx && adx <= RETICLE_HALF) || (dx == 0
                    && RETICLE_GAP <= ady && ady <= RETICLE_HALF) {
                    [0x00, 0x00, 0x00, 0xFF]
                } else {
                    proof {
                        use_type_invariant(cap);
                        assert(cap.width <= cap.width * cap.height && cap.height <= cap.width
                            * cap.height) by (nonlinear_arith)
                            requires
                                cap.width >= 1,
                                cap.height >= 1,
                        ;
                    }
                    let sx = Capture::clamp_coord(img_ox + cx + dx / LENS_ZOOM, cap.width);
                    let sy = Capture::clamp_coord(img_oy + cy + dy / LENS_ZOOM, cap.height);
                    let si = cap.offset(sx, sy);
                    [cap.raw[si + 2], cap.raw[si + 1], cap.raw[si], 0xFF]
                };
                assert(forall|k: int|
                    0 <= k < 4 ==> b@[k] == lens_byte(
                        *cap,
                        img_ox as int,
                        img_oy as int,
                        cx as int,
                        cy as int,
                        dx as int,
                        dy as int,
                        k,
                    ));
                canvas[di] = b[0];
                canvas[di + 1] = b[1];
                canvas[di + 2] = b[2];
                canvas[di + 3] = b[3];
                assert forall|qx: int, qy: int, k: int|
                    on_canvas(cw, ch, qx, qy) && 0 <= k < 4 implies #[trigger] pixel_byte(
                    canvas@,
                    cw as int,
                    qx,
                    qy,
                    k,
                ) == if in_lens(qx - cx, qy - cy) && (qy - cy < dy || (qy - cy == dy && qx - cx < dx + 1)) {
                    lens_byte(*cap, img_ox as int, img_oy as int, cx as int, cy as int, qx - cx, qy - cy, k)
                } else {
                    pixel_byte(c0, cw as int, qx, qy, k)
                } by {
                    lemma_pixel_offset(cw, ch, qx, qy);
                    let i = (qy * cw + qx) * 4 + k;
                    if qx == px && qy == py {
                    } else {
                        if i == di || i == di + 1 || i == di + 2 || i == di + 3 {
                            lemma_pixel_distinct(cw as int, qx, qy, k, px as int, py as int, i - di);
                        }
                        assert(pixel_byte(canvas@, cw as int, qx, qy, k) == pixel_byte(before, cw as int, qx, qy, k));
                    }
                }
            } else {
                assert forall|qx: int, qy: int, k: int|
                    on_canvas(cw, ch, qx, qy) && 0 <= k < 4 implies #[trigger] pixel_byte(
                    canvas@,
                    cw as int,
                    qx,
                    qy,
                    k,
                ) == if in_lens(qx - cx, qy - cy) && (qy - cy < dy || (qy - cy == dy && qx - cx < dx + 1)) {
                    lens_byte(*cap, img_ox as int, img_oy as int, cx as int, cy as int, qx - cx, qy - cy, k)
                } else {
                    pixel_byte(c0, cw as int, qx, qy, k)
                } by {
                    if qx == px && qy == py {
                        assert(!in_lens(qx - cx, qy - cy));
                    }
                }
            }
            dx += 1;
        }
        dy += 1;
    }
}


/// Text scale of the hex readout.
pub const LABEL_SCALE: u32 = 3;

/// Padding inside the label's background pill.
pub const LABEL_PAD: i32 = 8;

/// Gap between the colour swatch and the text.
pub const SWATCH_GAP: i32 = 8;

/// Width of the label for a text of `n` characters: swatch, gap, text and
/// padding on both sides.
pub open spec fn label_w(n: nat) -> int {
    21 + 8 + spec_text_width(n, 3) + 16
}

/// Left edge of a label centred horizontally at `cx`.
pub open spec fn label_left(cx: int, n: nat) -> int {
    cx - label_w(n) / 2
}

/// Every coordinate the label computes fits in an `i32`.
pub open spec fn label_fits(n: nat, cx: int, top_y: int) -> bool {
    &&& 18 * n + 45 <= i32::MAX
    &&& i32::MIN <= label_left(cx, n)
    &&& label_left(cx, n) + label_w(n) <= i32::MAX
    &&& top_y + 37 <= i32::MAX
}

pub open spec fn min(a: int, b: int) -> int {
    if a <= b {
        a
    } else {
        b
    }
}

/// Offset `(x, y)` in a `w` x `h` pill falls in a corner cut away to round
/// it: a 4-pixel corner square, farther than 4 pixels from the point 4
/// pixels in from both edges.
pub open spec fn corner_cut(w: int, h: int, x: int, y: int) -> bool {
    let a = min(x, w - 1 - x) - 4;
    let b = min(y, h - 1 - y) - 4;
    &&& (x < 4 || x >= w - 4) && (y < 4 || y >= h - 4)
    &&& a * a + b * b > 16
}

pub open spec fn in_pill(w: int, h: int, x: int, y: int) -> bool {
    0 <= x < w && 0 <= y < h && !corner_cut(w, h, x, y)
}

/// A channel darkened to 15% of itself plus 25: the truncated value of
/// `c * 0.15 + 25`.
pub open spec fn dimmed(c: u8) -> u8 {
    (c * 15 / 100 + 25) as u8
}

/// Byte `k` of canvas pixel `(px, py)` after the label for `hex` with
/// swatch colour `swatch`, centred at `cx` with its top at `top_y`: white
/// text over the swatch over the dimmed pill over what was there.
pub open spec fn label_byte(
    old: Seq<u8>,
    cw: u32,
    hex: Seq<char>,
    swatch: [u8; 3],
    cx: int,
    top_y: int,
    px: int,
    py: int,
    k: int,
) -> u8 {
    let bx = label_left(cx, hex.len());
    let sx = bx + 8;
    let sy = top_y + 8;
    if text_covers(hex, sx + 21 + 8, sy, 3, px, py) {
        0xFF
    } else if in_rect(sx, sy, 21, 21, px, py) {
        bgra(swatch)[k]
    } else if in_pill(label_w(hex.len()), 37, px - bx, py - top_y) {
        if k < 3 {
            dimmed(pixel_byte(old, cw as int, px, py, k))
        } else {
            0xFF
        }
    } else {
        pixel_byte(old, cw as int, px, py, k)
    }
}

/// Renders the hex readout label centred horizontally at `cx` with its
/// top at `top_y`: a dark rounded background pill, a colour swatch on the
/// left, then the hex text in white. Pixels off the canvas are clipped.
pub fn draw_label(canvas: &mut [u8], cw: u32, ch: u32, cx: i32, top_y: i32, hex: &str, swatch: [u8; 3])
    requires
        canvas_fits(old(canvas)@, cw, ch),
        label_fits(hex@.len(), cx as int, top_y as int),
    ensures
        tail_kept(final(canvas)@, old(canvas)@, cw, ch),
        forall|px: int, py: int, k: int|
            on_canvas(cw, ch, px, py) && 0 <= k < 4 ==> #[trigger] pixel_byte(final(canvas)@, cw as int, px, py, k)
                == label_byte(old(canvas)@, cw, hex@, swatch, cx as int, top_y as int, px, py, k),
{
    let ghost c0 = canvas@;
    let ghost n = hex@.len();
    proof {
        if n > 0 {
            assert(n * 5 * 3 + (n - 1) * 3 == 18 * n - 3);
        }
    }
    let text_w = text_width(hex, LABEL_SCALE) as i32;
    let text_h = text_height(LABEL_SCALE) as i32;
    let swatch_size = text_h;
    let inner_w = swatch_size + SWATCH_GAP + text_w;
    let bg_w = inner_w + LABEL_PAD * 2;
    let bg_h = text_h + LABEL_PAD * 2;
    assert(bg_w == label_w(n) && bg_h == 37);
    let bg_x = cx - bg_w / 2;
    let bg_y = top_y;
    assert(bg_x == label_left(cx as int, n));
    let mut y: i32 = 0;
    while y < bg_h
        invariant
            bg_h == 37,
            bg_w == label_w(n),
            n == hex@.len(),
            bg_x == label_left(cx as int, n),
            bg_y == top_y,
            label_fits(n, cx as int, top_y as int),
            0 <= y <= bg_h,
            canvas_fits(c0, cw, ch),
            tail_kept(canvas@, c0, cw, ch),
            forall|px: int, py: int, k: int|
                on_canvas(cw, ch, px, py) && 0 <= k < 4 ==> #[trigger] pixel_byte(canvas@, cw as int, px, py, k)
                    == if in_pill(bg_w as int, 37, px - bg_x, py - bg_y) && py - bg_y < y {
                    if k < 3 {
                        dimmed(pixel_byte(c0, cw as int, px, py, k))
                    } else {
                        0xFF
                    }
                } else {
                    pixel_byte(c0, cw as int, px, py, k)
                },
        decreases bg_h - y,
    {
        let mut x: i32 = 0;
        while x < bg_w
            invariant
                bg_h == 37,
                bg_w == label_w(n),
                n == hex@.len(),
                bg_x == label_left(cx as int, n),
                bg_y == top_y,
                label_fits(n, cx as int, top_y as int),
                0 <= y < bg_h,
                0 <= x <= bg_w,
                canvas_fits(c0, cw, ch),
                tail_kept(canvas@, c0, cw, ch),
                forall|px: int, py: int, k: int|
                    on_canvas(cw, ch, px, py) && 0 <= k < 4 ==> #[trigger] pixel_byte(canvas@, cw as int, px, py, k)
                        == if in_pill(bg_w as int, 37, px - bg_x, py - bg_y) && (py - bg_y < y || (py
                        - bg_y == y && px - bg_x < x)) {
                        if k < 3 {
                            dimmed(pixel_byte(c0, cw as int, px, py, k))
                        } else {
                            0xFF
                        }
                    } else {
                        pixel_byte(c0, cw as int, px, py, k)
                    },
            decreases bg_w - x,
        {
            let px = bg_x + x;
            let py = bg_y + y;
            let ghost before = canvas@;
            let in_corner = (x < 4 || x >= bg_w - 4) && (y < 4 || y >= bg_h - 4);
            let xm = if x <= bg_w - 1 - x {
                x
            } else {
                bg_w - 1 - x
            };
            let ym = if y <= bg_h - 1 - y {
                y
            } else {
                bg_h - 1 - y
            };
            let cut = if in_corner {
                let dx = xm - 4;
                let dy = ym - 4;
                assert(-4 <= dx <= -1 && -4 <= dy <= -1);
                assert(0 <= dx * dx <= 16 && 0 <= dy * dy <= 16) by (nonlinear_arith)
                    requires
                        -4 <= dx <= -1,
                        -4 <= dy <= -1,
                ;
                dx * dx + dy * dy > 16
            } else {
                false
            };
            let on = ch > 0 && px >= 0 && py >= 0 && (px as i64) < (cw as i64) && (py as i64) < (ch
                as i64) && !cut;
            assert(cut == corner_cut(bg_w as int, 37, x as int, y as int));
            if on {
                proof {
                    lemma_pixel_offset(cw, ch, px as int, py as int);
                    assert(py * cw <= i32::MAX) by (nonlinear_arith)
                        requires
                            0 <= py * cw + px < cw * ch,
                            cw * ch * 4 <= i32::MAX,
                            px >= 0,
                    ;
                }
                let di = ((py * cw as i32 + px) * 4) as usize;
                assert(pixel_byte(canvas@, cw as int, px as int, py as int, 0) == pixel_byte(c0, cw as int, px as int, py as int, 0));
                assert(pixel_byte(canvas@, cw as int, px as int, py as int, 1) == pixel_byte(c0, cw as int, px as int, py as int, 1));
                assert(pixel_byte(canvas@, cw as int, px as int, py as int, 2) == pixel_byte(c0, cw as int, px as int, py as int, 2));
                let b0 = ((canvas[di] as u32 * 15) / 100 + 25) as u8;
                let b1 = ((canvas[di + 1] as u32 * 15) / 100 + 25) as u8;
                let b2 = ((canvas[di + 2] as u32 * 15) / 100 + 25) as u8;
                assert(b0 == dimmed(pixel_byte(c0, cw as int, px as int, py as int, 0)));
                assert(b1 == dimmed(pixel_byte(c0, cw as int, px as int, py as int, 1)));
                assert(b2 == dimmed(pixel_byte(c0, cw as int, px as int, py as int, 2)));
                canvas[di] = b0;
                canvas[di + 1] = b1;
                canvas[di + 2] = b2;
                canvas[di + 3] = 0xFF;
                assert forall|qx: int, qy: int, k: int|
                    on_canvas(cw, ch, qx, qy) && 0 <= k < 4 implies #[trigger] pixel_byte(
                    canvas@,
                    cw as int,
                    qx,
                    qy,
                    k,
                ) == if in_pill(bg_w as int, 37, qx - bg_x, qy - bg_y) && (qy - bg_y < y || (qy - bg_y
                    == y && qx - bg_x < x + 1)) {
                    if k < 3 {
                        dimmed(pixel_byte(c0, cw as int, qx, qy, k))
                    } else {
                        0xFF
                    }
                } else {
                    pixel_byte(c0, cw as int, qx, qy, k)
                } by {
                    lemma_pixel_offset(cw, ch, qx, qy);
                    let i = (qy * cw + qx) * 4 + k;
                    if qx == px && qy == py {
                    } else {
                        if i == di || i == di + 1 || i == di + 2 || i == di + 3 {
                            lemma_pixel_distinct(cw as int, qx, qy, k, px as int, py as int, i - di);
                        }
                        assert(pixel_byte(canvas@, cw as int, qx, qy, k) == pixel_byte(before, cw as int, qx, qy, k));
                    }
                }
            } else {
                assert forall|qx: int, qy: int, k: int|
                    on_canvas(cw, ch, qx, qy) && 0 <= k < 4 implies #[trigger] pixel_byte(
                    canvas@,
                    cw as int,
                    qx,
                    qy,
                    k,
                ) == if in_pill(bg_w as int, 37, qx - bg_x, qy - bg_y) && (qy - bg_y < y || (qy - bg_y
                    == y && qx - bg_x < x + 1)) {
                    if k < 3 {
                        dimmed(pixel_byte(c0, cw as int, qx, qy, k))
                    } else {
                        0xFF
                    }
                } else {
                    pixel_byte(c0, cw as int, qx, qy, k)
                } by {
                    if qx == px && qy == py {
                        assert(!in_pill(bg_w as int, 37, qx - bg_x, qy - bg_y));
                    }
                }
            }
            x += 1;
        }
        y += 1;
    }
    let ghost c1 = canvas@;
    let sw_x = bg_x + LABEL_PAD;
    let sw_y = bg_y + LABEL_PAD;
    let swatch_px: [u8; 4] = [swatch[2], swatch[1], swatch[0], 0xFF];
    assert(swatch_px@ =~= bgra(swatch));
    fill_rect(canvas, cw, ch, sw_x, sw_y, swatch_size, swatch_size, swatch_px);
    let ghost c2 = canvas@;
    let text_x = sw_x + swatch_size + SWATCH_GAP;
    let text_y = sw_y;
    let white: [u8; 3] = [0xFF, 0xFF, 0xFF];
    draw_text(canvas, cw, ch, text_x, text_y, hex, white, LABEL_SCALE);
    assert forall|px: int, py: int, k: int|
        on_canvas(cw, ch, px, py) && 0 <= k < 4 implies #[trigger] pixel_byte(canvas@, cw as int, px, py, k)
            == label_byte(c0, cw, hex@, swatch, cx as int, top_y as int, px, py, k) by {
        assert(pixel_byte(c2, cw as int, px, py, k) == pixel_byte(c2, cw as int, px, py, k));
        assert(pixel_byte(c1, cw as int, px, py, k) == pixel_byte(c1, cw as int, px, py, k));
        assert(bgra(white)[k] == 0xFF);
    }
}

} // verus!
verus! {

/// The value of a hexadecimal digit: `0`..`9` are worth 0..9, `A`..`F`
/// 10..15; any other character is worth -1.
pub open spec fn hex_value(c: char) -> int {
    if '0' <= c && c <= '9' {
        c as int - '0' as int
    } else if 'A' <= c && c <= 'F' {
        c as int - 'A' as int + 10
    } else {
        -1
    }
}

proof fn lemma_hex_digit_value(n: int)
    requires
        0 <= n < 16,
    ensures
        hex_value(hex_digit(n)) == n,
{
    if n < 10 {
        assert(hex_digit(n) as int == 48 + n);
    } else {
        assert(hex_digit(n) as int == 55 + n);
    }
}

/// The hex text of a colour reads back to its bytes: `#` and then, for
/// each of red, green and blue, two digits whose value (the first times
/// 16 plus the second) is that channel.
pub proof fn law_hex_reads_back(r: u8, g: u8, b: u8)
    ensures
        ({
            let s = hex_of(r, g, b);
            &&& s.len() == 7
            &&& s[0] == '#'
            &&& forall|k: int| 1 <= k < 7 ==> 0 <= #[trigger] hex_value(s[k]) < 16
            &&& hex_value(s[1]) * 16 + hex_value(s[2]) == r
            &&& hex_value(s[3]) * 16 + hex_value(s[4]) == g
            &&& hex_value(s[5]) * 16 + hex_value(s[6]) == b
        }),
{
    lemma_hex_digit_value(r as int / 16);
    lemma_hex_digit_value(r as int % 16);
    lemma_hex_digit_value(g as int / 16);
    lemma_hex_digit_value(g as int % 16);
    lemma_hex_digit_value(b as int / 16);
    lemma_hex_digit_value(b as int % 16);
}

} // verus!
