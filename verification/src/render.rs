//! Drawing into the desktop's back buffer: rounded rectangles and their
//! outlines, drop shadows, discs, the mouse pointer and window contents
//! clipped to rounded corners. Every shape is painted over a rectangle of
//! local coordinates; a pixel is painted when it falls on the screen row
//! (left of the screen's width, not above the top) and inside the buffer.
use vstd::prelude::*;
use vstd::arithmetic::div_mod::lemma_fundamental_div_mod_converse;
use crate::display::{DisplayServer, Window, z_key_lt};
use crate::graphics::{GraphicsServer, first_with_id};
use crate::gui::Theme;
use crate::surface::bpp;
use crate::text::{push_str, chars_of, string_from_chars};

verus! {

/// Largest shape side.
pub const MAX_SIDE: i32 = 16384;
/// Largest corner radius, outline thickness or disc radius.
pub const MAX_RADIUS: i32 = 4096;
/// Largest distance of a shape's origin from the screen's corner.
pub const MAX_COORD: i32 = 0x10000;

pub open spec fn sq(a: int) -> int {
    a * a
}

fn sq_exec(a: i64) -> (r: i64)
    requires
        -0x10000 <= a <= 0x10000,
    ensures
        r == sq(a as int),
        0 <= r <= 0x1_0000_0000,
{
    assert(a * a <= 0x1_0000_0000) by (nonlinear_arith)
        requires
            -0x10000 <= a <= 0x10000,
    ;
    assert(a * a >= 0) by (nonlinear_arith);
    a * a
}

/// Whether local pixel (dx, dy) of a `w` by `h` rectangle lies outside its
/// rounded corner of radius `r`, the corners tried in the order top-left,
/// top-right, bottom-left, bottom-right and only the first that holds the
/// pixel's row and column looked at.
pub open spec fn outside_corner(dx: int, dy: int, w: int, h: int, r: int) -> bool {
    if dx < r && dy < r {
        sq(r - dx) + sq(r - dy) > sq(r)
    } else if dx >= w - r && dy < r {
        sq(dx - (w - r)) + sq(r - dy) > sq(r)
    } else if dx < r && dy >= h - r {
        sq(r - dx) + sq(dy - (h - r)) > sq(r)
    } else if dx >= w - r && dy >= h - r {
        sq(dx - (w - r)) + sq(dy - (h - r)) > sq(r)
    } else {
        false
    }
}

/// Whether local pixel (dx, dy) lies outside any of the four rounded
/// corners, each tried on its own.
pub open spec fn outside_any_corner(dx: int, dy: int, w: int, h: int, r: int) -> bool {
    ||| (dx < r && dy < r && sq(r - dx) + sq(r - dy) > sq(r))
    ||| (dx >= w - r && dy < r && sq(dx - (w - r)) + sq(r - dy) > sq(r))
    ||| (dx < r && dy >= h - r && sq(r - dx) + sq(dy - (h - r)) > sq(r))
    ||| (dx >= w - r && dy >= h - r && sq(dx - (w - r)) + sq(dy - (h - r)) > sq(r))
}

fn outside_corner_exec(dx: i64, dy: i64, w: i64, h: i64, r: i64, chained: bool) -> (b: bool)
    requires
        0 <= dx < w <= MAX_SIDE,
        0 <= dy < h <= MAX_SIDE,
        0 <= r <= MAX_RADIUS,
    ensures
        chained ==> b == outside_corner(dx as int, dy as int, w as int, h as int, r as int),
        !chained ==> b == outside_any_corner(dx as int, dy as int, w as int, h as int, r as int),
{
    let rr = sq_exec(r);
    let tl = dx < r && dy < r && sq_exec(r - dx) + sq_exec(r - dy) > rr;
    let tr = dx >= w - r && dy < r && sq_exec(dx - (w - r)) + sq_exec(r - dy) > rr;
    let bl = dx < r && dy >= h - r && sq_exec(r - dx) + sq_exec(dy - (h - r)) > rr;
    let br = dx >= w - r && dy >= h - r && sq_exec(dx - (w - r)) + sq_exec(dy - (h - r)) > rr;
    if !chained {
        return tl || tr || bl || br;
    }
    if dx < r && dy < r {
        tl
    } else if dx >= w - r && dy < r {
        tr
    } else if dx < r && dy >= h - r {
        bl
    } else if dx >= w - r && dy >= h - r {
        br
    } else {
        false
    }
}

/// Whether local pixel (dx, dy) is on the outline of thickness `t` of a
/// rounded rectangle: inside the outer shape and outside the inner one
/// (inset by `t`, with corner radius `r - t`); the middle, farther than
/// `t + r` from every side, is never painted.
pub open spec fn on_outline(dx: int, dy: int, w: int, h: int, r: int, t: int) -> bool {
    let center = dx > t + r && dx < w - t - r && dy > t + r && dy < h - t - r;
    let ir = r - t;
    let ix = dx - t;
    let iy = dy - t;
    let iw = w - 2 * t;
    let ih = h - 2 * t;
    let inner_corner = if ix < ir && iy < ir {
        sq(ir - ix) + sq(ir - iy) > sq(ir)
    } else if ix >= iw - ir && iy < ir {
        sq(ix - (iw - ir)) + sq(ir - iy) > sq(ir)
    } else if ix < ir && iy >= ih - ir {
        sq(ir - ix) + sq(iy - (ih - ir)) > sq(ir)
    } else if ix >= iw - ir && iy >= ih - ir {
        sq(ix - (iw - ir)) + sq(iy - (ih - ir)) > sq(ir)
    } else {
        false
    };
    let border = ix < 0 || iy < 0 || ix >= iw || iy >= ih || inner_corner;
    !center && !outside_corner(dx, dy, w, h, r) && border
}

/// The points of the pointer's arrow, relative to its tip.
pub open spec fn cursor_point(dx: int, dy: int) -> bool {
    0 <= dx <= 4 && dx <= dy && dy <= (if dx == 0 { 6int } else if dx <= 2 { 5int } else { 4int })
}

/// The pixels next to the arrow (left, right, above, below a point).
pub open spec fn cursor_edge(dx: int, dy: int) -> bool {
    cursor_point(dx + 1, dy) || cursor_point(dx - 1, dy) || cursor_point(dx, dy + 1) || cursor_point(dx, dy - 1)
}

/// A pixel darkened by a black shadow of opacity `alpha` (its top byte
/// dropped).
pub open spec fn darken(bg: u32, alpha: u32) -> u32 {
    let inv = (255 - alpha) as u32;
    let r = (((bg >> 16u32) & 0xFF) * inv / 255) as u32;
    let g = (((bg >> 8u32) & 0xFF) * inv / 255) as u32;
    let b = ((bg & 0xFF) * inv / 255) as u32;
    (r << 16u32) | (g << 8u32) | b
}

/// What is painted.
#[derive(Clone, Copy, PartialEq, Eq, Structural)]
pub enum PaintOp {
    /// A rounded rectangle filled with `color`.
    RoundedFill { radius: i32, color: u32 },
    /// The outline of a rounded rectangle.
    RoundedOutline { radius: i32, thickness: i32, color: u32 },
    /// The right and bottom edges of a rounded shadow, darkening what is
    /// under them.
    Shadow { radius: i32, alpha: u32 },
    /// A disc of radius `r` whose box starts at the origin.
    Disc { r: i32, color: u32 },
    /// The pixels around the pointer's arrow; the tip at local (1, 1).
    CursorOutline { color: u32 },
    /// The pointer's arrow; the tip at local (1, 1).
    CursorFill { color: u32 },
    /// A surface's RGB pixels (`bpp` bytes each, rows of `surf_w`), clipped
    /// to rounded corners and to the surface's size.
    Surface { radius: i32, surf_w: u32, surf_h: u32, bpp: u32 },
}

/// Parameters within the bounds the drawing code is written for.
pub open spec fn op_ok(op: PaintOp) -> bool {
    match op {
        PaintOp::RoundedFill { radius, .. } => 0 <= radius <= MAX_RADIUS,
        PaintOp::RoundedOutline { radius, thickness, .. } => 0 <= radius <= MAX_RADIUS && 0 <= thickness <= MAX_RADIUS,
        PaintOp::Shadow { radius, alpha } => 0 <= radius <= MAX_RADIUS && alpha <= 255,
        PaintOp::Disc { r, .. } => 0 <= r <= MAX_RADIUS,
        PaintOp::CursorOutline { .. } => true,
        PaintOp::CursorFill { .. } => true,
        PaintOp::Surface { radius, surf_w, surf_h, bpp } => 0 <= radius <= MAX_RADIUS && surf_w <= 0x4000 && surf_h
            <= 0x4000 && bpp <= 4,
    }
}

/// The new value of local pixel (dx, dy) of a `w` by `h` rectangle whose
/// old value is `old`; `None` when the pixel is left alone.
pub open spec fn op_value(op: PaintOp, src: Seq<u8>, w: int, h: int, dx: int, dy: int, old: u32) -> Option<u32> {
    match op {
        PaintOp::RoundedFill { radius, color } => if outside_corner(dx, dy, w, h, radius as int) {
            None
        } else {
            Some(color)
        },
        PaintOp::RoundedOutline { radius, thickness, color } => if on_outline(dx, dy, w, h, radius as int, thickness as int) {
            Some(color)
        } else {
            None
        },
        PaintOp::Shadow { radius, alpha } => if dx < w - 12 && dy < h - 12 {
            None
        } else if outside_corner(dx, dy, w, h, radius as int) {
            None
        } else {
            Some(darken(old, alpha))
        },
        PaintOp::Disc { r, color } => if sq(dx - r) + sq(dy - r) <= sq(r as int) {
            Some(color)
        } else {
            None
        },
        PaintOp::CursorOutline { color } => if cursor_edge(dx - 1, dy - 1) {
            Some(color)
        } else {
            None
        },
        PaintOp::CursorFill { color } => if cursor_point(dx - 1, dy - 1) {
            Some(color)
        } else {
            None
        },
        PaintOp::Surface { radius, surf_w, surf_h, bpp } => {
            let si = (dy * surf_w + dx) * bpp;
            if outside_any_corner(dx, dy, w, h, radius as int) || dx >= surf_w || dy >= surf_h || si + 3 >= src.len() {
                None
            } else {
                Some(((src[si] as u32) << 16u32) | ((src[si + 1] as u32) << 8u32) | (src[si + 2] as u32))
            }
        },
    }
}

fn op_value_exec(op: PaintOp, src: &[u8], w: i32, h: i32, dx: i32, dy: i32, old: u32) -> (r: Option<u32>)
    requires
        op_ok(op),
        0 <= dx < w <= MAX_SIDE,
        0 <= dy < h <= MAX_SIDE,
    ensures
        r == op_value(op, src@, w as int, h as int, dx as int, dy as int, old),
{
    let (x, y, ww, hh) = (dx as i64, dy as i64, w as i64, h as i64);
    match op {
        PaintOp::RoundedFill { radius, color } => {
            if outside_corner_exec(x, y, ww, hh, radius as i64, true) {
                None
            } else {
                Some(color)
            }
        },
        PaintOp::RoundedOutline { radius, thickness, color } => {
            let r = radius as i64;
            let t = thickness as i64;
            let center = x > t + r && x < ww - t - r && y > t + r && y < hh - t - r;
            if center || outside_corner_exec(x, y, ww, hh, r, true) {
                return None;
            }
            let ir = r - t;
            let ix = x - t;
            let iy = y - t;
            let iw = ww - 2 * t;
            let ih = hh - 2 * t;
            let border = if ix < 0 || iy < 0 || ix >= iw || iy >= ih {
                true
            } else if ix < ir && iy < ir {
                sq_exec(ir - ix) + sq_exec(ir - iy) > sq_exec(ir)
            } else if ix >= iw - ir && iy < ir {
                sq_exec(ix - (iw - ir)) + sq_exec(ir - iy) > sq_exec(ir)
            } else if ix < ir && iy >= ih - ir {
                sq_exec(ir - ix) + sq_exec(iy - (ih - ir)) > sq_exec(ir)
            } else if ix >= iw - ir && iy >= ih - ir {
                sq_exec(ix - (iw - ir)) + sq_exec(iy - (ih - ir)) > sq_exec(ir)
            } else {
                false
            };
            if border {
                Some(color)
            } else {
                None
            }
        },
        PaintOp::Shadow { radius, alpha } => {
            if x < ww - 12 && y < hh - 12 {
                None
            } else if outside_corner_exec(x, y, ww, hh, radius as i64, true) {
                None
            } else {
                let inv = 255 - alpha;
                assert(((old >> 16u32) & 0xFF) <= 255 && ((old >> 8u32) & 0xFF) <= 255 && (old & 0xFF) <= 255)
                    by (bit_vector);
                assert(((old >> 16u32) & 0xFF) * inv <= 255 * 255) by (nonlinear_arith)
                    requires
                        ((old >> 16u32) & 0xFF) <= 255,
                        inv <= 255,
                ;
                assert(((old >> 8u32) & 0xFF) * inv <= 255 * 255) by (nonlinear_arith)
                    requires
                        ((old >> 8u32) & 0xFF) <= 255,
                        inv <= 255,
                ;
                assert((old & 0xFF) * inv <= 255 * 255) by (nonlinear_arith)
                    requires
                        (old & 0xFF) <= 255,
                        inv <= 255,
                ;
                let r = ((old >> 16) & 0xFF) * inv / 255;
                let g = ((old >> 8) & 0xFF) * inv / 255;
                let b = (old & 0xFF) * inv / 255;
                Some((r << 16) | (g << 8) | b)
            }
        },
        PaintOp::Disc { r, color } => {
            let rr = r as i64;
            if sq_exec(x - rr) + sq_exec(y - rr) <= sq_exec(rr) {
                Some(color)
            } else {
                None
            }
        },
        PaintOp::CursorOutline { color } => {
            let (a, b) = (x - 1, y - 1);
            if cursor_point_exec(a + 1, b) || cursor_point_exec(a - 1, b) || cursor_point_exec(a, b + 1)
                || cursor_point_exec(a, b - 1) {
                Some(color)
            } else {
                None
            }
        },
        PaintOp::CursorFill { color } => {
            if cursor_point_exec(x - 1, y - 1) {
                Some(color)
            } else {
                None
            }
        },
        PaintOp::Surface { radius, surf_w, surf_h, bpp } => {
            if outside_corner_exec(x, y, ww, hh, radius as i64, false) || x >= surf_w as i64 || y >= surf_h as i64 {
                return None;
            }
            assert(y * surf_w <= 0x4000 * 0x4000) by (nonlinear_arith)
                requires
                    0 <= y < 0x4000,
                    surf_w <= 0x4000,
            ;
            assert((y * surf_w + x) * bpp <= (0x4000 * 0x4000 + 0x4000) * 4) by (nonlinear_arith)
                requires
                    0 <= y * surf_w <= 0x4000 * 0x4000,
                    0 <= x < 0x4000,
                    bpp <= 4,
            ;
            let si = ((y * surf_w as i64 + x) * bpp as i64) as usize;
            if si + 3 >= src.len() {
                return None;
            }
            Some(((src[si] as u32) << 16) | ((src[si + 1] as u32) << 8) | (src[si + 2] as u32))
        },
    }
}

fn cursor_point_exec(dx: i64, dy: i64) -> (b: bool)
    ensures
        b == cursor_point(dx as int, dy as int),
{
    let limit: i64 = if dx == 0 {
        6
    } else if dx <= 2 {
        5
    } else {
        4
    };
    0 <= dx && dx <= 4 && dx <= dy && dy <= limit
}

/// Which local pixel screen pixel `i` is: (dx, dy) from the origin (x, y).
pub open spec fn local_x(i: int, sw: int, x: int) -> int {
    i % sw - x
}

pub open spec fn local_y(i: int, sw: int, y: int) -> int {
    i / sw - y
}

/// The value of buffer pixel `i` after painting `op` over the `w` by `h`
/// rectangle at (x, y) on a screen `sw` pixels wide, its old value `old`.
pub open spec fn painted(op: PaintOp, src: Seq<u8>, sw: int, x: int, y: int, w: int, h: int, i: int, old: u32) -> u32 {
    let dx = local_x(i, sw, x);
    let dy = local_y(i, sw, y);
    if 0 <= dx < w && 0 <= dy < h {
        match op_value(op, src, w, h, dx, dy, old) {
            Some(v) => v,
            None => old,
        }
    } else {
        old
    }
}

/// The buffer `b` with `op` painted over the `w` by `h` rectangle at
/// (x, y).
pub open spec fn paint_seq(b: Seq<u32>, sw: int, x: int, y: int, w: int, h: int, op: PaintOp, src: Seq<u8>) -> Seq<u32> {
    Seq::new(b.len(), |i: int| painted(op, src, sw, x, y, w, h, i, b[i]))
}

/// Whether a shape's place and size are within what `paint` handles on a
/// screen `sw` pixels wide.
pub open spec fn paint_ok(sw: int, x: int, y: int, w: int, h: int) -> bool {
    &&& 0 < sw
    &&& 0 <= w <= MAX_SIDE
    &&& 0 <= h <= MAX_SIDE
    &&& -MAX_COORD <= x <= MAX_COORD
    &&& -MAX_COORD <= y <= MAX_COORD
    &&& (MAX_COORD + MAX_SIDE + 1) * sw <= usize::MAX
}

/// Whether pixel `i` is among those visited before local row `r` and, on
/// row `r`, before column `c`.
pub open spec fn visited(i: int, sw: int, x: int, y: int, w: int, h: int, r: int, c: int) -> bool {
    let dx = local_x(i, sw, x);
    let dy = local_y(i, sw, y);
    0 <= dx < w && 0 <= dy < h && (dy < r || (dy == r && dx < c))
}

/// Paints `op` over the `w` by `h` rectangle at (x, y) of the back buffer
/// of a screen `sw` pixels wide; `src` holds a surface's pixels for
/// `PaintOp::Surface`.
pub fn paint(buffer: &mut Vec<u32>, sw: usize, x: i32, y: i32, w: i32, h: i32, op: PaintOp, src: &[u8])
    requires
        op_ok(op),
        paint_ok(sw as int, x as int, y as int, w as int, h as int),
    ensures
        final(buffer)@ == paint_seq(old(buffer)@, sw as int, x as int, y as int, w as int, h as int, op, src@),
        final(buffer)@.len() == old(buffer)@.len(),
        forall|i: int|
            0 <= i < old(buffer)@.len() ==> #[trigger] final(buffer)@[i] == painted(
                op,
                src@,
                sw as int,
                x as int,
                y as int,
                w as int,
                h as int,
                i,
                old(buffer)@[i],
            ),
{
    let ghost old_buf = buffer@;
    let ghost s = sw as int;
    let mut dy: i32 = 0;
    while dy < h
        invariant
            0 < sw,
            op_ok(op),
            0 <= w <= MAX_SIDE,
            0 <= h <= MAX_SIDE,
            -MAX_COORD <= x <= MAX_COORD,
            -MAX_COORD <= y <= MAX_COORD,
            (MAX_COORD + MAX_SIDE + 1) * sw <= usize::MAX,
            s == sw,
            0 <= dy <= h,
            buffer@.len() == old_buf.len(),
            forall|i: int|
                0 <= i < old_buf.len() ==> #[trigger] buffer@[i] == (if visited(i, s, x as int, y as int, w as int, h as int, dy as int, 0) {
                    painted(op, src@, s, x as int, y as int, w as int, h as int, i, old_buf[i])
                } else {
                    old_buf[i]
                }),
        decreases h - dy,
    {
        let mut dx: i32 = 0;
        while dx < w
            invariant
                0 < sw,
                op_ok(op),
                0 <= w <= MAX_SIDE,
                0 <= h <= MAX_SIDE,
                -MAX_COORD <= x <= MAX_COORD,
                -MAX_COORD <= y <= MAX_COORD,
                (MAX_COORD + MAX_SIDE + 1) * sw <= usize::MAX,
                s == sw,
                0 <= dy < h,
                0 <= dx <= w,
                buffer@.len() == old_buf.len(),
                forall|i: int|
                    0 <= i < old_buf.len() ==> #[trigger] buffer@[i] == (if visited(i, s, x as int, y as int, w as int, h as int, dy as int, dx as int) {
                        painted(op, src@, s, x as int, y as int, w as int, h as int, i, old_buf[i])
                    } else {
                        old_buf[i]
                    }),
            decreases w - dx,
        {
            let sx: i64 = x as i64 + dx as i64;
            let sy: i64 = y as i64 + dy as i64;
            let ghost before = buffer@;
            if sx >= 0 && sy >= 0 && (sx as usize) < sw {
                assert(sy * sw <= (MAX_COORD + MAX_SIDE) * sw) by (nonlinear_arith)
                    requires
                        0 <= sy <= MAX_COORD + MAX_SIDE,
                        0 < sw,
                ;
                assert(sy * sw + sx <= (MAX_COORD + MAX_SIDE + 1) * sw) by (nonlinear_arith)
                    requires
                        sy * sw <= (MAX_COORD + MAX_SIDE) * sw,
                        0 <= sx < sw,
                ;
                let idx: usize = (sy as usize) * sw + (sx as usize);
                proof {
                    lemma_fundamental_div_mod_converse(idx as int, s, sy as int, sx as int);
                }
                if idx < buffer.len() {
                    let cur = buffer[idx];
                    match op_value_exec(op, src, w, h, dx, dy, cur) {
                        Some(v) => {
                            buffer.set(idx, v);
                        },
                        None => {},
                    }
                }
                proof {
                    assert forall|i: int| 0 <= i < old_buf.len() implies #[trigger] buffer@[i] == (if visited(
                        i,
                        s,
                        x as int,
                        y as int,
                        w as int,
                        h as int,
                        dy as int,
                        dx + 1,
                    ) {
                        painted(op, src@, s, x as int, y as int, w as int, h as int, i, old_buf[i])
                    } else {
                        old_buf[i]
                    }) by {
                        vstd::arithmetic::div_mod::lemma_fundamental_div_mod(i, s);
                        let q = i / s;
                        let rm = i % s;
                        if local_x(i, s, x as int) == dx && local_y(i, s, y as int) == dy {
                            assert(q == sy && rm == sx);
                            assert(s * q == sy * s) by (nonlinear_arith)
                                requires
                                    q == sy,
                            ;
                            assert(i == idx);
                        } else if i == idx as int {
                            assert(false);
                        }
                    }
                }
            } else {
                proof {
                    assert forall|i: int| 0 <= i < old_buf.len() implies #[trigger] buffer@[i] == (if visited(
                        i,
                        s,
                        x as int,
                        y as int,
                        w as int,
                        h as int,
                        dy as int,
                        dx + 1,
                    ) {
                        painted(op, src@, s, x as int, y as int, w as int, h as int, i, old_buf[i])
                    } else {
                        old_buf[i]
                    }) by {
                        assert(0 <= i % s < s);
                        assert(i / s >= 0) by {
                            vstd::arithmetic::div_mod::lemma_div_pos_is_pos(i, s);
                        }
                        if local_x(i, s, x as int) == dx && local_y(i, s, y as int) == dy {
                            assert(false);
                        }
                    }
                }
            }
            dx = dx + 1;
        }
        proof {
            assert forall|i: int| 0 <= i < old_buf.len() implies visited(i, s, x as int, y as int, w as int, h as int, dy as int, w as int)
                == visited(i, s, x as int, y as int, w as int, h as int, dy + 1, 0) by {}
        }
        dy = dy + 1;
    }
    assert(buffer@ =~= paint_seq(old_buf, sw as int, x as int, y as int, w as int, h as int, op, src@));
}

/// Whether `paint` handles a shape at (x, y) of size w by h.
pub fn fits(sw: usize, x: i32, y: i32, w: i32, h: i32) -> (b: bool)
    ensures
        b == paint_ok(sw as int, x as int, y as int, w as int, h as int),
{
    let k: usize = 81921;
    if sw == 0 || w < 0 || w > MAX_SIDE || h < 0 || h > MAX_SIDE || x < -MAX_COORD || x > MAX_COORD || y < -MAX_COORD
        || y > MAX_COORD {
        return false;
    }
    let lim = usize::MAX / k;
    proof {
        vstd::arithmetic::div_mod::lemma_fundamental_div_mod(usize::MAX as int, k as int);
        assert(k * lim <= usize::MAX);
        if sw <= lim {
            assert(k * sw <= k * lim) by (nonlinear_arith)
                requires
                    sw <= lim,
            ;
        } else {
            assert(k * sw >= k * (lim + 1)) by (nonlinear_arith)
                requires
                    sw >= lim + 1,
            ;
        }
    }
    sw <= lim
}

/// A rounded rectangle filled with `color`.
pub fn draw_rounded_rect(buffer: &mut Vec<u32>, sw: usize, x: i32, y: i32, w: i32, h: i32, radius: i32, color: u32)
    requires
        paint_ok(sw as int, x as int, y as int, w as int, h as int),
        0 <= radius <= MAX_RADIUS,
    ensures
        final(buffer)@ == paint_seq(old(buffer)@, sw as int, x as int, y as int, w as int, h as int, PaintOp::RoundedFill { radius, color }, Seq::empty()),
{
    let src: Vec<u8> = Vec::new();
    paint(buffer, sw, x, y, w, h, PaintOp::RoundedFill { radius, color }, src.as_slice());
}

/// The outline, `thickness` pixels wide, of a rounded rectangle.
pub fn draw_rounded_outline(buffer: &mut Vec<u32>, sw: usize, x: i32, y: i32, w: i32, h: i32, radius: i32, thickness: i32, color: u32)
    requires
        paint_ok(sw as int, x as int, y as int, w as int, h as int),
        0 <= radius <= MAX_RADIUS,
        0 <= thickness <= MAX_RADIUS,
    ensures
        final(buffer)@ == paint_seq(old(buffer)@, sw as int, x as int, y as int, w as int, h as int, PaintOp::RoundedOutline { radius, thickness, color }, Seq::empty()),
{
    let src: Vec<u8> = Vec::new();
    paint(buffer, sw, x, y, w, h, PaintOp::RoundedOutline { radius, thickness, color }, src.as_slice());
}

/// A drop shadow 8 pixels below and right of the rectangle at (x, y),
/// darkening by the opacity in the low byte of `shadow_color`; nothing when
/// that byte is 0.
pub fn draw_shadow(buffer: &mut Vec<u32>, sw: usize, x: i32, y: i32, w: i32, h: i32, radius: i32, shadow_color: u32)
    requires
        paint_ok(sw as int, x + 8, y + 8, w as int, h as int),
        0 <= radius <= MAX_RADIUS,
    ensures
        shadow_color & 0xFF == 0 ==> final(buffer)@ == old(buffer)@,
        shadow_color & 0xFF != 0 ==> final(buffer)@ == paint_seq(old(buffer)@, sw as int, x + 8, y + 8, w as int, h as int, PaintOp::Shadow { radius, alpha: shadow_color & 0xFF }, Seq::empty()),
{
    let alpha = shadow_color & 0xFF;
    if alpha == 0 {
        return;
    }
    assert(shadow_color & 0xFF <= 255) by (bit_vector);
    let src: Vec<u8> = Vec::new();
    paint(buffer, sw, x + 8, y + 8, w, h, PaintOp::Shadow { radius, alpha }, src.as_slice());
}

/// A disc of radius `r` centred at (cx, cy).
pub fn draw_circle_to_buffer(buffer: &mut Vec<u32>, sw: usize, cx: i32, cy: i32, r: i32, color: u32)
    requires
        0 <= r <= MAX_RADIUS,
        paint_ok(sw as int, cx - r, cy - r, 2 * r + 1, 2 * r + 1),
    ensures
        final(buffer)@ == paint_seq(old(buffer)@, sw as int, cx - r, cy - r, 2 * r + 1, 2 * r + 1, PaintOp::Disc { r, color }, Seq::empty()),
{
    let src: Vec<u8> = Vec::new();
    paint(buffer, sw, cx - r, cy - r, 2 * r + 1, 2 * r + 1, PaintOp::Disc { r, color }, src.as_slice());
}

/// Whether a surface's size is within what is drawn.
pub open spec fn surface_drawable(width: u32, height: u32) -> bool {
    width <= 0x4000 && height <= 0x4000
}

/// The content of surface `surface_id` drawn at (x, y) into a `w` by `h`
/// window area with rounded corners; nothing when there is no such
/// surface or it is larger than 16384 pixels on a side.
pub fn render_surface_clipped(buffer: &mut Vec<u32>, sw: usize, gs: &GraphicsServer, surface_id: u64, x: i32, y: i32, w: i32, h: i32, radius: i32)
    requires
        paint_ok(sw as int, x as int, y as int, w as int, h as int),
        0 <= radius <= MAX_RADIUS,
    ensures
        match first_with_id(gs.surfaces@, surface_id) {
            None => final(buffer)@ == old(buffer)@,
            Some(i) => {
                let s = gs.surfaces@[i];
                if surface_drawable(s.width, s.height) {
                    final(buffer)@ == paint_seq(old(buffer)@, sw as int, x as int, y as int, w as int, h as int,
                        PaintOp::Surface { radius, surf_w: s.width, surf_h: s.height, bpp: bpp(s.format) as u32 }, s.pixels@)
                } else {
                    final(buffer)@ == old(buffer)@
                }
            },
        },
{
    match gs.get_surface(surface_id) {
        None => {},
        Some(s) => {
            if s.width <= 0x4000 && s.height <= 0x4000 {
                let b = s.format.bytes_per_pixel() as u32;
                paint(buffer, sw, x, y, w, h, PaintOp::Surface { radius, surf_w: s.width, surf_h: s.height, bpp: b }, s.pixels.as_slice());
            }
        },
    }
}

/// The mouse pointer with its tip at (mx, my): a black edge, then the
/// arrow, white or in the accent colour while the left button is held.
pub fn render_cursor_to_buffer(buffer: &mut Vec<u32>, sw: usize, mx: i32, my: i32, is_clicking: bool, accent: u32)
    requires
        paint_ok(sw as int, mx - 1, my - 1, 7, 9),
    ensures
        ({
            let fill = if is_clicking { accent } else { 0xFFFFFFu32 };
            let b1 = paint_seq(old(buffer)@, sw as int, mx - 1, my - 1, 7, 9, PaintOp::CursorOutline { color: 0 }, Seq::empty());
            final(buffer)@ == paint_seq(b1, sw as int, mx - 1, my - 1, 7, 9, PaintOp::CursorFill { color: fill }, Seq::empty())
        }),
{
    let fill = if is_clicking { accent } else { 0xFFFFFFu32 };
    let src: Vec<u8> = Vec::new();
    paint(buffer, sw, mx - 1, my - 1, 7, 9, PaintOp::CursorOutline { color: 0 }, src.as_slice());
    paint(buffer, sw, mx - 1, my - 1, 7, 9, PaintOp::CursorFill { color: fill }, src.as_slice());
}

/// Text to be drawn at a place in a colour.
pub struct TextLabel {
    pub x: i32,
    pub y: i32,
    pub text: String,
    pub color: u32,
}

pub open spec fn label_view(l: TextLabel) -> (int, int, Seq<char>, u32) {
    (l.x as int, l.y as int, l.text@, l.color)
}

pub open spec fn labels_view(v: Seq<TextLabel>) -> Seq<(int, int, Seq<char>, u32)> {
    v.map_values(|l: TextLabel| label_view(l))
}

/// Whether `order` lists the windows back to front: every index once, by
/// z-order and then by position.
pub open spec fn z_sorted(ws: Seq<Window>, order: Seq<usize>) -> bool {
    &&& order.len() == ws.len()
    &&& forall|k: int| 0 <= k < order.len() ==> #[trigger] order[k] < ws.len()
    &&& forall|a: int, b: int| 0 <= a < b < order.len() ==> z_key_lt(ws, #[trigger] order[a], #[trigger] order[b])
}

/// Whether the screen is within what the taskbar is drawn for.
pub open spec fn screen_ok(s: &DisplayServer) -> bool {
    &&& 150 < s.screen_width <= MAX_SIDE
    &&& s.screen_height <= MAX_SIDE
    &&& s.taskbar_height <= s.screen_height
    &&& (MAX_COORD + MAX_SIDE + 1) * s.screen_width <= usize::MAX
}

/// Whether the taskbar can be drawn for this screen.
pub fn screen_ok_exec(s: &DisplayServer) -> (b: bool)
    ensures
        b == screen_ok(s),
{
    if !(150 < s.screen_width && s.screen_width <= MAX_SIDE as u32 && s.screen_height <= MAX_SIDE as u32
        && s.taskbar_height <= s.screen_height) {
        return false;
    }
    fits(s.screen_width as usize, 0, 0, 0, 0)
}

/// The window buttons of the taskbar from the `k`-th window of `order` on,
/// the next one at `btn_x`; they stop after the one that brings `btn_x`
/// past 150 pixels from the right edge.
pub open spec fn pills_spec(b: Seq<u32>, sw: int, ws: Seq<Window>, order: Seq<usize>, k: int, btn_x: int, top: int, theme: Theme) -> Seq<u32>
    decreases order.len() - k,
{
    if k < 0 || k >= order.len() {
        b
    } else if ws[order[k] as int].visible {
        let color = if ws[order[k] as int].focused { theme.accent } else { theme.taskbar_button_bg };
        let b2 = paint_seq(b, sw, btn_x, top + 5, 100, 28, PaintOp::RoundedFill { radius: 8, color }, Seq::empty());
        if btn_x + 110 > sw - 150 {
            b2
        } else {
            pills_spec(b2, sw, ws, order, k + 1, btn_x + 110, top, theme)
        }
    } else {
        pills_spec(b, sw, ws, order, k + 1, btn_x, top, theme)
    }
}

/// A window title as the taskbar shows it: more than 10 characters are
/// cut to 8 followed by "...".
pub open spec fn short_title(t: Seq<char>) -> Seq<char> {
    if t.len() > 10 {
        t.subrange(0, 8) + seq!['.', '.', '.']
    } else {
        t
    }
}

/// The taskbar's title labels, under the buttons of `pills_spec`.
pub open spec fn titles_spec(ws: Seq<Window>, order: Seq<usize>, k: int, btn_x: int, top: int, sw: int, color: u32) -> Seq<(int, int, Seq<char>, u32)>
    decreases order.len() - k,
{
    if k < 0 || k >= order.len() {
        seq![]
    } else if ws[order[k] as int].visible {
        let l = (btn_x + 10, top + 10, short_title(ws[order[k] as int].title@), color);
        if btn_x + 110 > sw - 150 {
            seq![l]
        } else {
            seq![l] + titles_spec(ws, order, k + 1, btn_x + 110, top, sw, color)
        }
    } else {
        titles_spec(ws, order, k + 1, btn_x, top, sw, color)
    }
}

fn short_title_exec(t: &String) -> (r: String)
    ensures
        r@ == short_title(t@),
{
    let cs = chars_of(t.as_str());
    if cs.len() > 10 {
        let mut out: Vec<char> = Vec::new();
        let mut i: usize = 0;
        while i < 8
            invariant
                cs@.len() > 10,
                i <= 8,
                out@ == cs@.subrange(0, i as int),
            decreases 8 - i,
        {
            out.push(cs[i]);
            i = i + 1;
            assert(out@ =~= cs@.subrange(0, i as int));
        }
        out.push('.');
        out.push('.');
        out.push('.');
        assert(out@ =~= short_title(t@));
        string_from_chars(&out)
    } else {
        string_from_chars(&cs)
    }
}

/// Draws the taskbar at the bottom of the screen: its background, the
/// start button, a button per visible window back to front (the focused
/// one in the accent colour) and the clock's button; returns the labels to
/// write on them ("Start", the shortened titles, the clock text). Nothing
/// when the taskbar is hidden.
pub fn render_taskbar_to_buffer(buffer: &mut Vec<u32>, server: &DisplayServer, theme: &Theme, clock: &str) -> (labels: Vec<TextLabel>)
    requires
        screen_ok(server),
    ensures
        !server.taskbar_visible ==> final(buffer)@ == old(buffer)@ && labels@.len() == 0,
        server.taskbar_visible ==> exists|order: Seq<usize>| #[trigger] z_sorted(server.windows@, order) && {
            let sw = server.screen_width as int;
            let top = server.screen_height - server.taskbar_height;
            let e = Seq::<u8>::empty();
            let b1 = paint_seq(old(buffer)@, sw, 0, top, sw, server.taskbar_height as int, PaintOp::RoundedFill { radius: 0, color: theme.taskbar_bg }, e);
            let b2 = paint_seq(b1, sw, 10, top + 5, 60, 28, PaintOp::RoundedFill { radius: 14, color: theme.taskbar_button_bg }, e);
            let b3 = pills_spec(b2, sw, server.windows@, order, 0, 80, top, *theme);
            &&& final(buffer)@ == paint_seq(b3, sw, sw - 90, top + 5, 80, 28, PaintOp::RoundedFill { radius: 14, color: theme.taskbar_button_bg }, e)
            &&& labels_view(labels@) == seq![(20int, top + 10, "Start"@, theme.taskbar_text)]
                + titles_spec(server.windows@, order, 0, 80, top, sw, theme.taskbar_text)
                + seq![(sw - 80, top + 10, clock@, theme.taskbar_text)]
        },
{
    let mut labels: Vec<TextLabel> = Vec::new();
    if !server.taskbar_visible {
        return labels;
    }
    let sw = server.screen_width as usize;
    let width = server.screen_width as i32;
    let top = (server.screen_height - server.taskbar_height) as i32;
    let bar_h = server.taskbar_height as i32;
    let ghost e = Seq::<u8>::empty();
    let ghost b0 = buffer@;
    draw_rounded_rect(buffer, sw, 0, top, width, bar_h, 0, theme.taskbar_bg);
    draw_rounded_rect(buffer, sw, 10, top + 5, 60, 28, 14, theme.taskbar_button_bg);
    let ghost b2 = buffer@;
    let order = server.windows_sorted();
    proof {
        assert(z_sorted(server.windows@, order@));
    }
    let mut start = String::new();
    push_str(&mut start, "Start");
    labels.push(TextLabel { x: 20, y: top + 10, text: start, color: theme.taskbar_text });
    let ghost lab0 = labels_view(labels@);
    assert(lab0 =~= seq![(20int, top + 10, "Start"@, theme.taskbar_text)]);
    let mut btn_x: i32 = 80;
    let mut k: usize = 0;
    while k < order.len()
        invariant
            screen_ok(server),
            sw == server.screen_width,
            width == server.screen_width,
            top == server.screen_height - server.taskbar_height,
            z_sorted(server.windows@, order@),
            k <= order@.len(),
            80 <= btn_x <= 80 + width,
            pills_spec(buffer@, sw as int, server.windows@, order@, k as int, btn_x as int, top as int, *theme)
                == pills_spec(b2, sw as int, server.windows@, order@, 0, 80, top as int, *theme),
            labels_view(labels@) + titles_spec(server.windows@, order@, k as int, btn_x as int, top as int, sw as int, theme.taskbar_text)
                == lab0 + titles_spec(server.windows@, order@, 0, 80, top as int, sw as int, theme.taskbar_text),
        decreases order@.len() - k,
    {
        let wi = order[k];
        let w = &server.windows[wi];
        let ghost kold = k as int;
        let ghost bx = btn_x as int;
        if w.visible {
            let color = if w.focused { theme.accent } else { theme.taskbar_button_bg };
            let ghost lb = labels_view(labels@);
            let ghost l = (bx + 10, top + 10, short_title(w.title@), theme.taskbar_text);
            draw_rounded_rect(buffer, sw, btn_x, top + 5, 100, 28, 8, color);
            let title = short_title_exec(&w.title);
            labels.push(TextLabel { x: btn_x + 10, y: top + 10, text: title, color: theme.taskbar_text });
            assert(labels_view(labels@) =~= lb.push(l));
            if btn_x + 110 > width - 150 {
                assert(titles_spec(server.windows@, order@, kold, bx, top as int, sw as int, theme.taskbar_text) == seq![l]);
                k = order.len();
                assert(titles_spec(server.windows@, order@, k as int, btn_x as int, top as int, sw as int, theme.taskbar_text) =~= Seq::empty());
                assert(labels_view(labels@) + titles_spec(server.windows@, order@, k as int, btn_x as int, top as int, sw as int, theme.taskbar_text)
                    =~= lb + titles_spec(server.windows@, order@, kold, bx, top as int, sw as int, theme.taskbar_text));
            } else {
                btn_x = btn_x + 110;
                k = k + 1;
                let ghost rest = titles_spec(server.windows@, order@, k as int, btn_x as int, top as int, sw as int, theme.taskbar_text);
                assert(titles_spec(server.windows@, order@, kold, bx, top as int, sw as int, theme.taskbar_text) == seq![l] + rest);
                assert(labels_view(labels@) + rest =~= lb + (seq![l] + rest));
            }
        } else {
            k = k + 1;
        }
    }
    draw_rounded_rect(buffer, sw, width - 90, top + 5, 80, 28, 14, theme.taskbar_button_bg);
    let ghost lb = labels_view(labels@);
    labels.push(TextLabel { x: width - 80, y: top + 10, text: crate::text::to_string(clock), color: theme.taskbar_text });
    assert(labels_view(labels@) =~= lb.push((width - 80, top + 10, clock@, theme.taskbar_text)));
    assert(titles_spec(server.windows@, order@, k as int, btn_x as int, top as int, sw as int, theme.taskbar_text) =~= Seq::empty());
    labels
}

/// Whether a window's place and size are within what is drawn: its
/// corner within 32768 pixels of the screen's, its sides at most 16384,
/// the title bar no taller than the window.
pub open spec fn window_drawable(w: Window, theme: Theme) -> bool {
    &&& -0x8000 <= w.x <= 0x8000
    &&& -0x8000 <= w.y <= 0x8000
    &&& w.width <= MAX_SIDE as u32
    &&& w.height <= MAX_SIDE as u32
    &&& theme.window_radius <= MAX_RADIUS as u32
    &&& theme.window_title_height <= w.height
}

/// The buffer with surface `id` drawn into the area at (x, y).
pub open spec fn surface_spec(b: Seq<u32>, sw: int, gs: GraphicsServer, id: u64, x: int, y: int, w: int, h: int, radius: i32) -> Seq<u32> {
    match first_with_id(gs.surfaces@, id) {
        None => b,
        Some(i) => {
            let s = gs.surfaces@[i];
            if surface_drawable(s.width, s.height) {
                paint_seq(b, sw, x, y, w, h, PaintOp::Surface { radius, surf_w: s.width, surf_h: s.height, bpp: bpp(s.format) as u32 }, s.pixels@)
            } else {
                b
            }
        },
    }
}

/// The buffer with one window drawn: shadow, rounded background, a
/// 2-pixel border (the active colour when focused), the three title-bar
/// buttons of a focused decorated window, and its surface below the title
/// bar.
pub open spec fn window_spec(b: Seq<u32>, sw: int, w: Window, gs: GraphicsServer, theme: Theme) -> Seq<u32> {
    let e = Seq::<u8>::empty();
    let (x, y, ww, wh, r) = (w.x as int, w.y as int, w.width as int, w.height as int, theme.window_radius as i32);
    let b1 = if theme.shadow & 0xFF == 0 {
        b
    } else {
        paint_seq(b, sw, x + 8, y + 8, ww, wh, PaintOp::Shadow { radius: r, alpha: theme.shadow & 0xFF }, e)
    };
    let b2 = paint_seq(b1, sw, x, y, ww, wh, PaintOp::RoundedFill { radius: r, color: theme.window_bg }, e);
    let border = if w.focused { theme.window_border_active_start } else { theme.window_border };
    let b3 = paint_seq(b2, sw, x, y, ww, wh, PaintOp::RoundedOutline { radius: r, thickness: 2, color: border }, e);
    let b4 = if w.decorated && w.focused {
        let c1 = paint_seq(b3, sw, x + 10, y + 9, 13, 13, PaintOp::Disc { r: 6, color: theme.button_close }, e);
        let c2 = paint_seq(c1, sw, x + 30, y + 9, 13, 13, PaintOp::Disc { r: 6, color: theme.button_maximize }, e);
        paint_seq(c2, sw, x + 50, y + 9, 13, 13, PaintOp::Disc { r: 6, color: theme.button_minimize }, e)
    } else {
        b3
    };
    let cy = if w.decorated { theme.window_title_height as int } else { 0 };
    surface_spec(b4, sw, gs, w.surface_id, x, y + cy, ww, wh - cy, r)
}

/// The windows of `order` from the `k`-th on drawn back to front (the
/// visible ones within drawing bounds).
pub open spec fn windows_spec(b: Seq<u32>, sw: int, ws: Seq<Window>, order: Seq<usize>, k: int, gs: GraphicsServer, theme: Theme) -> Seq<u32>
    decreases order.len() - k,
{
    if k < 0 || k >= order.len() {
        b
    } else {
        let w = ws[order[k] as int];
        let b2 = if w.visible && window_drawable(w, theme) { window_spec(b, sw, w, gs, theme) } else { b };
        windows_spec(b2, sw, ws, order, k + 1, gs, theme)
    }
}

/// The title labels of the visible decorated windows of `order` from the
/// `k`-th on.
pub open spec fn window_titles_spec(ws: Seq<Window>, order: Seq<usize>, k: int, color: u32) -> Seq<(int, int, Seq<char>, u32)>
    decreases order.len() - k,
{
    if k < 0 || k >= order.len() {
        seq![]
    } else {
        let w = ws[order[k] as int];
        let rest = window_titles_spec(ws, order, k + 1, color);
        if w.visible && w.decorated {
            seq![(w.x + 80, w.y + 8, w.title@, color)] + rest
        } else {
            rest
        }
    }
}

fn draw_window(buffer: &mut Vec<u32>, sw: usize, w: &Window, gs: &GraphicsServer, theme: &Theme)
    requires
        window_drawable(*w, *theme),
        0 < sw,
        (MAX_COORD + MAX_SIDE + 1) * sw <= usize::MAX,
    ensures
        final(buffer)@ == window_spec(old(buffer)@, sw as int, *w, *gs, *theme),
{
    let (x, y, ww, wh, r) = (w.x, w.y, w.width as i32, w.height as i32, theme.window_radius as i32);
    draw_shadow(buffer, sw, x, y, ww, wh, r, theme.shadow);
    draw_rounded_rect(buffer, sw, x, y, ww, wh, r, theme.window_bg);
    let border = if w.focused { theme.window_border_active_start } else { theme.window_border };
    draw_rounded_outline(buffer, sw, x, y, ww, wh, r, 2, border);
    let cy: i32 = if w.decorated {
        if w.focused {
            draw_circle_to_buffer(buffer, sw, x + 16, y + 15, 6, theme.button_close);
            draw_circle_to_buffer(buffer, sw, x + 36, y + 15, 6, theme.button_maximize);
            draw_circle_to_buffer(buffer, sw, x + 56, y + 15, 6, theme.button_minimize);
        }
        theme.window_title_height as i32
    } else {
        0
    };
    render_surface_clipped(buffer, sw, gs, w.surface_id, x, y + cy, ww, wh - cy, r);
}

/// Draws the windows back to front and returns the labels of the titles of
/// the visible decorated ones.
pub fn render_windows_to_buffer(buffer: &mut Vec<u32>, server: &DisplayServer, gs: &GraphicsServer, theme: &Theme) -> (labels: Vec<TextLabel>)
    requires
        0 < server.screen_width,
        (MAX_COORD + MAX_SIDE + 1) * server.screen_width <= usize::MAX,
        forall|i: int| 0 <= i < server.windows@.len() ==> #[trigger] server.windows@[i].x + 80 <= i32::MAX
            && server.windows@[i].y + 8 <= i32::MAX,
    ensures
        exists|order: Seq<usize>| #[trigger] z_sorted(server.windows@, order)
            && final(buffer)@ == windows_spec(old(buffer)@, server.screen_width as int, server.windows@, order, 0, *gs, *theme)
            && labels_view(labels@) == window_titles_spec(server.windows@, order, 0, theme.taskbar_text),
{
    let sw = server.screen_width as usize;
    let order = server.windows_sorted();
    let ghost b0 = buffer@;
    let mut k: usize = 0;
    while k < order.len()
        invariant
            0 < sw,
            sw == server.screen_width,
            (MAX_COORD + MAX_SIDE + 1) * sw <= usize::MAX,
            z_sorted(server.windows@, order@),
            k <= order@.len(),
            windows_spec(buffer@, sw as int, server.windows@, order@, k as int, *gs, *theme)
                == windows_spec(b0, sw as int, server.windows@, order@, 0, *gs, *theme),
        decreases order@.len() - k,
    {
        let w = &server.windows[order[k]];
        if w.visible && -0x8000 <= w.x && w.x <= 0x8000 && -0x8000 <= w.y && w.y <= 0x8000 && w.width <= MAX_SIDE as u32
            && w.height <= MAX_SIDE as u32 && theme.window_radius <= MAX_RADIUS as u32 && theme.window_title_height
            <= w.height {
            draw_window(buffer, sw, w, gs, theme);
        }
        k = k + 1;
    }
    let mut labels: Vec<TextLabel> = Vec::new();
    let mut j: usize = order.len();
    let ghost color = theme.taskbar_text;
    assert(labels_view(labels@) =~= window_titles_spec(server.windows@, order@, j as int, color));
    while j > 0
        invariant
            z_sorted(server.windows@, order@),
            j <= order@.len(),
            color == theme.taskbar_text,
            forall|i: int| 0 <= i < server.windows@.len() ==> #[trigger] server.windows@[i].x + 80 <= i32::MAX
                && server.windows@[i].y + 8 <= i32::MAX,
            labels_view(labels@) == window_titles_spec(server.windows@, order@, j as int, color),
        decreases j,
    {
        j = j - 1;
        let w = &server.windows[order[j]];
        if w.visible && w.decorated {
            let ghost before = labels_view(labels@);
            let t = crate::text::to_string(w.title.as_str());
            labels.insert(0, TextLabel { x: w.x + 80, y: w.y + 8, text: t, color: theme.taskbar_text });
            assert(labels_view(labels@) =~= seq![(w.x + 80, w.y + 8, w.title@, color)] + before);
        }
    }
    labels
}

} // verus!
