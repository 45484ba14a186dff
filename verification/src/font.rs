//! Text on GUI surfaces, in the console font with 12-pixel character cells.
use vstd::prelude::*;
use crate::glyphs::{glyph, font_glyph, GLYPH_WIDTH, GLYPH_HEIGHT};
use crate::surface::{Surface, bpp};

verus! {

pub const CHAR_WIDTH: u32 = 12;
pub const CHAR_HEIGHT: u32 = 20;

/// A channel `c` mixed over `b` with intensity `a`.
pub open spec fn mix(c: u8, a: u8, b: u8) -> u8 {
    ((c as int * a as int + b as int * (255 - a as int)) / 255) as u8
}

/// Surface pixels after glyph pixel `k` (row `k / 9`, column `k % 9`) of a
/// glyph drawn at (x, y): a pixel brighter than 50 that falls on the
/// surface mixes the colour into its first three bytes and sets the fourth
/// to 255, when the fourth byte is inside the buffer.
pub open spec fn glyph_pixel(w: int, h: int, b: int, p: Seq<u8>, x: int, y: int, gl: Seq<u8>, color: u32, k: int) -> Seq<u8> {
    let a = gl[k];
    let px = x + k % 9;
    let py = y + k / 9;
    let idx = (py * w + px) * b;
    if a > 50 && px < w && py < h && idx + 3 < p.len() {
        p.update(idx, mix(((color >> 16u32) & 0xFF) as u8, a, p[idx]))
            .update(idx + 1, mix(((color >> 8u32) & 0xFF) as u8, a, p[idx + 1]))
            .update(idx + 2, mix((color & 0xFF) as u8, a, p[idx + 2]))
            .update(idx + 3, 0xFF)
    } else {
        p
    }
}

/// Surface pixels after the first `k` glyph pixels.
pub open spec fn glyph_upto(w: int, h: int, b: int, p: Seq<u8>, x: int, y: int, gl: Seq<u8>, color: u32, k: int) -> Seq<u8>
    decreases k,
{
    if k <= 0 {
        p
    } else {
        glyph_pixel(w, h, b, glyph_upto(w, h, b, p, x, y, gl, color, k - 1), x, y, gl, color, k - 1)
    }
}

/// Surface pixels after drawing character `c` at (x, y) (unchanged when
/// the font has no glyph for it).
pub open spec fn char_pixels(w: int, h: int, b: int, p: Seq<u8>, x: int, y: int, c: char, color: u32) -> Seq<u8> {
    match font_glyph(c) {
        Some(gl) => glyph_upto(w, h, b, p, x, y, gl, color, 180),
        None => p,
    }
}

/// Drawing the first `n` characters of a string from x: (pixels, next x,
/// stopped). Drawing stops at a newline or once the next cell starts past
/// the surface's right edge.
pub open spec fn string_pixels(w: int, h: int, b: int, p0: Seq<u8>, x: int, y: int, cs: Seq<char>, color: u32, n: int)
    -> (Seq<u8>, int, bool)
    decreases n,
{
    if n <= 0 {
        (p0, x, false)
    } else {
        let (p, cx, stopped) = string_pixels(w, h, b, p0, x, y, cs, color, n - 1);
        if stopped || cs[n - 1] == '\n' {
            (p, cx, true)
        } else {
            (char_pixels(w, h, b, p, cx, y, cs[n - 1], color), cx + CHAR_WIDTH, cx + CHAR_WIDTH >= w)
        }
    }
}

/// The geometry the drawing depends on: width, height, bytes per pixel.
pub open spec fn geom(s: Surface) -> (int, int, int) {
    (s.width as int, s.height as int, bpp(s.format) as int)
}

fn mix_exec(c: u8, a: u8, b: u8) -> (m: u8)
    ensures
        m == mix(c, a, b),
{
    let inv = 255 - a;
    assert(c as u16 * a as u16 + b as u16 * inv as u16 <= 65025) by (nonlinear_arith)
        requires c <= 255, b <= 255, a as int + inv as int == 255;
    ((c as u16 * a as u16 + b as u16 * inv as u16) / 255) as u8
}

/// Draws a glyph (9×20 intensities, row by row) at (x, y) in `color`.
pub fn blit_glyph(surface: &mut Surface, x: u32, y: u32, gl: &Vec<u8>, color: u32)
    requires
        old(surface).wf(),
        gl@.len() == GLYPH_WIDTH * GLYPH_HEIGHT,
        x + GLYPH_WIDTH <= u32::MAX,
        y + GLYPH_HEIGHT <= u32::MAX,
    ensures
        final(surface).wf(),
        final(surface).pixels@ == glyph_upto(geom(*old(surface)).0, geom(*old(surface)).1, geom(*old(surface)).2,
            old(surface).pixels@, x as int, y as int, gl@, color, 180),
        final(surface).same_except_pixels(old(surface)),
        final(surface).dirty == old(surface).dirty && final(surface).dirty_rects@ == old(surface).dirty_rects@,
{
    let b = surface.format.bytes_per_pixel();
    let r = ((color >> 16) & 0xFF) as u8;
    let g = ((color >> 8) & 0xFF) as u8;
    let bl = (color & 0xFF) as u8;
    let mut k: usize = 0;
    while k < GLYPH_WIDTH * GLYPH_HEIGHT
        invariant
            surface.wf(),
            surface.same_except_pixels(old(surface)),
            surface.dirty == old(surface).dirty && surface.dirty_rects@ == old(surface).dirty_rects@,
            gl@.len() == 180,
            b == bpp(old(surface).format),
            r == ((color >> 16u32) & 0xFF) as u8 && g == ((color >> 8u32) & 0xFF) as u8 && bl == (color & 0xFF) as u8,
            x + GLYPH_WIDTH <= u32::MAX,
            y + GLYPH_HEIGHT <= u32::MAX,
            k <= 180,
            surface.pixels@ == glyph_upto(geom(*old(surface)).0, geom(*old(surface)).1, geom(*old(surface)).2,
                old(surface).pixels@, x as int, y as int, gl@, color, k as int),
        decreases 180 - k,
    {
        let a = gl[k];
        if a > 50 {
            let px = x + (k % 9) as u32;
            let py = y + (k / 9) as u32;
            if px < surface.width && py < surface.height {
                assert(py * surface.width + px < 8192 * 8192) by (nonlinear_arith)
                    requires py < surface.height, px < surface.width, surface.width <= 8192, surface.height <= 8192;
                let idx = ((py * surface.width + px) as usize) * b;
                let n = surface.pixels.len();
                if idx + 3 < n {
                    let v0 = mix_exec(r, a, surface.pixels[idx]);
                    surface.pixels.set(idx, v0);
                    let v1 = mix_exec(g, a, surface.pixels[idx + 1]);
                    surface.pixels.set(idx + 1, v1);
                    let v2 = mix_exec(bl, a, surface.pixels[idx + 2]);
                    surface.pixels.set(idx + 2, v2);
                    surface.pixels.set(idx + 3, 0xFF);
                }
            }
        }
        k = k + 1;
    }
}

/// Draws one character at (x, y) in `color`; nothing when the font has
/// no glyph for it.
pub fn draw_char(surface: &mut Surface, x: u32, y: u32, ch: char, color: u32)
    requires
        old(surface).wf(),
        x + GLYPH_WIDTH <= u32::MAX,
        y + GLYPH_HEIGHT <= u32::MAX,
    ensures
        final(surface).wf(),
        final(surface).pixels@ == char_pixels(geom(*old(surface)).0, geom(*old(surface)).1, geom(*old(surface)).2,
            old(surface).pixels@, x as int, y as int, ch, color),
        final(surface).same_except_pixels(old(surface)),
        final(surface).dirty == old(surface).dirty && final(surface).dirty_rects@ == old(surface).dirty_rects@,
{
    match glyph(ch) {
        Some(gl) => blit_glyph(surface, x, y, &gl, color),
        None => {},
    }
}

/// Draws a string from (x, y), one 12-pixel cell a character, up to a
/// newline or the surface's right edge.
pub fn draw_string(surface: &mut Surface, x: u32, y: u32, text: &str, color: u32)
    requires
        old(surface).wf(),
        x + CHAR_WIDTH <= u32::MAX,
        y + GLYPH_HEIGHT <= u32::MAX,
    ensures
        final(surface).wf(),
        final(surface).pixels@ == string_pixels(geom(*old(surface)).0, geom(*old(surface)).1, geom(*old(surface)).2,
            old(surface).pixels@, x as int, y as int, text@, color, text@.len() as int).0,
        final(surface).same_except_pixels(old(surface)),
        final(surface).dirty == old(surface).dirty && final(surface).dirty_rects@ == old(surface).dirty_rects@,
{
    let n = text.unicode_len();
    let mut cursor_x = x;
    let mut i: usize = 0;
    while i < n
        invariant
            surface.wf(),
            surface.same_except_pixels(old(surface)),
            surface.dirty == old(surface).dirty && surface.dirty_rects@ == old(surface).dirty_rects@,
            n == text@.len(),
            y + GLYPH_HEIGHT <= u32::MAX,
            i <= n,
            cursor_x + CHAR_WIDTH <= u32::MAX,
            geom(*surface) == geom(*old(surface)),
            string_pixels(geom(*old(surface)).0, geom(*old(surface)).1, geom(*old(surface)).2, old(surface).pixels@,
                x as int, y as int, text@, color, i as int) == (surface.pixels@, cursor_x as int, false),
        decreases n - i,
    {
        let ch = text.get_char(i);
        if ch == '\n' {
            proof {
                let g = geom(*old(surface));
                lemma_string_stopped(g.0, g.1, g.2, old(surface).pixels@, x as int, y as int, text@, color, i as int + 1, n as int);
            }
            return;
        }
        draw_char(surface, cursor_x, y, ch, color);
        cursor_x = cursor_x + CHAR_WIDTH;
        i = i + 1;
        if cursor_x >= surface.width {
            proof {
                let g = geom(*old(surface));
                lemma_string_stopped(g.0, g.1, g.2, old(surface).pixels@, x as int, y as int, text@, color, i as int, n as int);
            }
            return;
        }
    }
}

proof fn lemma_string_stopped(w: int, h: int, b: int, p0: Seq<u8>, x: int, y: int, cs: Seq<char>, color: u32, i: int, n: int)
    requires
        0 <= i <= n <= cs.len(),
        string_pixels(w, h, b, p0, x, y, cs, color, i).2,
    ensures
        string_pixels(w, h, b, p0, x, y, cs, color, n).0 == string_pixels(w, h, b, p0, x, y, cs, color, i).0,
        string_pixels(w, h, b, p0, x, y, cs, color, n).2,
    decreases n - i,
{
    if n > i {
        lemma_string_stopped(w, h, b, p0, x, y, cs, color, i, n - 1);
    }
}

/// Width in pixels of a string: 12 per byte of its UTF-8 form.
pub fn string_width(text: &str) -> (w: u32)
    requires
        vstd::utf8::encode_utf8(text@).len() * 12 <= u32::MAX,
    ensures
        w == vstd::utf8::encode_utf8(text@).len() * 12,
{
    let n = text.as_bytes().len();
    (n as u32) * CHAR_WIDTH
}

/// Size of a character cell: (12, 20).
pub fn char_dimensions() -> (d: (u32, u32))
    ensures
        d == (CHAR_WIDTH, CHAR_HEIGHT),
{
    (CHAR_WIDTH, CHAR_HEIGHT)
}

} // verus!
