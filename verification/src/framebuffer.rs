//! The text console on the linear framebuffer: a cursor, colours, glyph
//! drawing, line wrapping, tabs, backspace and scrolling. The pixels are
//! held here row by row (`pitch` pixels a row); the caller copies them to
//! the screen.
use vstd::prelude::*;
use crate::glyphs::{glyph, font_glyph, GLYPH_WIDTH, GLYPH_HEIGHT};
use vstd::arithmetic::div_mod::lemma_fundamental_div_mod_converse;

verus! {

pub const CHAR_WIDTH: usize = 12;
pub const CHAR_HEIGHT: usize = 20;
pub const LINE_HEIGHT: usize = 23;

/// The console.
pub struct Framebuffer {
    pub pixels: Vec<u32>,
    pub width: usize,
    pub height: usize,
    pub pitch: usize,
    pub x: usize,
    pub y: usize,
    pub fg_color: u32,
    pub bg_color: u32,
}

/// The fixed geometry of a console: width, height, pitch, background.
pub type FbGeom = (usize, usize, usize, u32);

/// The changing part of a console: pixels and cursor.
pub type FbState = (Seq<u32>, usize, usize);

/// Colour of a glyph pixel of intensity `a > 0` drawn in `fg` over `bg`:
/// `fg` above 127, else the channels mixed by the intensity.
pub open spec fn glyph_color(a: u8, fg: u32, bg: u32) -> u32 {
    if a > 127 {
        fg
    } else {
        let al = a as u32;
        let inv = (255 - al) as u32;
        let r = ((((fg >> 16u32) & 0xFF) * al + ((bg >> 16u32) & 0xFF) * inv) / 255) as u32;
        let g = ((((fg >> 8u32) & 0xFF) * al + ((bg >> 8u32) & 0xFF) * inv) / 255) as u32;
        let b = (((fg & 0xFF) * al + (bg & 0xFF) * inv) / 255) as u32;
        (r << 16u32) | (g << 8u32) | b
    }
}

/// The pixels with the `cw`×`ch` cell at (x0, y0) painted by `f` (given
/// the position inside the cell), clipped to the screen.
pub open spec fn paint(g: FbGeom, s: Seq<u32>, x0: int, y0: int, cw: int, ch: int, f: spec_fn(int, int) -> u32) -> Seq<u32> {
    Seq::new(s.len(), |i: int| {
        let px = i % (g.2 as int);
        let py = i / (g.2 as int);
        if x0 <= px < x0 + cw && y0 <= py < y0 + ch && px < g.0 && py < g.1 { f(px - x0, py - y0) } else { s[i] }
    })
}

/// Glyph cell painter: glyph pixels over the background.
pub open spec fn glyph_painter(gl: Seq<u8>, fg: u32, bg: u32) -> spec_fn(int, int) -> u32 {
    |c: int, r: int| if gl[r * 9 + c] > 0 { glyph_color(gl[r * 9 + c], fg, bg) } else { bg }
}

/// Replacement-box painter: a frame in `fg` around `bg`.
pub open spec fn box_painter(fg: u32, bg: u32) -> spec_fn(int, int) -> u32 {
    |c: int, r: int| if r == 0 || r == CHAR_HEIGHT - 1 || c == 0 || c == CHAR_WIDTH - 1 { fg } else { bg }
}

/// Solid painter.
pub open spec fn solid(color: u32) -> spec_fn(int, int) -> u32 {
    |c: int, r: int| color
}

/// The pixels scrolled up by one line, the freed rows in the background.
pub open spec fn scrolled(g: FbGeom, s: Seq<u32>) -> Seq<u32> {
    let keep = ((g.1 - LINE_HEIGHT) * g.2) as int;
    Seq::new(s.len(), |i: int| if i < keep { s[i + LINE_HEIGHT * g.2] } else { g.3 })
}

/// Moves to the next line, scrolling when it would not fit.
pub open spec fn new_line(g: FbGeom, st: FbState) -> FbState {
    let y = st.2 + LINE_HEIGHT;
    if y + LINE_HEIGHT > g.1 {
        (scrolled(g, st.0), 0, (g.1 - LINE_HEIGHT) as usize)
    } else {
        (st.0, 0, y as usize)
    }
}

/// The console after drawing `c` in `fg` on `bg`.
pub open spec fn draw_char_spec(g: FbGeom, st: FbState, c: char, fg: u32, bg: u32) -> FbState {
    let (s, x, y) = st;
    if c == '\n' {
        new_line(g, (s, 0, y))
    } else if c == '\r' {
        (s, 0, y)
    } else if c == '\t' {
        let nx = (x / 48 + 1) * 48;
        if nx >= g.0 { new_line(g, (s, 0, y)) } else { (s, nx as usize, y) }
    } else if c == '\x08' || c == '\x7f' {
        if x >= CHAR_WIDTH {
            let nx = (x - CHAR_WIDTH) as usize;
            (paint(g, s, nx as int, y as int, CHAR_WIDTH as int, CHAR_HEIGHT as int, solid(g.3)), nx, y)
        } else if y >= LINE_HEIGHT {
            let nx = ((g.0 / CHAR_WIDTH - 1) * CHAR_WIDTH) as usize;
            let ny = (y - LINE_HEIGHT) as usize;
            (paint(g, s, nx as int, ny as int, CHAR_WIDTH as int, CHAR_HEIGHT as int, solid(g.3)), nx, ny)
        } else {
            st
        }
    } else {
        let drawn: FbState = match font_glyph(c) {
            Some(gl) => (paint(g, s, x as int, y as int, GLYPH_WIDTH as int, CHAR_HEIGHT as int, glyph_painter(gl, fg, bg)),
                (x + GLYPH_WIDTH) as usize, y),
            None => (paint(g, s, x as int, y as int, CHAR_WIDTH as int, CHAR_HEIGHT as int, box_painter(fg, bg)),
                (x + CHAR_WIDTH) as usize, y),
        };
        if drawn.1 + CHAR_WIDTH > g.0 { new_line(g, (drawn.0, 0, drawn.2)) } else { drawn }
    }
}

/// The console after drawing the first `n` characters.
pub open spec fn draw_str_spec(g: FbGeom, st: FbState, cs: Seq<char>, fg: u32, bg: u32, n: int) -> FbState
    decreases n,
{
    if n <= 0 {
        st
    } else {
        draw_char_spec(g, draw_str_spec(g, st, cs, fg, bg, n - 1), cs[n - 1], fg, bg)
    }
}

/// Cursor positions small enough that drawing a character stays in range.
pub open spec fn cursor_ok(g: FbGeom, x: usize, y: usize) -> bool {
    x + 2 * CHAR_WIDTH + 48 <= usize::MAX && y + 2 * LINE_HEIGHT <= usize::MAX
}

impl Framebuffer {
    /// The console's geometry.
    pub open spec fn geom(&self) -> FbGeom {
        (self.width, self.height, self.pitch, self.bg_color)
    }

    /// Its pixels and cursor.
    pub open spec fn state(&self) -> FbState {
        (self.pixels@, self.x, self.y)
    }

    /// Rows of `pitch` pixels, each at least the width; room for a line.
    pub open spec fn wf(&self) -> bool {
        &&& self.width <= self.pitch
        &&& self.pixels@.len() == self.pitch * self.height
        &&& self.height >= LINE_HEIGHT
        &&& self.width >= CHAR_WIDTH
        &&& self.pitch * self.height <= usize::MAX
        &&& self.width + 2 * CHAR_WIDTH + 48 <= usize::MAX
        &&& self.height + 2 * LINE_HEIGHT <= usize::MAX
    }

    /// A black console of the given size with the cursor at the top left
    /// and white text; `pitch` is in bytes and `bpp` in bits per pixel.
    pub fn new(width: usize, height: usize, pitch: usize, bpp: u16) -> (fb: Self)
        requires
            bpp >= 8,
            width <= pitch / (bpp as usize / 8),
            (pitch / (bpp as usize / 8)) * height <= usize::MAX,
            height >= LINE_HEIGHT,
            width >= CHAR_WIDTH,
            width + 2 * CHAR_WIDTH + 48 <= usize::MAX,
            height + 2 * LINE_HEIGHT <= usize::MAX,
        ensures
            fb.wf(),
            fb.width == width && fb.height == height && fb.pitch == pitch / (bpp as usize / 8),
            fb.x == 0 && fb.y == 0 && fb.fg_color == 0xFFFFFF && fb.bg_color == 0,
            forall|i: int| 0 <= i < fb.pixels@.len() ==> fb.pixels@[i] == 0,
    {
        let p = pitch / (bpp as usize / 8);
        let n = p * height;
        let mut pixels: Vec<u32> = Vec::new();
        let mut i: usize = 0;
        while i < n
            invariant
                i <= n,
                pixels@.len() == i,
                forall|k: int| 0 <= k < i ==> pixels@[k] == 0,
            decreases n - i,
        {
            pixels.push(0u32);
            i = i + 1;
        }
        Framebuffer { pixels, width, height, pitch: p, x: 0, y: 0, fg_color: 0xFFFFFF, bg_color: 0 }
    }

    /// Paints the `cw`×`ch` cell at (x0, y0) with `f`, clipped to the screen.
    fn paint_cell(&mut self, x0: usize, y0: usize, cw: usize, ch: usize, kind: u8, gl: &Vec<u8>, fg: u32, bg: u32)
        requires
            old(self).wf(),
            x0 + cw <= usize::MAX,
            y0 + ch <= usize::MAX,
            kind == 0 ==> gl@.len() == 180 && cw <= 9 && ch <= 20,
        ensures
            final(self).wf(),
            final(self).pixels@ == paint(old(self).geom(), old(self).pixels@, x0 as int, y0 as int, cw as int, ch as int,
                Self::painter(kind, gl@, fg, bg)),
            *final(self) == (Framebuffer { pixels: final(self).pixels, ..*old(self) }),
    {
        let ghost g = self.geom();
        let ghost s0 = self.pixels@;
        let ghost f = Self::painter(kind, gl@, fg, bg);
        let mut row: usize = 0;
        while row < ch
            invariant
                self.wf(),
                *self == (Framebuffer { pixels: self.pixels, ..*old(self) }),
                g == old(self).geom(),
                s0 == old(self).pixels@,
                f == Self::painter(kind, gl@, fg, bg),
                x0 + cw <= usize::MAX,
                y0 + ch <= usize::MAX,
                kind == 0 ==> gl@.len() == 180 && cw <= 9 && ch <= 20,
                row <= ch,
                self.pixels@ == paint(g, s0, x0 as int, y0 as int, cw as int, row as int, f),
            decreases ch - row,
        {
            let mut col: usize = 0;
            while col < cw
                invariant
                    self.wf(),
                    *self == (Framebuffer { pixels: self.pixels, ..*old(self) }),
                    g == old(self).geom(),
                    s0 == old(self).pixels@,
                    f == Self::painter(kind, gl@, fg, bg),
                    x0 + cw <= usize::MAX,
                    y0 + ch <= usize::MAX,
                    kind == 0 ==> gl@.len() == 180 && cw <= 9 && ch <= 20,
                    row < ch,
                    col <= cw,
                    self.pixels@ == Seq::new(s0.len(), |i: int| {
                        let px = i % (g.2 as int);
                        let py = i / (g.2 as int);
                        if x0 <= px < x0 + cw && y0 <= py < y0 + row && px < g.0 && py < g.1 { f(px - x0, py - y0) }
                        else if x0 <= px < x0 + col && py == y0 + row && px < g.0 && py < g.1 { f(px - x0, py - y0) }
                        else { s0[i] }
                    }),
                decreases cw - col,
            {
                let px = x0 + col;
                let py = y0 + row;
                if px < self.width && py < self.height {
                    let color = Self::cell_color(kind, gl, col, row, fg, bg);
                    proof {
                        assert(py * self.pitch + px < self.pitch * self.height) by (nonlinear_arith)
                            requires px < self.width, self.width <= self.pitch, py < self.height;
                    }
                    let idx = py * self.pitch + px;
                    let ghost before = self.pixels@;
                    self.pixels.set(idx, color);
                    proof {
                        assert(idx as int % (g.2 as int) == px && idx as int / (g.2 as int) == py) by (nonlinear_arith)
                            requires idx == py * self.pitch + px, px < self.pitch, g.2 == self.pitch;
                        assert forall|i: int| 0 <= i < s0.len() && i != idx
                            && #[trigger] (i % (g.2 as int)) == px && i / (g.2 as int) == py implies false by {
                            vstd::arithmetic::div_mod::lemma_fundamental_div_mod(i, g.2 as int);
                            vstd::arithmetic::div_mod::lemma_fundamental_div_mod(idx as int, g.2 as int);
                        }
                    }
                }
                proof {
                    let ghost c1 = col + 1;
                    assert(self.pixels@ =~= Seq::new(s0.len(), |i: int| {
                        let px = i % (g.2 as int);
                        let py = i / (g.2 as int);
                        if x0 <= px < x0 + cw && y0 <= py < y0 + row && px < g.0 && py < g.1 { f(px - x0, py - y0) }
                        else if x0 <= px < x0 + c1 && py == y0 + row && px < g.0 && py < g.1 { f(px - x0, py - y0) }
                        else { s0[i] }
                    }));
                }
                col = col + 1;
            }
            row = row + 1;
        }
    }

    /// The painter `paint_cell` uses: 0 a glyph, 1 the replacement box,
    /// else a solid background.
    pub open spec fn painter(kind: u8, gl: Seq<u8>, fg: u32, bg: u32) -> spec_fn(int, int) -> u32 {
        if kind == 0 { glyph_painter(gl, fg, bg) } else if kind == 1 { box_painter(fg, bg) } else { solid(bg) }
    }

    fn cell_color(kind: u8, gl: &Vec<u8>, col: usize, row: usize, fg: u32, bg: u32) -> (c: u32)
        requires
            kind == 0 ==> gl@.len() == 180 && col < 9 && row < 20,
        ensures
            c == (Self::painter(kind, gl@, fg, bg))(col as int, row as int),
    {
        if kind == 0 {
            let a = gl[row * 9 + col];
            if a > 0 {
                if a > 127 {
                    fg
                } else {
                    let al = a as u32;
                    let inv = 255 - al;
                    let (fr, fgc, fb) = ((fg >> 16) & 0xFF, (fg >> 8) & 0xFF, fg & 0xFF);
                    let (br, bgc, bb) = ((bg >> 16) & 0xFF, (bg >> 8) & 0xFF, bg & 0xFF);
                    assert(fr <= 255 && fgc <= 255 && fb <= 255) by (bit_vector)
                        requires fr == (fg >> 16u32) & 0xFF, fgc == (fg >> 8u32) & 0xFF, fb == fg & 0xFF;
                    assert(br <= 255 && bgc <= 255 && bb <= 255) by (bit_vector)
                        requires br == (bg >> 16u32) & 0xFF, bgc == (bg >> 8u32) & 0xFF, bb == bg & 0xFF;
                    assert(fr * al + br * inv <= 65025 && fgc * al + bgc * inv <= 65025 && fb * al + bb * inv <= 65025)
                        by (nonlinear_arith)
                        requires fr <= 255, fgc <= 255, fb <= 255, br <= 255, bgc <= 255, bb <= 255, al + inv == 255;
                    let r = (fr * al + br * inv) / 255;
                    let g = (fgc * al + bgc * inv) / 255;
                    let b = (fb * al + bb * inv) / 255;
                    (r << 16) | (g << 8) | b
                }
            } else {
                bg
            }
        } else if kind == 1 {
            if row == 0 || row == CHAR_HEIGHT - 1 || col == 0 || col == CHAR_WIDTH - 1 { fg } else { bg }
        } else {
            bg
        }
    }

    /// Fills the screen with a colour.
    pub fn clear_with_color(&mut self, color: u32)
        requires
            old(self).wf(),
        ensures
            final(self).wf(),
            final(self).pixels@ == paint(old(self).geom(), old(self).pixels@, 0, 0, old(self).width as int,
                old(self).height as int, solid(color)),
            *final(self) == (Framebuffer { pixels: final(self).pixels, ..*old(self) }),
    {
        let empty: Vec<u8> = Vec::new();
        let (w, h) = (self.width, self.height);
        self.paint_cell(0, 0, w, h, 2, &empty, color, color);
    }

    /// Fills the screen with the background and moves the cursor home.
    pub fn clear(&mut self)
        requires
            old(self).wf(),
        ensures
            final(self).wf(),
            final(self).pixels@ == paint(old(self).geom(), old(self).pixels@, 0, 0, old(self).width as int,
                old(self).height as int, solid(old(self).bg_color)),
            final(self).x == 0 && final(self).y == 0,
            *final(self) == (Framebuffer { pixels: final(self).pixels, x: 0, y: 0, ..*old(self) }),
    {
        let c = self.bg_color;
        self.clear_with_color(c);
        self.x = 0;
        self.y = 0;
    }

    /// Scrolls up by one line; the bottom line becomes background and the
    /// cursor moves to it.
    fn scroll(&mut self)
        requires
            old(self).wf(),
        ensures
            final(self).wf(),
            final(self).pixels@ == scrolled(old(self).geom(), old(self).pixels@),
            *final(self) == (Framebuffer { pixels: final(self).pixels, y: (old(self).height - LINE_HEIGHT) as usize, ..*old(self) }),
    {
        let ghost s0 = self.pixels@;
        let ghost g = self.geom();
        proof {
            assert(LINE_HEIGHT * self.pitch <= self.pitch * self.height && (self.height - LINE_HEIGHT) * self.pitch <= self.pitch * self.height)
                by (nonlinear_arith) requires self.height >= LINE_HEIGHT;
        }
        let shift = LINE_HEIGHT * self.pitch;
        let keep = (self.height - LINE_HEIGHT) * self.pitch;
        let n = self.pixels.len();
        proof {
            assert(keep + shift == n) by (nonlinear_arith)
                requires keep == (self.height - LINE_HEIGHT) * self.pitch, shift == LINE_HEIGHT * self.pitch,
                    n == self.pitch * self.height, self.height >= LINE_HEIGHT;
        }
        let mut i: usize = 0;
        while i < keep
            invariant
                self.wf(),
                *self == (Framebuffer { pixels: self.pixels, ..*old(self) }),
                s0 == old(self).pixels@,
                keep + shift == n,
                n == s0.len(),
                keep == (self.height - LINE_HEIGHT) * self.pitch,
                shift == LINE_HEIGHT * self.pitch,
                i <= keep,
                self.pixels@.len() == n,
                forall|k: int| 0 <= k < i ==> #[trigger] self.pixels@[k] == s0[k + shift],
                forall|k: int| i <= k < n ==> #[trigger] self.pixels@[k] == s0[k],
            decreases keep - i,
        {
            let v = self.pixels[i + shift];
            self.pixels.set(i, v);
            i = i + 1;
        }
        let bg = self.bg_color;
        let mut j: usize = keep;
        while j < n
            invariant
                self.wf(),
                *self == (Framebuffer { pixels: self.pixels, ..*old(self) }),
                s0 == old(self).pixels@,
                keep + shift == n,
                n == s0.len(),
                keep == (self.height - LINE_HEIGHT) * self.pitch,
                shift == LINE_HEIGHT * self.pitch,
                bg == self.bg_color,
                keep <= j <= n,
                self.pixels@.len() == n,
                forall|k: int| 0 <= k < keep ==> #[trigger] self.pixels@[k] == s0[k + shift],
                forall|k: int| keep <= k < j ==> #[trigger] self.pixels@[k] == bg,
            decreases n - j,
        {
            self.pixels.set(j, bg);
            j = j + 1;
        }
        assert(self.pixels@ =~= scrolled(g, s0));
        self.y = self.height - LINE_HEIGHT;
    }

    /// Moves to the start of the next line, scrolling when it would not fit.
    fn new_line(&mut self)
        requires
            old(self).wf(),
            old(self).y + 2 * LINE_HEIGHT <= usize::MAX,
        ensures
            final(self).wf(),
            final(self).state() == new_line(old(self).geom(), old(self).state()),
            *final(self) == (Framebuffer { pixels: final(self).pixels, x: final(self).x, y: final(self).y, ..*old(self) }),
    {
        self.x = 0;
        self.y = self.y + LINE_HEIGHT;
        if self.y + LINE_HEIGHT > self.height {
            self.scroll();
        }
    }

    /// Draws a character at the cursor and advances it: newline, carriage
    /// return, tab stops every 48 pixels and backspace move the cursor (a
    /// backspace also clears the cell it moves back over); other characters
    /// draw their glyph, or a box when the font has none, then wrap at the
    /// right edge. Moving below the bottom line scrolls.
    pub fn draw_char(&mut self, c: char, fg: u32, bg: u32)
        requires
            old(self).wf(),
            cursor_ok(old(self).geom(), old(self).x, old(self).y),
        ensures
            final(self).wf(),
            final(self).state() == draw_char_spec(old(self).geom(), old(self).state(), c, fg, bg),
            *final(self) == (Framebuffer { pixels: final(self).pixels, x: final(self).x, y: final(self).y, ..*old(self) }),
            final(self).x <= (if old(self).x > old(self).width { old(self).x } else { old(self).width }),
            final(self).y <= (if old(self).y > old(self).height { old(self).y } else { old(self).height }),
    {
        if c == '\n' {
            self.x = 0;
            self.new_line();
        } else if c == '\r' {
            self.x = 0;
        } else if c == '\t' {
            let tab = 4 * CHAR_WIDTH;
            let next = (self.x / tab + 1) * tab;
            if next >= self.width {
                self.x = 0;
                self.new_line();
            } else {
                self.x = next;
            }
        } else if c == '\x08' || c == '\x7f' {
            self.backspace();
        } else {
            let empty: Vec<u8> = Vec::new();
            let (x, y) = (self.x, self.y);
            match glyph(c) {
                Some(gl) => {
                    self.paint_cell(x, y, GLYPH_WIDTH, CHAR_HEIGHT, 0, &gl, fg, bg);
                    self.x = x + GLYPH_WIDTH;
                },
                None => {
                    self.paint_cell(x, y, CHAR_WIDTH, CHAR_HEIGHT, 1, &empty, fg, bg);
                    self.x = x + CHAR_WIDTH;
                },
            }
            if self.x + CHAR_WIDTH > self.width {
                self.x = 0;
                self.new_line();
            }
        }
    }

    /// Moves back one cell (to the end of the previous line at the left
    /// edge, nowhere at the top left) and clears it.
    fn backspace(&mut self)
        requires
            old(self).wf(),
            cursor_ok(old(self).geom(), old(self).x, old(self).y),
        ensures
            final(self).wf(),
            final(self).state() == draw_char_spec(old(self).geom(), old(self).state(), '\x08', 0, 0),
            *final(self) == (Framebuffer { pixels: final(self).pixels, x: final(self).x, y: final(self).y, ..*old(self) }),
            final(self).x <= (if old(self).x > old(self).width { old(self).x } else { old(self).width }),
            final(self).y <= old(self).y,
    {
        let empty: Vec<u8> = Vec::new();
        let bg = self.bg_color;
        if self.x >= CHAR_WIDTH {
            self.x = self.x - CHAR_WIDTH;
        } else if self.y >= LINE_HEIGHT {
            self.y = self.y - LINE_HEIGHT;
            let cols = self.width / CHAR_WIDTH;
            self.x = (cols - 1) * CHAR_WIDTH;
        } else {
            return;
        }
        let (x, y) = (self.x, self.y);
        self.paint_cell(x, y, CHAR_WIDTH, CHAR_HEIGHT, 2, &empty, bg, bg);
    }

    /// Draws a string in the current colours.
    pub fn write_str(&mut self, s: &str)
        requires
            old(self).wf(),
            cursor_ok(old(self).geom(), old(self).x, old(self).y),
        ensures
            final(self).wf(),
            final(self).state() == draw_str_spec(old(self).geom(), old(self).state(), s@, old(self).fg_color,
                old(self).bg_color, s@.len() as int),
            *final(self) == (Framebuffer { pixels: final(self).pixels, x: final(self).x, y: final(self).y, ..*old(self) }),
    {
        let fg = self.fg_color;
        self.write_str_colored(s, fg);
    }

    /// Draws a string in the given colour on the background colour.
    pub fn write_str_colored(&mut self, s: &str, fg: u32)
        requires
            old(self).wf(),
            cursor_ok(old(self).geom(), old(self).x, old(self).y),
        ensures
            final(self).wf(),
            final(self).state() == draw_str_spec(old(self).geom(), old(self).state(), s@, fg, old(self).bg_color,
                s@.len() as int),
            *final(self) == (Framebuffer { pixels: final(self).pixels, x: final(self).x, y: final(self).y, ..*old(self) }),
    {
        let n = s.unicode_len();
        let bg = self.bg_color;
        let mut i: usize = 0;
        while i < n
            invariant
                self.wf(),
                *self == (Framebuffer { pixels: self.pixels, x: self.x, y: self.y, ..*old(self) }),
                n == s@.len(),
                bg == old(self).bg_color,
                cursor_ok(old(self).geom(), old(self).x, old(self).y),
                i <= n,
                self.state() == draw_str_spec(old(self).geom(), old(self).state(), s@, fg, bg, i as int),
                self.x <= (if old(self).x > old(self).width { old(self).x } else { old(self).width }),
                self.y <= (if old(self).y > old(self).height { old(self).y } else { old(self).height }),
            decreases n - i,
        {
            let c = s.get_char(i);
            self.draw_char(c, fg, bg);
            i = i + 1;
        }
    }

    pub fn set_fg_color(&mut self, color: u32)
        ensures
            *final(self) == (Framebuffer { fg_color: color, ..*old(self) }),
    {
        self.fg_color = color;
    }

    pub fn set_bg_color(&mut self, color: u32)
        ensures
            *final(self) == (Framebuffer { bg_color: color, ..*old(self) }),
    {
        self.bg_color = color;
    }

    pub fn get_cursor_pos(&self) -> (r: (usize, usize))
        ensures
            r == (self.x, self.y),
    {
        (self.x, self.y)
    }

    pub fn set_cursor_pos(&mut self, x: usize, y: usize)
        ensures
            *final(self) == (Framebuffer { x, y, ..*old(self) }),
    {
        self.x = x;
        self.y = y;
    }

    /// Clears the line from the cursor to the right edge.
    pub fn clear_line(&mut self)
        requires
            old(self).wf(),
            old(self).y + LINE_HEIGHT <= usize::MAX,
        ensures
            final(self).wf(),
            final(self).pixels@ == paint(old(self).geom(), old(self).pixels@, old(self).x as int, old(self).y as int,
                if old(self).width > old(self).x { old(self).width - old(self).x } else { 0 }, LINE_HEIGHT as int,
                solid(old(self).bg_color)),
            *final(self) == (Framebuffer { pixels: final(self).pixels, ..*old(self) }),
    {
        let empty: Vec<u8> = Vec::new();
        let (x, y, bg) = (self.x, self.y, self.bg_color);
        let w = if self.width > x { self.width - x } else { 0 };
        self.paint_cell(x, y, w, LINE_HEIGHT, 2, &empty, bg, bg);
    }

    /// Clears the cursor's whole line and moves the cursor to its start.
    pub fn clear_current_line(&mut self)
        requires
            old(self).wf(),
            old(self).y + LINE_HEIGHT <= usize::MAX,
        ensures
            final(self).wf(),
            final(self).pixels@ == paint(old(self).geom(), old(self).pixels@, 0, old(self).y as int,
                old(self).width as int, LINE_HEIGHT as int, solid(old(self).bg_color)),
            *final(self) == (Framebuffer { pixels: final(self).pixels, x: 0, ..*old(self) }),
    {
        let empty: Vec<u8> = Vec::new();
        let (y, bg, w) = (self.y, self.bg_color, self.width);
        self.paint_cell(0, y, w, LINE_HEIGHT, 2, &empty, bg, bg);
        self.x = 0;
    }

    /// Draws a character at (x, y) without moving the cursor.
    pub fn draw_char_at(&mut self, c: char, x: usize, y: usize, fg: u32, bg: u32)
        requires
            old(self).wf(),
            cursor_ok(old(self).geom(), x, y),
        ensures
            final(self).wf(),
            final(self).pixels@ == draw_char_spec(old(self).geom(), (old(self).pixels@, x, y), c, fg, bg).0,
            *final(self) == (Framebuffer { pixels: final(self).pixels, ..*old(self) }),
    {
        let (ox, oy) = (self.x, self.y);
        self.x = x;
        self.y = y;
        self.draw_char(c, fg, bg);
        self.x = ox;
        self.y = oy;
    }
}

/// The pixels with the `w` by `h` image `src` (row after row) copied to
/// (x, y), clipped to the screen; image pixels past its end are skipped.
pub open spec fn blitted(g: FbGeom, s: Seq<u32>, src: Seq<u32>, x: int, y: int, w: int, h: int) -> Seq<u32> {
    Seq::new(s.len(), |i: int| {
        let px = i % (g.2 as int);
        let py = i / (g.2 as int);
        let k = (py - y) * w + (px - x);
        if x <= px < x + w && y <= py < y + h && px < g.0 && py < g.1 && k < src.len() { src[k] } else { s[i] }
    })
}

impl Framebuffer {
    /// Whether the cursor is where characters can be drawn from.
    pub fn cursor_in_range(&self) -> (b: bool)
        ensures
            b == cursor_ok(self.geom(), self.x, self.y),
    {
        self.x <= usize::MAX - (2 * CHAR_WIDTH + 48) && self.y <= usize::MAX - 2 * LINE_HEIGHT
    }

    /// Copies the `w` by `h` image `src` (row after row) to (x, y), clipped
    /// to the screen.
    pub fn blit_buffer(&mut self, src: &[u32], x: usize, y: usize, w: usize, h: usize)
        requires
            old(self).wf(),
            h * w <= usize::MAX,
        ensures
            final(self).wf(),
            final(self).pixels@ == blitted(old(self).geom(), old(self).pixels@, src@, x as int, y as int, w as int, h as int),
            *final(self) == (Framebuffer { pixels: final(self).pixels, ..*old(self) }),
    {
        let ghost g = self.geom();
        let ghost old_px = self.pixels@;
        let ghost p = self.pitch as int;
        let mut dy: usize = 0;
        while dy < h
            invariant_except_break
                dy <= h,
            invariant
                self.wf(),
                *self == (Framebuffer { pixels: self.pixels, ..*old(self) }),
                g == old(self).geom(),
                p == self.pitch,
                h * w <= usize::MAX,
                self.pixels@.len() == old_px.len(),
                forall|i: int| 0 <= i < old_px.len() ==> #[trigger] self.pixels@[i] == ({
                    let px = i % p;
                    let py = i / p;
                    let k = (py - y) * w + (px - x);
                    if x <= px < x + w && y <= py < y + dy && px < g.0 && py < g.1 && k < src@.len() { src@[k] } else { old_px[i] }
                }),
            ensures
                forall|i: int| 0 <= i < old_px.len() ==> #[trigger] self.pixels@[i] == blitted(g, old_px, src@, x as int, y as int, w as int, h as int)[i],
            decreases h - dy,
        {
            if y >= self.height || dy >= self.height - y {
                assert forall|i: int| 0 <= i < old_px.len() implies #[trigger] self.pixels@[i] == blitted(g, old_px, src@, x as int, y as int, w as int, h as int)[i] by {}
                break;
            }
            let sy = y + dy;
            let mut dx: usize = 0;
            while dx < w
                invariant_except_break
                    dx <= w,
                invariant
                    self.wf(),
                    *self == (Framebuffer { pixels: self.pixels, ..*old(self) }),
                    g == old(self).geom(),
                    p == self.pitch,
                    h * w <= usize::MAX,
                    dy < h,
                    sy == y + dy,
                    sy < self.height,
                    self.pixels@.len() == old_px.len(),
                    forall|i: int| 0 <= i < old_px.len() ==> #[trigger] self.pixels@[i] == ({
                        let px = i % p;
                        let py = i / p;
                        let k = (py - y) * w + (px - x);
                        if x <= px < x + w && y <= py && (py < y + dy || (py == y + dy && px < x + dx)) && px < g.0 && py < g.1 && k < src@.len() { src@[k] } else { old_px[i] }
                    }),
                ensures
                    forall|i: int| 0 <= i < old_px.len() ==> #[trigger] self.pixels@[i] == ({
                        let px = i % p;
                        let py = i / p;
                        let k = (py - y) * w + (px - x);
                        if x <= px < x + w && y <= py < y + dy + 1 && px < g.0 && py < g.1 && k < src@.len() { src@[k] } else { old_px[i] }
                    }),
                decreases w - dx,
            {
                if x >= self.width || dx >= self.width - x {
                    assert forall|i: int| 0 <= i < old_px.len() implies #[trigger] self.pixels@[i] == ({
                        let px = i % p;
                        let py = i / p;
                        let k = (py - y) * w + (px - x);
                        if x <= px < x + w && y <= py < y + dy + 1 && px < g.0 && py < g.1 && k < src@.len() { src@[k] } else { old_px[i] }
                    }) by {}
                    break;
                }
                let sx = x + dx;
                assert(dy * w + dx < h * w) by (nonlinear_arith)
                    requires
                        dy < h,
                        dx < w,
                ;
                let k = dy * w + dx;
                assert(sy * self.pitch + sx < self.pitch * self.height) by (nonlinear_arith)
                    requires
                        sy < self.height,
                        sx < self.width,
                        self.width <= self.pitch,
                ;
                let idx = sy * self.pitch + sx;
                proof {
                    lemma_fundamental_div_mod_converse(idx as int, p, sy as int, sx as int);
                }
                if k < src.len() {
                    let v = src[k];
                    self.pixels.set(idx, v);
                }
                proof {
                    assert forall|i: int| 0 <= i < old_px.len() implies #[trigger] self.pixels@[i] == ({
                        let px = i % p;
                        let py = i / p;
                        let kk = (py - y) * w + (px - x);
                        if x <= px < x + w && y <= py && (py < y + dy || (py == y + dy && px < x + dx + 1)) && px < g.0 && py < g.1 && kk < src@.len() { src@[kk] } else { old_px[i] }
                    }) by {
                        vstd::arithmetic::div_mod::lemma_fundamental_div_mod(i, p);
                        let q = i / p;
                        let rm = i % p;
                        if q == sy && rm == sx {
                            assert(p * q == sy * p) by (nonlinear_arith)
                                requires
                                    q == sy,
                            ;
                            assert(i == idx);
                            assert((q - y) * w + (rm - x) == k);
                        } else if i == idx as int {
                            assert(false);
                        }
                    }
                }
                dx = dx + 1;
            }
            dy = dy + 1;
        }
        assert(self.pixels@ =~= blitted(g, old_px, src@, x as int, y as int, w as int, h as int));
    }
}

/// The pixels of the pointer sprite, relative to its tip.
pub open spec fn sprite_point(dx: int, dy: int) -> bool {
    if dy == 0 {
        dx == 0
    } else if 1 <= dy <= 6 {
        0 <= dx <= dy
    } else if dy == 7 || dy == 8 {
        0 <= dx <= 5
    } else if dy == 9 {
        0 <= dx <= 3
    } else if dy == 10 {
        dx == 0 || dx == 1 || dx == 4 || dx == 5
    } else if dy == 11 {
        dx == 0 || dx == 1 || dx == 4 || dx == 5 || dx == 6
    } else if dy == 12 {
        5 <= dx <= 7
    } else if dy == 13 {
        dx == 6 || dx == 7
    } else {
        false
    }
}

/// The outline drawn around the sprite: the pixel right of and below each
/// point, and the one left of it (above it) unless the point is in the
/// first column (row).
pub open spec fn sprite_edge(ex: int, ey: int) -> bool {
    (ex >= 0 && sprite_point(ex + 1, ey)) || sprite_point(ex - 1, ey) || (ey >= 0 && sprite_point(ex, ey + 1))
        || sprite_point(ex, ey - 1)
}

/// The pixels with the pointer sprite drawn with its tip at (mx, my): the
/// arrow in `fill`, its outline in `outline`, clipped to the screen.
pub open spec fn sprite_drawn(g: FbGeom, s: Seq<u32>, mx: int, my: int, fill: u32, outline: u32) -> Seq<u32> {
    Seq::new(s.len(), |i: int| {
        let px = i % (g.2 as int);
        let py = i / (g.2 as int);
        if px < g.0 && py < g.1 && sprite_point(px - mx, py - my) {
            fill
        } else if px < g.0 && py < g.1 && sprite_edge(px - mx, py - my) {
            outline
        } else {
            s[i]
        }
    })
}

fn sprite_point_exec(dx: i64, dy: i64) -> (b: bool)
    ensures
        b == sprite_point(dx as int, dy as int),
{
    if dy == 0 {
        dx == 0
    } else if 1 <= dy && dy <= 6 {
        0 <= dx && dx <= dy
    } else if dy == 7 || dy == 8 {
        0 <= dx && dx <= 5
    } else if dy == 9 {
        0 <= dx && dx <= 3
    } else if dy == 10 {
        dx == 0 || dx == 1 || dx == 4 || dx == 5
    } else if dy == 11 {
        dx == 0 || dx == 1 || dx == 4 || dx == 5 || dx == 6
    } else if dy == 12 {
        5 <= dx && dx <= 7
    } else if dy == 13 {
        dx == 6 || dx == 7
    } else {
        false
    }
}

/// Where the pointer was last drawn.
pub struct CursorTracker {
    pub last_x: i32,
    pub last_y: i32,
}

impl CursorTracker {
    /// No pointer drawn yet.
    pub fn new() -> (t: Self)
        ensures
            t.last_x == -1 && t.last_y == -1,
    {
        CursorTracker { last_x: -1, last_y: -1 }
    }

    /// Draws the pointer at the mouse position (mx, my) when it moved since
    /// the last drawing; the arrow is light blue while the left button is
    /// held, white otherwise, with a black outline.
    pub fn update_cursor_only(&mut self, fb: &mut Framebuffer, mx: i32, my: i32, is_clicking: bool)
        requires
            old(fb).wf(),
            mx >= 0,
            my >= 0,
        ensures
            final(fb).wf(),
            mx == old(self).last_x && my == old(self).last_y ==> *final(fb) == *old(fb) && *final(self) == *old(self),
            !(mx == old(self).last_x && my == old(self).last_y) ==> final(self).last_x == mx && final(self).last_y == my
                && final(fb).pixels@ == sprite_drawn(old(fb).geom(), old(fb).pixels@, mx as int, my as int,
                    if is_clicking { 0x00AAFFu32 } else { 0xFFFFFFu32 }, 0)
                && *final(fb) == (Framebuffer { pixels: final(fb).pixels, ..*old(fb) }),
    {
        if mx == self.last_x && my == self.last_y {
            return;
        }
        fb.draw_cursor_sprite(mx, my, is_clicking);
        self.last_x = mx;
        self.last_y = my;
    }
}

impl Framebuffer {
    fn sprite_pixel(&mut self, px: usize, py: usize, ex: i64, ey: i64, fill: u32, outline: u32)
        requires
            old(self).wf(),
            px < old(self).width,
            py < old(self).height,
            -16 <= ex <= 16,
            -16 <= ey <= 16,
        ensures
            final(self).wf(),
            *final(self) == (Framebuffer { pixels: final(self).pixels, ..*old(self) }),
            final(self).pixels@ == if sprite_point(ex as int, ey as int) {
                old(self).pixels@.update(py * old(self).pitch + px, fill)
            } else if sprite_edge(ex as int, ey as int) {
                old(self).pixels@.update(py * old(self).pitch + px, outline)
            } else {
                old(self).pixels@
            },
    {
        assert(py * self.pitch + px < self.pitch * self.height) by (nonlinear_arith)
            requires
                py < self.height,
                px < self.width,
                self.width <= self.pitch,
        ;
        let idx = py * self.pitch + px;
        let edge = (ex >= 0 && sprite_point_exec(ex + 1, ey)) || sprite_point_exec(ex - 1, ey) || (ey >= 0
            && sprite_point_exec(ex, ey + 1)) || sprite_point_exec(ex, ey - 1);
        if sprite_point_exec(ex, ey) {
            self.pixels.set(idx, fill);
        } else if edge {
            self.pixels.set(idx, outline);
        }
    }

    /// Draws the pointer sprite with its tip at (mx, my).
    pub fn draw_cursor_sprite(&mut self, mx: i32, my: i32, is_clicking: bool)
        requires
            old(self).wf(),
            mx >= 0,
            my >= 0,
        ensures
            final(self).wf(),
            final(self).pixels@ == sprite_drawn(old(self).geom(), old(self).pixels@, mx as int, my as int,
                if is_clicking { 0x00AAFFu32 } else { 0xFFFFFFu32 }, 0),
            *final(self) == (Framebuffer { pixels: final(self).pixels, ..*old(self) }),
    {
        let fill: u32 = if is_clicking { 0x00AAFF } else { 0xFFFFFF };
        let ghost g = self.geom();
        let ghost old_px = self.pixels@;
        let ghost p = self.pitch as int;
        let ghost (mxi, myi) = (mx as int, my as int);
        let mut ey: i64 = -1;
        while ey < 15
            invariant
                self.wf(),
                *self == (Framebuffer { pixels: self.pixels, ..*old(self) }),
                g == old(self).geom(),
                p == self.pitch,
                mx >= 0 && my >= 0,
                mxi == mx && myi == my,
                -1 <= ey <= 15,
                self.pixels@.len() == old_px.len(),
                forall|i: int| 0 <= i < old_px.len() ==> #[trigger] self.pixels@[i] == ({
                    let px = i % p;
                    let py = i / p;
                    if px < g.0 && py < g.1 && py - myi < ey && sprite_point(px - mxi, py - myi) {
                        fill
                    } else if px < g.0 && py < g.1 && py - myi < ey && sprite_edge(px - mxi, py - myi) {
                        0u32
                    } else {
                        old_px[i]
                    }
                }),
            decreases 15 - ey,
        {
            let sy = my as i64 + ey;
            if sy >= 0 && (sy as u64) < self.height as u64 {
                let py = sy as usize;
                let mut ex: i64 = -1;
                while ex < 9
                    invariant
                        self.wf(),
                        *self == (Framebuffer { pixels: self.pixels, ..*old(self) }),
                        g == old(self).geom(),
                        p == self.pitch,
                        mx >= 0 && my >= 0,
                        mxi == mx && myi == my,
                        -1 <= ey < 15,
                        -1 <= ex <= 9,
                        py == my + ey,
                        py < self.height,
                        self.pixels@.len() == old_px.len(),
                        forall|i: int| 0 <= i < old_px.len() ==> #[trigger] self.pixels@[i] == ({
                            let px = i % p;
                            let q = i / p;
                            let done = q - myi < ey || (q - myi == ey && px - mxi < ex);
                            if px < g.0 && q < g.1 && done && sprite_point(px - mxi, q - myi) {
                                fill
                            } else if px < g.0 && q < g.1 && done && sprite_edge(px - mxi, q - myi) {
                                0u32
                            } else {
                                old_px[i]
                            }
                        }),
                    decreases 9 - ex,
                {
                    let sx = mx as i64 + ex;
                    if sx >= 0 && (sx as u64) < self.width as u64 {
                        let px = sx as usize;
                        let ghost before = self.pixels@;
                        assert(py * self.pitch + px < self.pitch * self.height) by (nonlinear_arith)
                            requires
                                py < self.height,
                                px < self.width,
                                self.width <= self.pitch,
                        ;
                        let ghost idx = py * self.pitch + px;
                        proof {
                            lemma_fundamental_div_mod_converse(idx as int, p, py as int, px as int);
                        }
                        self.sprite_pixel(px, py, ex, ey, fill, 0);
                        proof {
                            assert forall|i: int| 0 <= i < old_px.len() implies #[trigger] self.pixels@[i] == ({
                                let px2 = i % p;
                                let q = i / p;
                                let done = q - myi < ey || (q - myi == ey && px2 - mxi < ex + 1);
                                if px2 < g.0 && q < g.1 && done && sprite_point(px2 - mxi, q - myi) {
                                    fill
                                } else if px2 < g.0 && q < g.1 && done && sprite_edge(px2 - mxi, q - myi) {
                                    0u32
                                } else {
                                    old_px[i]
                                }
                            }) by {
                                vstd::arithmetic::div_mod::lemma_fundamental_div_mod(i, p);
                                let q = i / p;
                                let rm = i % p;
                                if q == py && rm == px {
                                    assert(p * q == py * p) by (nonlinear_arith)
                                        requires
                                            q == py,
                                    ;
                                    assert(i == idx);
                                } else if i == idx {
                                    assert(false);
                                }
                            }
                        }
                    } else {
                        proof {
                            assert forall|i: int| 0 <= i < old_px.len() implies #[trigger] self.pixels@[i] == ({
                                let px2 = i % p;
                                let q = i / p;
                                let done = q - myi < ey || (q - myi == ey && px2 - mxi < ex + 1);
                                if px2 < g.0 && q < g.1 && done && sprite_point(px2 - mxi, q - myi) {
                                    fill
                                } else if px2 < g.0 && q < g.1 && done && sprite_edge(px2 - mxi, q - myi) {
                                    0u32
                                } else {
                                    old_px[i]
                                }
                            }) by {
                                assert(0 <= i % p < p);
                            }
                        }
                    }
                    ex = ex + 1;
                }
                proof {
                    assert forall|i: int| 0 <= i < old_px.len() implies #[trigger] self.pixels@[i] == ({
                        let px2 = i % p;
                        let q = i / p;
                        if px2 < g.0 && q < g.1 && q - myi < ey + 1 && sprite_point(px2 - mxi, q - myi) {
                            fill
                        } else if px2 < g.0 && q < g.1 && q - myi < ey + 1 && sprite_edge(px2 - mxi, q - myi) {
                            0u32
                        } else {
                            old_px[i]
                        }
                    }) by {
                        let px2 = i % p;
                        let q = i / p;
                        if q - myi == ey && px2 < g.0 && (sprite_point(px2 - mxi, q - myi) || sprite_edge(px2 - mxi, q - myi)) {
                            assert(px2 - mxi < 9);
                        }
                    }
                }
            } else {
                proof {
                    assert forall|i: int| 0 <= i < old_px.len() implies #[trigger] self.pixels@[i] == ({
                        let px2 = i % p;
                        let q = i / p;
                        if px2 < g.0 && q < g.1 && q - myi < ey + 1 && sprite_point(px2 - mxi, q - myi) {
                            fill
                        } else if px2 < g.0 && q < g.1 && q - myi < ey + 1 && sprite_edge(px2 - mxi, q - myi) {
                            0u32
                        } else {
                            old_px[i]
                        }
                    }) by {
                        assert(i / p >= 0) by {
                            vstd::arithmetic::div_mod::lemma_div_pos_is_pos(i, p);
                        }
                    }
                }
            }
            ey = ey + 1;
        }
        proof {
            assert forall|i: int| 0 <= i < old_px.len() implies #[trigger] self.pixels@[i] == sprite_drawn(g, old_px, mxi, myi, fill, 0)[i] by {
                let px2 = i % p;
                let q = i / p;
                if px2 < g.0 && q < g.1 && (sprite_point(px2 - mxi, q - myi) || sprite_edge(px2 - mxi, q - myi)) {
                    assert(q - myi < 15);
                }
            }
        }
        assert(self.pixels@ =~= sprite_drawn(g, old_px, mxi, myi, fill, 0));
    }
}

} // verus!
