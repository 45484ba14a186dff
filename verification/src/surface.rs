//! Application drawing surfaces: a pixel buffer in one of three formats,
//! placement on screen, and dirty tracking.
use vstd::prelude::*;
use vstd::arithmetic::div_mod::lemma_fundamental_div_mod_converse;

verus! {

/// Byte layout of a pixel.
#[derive(Clone, Copy, PartialEq, Eq, Structural)]
pub enum PixelFormat {
    RGBA8888,
    RGB888,
    BGRA8888,
}

pub open spec fn bpp(f: PixelFormat) -> nat {
    match f {
        PixelFormat::RGBA8888 | PixelFormat::BGRA8888 => 4,
        PixelFormat::RGB888 => 3,
    }
}

impl PixelFormat {
    pub fn bytes_per_pixel(&self) -> (r: usize)
        ensures
            r == bpp(*self),
    {
        match self {
            PixelFormat::RGBA8888 | PixelFormat::BGRA8888 => 4,
            PixelFormat::RGB888 => 3,
        }
    }
}

/// A rectangle of a surface that changed.
#[derive(Clone, Copy)]
pub struct DirtyRect {
    pub x: u32,
    pub y: u32,
    pub width: u32,
    pub height: u32,
}

/// The bytes of one pixel of colour `color` (0xRRGGBBAA for the formats
/// with alpha, 0x00RRGGBB for RGB888) in format `f`.
pub open spec fn pixel_bytes(f: PixelFormat, color: u32) -> Seq<u8> {
    let b3 = (color >> 24u32) as u8;
    let b2 = ((color >> 16u32) & 0xff) as u8;
    let b1 = ((color >> 8u32) & 0xff) as u8;
    let b0 = (color & 0xff) as u8;
    match f {
        PixelFormat::RGBA8888 => seq![b3, b2, b1, b0],
        PixelFormat::BGRA8888 => seq![b1, b2, b3, b0],
        PixelFormat::RGB888 => seq![b2, b1, b0],
    }
}

/// The colour a pixel's bytes encode: 0xRRGGBBAA, or 0x00RRGGBB for RGB888.
pub open spec fn pixel_color(f: PixelFormat, b: Seq<u8>) -> u32 {
    match f {
        PixelFormat::RGBA8888 => ((b[0] as u32) << 24u32) | ((b[1] as u32) << 16u32) | ((b[2] as u32) << 8u32) | (b[3] as u32),
        PixelFormat::BGRA8888 => ((b[2] as u32) << 24u32) | ((b[1] as u32) << 16u32) | ((b[0] as u32) << 8u32) | (b[3] as u32),
        PixelFormat::RGB888 => ((b[0] as u32) << 16u32) | ((b[1] as u32) << 8u32) | (b[2] as u32),
    }
}

/// Byte offset of pixel (x, y).
pub open spec fn pixel_offset(width: int, x: int, y: int, bpp: int) -> int {
    (y * width + x) * bpp
}

/// A surface as `Surface::new` makes it, all bytes zero, reads as colour 0
/// at every pixel.
pub proof fn lemma_zeroed_pixel(f: PixelFormat, pixels: Seq<u8>, w: int, h: int, x: int, y: int)
    requires
        pixels.len() == w * h * bpp(f),
        forall|i: int| 0 <= i < pixels.len() ==> pixels[i] == 0,
        0 <= x < w,
        0 <= y < h,
    ensures
        ({
            let o = pixel_offset(w, x, y, bpp(f) as int);
            pixel_color(f, pixels.subrange(o, o + bpp(f))) == 0
        }),
{
    let b = bpp(f) as int;
    lemma_offset_bound(w, h, x, y, b);
    let o = pixel_offset(w, x, y, b);
    let s = pixels.subrange(o, o + b);
    assert forall|k: int| 0 <= k < b implies s[k] == 0 by {
        assert(s[k] == pixels[o + k]);
    }
    let z = 0u8;
    assert((((z as u32) << 24u32) | ((z as u32) << 16u32) | ((z as u32) << 8u32) | (z as u32)) == 0) by (bit_vector)
        requires z == 0u8;
    assert((((z as u32) << 16u32) | ((z as u32) << 8u32) | (z as u32)) == 0) by (bit_vector)
        requires z == 0u8;
}

/// The colour a pixel's bytes encode is the colour they were made from
/// (its low 24 bits in the 3-byte format).
proof fn lemma_color_bytes_round_trip(f: PixelFormat, color: u32)
    ensures
        pixel_color(f, pixel_bytes(f, color)) == if f == PixelFormat::RGB888 { color & 0xFFFFFF } else { color },
{
    let b3 = (color >> 24u32) as u8;
    let b2 = ((color >> 16u32) & 0xff) as u8;
    let b1 = ((color >> 8u32) & 0xff) as u8;
    let b0 = (color & 0xff) as u8;
    assert(((b3 as u32) << 24u32 | (b2 as u32) << 16u32 | (b1 as u32) << 8u32 | (b0 as u32)) == color) by (bit_vector)
        requires b3 == (color >> 24u32) as u8, b2 == ((color >> 16u32) & 0xff) as u8, b1 == ((color >> 8u32) & 0xff) as u8,
            b0 == (color & 0xff) as u8;
    assert(((b2 as u32) << 16u32 | (b1 as u32) << 8u32 | (b0 as u32)) == color & 0xFFFFFF) by (bit_vector)
        requires b2 == ((color >> 16u32) & 0xff) as u8, b1 == ((color >> 8u32) & 0xff) as u8, b0 == (color & 0xff) as u8;
}

/// After `clear(color)` every pixel reads as `color` (its low 24 bits in
/// the 3-byte format, which has no alpha).
pub proof fn lemma_cleared_pixel(f: PixelFormat, pixels: Seq<u8>, w: int, h: int, x: int, y: int, color: u32)
    requires
        pixels.len() == w * h * bpp(f),
        forall|i: int| 0 <= i < pixels.len() ==> pixels[i] == pixel_bytes(f, color)[i % (bpp(f) as int)],
        0 <= x < w,
        0 <= y < h,
    ensures
        ({
            let o = pixel_offset(w, x, y, bpp(f) as int);
            pixel_color(f, pixels.subrange(o, o + bpp(f))) == if f == PixelFormat::RGB888 { color & 0xFFFFFF } else { color }
        }),
{
    let b = bpp(f) as int;
    lemma_offset_bound(w, h, x, y, b);
    let o = pixel_offset(w, x, y, b);
    let s = pixels.subrange(o, o + b);
    let pb = pixel_bytes(f, color);
    assert forall|k: int| 0 <= k < b implies s[k] == pb[k] by {
        assert(s[k] == pixels[o + k]);
        lemma_fundamental_div_mod_converse(o + k, b, y * w + x, k);
    }
    assert(s =~= pb);
    lemma_color_bytes_round_trip(f, color);
}

pub proof fn lemma_offset_bound(w: int, h: int, x: int, y: int, b: int)
    requires
        0 <= x < w,
        0 <= y < h,
        1 <= b,
    ensures
        0 <= pixel_offset(w, x, y, b),
        pixel_offset(w, x, y, b) + b <= w * h * b,
{
    assert(y * w + x + 1 <= w * h) by (nonlinear_arith)
        requires 0 <= x < w, 0 <= y < h;
    assert((y * w + x) * b + b == (y * w + x + 1) * b) by (nonlinear_arith);
    assert((y * w + x + 1) * b <= (w * h) * b) by (nonlinear_arith)
        requires y * w + x + 1 <= w * h, 1 <= b;
    assert(0 <= (y * w + x) * b) by (nonlinear_arith)
        requires 0 <= x, 0 <= y, 0 <= w, 1 <= b;
    assert((w * h) * b == w * h * b) by (nonlinear_arith);
}

proof fn lemma_mixed_radix(p1: int, c1: int, p2: int, c2: int, b: int)
    requires
        b >= 1,
        0 <= c1 < b,
        0 <= c2 < b,
        p1 * b + c1 == p2 * b + c2,
    ensures
        p1 == p2,
        c1 == c2,
{
    if p1 < p2 {
        assert(p1 * b + b <= p2 * b) by (nonlinear_arith) requires p1 < p2, b >= 1;
    } else if p1 > p2 {
        assert(p2 * b + b <= p1 * b) by (nonlinear_arith) requires p2 < p1, b >= 1;
    }
}

/// Distinct pixels and channels have distinct byte offsets.
pub proof fn lemma_offset_injective(w: int, b: int, x1: int, y1: int, c1: int, x2: int, y2: int, c2: int)
    requires
        0 <= x1 < w,
        0 <= x2 < w,
        0 <= c1 < b,
        0 <= c2 < b,
        pixel_offset(w, x1, y1, b) + c1 == pixel_offset(w, x2, y2, b) + c2,
    ensures
        x1 == x2 && y1 == y2 && c1 == c2,
{
    lemma_mixed_radix(y1 * w + x1, c1, y2 * w + x2, c2, b);
    assert(y1 * w + x1 == x1 + y1 * w);
    lemma_mixed_radix(y1, x1, y2, x2, w);
}

/// A drawing surface.
pub struct Surface {
    pub id: u64,
    pub width: u32,
    pub height: u32,
    pub x: i32,
    pub y: i32,
    pub z_order: i32,
    pub visible: bool,
    pub format: PixelFormat,
    pub pixels: Vec<u8>,
    pub dirty: bool,
    pub present_requested: bool,
    pub dirty_rects: Vec<DirtyRect>,
}

impl Surface {
    /// Dimensions within 1..=8192 and a buffer of exactly width*height pixels.
    pub open spec fn wf(&self) -> bool {
        &&& 1 <= self.width <= 8192
        &&& 1 <= self.height <= 8192
        &&& self.pixels@.len() == self.width * self.height * bpp(self.format)
    }

    /// Every field but the listed ones equal.
    pub open spec fn same_except_pixels(&self, o: &Surface) -> bool {
        &&& self.id == o.id && self.width == o.width && self.height == o.height
        &&& self.x == o.x && self.y == o.y && self.z_order == o.z_order && self.visible == o.visible
        &&& self.format == o.format && self.present_requested == o.present_requested
    }

    fn zeroed(n: usize) -> (v: Vec<u8>)
        ensures
            v@.len() == n,
            forall|i: int| 0 <= i < n ==> v@[i] == 0,
    {
        let mut v: Vec<u8> = Vec::new();
        let mut i: usize = 0;
        while i < n
            invariant
                i <= n,
                v@.len() == i,
                forall|k: int| 0 <= k < i ==> v@[k] == 0,
            decreases n - i,
        {
            v.push(0u8);
            i = i + 1;
        }
        v
    }

    /// A zero-filled RGBA surface; dimensions must be within 1..=8192.
    pub fn new(id: u64, width: u32, height: u32) -> (r: Result<Self, &'static str>)
        ensures
            (width == 0 || height == 0) ==> (r matches Err(e) && e@ == "Invalid surface dimensions"@),
            (width != 0 && height != 0 && (width > 8192 || height > 8192)) ==> (r matches Err(e) && e@ == "Surface too large"@),
            (1 <= width <= 8192 && 1 <= height <= 8192) ==> (r matches Ok(s) && {
                &&& s.wf()
                &&& s.id == id && s.width == width && s.height == height
                &&& s.x == 0 && s.y == 0 && s.z_order == 0 && s.visible
                &&& s.format == PixelFormat::RGBA8888
                &&& forall|i: int| 0 <= i < s.pixels@.len() ==> s.pixels@[i] == 0
                &&& s.dirty && !s.present_requested && s.dirty_rects@.len() == 0
            }),
    {
        if width == 0 || height == 0 {
            return Err("Invalid surface dimensions");
        }
        if width > 8192 || height > 8192 {
            return Err("Surface too large");
        }
        assert(width * height <= 8192 * 8192) by (nonlinear_arith)
            requires width <= 8192, height <= 8192;
        let format = PixelFormat::RGBA8888;
        let pixel_count = (width * height) as usize;
        let buffer_size = pixel_count * format.bytes_per_pixel();
        let pixels = Self::zeroed(buffer_size);
        Ok(Surface {
            id,
            width,
            height,
            x: 0,
            y: 0,
            z_order: 0,
            visible: true,
            format,
            pixels,
            dirty: true,
            present_requested: false,
            dirty_rects: Vec::new(),
        })
    }

    /// Replaces all pixels; the data must be exactly one full buffer.
    pub fn update_pixels(&mut self, data: &[u8]) -> (r: Result<(), &'static str>)
        requires
            old(self).wf(),
        ensures
            final(self).wf(),
            final(self).same_except_pixels(old(self)),
            final(self).dirty_rects@ == old(self).dirty_rects@,
            data@.len() != old(self).pixels@.len() ==> (r matches Err(e) && e@ == "Invalid pixel data size"@
                && *final(self) == *old(self)),
            data@.len() == old(self).pixels@.len() ==> r is Ok && final(self).pixels@ == data@ && final(self).dirty,
    {
        assert(self.width * self.height <= 8192 * 8192) by (nonlinear_arith)
            requires self.width <= 8192, self.height <= 8192;
        let wh: u32 = self.width * self.height;
        let pc: usize = wh as usize;
        let bp: usize = self.format.bytes_per_pixel();
        assert(pc * bp <= 8192 * 8192 * 4) by (nonlinear_arith)
            requires pc <= 8192 * 8192, bp <= 4;
        let expected_size = pc * bp;
        if data.len() != expected_size {
            return Err("Invalid pixel data size");
        }
        let mut i: usize = 0;
        while i < data.len()
            invariant
                i <= data@.len(),
                self.pixels@.len() == data@.len(),
                self.same_except_pixels(old(self)),
                self.dirty_rects@ == old(self).dirty_rects@,
                self.pixels@.len() == old(self).pixels@.len(),
                forall|k: int| 0 <= k < i ==> self.pixels@[k] == data@[k],
            decreases data@.len() - i,
        {
            self.pixels.set(i, data[i]);
            i = i + 1;
        }
        assert(self.pixels@ =~= data@);
        self.mark_dirty();
        Ok(())
    }

    /// New dimensions (within 1..=8192) with a zeroed buffer; same
    /// dimensions change nothing.
    pub fn resize(&mut self, width: u32, height: u32) -> (r: Result<(), &'static str>)
        requires
            old(self).wf(),
        ensures
            final(self).wf(),
            !(1 <= width <= 8192 && 1 <= height <= 8192) ==> (r matches Err(e) && e@ == "Invalid dimensions"@ && *final(self) == *old(self)),
            (1 <= width <= 8192 && 1 <= height <= 8192) ==> r is Ok,
            (width == old(self).width && height == old(self).height) ==> *final(self) == *old(self),
            (1 <= width <= 8192 && 1 <= height <= 8192 && !(width == old(self).width && height == old(self).height)) ==> {
                &&& final(self).width == width && final(self).height == height
                &&& forall|i: int| 0 <= i < final(self).pixels@.len() ==> final(self).pixels@[i] == 0
                &&& final(self).dirty && final(self).dirty_rects@.len() == 0
                &&& final(self).id == old(self).id && final(self).x == old(self).x && final(self).y == old(self).y
                &&& final(self).z_order == old(self).z_order && final(self).visible == old(self).visible
                &&& final(self).format == old(self).format && final(self).present_requested == old(self).present_requested
            },
    {
        if width == 0 || height == 0 || width > 8192 || height > 8192 {
            return Err("Invalid dimensions");
        }
        if self.width == width && self.height == height {
            return Ok(());
        }
        self.width = width;
        self.height = height;
        assert(width * height <= 8192 * 8192) by (nonlinear_arith)
            requires width <= 8192, height <= 8192;
        let pixel_count = (width * height) as usize;
        let buffer_size = pixel_count * self.format.bytes_per_pixel();
        self.pixels = Self::zeroed(buffer_size);
        self.dirty = true;
        self.dirty_rects.clear();
        Ok(())
    }

    /// Fills every pixel with `color`.
    pub fn clear(&mut self, color: u32)
        requires
            old(self).wf(),
        ensures
            final(self).wf(),
            final(self).same_except_pixels(old(self)),
            final(self).dirty_rects@ == old(self).dirty_rects@,
            final(self).dirty,
            forall|i: int| 0 <= i < final(self).pixels@.len() ==>
                final(self).pixels@[i] == pixel_bytes(old(self).format, color)[i % (bpp(old(self).format) as int)],
    {
        let r = ((color >> 24u32) & 0xFF) as u8;
        let g = ((color >> 16u32) & 0xFF) as u8;
        let b = ((color >> 8u32) & 0xFF) as u8;
        let a = (color & 0xFF) as u8;
        let pattern: Vec<u8> = match self.format {
            PixelFormat::RGBA8888 => vec![r, g, b, a],
            PixelFormat::BGRA8888 => vec![b, g, r, a],
            PixelFormat::RGB888 => vec![g, b, a],
        };
        proof {
            assert((color >> 24u32) & 0xff == color >> 24u32) by (bit_vector);
            assert(pattern@ =~= pixel_bytes(self.format, color));
        }
        let bpp_n = self.format.bytes_per_pixel();
        let n = self.pixels.len();
        let mut k: usize = 0;
        while k < n
            invariant
                k <= n == self.pixels@.len(),
                bpp_n == bpp(self.format),
                pattern@ == pixel_bytes(self.format, color),
                pattern@.len() == bpp_n,
                self.same_except_pixels(old(self)),
                self.dirty_rects@ == old(self).dirty_rects@,
                self.pixels@.len() == old(self).pixels@.len(),
                forall|i: int| 0 <= i < k ==> self.pixels@[i] == pattern@[i % (bpp_n as int)],
            decreases n - k,
        {
            self.pixels.set(k, pattern[k % bpp_n]);
            k = k + 1;
        }
        self.mark_dirty();
    }

    pub fn mark_dirty(&mut self)
        ensures
            *final(self) == (Surface { dirty: true, ..*old(self) }),
    {
        self.dirty = true;
    }

    pub fn is_dirty(&self) -> (r: bool)
        ensures
            r == self.dirty,
    {
        self.dirty
    }

    /// Marks the surface clean and forgets its dirty rectangles.
    pub fn clear_dirty(&mut self)
        ensures
            !final(self).dirty,
            final(self).dirty_rects@.len() == 0,
            final(self).same_except_pixels(old(self)),
            final(self).pixels == old(self).pixels,
    {
        self.dirty = false;
        self.dirty_rects.clear();
    }

    pub fn set_position(&mut self, x: i32, y: i32)
        ensures
            *final(self) == (Surface { x, y, dirty: true, ..*old(self) }),
    {
        self.x = x;
        self.y = y;
        self.mark_dirty();
    }

    pub fn set_z_order(&mut self, z: i32)
        ensures
            *final(self) == (Surface { z_order: z, dirty: true, ..*old(self) }),
    {
        self.z_order = z;
        self.mark_dirty();
    }

    pub fn set_visible(&mut self, visible: bool)
        ensures
            *final(self) == (Surface { visible, dirty: true, ..*old(self) }),
    {
        self.visible = visible;
        self.mark_dirty();
    }

    /// The colour at (x, y), `None` outside the surface.
    pub fn get_pixel(&self, x: u32, y: u32) -> (r: Option<u32>)
        requires
            self.wf(),
        ensures
            (x >= self.width || y >= self.height) ==> r is None,
            (x < self.width && y < self.height) ==> {
                let o = pixel_offset(self.width as int, x as int, y as int, bpp(self.format) as int);
                r == Some(pixel_color(self.format, self.pixels@.subrange(o, o + bpp(self.format))))
            },
    {
        if x >= self.width || y >= self.height {
            return None;
        }
        let bpp_n = self.format.bytes_per_pixel();
        proof {
            lemma_offset_bound(self.width as int, self.height as int, x as int, y as int, bpp_n as int);
            assert(y * self.width + x < 8192 * 8192) by (nonlinear_arith)
                requires y < self.height <= 8192, x < self.width <= 8192;
        }
        let offset = ((y * self.width + x) as usize) * bpp_n;
        let ghost o = pixel_offset(self.width as int, x as int, y as int, bpp(self.format) as int);
        assert(offset == o);
        let ghost px = self.pixels@.subrange(o, o + bpp(self.format));
        match self.format {
            PixelFormat::RGBA8888 => {
                let r = self.pixels[offset] as u32;
                let g = self.pixels[offset + 1] as u32;
                let b = self.pixels[offset + 2] as u32;
                let a = self.pixels[offset + 3] as u32;
                assert(px[0] == self.pixels@[o] && px[1] == self.pixels@[o + 1] && px[2] == self.pixels@[o + 2] && px[3] == self.pixels@[o + 3]);
                Some((r << 24u32) | (g << 16u32) | (b << 8u32) | a)
            },
            PixelFormat::BGRA8888 => {
                let b = self.pixels[offset] as u32;
                let g = self.pixels[offset + 1] as u32;
                let r = self.pixels[offset + 2] as u32;
                let a = self.pixels[offset + 3] as u32;
                assert(px[0] == self.pixels@[o] && px[1] == self.pixels@[o + 1] && px[2] == self.pixels@[o + 2] && px[3] == self.pixels@[o + 3]);
                Some((r << 24u32) | (g << 16u32) | (b << 8u32) | a)
            },
            PixelFormat::RGB888 => {
                let r = self.pixels[offset] as u32;
                let g = self.pixels[offset + 1] as u32;
                let b = self.pixels[offset + 2] as u32;
                assert(px[0] == self.pixels@[o] && px[1] == self.pixels@[o + 1] && px[2] == self.pixels@[o + 2]);
                Some((r << 16u32) | (g << 8u32) | b)
            },
        }
    }
    /// Copies a `width`×`height` block of pixels to (x, y); the block must
    /// lie inside the surface and `data` must hold exactly its pixels, row by
    /// row. The block is recorded as a dirty rectangle.
    pub fn update_region(&mut self, x: u32, y: u32, width: u32, height: u32, data: &[u8]) -> (r: Result<(), &'static str>)
        requires
            old(self).wf(),
            x + width <= u32::MAX,
            y + height <= u32::MAX,
        ensures
            final(self).wf(),
            final(self).same_except_pixels(old(self)),
            (x + width > old(self).width || y + height > old(self).height) ==> (r matches Err(e) && e@ == "Region out of bounds"@
                && *final(self) == *old(self)),
            (x + width <= old(self).width && y + height <= old(self).height && data@.len() != width * height * bpp(old(self).format))
                ==> (r matches Err(e) && e@ == "Invalid pixel data size"@ && *final(self) == *old(self)),
            (x + width <= old(self).width && y + height <= old(self).height && data@.len() == width * height * bpp(old(self).format))
                ==> {
                &&& r is Ok
                &&& final(self).dirty
                &&& final(self).dirty_rects@ == old(self).dirty_rects@.push(DirtyRect { x, y, width, height })
                &&& forall|px: int, py: int, c: int| 0 <= px < old(self).width && 0 <= py < old(self).height && 0 <= c < bpp(old(self).format)
                    ==> #[trigger] final(self).pixels@[pixel_offset(old(self).width as int, px, py, bpp(old(self).format) as int) + c] ==
                        if x <= px < x + width && y <= py < y + height {
                            data@[pixel_offset(width as int, px - x, py - y, bpp(old(self).format) as int) + c]
                        } else {
                            old(self).pixels@[pixel_offset(old(self).width as int, px, py, bpp(old(self).format) as int) + c]
                        }
            },
    {
        if x + width > self.width || y + height > self.height {
            return Err("Region out of bounds");
        }
        let b = self.format.bytes_per_pixel();
        assert(width * height <= 8192 * 8192) by (nonlinear_arith)
            requires width <= 8192, height <= 8192;
        let wh: u32 = width * height;
        let pc: usize = wh as usize;
        assert(pc * b <= 8192 * 8192 * 4) by (nonlinear_arith)
            requires pc <= 8192 * 8192, b <= 4;
        let expected_size = pc * b;
        if data.len() != expected_size {
            return Err("Invalid pixel data size");
        }
        let ghost W = self.width as int;
        let ghost H = self.height as int;
        let ghost B = b as int;
        let ghost old_px = self.pixels@;
        let sw = self.width;
        let mut row: u32 = 0;
        while row < height
            invariant
                row <= height,
                x + width <= sw,
                y + height <= self.height,
                sw == self.width,
                W == sw,
                H == self.height,
                B == b,
                b == bpp(self.format),
                1 <= b <= 4,
                self.wf(),
                self.same_except_pixels(old(self)),
                self.dirty_rects@ == old(self).dirty_rects@,
                self.dirty == old(self).dirty,
                data@.len() == width * height * B,
                self.pixels@.len() == old_px.len(),
                old_px == old(self).pixels@,
                forall|px: int, py: int, c: int| 0 <= px < W && 0 <= py < H && 0 <= c < B ==>
                    #[trigger] self.pixels@[pixel_offset(W, px, py, B) + c] ==
                        if x <= px < x + width && y <= py < y + row {
                            data@[pixel_offset(width as int, px - x, py - y, B) + c]
                        } else {
                            old_px[pixel_offset(W, px, py, B) + c]
                        },
            decreases height - row,
        {
            let mut col: u32 = 0;
            while col < width
                invariant
                    row < height,
                    col <= width,
                    x + width <= sw,
                    y + height <= self.height,
                    sw == self.width,
                    W == sw,
                    H == self.height,
                    B == b,
                    b == bpp(self.format),
                    1 <= b <= 4,
                    self.wf(),
                    self.same_except_pixels(old(self)),
                    self.dirty_rects@ == old(self).dirty_rects@,
                    self.dirty == old(self).dirty,
                    data@.len() == width * height * B,
                    self.pixels@.len() == old_px.len(),
                    old_px == old(self).pixels@,
                    forall|px: int, py: int, c: int| 0 <= px < W && 0 <= py < H && 0 <= c < B ==>
                        #[trigger] self.pixels@[pixel_offset(W, px, py, B) + c] ==
                            if x <= px < x + width && (y <= py < y + row || (py == y + row && px < x + col)) {
                                data@[pixel_offset(width as int, px - x, py - y, B) + c]
                            } else {
                                old_px[pixel_offset(W, px, py, B) + c]
                            },
                decreases width - col,
            {
                let mut ch: usize = 0;
                while ch < b
                    invariant
                        row < height,
                        col < width,
                        ch <= b,
                        x + width <= sw,
                        y + height <= self.height,
                        sw == self.width,
                        W == sw,
                        H == self.height,
                        B == b,
                        b == bpp(self.format),
                        1 <= b <= 4,
                        self.wf(),
                        self.same_except_pixels(old(self)),
                        self.dirty_rects@ == old(self).dirty_rects@,
                        self.dirty == old(self).dirty,
                        data@.len() == width * height * B,
                        self.pixels@.len() == old_px.len(),
                        old_px == old(self).pixels@,
                        forall|px: int, py: int, c: int| 0 <= px < W && 0 <= py < H && 0 <= c < B ==>
                            #[trigger] self.pixels@[pixel_offset(W, px, py, B) + c] ==
                                if x <= px < x + width && (y <= py < y + row || (py == y + row && (px < x + col || (px == x + col && c < ch)))) {
                                    data@[pixel_offset(width as int, px - x, py - y, B) + c]
                                } else {
                                    old_px[pixel_offset(W, px, py, B) + c]
                                },
                    decreases b - ch,
                {
                    proof {
                        lemma_offset_bound(width as int, height as int, col as int, row as int, B);
                        lemma_offset_bound(W, H, (x + col) as int, (y + row) as int, B);
                        assert(row * width + col < 8192 * 8192) by (nonlinear_arith)
                            requires row < height <= 8192, col < width <= 8192;
                        assert((y + row) * sw + (x + col) < 8192 * 8192) by (nonlinear_arith)
                            requires y + row < self.height <= 8192, x + col < sw <= 8192;
                        assert((row * width + col) * b + ch < 8192 * 8192 * 4) by (nonlinear_arith)
                            requires row < height <= 8192, col < width <= 8192, ch < b <= 4;
                        assert(((y + row) * sw + (x + col)) * b + ch < 8192 * 8192 * 4) by (nonlinear_arith)
                            requires y + row < self.height <= 8192, x + col < sw <= 8192, ch < b <= 4;
                    }
                    let src = ((row * width + col) as usize) * b + ch;
                    let dst = (((y + row) * sw + (x + col)) as usize) * b + ch;
                    let ghost dst_i = pixel_offset(W, (x + col) as int, (y + row) as int, B) + ch;
                    assert(dst == dst_i);
                    assert(src == pixel_offset(width as int, col as int, row as int, B) + ch);
                    let v = data[src];
                    let ghost before = self.pixels@;
                    self.pixels.set(dst, v);
                    proof {
                        assert forall|px: int, py: int, c: int| 0 <= px < W && 0 <= py < H && 0 <= c < B implies
                            #[trigger] self.pixels@[pixel_offset(W, px, py, B) + c] ==
                                if x <= px < x + width && (y <= py < y + row || (py == y + row && (px < x + col || (px == x + col && c < ch + 1)))) {
                                    data@[pixel_offset(width as int, px - x, py - y, B) + c]
                                } else {
                                    old_px[pixel_offset(W, px, py, B) + c]
                                } by {
                            lemma_offset_bound(W, H, px, py, B);
                            if pixel_offset(W, px, py, B) + c == dst_i {
                                lemma_offset_injective(W, B, px, py, c, (x + col) as int, (y + row) as int, ch as int);
                            } else {
                                assert(self.pixels@[pixel_offset(W, px, py, B) + c] == before[pixel_offset(W, px, py, B) + c]);
                            }
                        }
                    }
                    ch = ch + 1;
                }
                col = col + 1;
            }
            row = row + 1;
        }
        self.dirty_rects.push(DirtyRect { x, y, width, height });
        self.mark_dirty();
        Ok(())
    }
}

} // verus!
