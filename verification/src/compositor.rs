//! The compositor: a back buffer the size of the screen, damage tracking,
//! and alpha blending of surfaces into the back buffer.
use vstd::prelude::*;
use crate::surface::{Surface, DirtyRect, PixelFormat, bpp, pixel_offset, pixel_color, lemma_offset_bound, lemma_offset_injective};

verus! {

/// A rectangle of the screen that needs redrawing.
#[derive(Clone, Copy)]
pub struct DamageRect {
    pub x: i32,
    pub y: i32,
    pub width: u32,
    pub height: u32,
}

pub open spec fn min_i(a: int, b: int) -> int {
    if a < b {
        a
    } else {
        b
    }
}

pub open spec fn max_i(a: int, b: int) -> int {
    if a > b {
        a
    } else {
        b
    }
}

impl DamageRect {
    /// The rectangle's right and bottom edges fit in `i32`.
    pub open spec fn fits(&self) -> bool {
        &&& self.width <= i32::MAX && self.height <= i32::MAX
        &&& i32::MIN <= self.x + self.width <= i32::MAX
        &&& i32::MIN <= self.y + self.height <= i32::MAX
    }

    pub fn new(x: i32, y: i32, width: u32, height: u32) -> (r: Self)
        ensures
            r == (DamageRect { x, y, width, height }),
    {
        DamageRect { x, y, width, height }
    }

    /// The bounding box of both rectangles.
    pub fn merge(&self, other: &DamageRect) -> (r: DamageRect)
        requires
            self.fits(),
            other.fits(),
            max_i(self.x + self.width, other.x + other.width) - min_i(self.x as int, other.x as int) <= i32::MAX,
            max_i(self.y + self.height, other.y + other.height) - min_i(self.y as int, other.y as int) <= i32::MAX,
        ensures
            r.x == min_i(self.x as int, other.x as int),
            r.y == min_i(self.y as int, other.y as int),
            r.x + r.width == max_i(self.x + self.width, other.x + other.width),
            r.y + r.height == max_i(self.y + self.height, other.y + other.height),
    {
        let x1 = if self.x < other.x { self.x } else { other.x };
        let y1 = if self.y < other.y { self.y } else { other.y };
        let ax = self.x + self.width as i32;
        let bx = other.x + other.width as i32;
        let x2 = if ax > bx { ax } else { bx };
        let ay = self.y + self.height as i32;
        let oy = other.y + other.height as i32;
        let y2 = if ay > oy { ay } else { oy };
        DamageRect { x: x1, y: y1, width: (x2 - x1) as u32, height: (y2 - y1) as u32 }
    }

    /// Whether the rectangles share an interior point.
    pub fn overlaps(&self, other: &DamageRect) -> (r: bool)
        requires
            self.fits(),
            other.fits(),
        ensures
            r == (self.x < other.x + other.width && self.x + self.width > other.x
                && self.y < other.y + other.height && self.y + self.height > other.y),
    {
        self.x < other.x + other.width as i32
            && self.x + self.width as i32 > other.x
            && self.y < other.y + other.height as i32
            && self.y + self.height as i32 > other.y
    }
}

/// The rectangles share an interior point.
pub open spec fn overlap_spec(e: DamageRect, r: DamageRect) -> bool {
    e.x < r.x + r.width && e.x + e.width > r.x && e.y < r.y + r.height && e.y + e.height > r.y
}

/// Porter-Duff "over" of a source pixel with alpha onto an opaque 0xAARRGGBB
/// destination; the result is opaque. Alpha 255 replaces, alpha 0 keeps.
pub open spec fn blend(r: u32, g: u32, b: u32, a: u32, dst: u32) -> u32 {
    if a == 255 {
        0xFF000000u32 | (r << 16u32) | (g << 8u32) | b
    } else if a == 0 {
        dst
    } else {
        let inv = (255 - a) as u32;
        let dr = (dst >> 16u32) & 0xFF;
        let dg = (dst >> 8u32) & 0xFF;
        let db = dst & 0xFF;
        0xFF000000u32 | ((((r * a + dr * inv) / 255) as u32) << 16u32) | ((((g * a + dg * inv) / 255) as u32) << 8u32)
            | (((b * a + db * inv) / 255) as u32)
    }
}

/// The back-buffer colour a surface pixel produces over `dst`.
pub open spec fn surface_pixel_over(f: PixelFormat, px: Seq<u8>, dst: u32) -> u32 {
    match f {
        PixelFormat::RGBA8888 => blend(px[0] as u32, px[1] as u32, px[2] as u32, px[3] as u32, dst),
        PixelFormat::BGRA8888 => blend(px[2] as u32, px[1] as u32, px[0] as u32, px[3] as u32, dst),
        PixelFormat::RGB888 => 0xFF000000u32 | ((px[0] as u32) << 16u32) | ((px[1] as u32) << 8u32) | (px[2] as u32),
    }
}


/// An opaque BGRA8888 pixel stores blue, green, red, alpha: [b, g, r, 255]
/// composites to the colour 0xFFRRGGBB whatever lies below.
pub proof fn lemma_bgra_opaque_pixel(b: u8, g: u8, r: u8, dst: u32)
    ensures
        surface_pixel_over(PixelFormat::BGRA8888, seq![b, g, r, 255u8], dst)
            == 0xFF000000u32 | ((r as u32) << 16u32) | ((g as u32) << 8u32) | (b as u32),
{
}

/// An opaque pixel composites to the colour the surface itself reads for
/// it (`Surface::get_pixel`'s `pixel_color`), without its alpha byte: the
/// compositor and the surface agree on the byte order of every format.
pub proof fn lemma_opaque_pixel_matches_surface(f: PixelFormat, px: Seq<u8>, dst: u32)
    requires
        px.len() == bpp(f),
        f != PixelFormat::RGB888 ==> px[3] == 255,
    ensures
        surface_pixel_over(f, px, dst) == 0xFF000000u32 | if f == PixelFormat::RGB888 {
            pixel_color(f, px)
        } else {
            pixel_color(f, px) >> 8u32
        },
{
    let p0 = px[0];
    let p1 = px[1];
    let p2 = px[2];
    match f {
        PixelFormat::RGBA8888 => {
            let p3 = px[3];
            assert(0xFF000000u32 | ((((p0 as u32) << 24u32) | ((p1 as u32) << 16u32) | ((p2 as u32) << 8u32) | (p3 as u32)) >> 8u32)
                == 0xFF000000u32 | ((p0 as u32) << 16u32) | ((p1 as u32) << 8u32) | (p2 as u32)) by (bit_vector);
        },
        PixelFormat::BGRA8888 => {
            let p3 = px[3];
            assert(0xFF000000u32 | ((((p2 as u32) << 24u32) | ((p1 as u32) << 16u32) | ((p0 as u32) << 8u32) | (p3 as u32)) >> 8u32)
                == 0xFF000000u32 | ((p2 as u32) << 16u32) | ((p1 as u32) << 8u32) | (p0 as u32)) by (bit_vector);
        },
        PixelFormat::RGB888 => {
            assert(0xFF000000u32 | (((p0 as u32) << 16u32) | ((p1 as u32) << 8u32) | (p2 as u32))
                == 0xFF000000u32 | ((p0 as u32) << 16u32) | ((p1 as u32) << 8u32) | (p2 as u32)) by (bit_vector);
        },
    }
}

/// The bytes of surface pixel (lx, ly).
pub open spec fn src_pixel(s: Surface, lx: int, ly: int) -> Seq<u8> {
    let o = pixel_offset(s.width as int, lx, ly, bpp(s.format) as int);
    s.pixels@.subrange(o, o + bpp(s.format))
}

/// Screen pixel (px, py) after drawing rectangle `r` of surface `s`.
pub open spec fn blit_pixel(buf: Seq<u32>, w: int, s: Surface, r: DirtyRect, px: int, py: int) -> u32 {
    let lx = px - s.x;
    let ly = py - s.y;
    if r.x <= lx < r.x + r.width && r.y <= ly < r.y + r.height {
        surface_pixel_over(s.format, src_pixel(s, lx, ly), buf[py * w + px])
    } else {
        buf[py * w + px]
    }
}

/// The back buffer after drawing rectangle `r` of surface `s`.
pub open spec fn blit_rect(buf: Seq<u32>, w: int, s: Surface, r: DirtyRect) -> Seq<u32> {
    Seq::new(buf.len(), |k: int| blit_pixel(buf, w, s, r, k % w, k / w))
}

/// The back buffer after drawing the given rectangles in order.
pub open spec fn blit_all(buf: Seq<u32>, w: int, s: Surface, rs: Seq<DirtyRect>) -> Seq<u32>
    decreases rs.len(),
{
    if rs.len() == 0 {
        buf
    } else {
        blit_rect(blit_all(buf, w, s, rs.drop_last()), w, s, rs.last())
    }
}

/// The back buffer after compositing a surface: nothing when it is hidden,
/// its dirty rectangles when it has any, else all of it.
pub open spec fn composite_spec(buf: Seq<u32>, w: int, s: Surface) -> Seq<u32> {
    if !s.visible {
        buf
    } else if s.dirty_rects@.len() > 0 {
        blit_all(buf, w, s, s.dirty_rects@)
    } else {
        blit_rect(buf, w, s, DirtyRect { x: 0, y: 0, width: s.width, height: s.height })
    }
}

/// A rectangle lies inside the surface.
pub open spec fn rect_inside(s: Surface, r: DirtyRect) -> bool {
    r.x + r.width <= s.width && r.y + r.height <= s.height
}


/// Rows of a damage rectangle to copy to the screen: (source offset,
/// destination offset, length) for each visible row.
pub open spec fn rect_spans(r: DamageRect, w: int, h: int, pitch: int) -> Seq<(usize, usize, usize)> {
    let sy = max_i(r.y as int, 0);
    let ey = min_i(r.y + r.height, h);
    let sx = max_i(r.x as int, 0);
    let ex = min_i(r.x + r.width, w);
    if sy < ey {
        Seq::new((ey - sy) as nat, |i: int| (((sy + i) * w + sx) as usize, ((sy + i) * pitch + sx) as usize, (ex - sx) as usize))
    } else {
        Seq::empty()
    }
}

/// The rows of all damage rectangles, in order.
pub open spec fn damage_spans(rs: Seq<DamageRect>, w: int, h: int, pitch: int) -> Seq<(usize, usize, usize)>
    decreases rs.len(),
{
    if rs.len() == 0 {
        Seq::empty()
    } else {
        damage_spans(rs.drop_last(), w, h, pitch) + rect_spans(rs.last(), w, h, pitch)
    }
}

/// Every row of a full frame.
pub open spec fn full_spans(w: int, h: int, pitch: int) -> Seq<(usize, usize, usize)> {
    Seq::new(h as nat, |y: int| ((y * w) as usize, (y * pitch) as usize, w as usize))
}

/// A damage rectangle whose visible rows can be copied: it does not end
/// above or left of the screen, and it does not start right of the screen.
pub open spec fn copyable(r: DamageRect, w: int, h: int) -> bool {
    &&& r.fits()
    &&& r.x + r.width >= 0
    &&& r.y + r.height >= 0
    &&& max_i(r.y as int, 0) < min_i(r.y + r.height, h) ==> max_i(r.x as int, 0) <= min_i(r.x + r.width, w)
}

/// The compositor.
pub struct Compositor {
    pub width: usize,
    pub height: usize,
    pub pitch: usize,
    pub back_buffer: Vec<u32>,
    pub damage_rects: Vec<DamageRect>,
    pub full_redraw: bool,
    pub frame_count: u64,
    pub surface_count: usize,
    pub pixels_composited: u64,
    pub blend_operations: u64,
}

impl Compositor {
    pub open spec fn wf(&self) -> bool {
        &&& self.back_buffer@.len() == self.width * self.height
        &&& self.width <= 8192 && self.height <= 8192
        &&& forall|i: int| 0 <= i < self.damage_rects@.len() ==> (#[trigger] self.damage_rects@[i]).fits()
    }

    /// A black back buffer of `width`×`height`; `pitch` is in bytes.
    pub fn new(width: usize, height: usize, pitch: usize) -> (c: Self)
        requires
            width <= 8192,
            height <= 8192,
        ensures
            c.wf(),
            c.width == width && c.height == height && c.pitch == pitch / 4,
            forall|i: int| 0 <= i < c.back_buffer@.len() ==> c.back_buffer@[i] == 0,
            c.damage_rects@.len() == 0,
            c.full_redraw,
            c.frame_count == 0 && c.surface_count == 0 && c.pixels_composited == 0 && c.blend_operations == 0,
    {
        assert(width * height <= 8192 * 8192) by (nonlinear_arith) requires width <= 8192, height <= 8192;
        let n = width * height;
        let mut back: Vec<u32> = Vec::new();
        let mut i: usize = 0;
        while i < n
            invariant
                i <= n,
                back@.len() == i,
                forall|k: int| 0 <= k < i ==> back@[k] == 0,
            decreases n - i,
        {
            back.push(0u32);
            i = i + 1;
        }
        Compositor {
            width,
            height,
            pitch: pitch / 4,
            back_buffer: back,
            damage_rects: Vec::new(),
            full_redraw: true,
            frame_count: 0,
            surface_count: 0,
            pixels_composited: 0,
            blend_operations: 0,
        }
    }

    /// Adds a damage rectangle, merging it into the first existing one it
    /// overlaps.
    pub fn add_damage(&mut self, rect: DamageRect)
        requires
            old(self).wf(),
            rect.fits(),
            forall|i: int| 0 <= i < old(self).damage_rects@.len() ==> {
                let e = #[trigger] old(self).damage_rects@[i];
                &&& max_i(e.x + e.width, rect.x + rect.width) - min_i(e.x as int, rect.x as int) <= i32::MAX
                &&& max_i(e.y + e.height, rect.y + rect.height) - min_i(e.y as int, rect.y as int) <= i32::MAX
            },
        ensures
            final(self).wf(),
            final(self).back_buffer@ == old(self).back_buffer@,
            final(self).width == old(self).width && final(self).height == old(self).height,
            final(self).full_redraw == old(self).full_redraw,
            ({
                let ds = old(self).damage_rects@;
                if exists|i: int| 0 <= i < ds.len() && overlap_spec(ds[i], rect) {
                    exists|i: int| 0 <= i < ds.len() && overlap_spec(ds[i], rect) && (forall|j: int| 0 <= j < i ==> !overlap_spec(ds[j], rect))
                        && final(self).damage_rects@.len() == ds.len()
                        && (forall|j: int| 0 <= j < ds.len() && j != i ==> final(self).damage_rects@[j] == ds[j])
                        && final(self).damage_rects@[i].x == min_i(ds[i].x as int, rect.x as int)
                        && final(self).damage_rects@[i].y == min_i(ds[i].y as int, rect.y as int)
                        && final(self).damage_rects@[i].x + final(self).damage_rects@[i].width == max_i(ds[i].x + ds[i].width, rect.x + rect.width)
                        && final(self).damage_rects@[i].y + final(self).damage_rects@[i].height == max_i(ds[i].y + ds[i].height, rect.y + rect.height)
                } else {
                    final(self).damage_rects@ == ds.push(rect)
                }
            }),
    {
        let ghost ds = self.damage_rects@;
        let mut found: Option<usize> = None;
        let mut i: usize = 0;
        while i < self.damage_rects.len()
            invariant_except_break
                found is None,
            invariant
                i <= ds.len(),
                self.damage_rects@ == ds,
                rect.fits(),
                forall|j: int| 0 <= j < ds.len() ==> (#[trigger] ds[j]).fits(),
                forall|j: int| 0 <= j < i ==> !overlap_spec(ds[j], rect),
                found matches Some(k) ==> k < ds.len() && overlap_spec(ds[k as int], rect) && forall|j: int| 0 <= j < k ==> !overlap_spec(ds[j], rect),
            ensures
                found is None ==> forall|j: int| 0 <= j < ds.len() ==> !overlap_spec(ds[j], rect),
            decreases ds.len() - i,
        {
            if self.damage_rects[i].overlaps(&rect) {
                assert(overlap_spec(ds[i as int], rect));
                found = Some(i);
                break;
            }
            i = i + 1;
        }
        match found {
            Some(k) => {
                let e = self.damage_rects[k];
                let m = e.merge(&rect);
                self.damage_rects.set(k, m);
                proof {
                    assert forall|j: int| 0 <= j < self.damage_rects@.len() implies (#[trigger] self.damage_rects@[j]).fits() by {
                        if j != k {
                            assert(self.damage_rects@[j] == ds[j]);
                        }
                    }
                }
            },
            None => {
                self.damage_rects.push(rect);
                proof {
                    assert forall|j: int| 0 <= j < self.damage_rects@.len() implies (#[trigger] self.damage_rects@[j]).fits() by {
                        if j < ds.len() {
                            assert(self.damage_rects@[j] == ds[j]);
                        }
                    }
                }
            },
        }
    }

    /// Asks for a full redraw; individual damage is dropped.
    pub fn mark_full_redraw(&mut self)
        requires
            old(self).wf(),
        ensures
            final(self).wf(),
            final(self).full_redraw,
            final(self).damage_rects@.len() == 0,
            final(self).back_buffer@ == old(self).back_buffer@,
            final(self).width == old(self).width && final(self).height == old(self).height,
    {
        self.full_redraw = true;
        self.damage_rects.clear();
    }

    /// Starts a frame: on a full redraw the back buffer is filled with opaque
    /// black; the per-frame counters are reset.
    pub fn begin_frame(&mut self)
        requires
            old(self).wf(),
        ensures
            final(self).wf(),
            final(self).surface_count == 0 && final(self).pixels_composited == 0,
            final(self).width == old(self).width && final(self).height == old(self).height,
            final(self).full_redraw == old(self).full_redraw,
            final(self).damage_rects@ == old(self).damage_rects@,
            final(self).frame_count == old(self).frame_count && final(self).pitch == old(self).pitch,
            old(self).full_redraw ==> forall|i: int| 0 <= i < final(self).back_buffer@.len() ==> final(self).back_buffer@[i] == 0xFF000000u32,
            !old(self).full_redraw ==> final(self).back_buffer@ == old(self).back_buffer@,
    {
        if self.full_redraw {
            self.fill_back(0xFF000000);
        }
        self.surface_count = 0;
        self.pixels_composited = 0;
    }

    fn fill_back(&mut self, color: u32)
        requires
            old(self).wf(),
        ensures
            final(self).wf(),
            forall|i: int| 0 <= i < final(self).back_buffer@.len() ==> final(self).back_buffer@[i] == color,
            final(self).back_buffer@.len() == old(self).back_buffer@.len(),
            *final(self) == (Compositor { back_buffer: final(self).back_buffer, ..*old(self) }),
    {
        let n = self.back_buffer.len();
        let mut i: usize = 0;
        while i < n
            invariant
                i <= n == self.back_buffer@.len(),
                *self == (Compositor { back_buffer: self.back_buffer, ..*old(self) }),
                self.back_buffer@.len() == old(self).back_buffer@.len(),
                forall|k: int| 0 <= k < i ==> self.back_buffer@[k] == color,
            decreases n - i,
        {
            self.back_buffer.set(i, color);
            i = i + 1;
        }
    }

    /// Fills the back buffer with `color` and asks for a full redraw.
    pub fn clear(&mut self, color: u32)
        requires
            old(self).wf(),
        ensures
            final(self).wf(),
            final(self).full_redraw,
            forall|i: int| 0 <= i < final(self).back_buffer@.len() ==> final(self).back_buffer@[i] == color,
            final(self).width == old(self).width && final(self).height == old(self).height,
            final(self).damage_rects@ == old(self).damage_rects@,
    {
        self.fill_back(color);
        self.full_redraw = true;
    }

    /// Alpha blending (Porter-Duff over).
    pub fn blend_pixel(&self, src_r: u32, src_g: u32, src_b: u32, src_a: u32, dst: u32) -> (c: u32)
        requires
            src_r <= 255 && src_g <= 255 && src_b <= 255 && src_a <= 255,
        ensures
            c == blend(src_r, src_g, src_b, src_a, dst),
    {
        if src_a == 255 {
            return 0xFF000000u32 | (src_r << 16u32) | (src_g << 8u32) | src_b;
        }
        if src_a == 0 {
            return dst;
        }
        let dst_r = (dst >> 16u32) & 0xFF;
        let dst_g = (dst >> 8u32) & 0xFF;
        let dst_b = dst & 0xFF;
        assert(dst_r <= 255 && dst_g <= 255 && dst_b <= 255) by (bit_vector)
            requires dst_r == (dst >> 16u32) & 0xFF, dst_g == (dst >> 8u32) & 0xFF, dst_b == dst & 0xFF;
        let inv_alpha = 255 - src_a;
        assert(src_r * src_a + dst_r * inv_alpha <= 255 * 255 + 255 * 255) by (nonlinear_arith)
            requires src_r <= 255, src_a <= 255, dst_r <= 255, inv_alpha <= 255;
        assert(src_g * src_a + dst_g * inv_alpha <= 255 * 255 + 255 * 255) by (nonlinear_arith)
            requires src_g <= 255, src_a <= 255, dst_g <= 255, inv_alpha <= 255;
        assert(src_b * src_a + dst_b * inv_alpha <= 255 * 255 + 255 * 255) by (nonlinear_arith)
            requires src_b <= 255, src_a <= 255, dst_b <= 255, inv_alpha <= 255;
        let out_r = (src_r * src_a + dst_r * inv_alpha) / 255;
        let out_g = (src_g * src_a + dst_g * inv_alpha) / 255;
        let out_b = (src_b * src_a + dst_b * inv_alpha) / 255;
        0xFF000000u32 | (out_r << 16u32) | (out_g << 8u32) | out_b
    }

    /// Fills the on-screen part of a rectangle with `color`.
    pub fn fill_rect(&mut self, x: i32, y: i32, width: u32, height: u32, color: u32)
        requires
            old(self).wf(),
            x + width <= i32::MAX,
            y + height <= i32::MAX,
        ensures
            final(self).wf(),
            final(self).width == old(self).width && final(self).height == old(self).height,
            final(self).damage_rects@ == old(self).damage_rects@,
            final(self).full_redraw == old(self).full_redraw,
            final(self).back_buffer@.len() == old(self).back_buffer@.len(),
            forall|sx: int, sy: int| 0 <= sx < old(self).width && 0 <= sy < old(self).height ==>
                #[trigger] final(self).back_buffer@[sy * old(self).width + sx] ==
                    if x <= sx < x + width && y <= sy < y + height { color } else { old(self).back_buffer@[sy * old(self).width + sx] },
    {
        let ghost W = self.width as int;
        let ghost H = self.height as int;
        let ghost ob = self.back_buffer@;
        let w = self.width;
        let h = self.height;
        let mut dy: u32 = 0;
        while dy < height
            invariant
                dy <= height,
                self.wf(),
                W == self.width == w,
                H == self.height == h,
                y + height <= i32::MAX,
                x + width <= i32::MAX,
                ob == old(self).back_buffer@,
                self.damage_rects@ == old(self).damage_rects@,
                self.full_redraw == old(self).full_redraw,
                self.back_buffer@.len() == ob.len(),
                forall|sx: int, sy: int| 0 <= sx < W && 0 <= sy < H ==>
                    #[trigger] self.back_buffer@[sy * W + sx] ==
                        if x <= sx < x + width && y <= sy < y + dy { color } else { ob[sy * W + sx] },
            decreases height - dy,
        {
            let sy = y as i64 + dy as i64;
            let mut dx: u32 = 0;
            while dx < width
                invariant
                    dx <= width,
                    dy < height,
                    sy == y + dy,
                    self.wf(),
                    W == self.width == w,
                    H == self.height == h,
                    x + width <= i32::MAX,
                    ob == old(self).back_buffer@,
                    self.damage_rects@ == old(self).damage_rects@,
                    self.full_redraw == old(self).full_redraw,
                    self.back_buffer@.len() == ob.len(),
                    forall|sx: int, qy: int| 0 <= sx < W && 0 <= qy < H ==>
                        #[trigger] self.back_buffer@[qy * W + sx] ==
                            if x <= sx < x + width && (y <= qy < y + dy || (qy == sy && sx < x + dx)) { color } else { ob[qy * W + sx] },
                decreases width - dx,
            {
                let sx = x as i64 + dx as i64;
                if sy >= 0 && sy < h as i64 && sx >= 0 && sx < w as i64 {
                    proof {
                        lemma_offset_bound(W, H, sx as int, sy as int, 1);
                        assert(sy * w + sx < 8192 * 8192) by (nonlinear_arith)
                            requires 0 <= sy < h <= 8192, 0 <= sx < w <= 8192;
                    }
                    let off = (sy as usize) * w + (sx as usize);
                    let ghost before = self.back_buffer@;
                    self.back_buffer.set(off, color);
                    proof {
                        assert forall|px: int, qy: int| 0 <= px < W && 0 <= qy < H implies
                            #[trigger] self.back_buffer@[qy * W + px] ==
                                if x <= px < x + width && (y <= qy < y + dy || (qy == sy && px < x + dx + 1)) { color } else { ob[qy * W + px] } by {
                            lemma_offset_bound(W, H, px, qy, 1);
                            if qy * W + px == off {
                                lemma_offset_injective(W, 1, px, qy, 0, sx as int, sy as int, 0);
                            }
                        }
                    }
                } else {
                    proof {
                        assert forall|px: int, qy: int| 0 <= px < W && 0 <= qy < H implies
                            #[trigger] self.back_buffer@[qy * W + px] ==
                                if x <= px < x + width && (y <= qy < y + dy || (qy == sy && px < x + dx + 1)) { color } else { ob[qy * W + px] } by {
                        }
                    }
                }
                dx = dx + 1;
            }
            dy = dy + 1;
        }
    }
    fn src_color(s: &Surface, lx: u32, ly: u32, dst: u32) -> (c: u32)
        requires
            s.wf(),
            lx < s.width,
            ly < s.height,
        ensures
            c == surface_pixel_over(s.format, src_pixel(*s, lx as int, ly as int), dst),
    {
        let b = s.format.bytes_per_pixel();
        proof {
            lemma_offset_bound(s.width as int, s.height as int, lx as int, ly as int, b as int);
            assert(ly * s.width + lx < 8192 * 8192) by (nonlinear_arith)
                requires ly < s.height <= 8192, lx < s.width <= 8192;
            assert((ly * s.width + lx) * b < 8192 * 8192 * 4) by (nonlinear_arith)
                requires ly * s.width + lx < 8192 * 8192, b <= 4;
        }
        let o = ((ly * s.width + lx) as usize) * b;
        let ghost px = src_pixel(*s, lx as int, ly as int);
        match s.format {
            PixelFormat::RGBA8888 => {
                assert(px[0] == s.pixels@[o as int] && px[1] == s.pixels@[o + 1] && px[2] == s.pixels@[o + 2] && px[3] == s.pixels@[o + 3]);
                let r = s.pixels[o] as u32;
                let g = s.pixels[o + 1] as u32;
                let bl = s.pixels[o + 2] as u32;
                let a = s.pixels[o + 3] as u32;
                Self::blend_static(r, g, bl, a, dst)
            },
            PixelFormat::BGRA8888 => {
                assert(px[0] == s.pixels@[o as int] && px[1] == s.pixels@[o + 1] && px[2] == s.pixels@[o + 2] && px[3] == s.pixels@[o + 3]);
                let bl = s.pixels[o] as u32;
                let g = s.pixels[o + 1] as u32;
                let r = s.pixels[o + 2] as u32;
                let a = s.pixels[o + 3] as u32;
                Self::blend_static(r, g, bl, a, dst)
            },
            PixelFormat::RGB888 => {
                assert(px[0] == s.pixels@[o as int] && px[1] == s.pixels@[o + 1] && px[2] == s.pixels@[o + 2]);
                let r = s.pixels[o] as u32;
                let g = s.pixels[o + 1] as u32;
                let bl = s.pixels[o + 2] as u32;
                0xFF000000u32 | (r << 16u32) | (g << 8u32) | bl
            },
        }
    }

    fn blend_static(r: u32, g: u32, b: u32, a: u32, dst: u32) -> (c: u32)
        requires
            r <= 255 && g <= 255 && b <= 255 && a <= 255,
        ensures
            c == blend(r, g, b, a, dst),
    {
        if a == 255 {
            return 0xFF000000u32 | (r << 16u32) | (g << 8u32) | b;
        }
        if a == 0 {
            return dst;
        }
        let dr = (dst >> 16u32) & 0xFF;
        let dg = (dst >> 8u32) & 0xFF;
        let db = dst & 0xFF;
        assert(dr <= 255 && dg <= 255 && db <= 255) by (bit_vector)
            requires dr == (dst >> 16u32) & 0xFF, dg == (dst >> 8u32) & 0xFF, db == dst & 0xFF;
        let inv = 255 - a;
        assert(r * a + dr * inv <= 255 * 255 + 255 * 255) by (nonlinear_arith) requires r <= 255, a <= 255, dr <= 255, inv <= 255;
        assert(g * a + dg * inv <= 255 * 255 + 255 * 255) by (nonlinear_arith) requires g <= 255, a <= 255, dg <= 255, inv <= 255;
        assert(b * a + db * inv <= 255 * 255 + 255 * 255) by (nonlinear_arith) requires b <= 255, a <= 255, db <= 255, inv <= 255;
        0xFF000000u32 | (((r * a + dr * inv) / 255) << 16u32) | (((g * a + dg * inv) / 255) << 8u32) | ((b * a + db * inv) / 255)
    }

    /// Draws rectangle `r` (in surface coordinates) of `s` at the surface's
    /// position, clipped to the screen.
    fn blit(&mut self, s: &Surface, r: DirtyRect)
        requires
            old(self).wf(),
            s.wf(),
            rect_inside(*s, r),
        ensures
            final(self).wf(),
            final(self).width == old(self).width && final(self).height == old(self).height,
            final(self).damage_rects@ == old(self).damage_rects@,
            final(self).full_redraw == old(self).full_redraw,
            final(self).frame_count == old(self).frame_count,
            final(self).surface_count == old(self).surface_count,
            final(self).pitch == old(self).pitch,
            final(self).back_buffer@ == blit_rect(old(self).back_buffer@, old(self).width as int, *s, r),
    {
        let ghost W = self.width as int;
        let ghost H = self.height as int;
        let ghost ob = self.back_buffer@;
        let w = self.width;
        let h = self.height;
        let mut ly: u32 = r.y;
        while ly < r.y + r.height
            invariant
                r.y <= ly <= r.y + r.height,
                rect_inside(*s, r),
                s.wf(),
                self.wf(),
                W == self.width == w,
                H == self.height == h,
                ob == old(self).back_buffer@,
                self.damage_rects@ == old(self).damage_rects@,
                self.full_redraw == old(self).full_redraw,
                self.frame_count == old(self).frame_count,
                self.surface_count == old(self).surface_count,
                self.pitch == old(self).pitch,
                self.back_buffer@.len() == ob.len(),
                forall|px: int, py: int| 0 <= px < W && 0 <= py < H ==>
                    #[trigger] self.back_buffer@[py * W + px] ==
                        if py - s.y < ly { blit_pixel(ob, W, *s, r, px, py) } else { ob[py * W + px] },
            decreases r.y + r.height - ly,
        {
            let py = s.y as i64 + ly as i64;
            let mut lx: u32 = r.x;
            while lx < r.x + r.width
                invariant
                    r.x <= lx <= r.x + r.width,
                    r.y <= ly < r.y + r.height,
                    py == s.y + ly,
                    rect_inside(*s, r),
                    s.wf(),
                    self.wf(),
                    W == self.width == w,
                    H == self.height == h,
                    ob == old(self).back_buffer@,
                    self.damage_rects@ == old(self).damage_rects@,
                    self.full_redraw == old(self).full_redraw,
                    self.frame_count == old(self).frame_count,
                    self.surface_count == old(self).surface_count,
                    self.pitch == old(self).pitch,
                    self.back_buffer@.len() == ob.len(),
                    forall|qx: int, qy: int| 0 <= qx < W && 0 <= qy < H ==>
                        #[trigger] self.back_buffer@[qy * W + qx] ==
                            if qy - s.y < ly || (qy == py && qx - s.x < lx) { blit_pixel(ob, W, *s, r, qx, qy) } else { ob[qy * W + qx] },
                decreases r.x + r.width - lx,
            {
                let px = s.x as i64 + lx as i64;
                if py >= 0 && py < h as i64 && px >= 0 && px < w as i64 {
                    proof {
                        lemma_offset_bound(W, H, px as int, py as int, 1);
                        assert(py * w + px < 8192 * 8192) by (nonlinear_arith)
                            requires 0 <= py < h <= 8192, 0 <= px < w <= 8192;
                    }
                    let off = (py as usize) * w + (px as usize);
                    let dst = self.back_buffer[off];
                    let c = Self::src_color(s, lx, ly, dst);
                    let ghost before = self.back_buffer@;
                    self.back_buffer.set(off, c);
                    proof {
                        assert(dst == ob[py * W + px]);
                        assert forall|qx: int, qy: int| 0 <= qx < W && 0 <= qy < H implies
                            #[trigger] self.back_buffer@[qy * W + qx] ==
                                if qy - s.y < ly || (qy == py && qx - s.x < lx + 1) { blit_pixel(ob, W, *s, r, qx, qy) } else { ob[qy * W + qx] } by {
                            lemma_offset_bound(W, H, qx, qy, 1);
                            if qy * W + qx == off {
                                lemma_offset_injective(W, 1, qx, qy, 0, px as int, py as int, 0);
                            } else {
                                assert(self.back_buffer@[qy * W + qx] == before[qy * W + qx]);
                                if qy == py && qx - s.x == lx {
                                    lemma_offset_injective(W, 1, qx, qy, 0, px as int, py as int, 0);
                                }
                            }
                        }
                    }
                } else {
                    proof {
                        assert forall|qx: int, qy: int| 0 <= qx < W && 0 <= qy < H implies
                            #[trigger] self.back_buffer@[qy * W + qx] ==
                                if qy - s.y < ly || (qy == py && qx - s.x < lx + 1) { blit_pixel(ob, W, *s, r, qx, qy) } else { ob[qy * W + qx] } by {
                            if qy == py && qx - s.x == lx {
                                assert(false);
                            }
                        }
                    }
                }
                lx = lx + 1;
            }
            proof {
                assert forall|qx: int, qy: int| 0 <= qx < W && 0 <= qy < H implies
                    #[trigger] self.back_buffer@[qy * W + qx] ==
                        if qy - s.y < ly + 1 { blit_pixel(ob, W, *s, r, qx, qy) } else { ob[qy * W + qx] } by {
                    if qy == py && !(qx - s.x < lx) {
                        assert(!(r.x <= qx - s.x < r.x + r.width));
                    }
                    if qy == py && qx - s.x < r.x {
                    }
                }
            }
            ly = ly + 1;
        }
        proof {
            assert forall|k: int| 0 <= k < ob.len() implies #[trigger] self.back_buffer@[k] == blit_rect(ob, W, *s, r)[k] by {
                let qx = k % W;
                let qy = k / W;
                vstd::arithmetic::div_mod::lemma_fundamental_div_mod(k, W);
                assert(0 <= qx < W) by { vstd::arithmetic::div_mod::lemma_mod_bound(k, W); }
                assert(0 <= qy < H) by {
                    vstd::arithmetic::div_mod::lemma_div_pos_is_pos(k, W);
                    if qy >= H {
                        assert(W * qy >= W * H) by (nonlinear_arith) requires qy >= H, W >= 1;
                    }
                }
                assert(k == qy * W + qx) by (nonlinear_arith) requires k == W * qy + qx;
                if qy - s.y < ly {
                } else {
                    assert(!(r.y <= qy - s.y < r.y + r.height));
                }
            }
            assert(self.back_buffer@ =~= blit_rect(ob, W, *s, r));
        }
    }
    /// Ends a frame: returns the (back-buffer offset, screen offset in
    /// pixels, length) runs to copy to the screen (every row on a full
    /// redraw, else the visible rows of each damage rectangle), then clears
    /// the damage and counts the frame.
    pub fn end_frame(&mut self) -> (spans: Vec<(usize, usize, usize)>)
        requires
            old(self).wf(),
            old(self).frame_count < u64::MAX,
            old(self).pitch <= 8192,
            forall|i: int| 0 <= i < old(self).damage_rects@.len() ==>
                copyable(#[trigger] old(self).damage_rects@[i], old(self).width as int, old(self).height as int),
        ensures
            final(self).wf(),
            spans@ == if old(self).full_redraw {
                full_spans(old(self).width as int, old(self).height as int, old(self).pitch as int)
            } else {
                damage_spans(old(self).damage_rects@, old(self).width as int, old(self).height as int, old(self).pitch as int)
            },
            final(self).damage_rects@.len() == 0,
            !final(self).full_redraw,
            final(self).frame_count == old(self).frame_count + 1,
            final(self).back_buffer@ == old(self).back_buffer@,
            final(self).width == old(self).width && final(self).height == old(self).height && final(self).pitch == old(self).pitch,
    {
        let mut spans: Vec<(usize, usize, usize)> = Vec::new();
        let w = self.width;
        let h = self.height;
        let pitch = self.pitch;
        if self.full_redraw {
            let mut y: usize = 0;
            while y < h
                invariant
                    y <= h <= 8192,
                    w <= 8192,
                    pitch <= 8192,
                    spans@ == full_spans(w as int, h as int, pitch as int).subrange(0, y as int),
                decreases h - y,
            {
                assert(y * w <= 8192 * 8192 && y * pitch <= 8192 * 8192) by (nonlinear_arith)
                    requires y <= 8192, w <= 8192, pitch <= 8192;
                spans.push((y * w, y * pitch, w));
                y = y + 1;
                assert(spans@ =~= full_spans(w as int, h as int, pitch as int).subrange(0, y as int));
            }
            assert(full_spans(w as int, h as int, pitch as int).subrange(0, y as int) =~= full_spans(w as int, h as int, pitch as int));
        } else {
            let ghost rs = self.damage_rects@;
            let mut k: usize = 0;
            assert(rs.subrange(0, 0) =~= Seq::<DamageRect>::empty());
            while k < self.damage_rects.len()
                invariant
                    k <= rs.len(),
                    rs == self.damage_rects@,
                    w == self.width <= 8192,
                    h == self.height <= 8192,
                    pitch <= 8192,
                    forall|i: int| 0 <= i < rs.len() ==> copyable(#[trigger] rs[i], w as int, h as int),
                    spans@ == damage_spans(rs.subrange(0, k as int), w as int, h as int, pitch as int),
                decreases rs.len() - k,
            {
                let r = self.damage_rects[k];
                assert(copyable(rs[k as int], w as int, h as int));
                let sy: i64 = if r.y > 0 { r.y as i64 } else { 0 };
                let ey0: i64 = r.y as i64 + r.height as i64;
                let ey: i64 = if ey0 < h as i64 { ey0 } else { h as i64 };
                let sx: i64 = if r.x > 0 { r.x as i64 } else { 0 };
                let ex0: i64 = r.x as i64 + r.width as i64;
                let ex: i64 = if ex0 < w as i64 { ex0 } else { w as i64 };
                let ghost base = spans@;
                let ghost rsp = rect_spans(r, w as int, h as int, pitch as int);
                let mut y: i64 = sy;
                while y < ey
                    invariant
                        0 <= sy <= y,
                        sy < ey ==> y <= ey,
                        sy >= ey ==> y == sy,
                        ey <= h <= 8192,
                        sy < ey ==> 0 <= sx <= ex <= w <= 8192,
                        pitch <= 8192,
                        sy == max_i(r.y as int, 0),
                        ey == min_i(r.y + r.height, h as int),
                        sx == max_i(r.x as int, 0),
                        ex == min_i(r.x + r.width, w as int),
                        rsp == rect_spans(r, w as int, h as int, pitch as int),
                        spans@ == base + rsp.subrange(0, y - sy),
                    decreases ey - y,
                {
                    assert(y * w + sx <= 8192 * 8192 + 8192 && y * pitch + sx <= 8192 * 8192 + 8192) by (nonlinear_arith)
                        requires 0 <= y < 8192, w <= 8192, pitch <= 8192, 0 <= sx <= 8192;
                    let yu = y as usize;
                    let sxu = sx as usize;
                    spans.push((yu * w + sxu, yu * pitch + sxu, (ex - sx) as usize));
                    y = y + 1;
                    assert(spans@ =~= base + rsp.subrange(0, y - sy));
                }
                proof {
                    if sy < ey {
                        assert(rsp.subrange(0, y - sy) =~= rsp);
                    } else {
                        assert(rsp =~= Seq::<(usize, usize, usize)>::empty());
                        assert(y == sy);
                        assert(rsp.subrange(0, 0) =~= Seq::<(usize, usize, usize)>::empty());
                        assert(spans@ =~= base + rsp);
                    }
                    assert(rs.subrange(0, k + 1).drop_last() =~= rs.subrange(0, k as int));
                }
                k = k + 1;
            }
            assert(rs.subrange(0, k as int) =~= rs);
        }
        self.damage_rects.clear();
        self.full_redraw = false;
        self.frame_count = self.frame_count + 1;
        spans
    }

    /// Composites a visible surface into the back buffer: its dirty
    /// rectangles in order when it has any, else the whole surface.
    pub fn composite_surface(&mut self, surface: &Surface)
        requires
            old(self).wf(),
            surface.wf(),
            old(self).surface_count < usize::MAX,
            forall|i: int| 0 <= i < surface.dirty_rects@.len() ==> rect_inside(*surface, #[trigger] surface.dirty_rects@[i]),
        ensures
            final(self).wf(),
            final(self).back_buffer@ == composite_spec(old(self).back_buffer@, old(self).width as int, *surface),
            final(self).surface_count == if surface.visible { old(self).surface_count + 1 } else { old(self).surface_count as int },
            final(self).width == old(self).width && final(self).height == old(self).height && final(self).pitch == old(self).pitch,
            final(self).damage_rects@ == old(self).damage_rects@,
            final(self).full_redraw == old(self).full_redraw,
            final(self).frame_count == old(self).frame_count,
    {
        if !surface.visible {
            return;
        }
        self.surface_count = self.surface_count + 1;
        let n = surface.dirty_rects.len();
        if n > 0 {
            let ghost rs = surface.dirty_rects@;
            let ghost b0 = self.back_buffer@;
            let mut i: usize = 0;
            assert(rs.subrange(0, 0) =~= Seq::<DirtyRect>::empty());
            while i < n
                invariant
                    i <= n == rs.len(),
                    rs == surface.dirty_rects@,
                    surface.wf(),
                    self.wf(),
                    forall|j: int| 0 <= j < rs.len() ==> rect_inside(*surface, #[trigger] rs[j]),
                    self.width == old(self).width && self.height == old(self).height && self.pitch == old(self).pitch,
                    self.damage_rects@ == old(self).damage_rects@,
                    self.full_redraw == old(self).full_redraw,
                    self.frame_count == old(self).frame_count,
                    self.surface_count == old(self).surface_count + 1,
                    b0 == old(self).back_buffer@,
                    self.back_buffer@ == blit_all(b0, self.width as int, *surface, rs.subrange(0, i as int)),
                decreases n - i,
            {
                let r = surface.dirty_rects[i];
                assert(rect_inside(*surface, rs[i as int]));
                self.blit(surface, r);
                assert(rs.subrange(0, i + 1).drop_last() =~= rs.subrange(0, i as int));
                i = i + 1;
            }
            assert(rs.subrange(0, i as int) =~= rs);
        } else {
            let r = DirtyRect { x: 0, y: 0, width: surface.width, height: surface.height };
            self.blit(surface, r);
        }
    }
}

} // verus!
