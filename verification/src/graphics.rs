//! The graphics server: owns the surfaces and the compositor, and composes
//! frames in z-order.
use vstd::prelude::*;
use crate::surface::{Surface, DirtyRect};
use crate::compositor::{Compositor, composite_spec, rect_inside, full_spans, damage_spans, copyable};

verus! {

/// Inserts `x` after the last element whose z-order is at most its own.
pub open spec fn insert_by_z(sorted: Seq<Surface>, x: Surface) -> Seq<Surface>
    decreases sorted.len(),
{
    if sorted.len() == 0 {
        seq![x]
    } else if sorted.last().z_order <= x.z_order {
        sorted.push(x)
    } else {
        insert_by_z(sorted.drop_last(), x).push(sorted.last())
    }
}

/// Stable sort by z-order.
pub open spec fn sort_by_z(s: Seq<Surface>) -> Seq<Surface>
    decreases s.len(),
{
    if s.len() == 0 {
        s
    } else {
        insert_by_z(sort_by_z(s.drop_last()), s.last())
    }
}

/// A well-formed surface whose dirty rectangles lie inside it.
pub open spec fn surface_ok(s: Surface) -> bool {
    &&& s.wf()
    &&& forall|i: int| 0 <= i < s.dirty_rects@.len() ==> rect_inside(s, #[trigger] s.dirty_rects@[i])
}

/// `a` is surface `b` after a frame: a drawn surface is clean with no dirty
/// rectangles and otherwise unchanged; any other surface is unchanged.
pub open spec fn after_frame(a: Surface, b: Surface) -> bool {
    if drawn(b) {
        &&& !a.dirty
        &&& a.dirty_rects@.len() == 0
        &&& a.same_except_pixels(&b)
        &&& a.pixels == b.pixels
    } else {
        a == b
    }
}

/// The back buffer a frame starts from: cleared to opaque black on a full
/// redraw, else as the last frame left it.
pub open spec fn frame_start(c: Compositor) -> Seq<u32> {
    if c.full_redraw {
        Seq::new(c.back_buffer@.len(), |i: int| 0xFF000000u32)
    } else {
        c.back_buffer@
    }
}

/// Whether the frame draws this surface.
pub open spec fn drawn(s: Surface) -> bool {
    s.visible && s.dirty
}

/// Back buffer after compositing the drawn surfaces of `ss` in order.
pub open spec fn composite_all(buf: Seq<u32>, w: int, ss: Seq<Surface>) -> Seq<u32>
    decreases ss.len(),
{
    if ss.len() == 0 {
        buf
    } else {
        let b = composite_all(buf, w, ss.drop_last());
        if drawn(ss.last()) { composite_spec(b, w, ss.last()) } else { b }
    }
}


proof fn lemma_insert_by_z(sorted: Seq<Surface>, x: Surface, j: int)
    requires
        0 <= j <= sorted.len(),
        forall|k: int| j <= k < sorted.len() ==> (#[trigger] sorted[k]).z_order > x.z_order,
        j > 0 ==> sorted[j - 1].z_order <= x.z_order,
    ensures
        insert_by_z(sorted, x) == sorted.insert(j, x),
    decreases sorted.len(),
{
    if sorted.len() == 0 {
        assert(sorted.insert(j, x) =~= seq![x]);
    } else if j == sorted.len() {
        assert(sorted.insert(j, x) =~= sorted.push(x));
    } else {
        let d = sorted.drop_last();
        assert forall|k: int| j <= k < d.len() implies (#[trigger] d[k]).z_order > x.z_order by {
            assert(d[k] == sorted[k]);
        }
        lemma_insert_by_z(d, x, j);
        assert(d.insert(j, x).push(sorted.last()) =~= sorted.insert(j, x));
    }
}

/// The surfaces of `s` whose id is not `id`, in order.
pub open spec fn without_id(s: Seq<Surface>, id: u64) -> Seq<Surface>
    decreases s.len(),
{
    if s.len() == 0 {
        s
    } else if s.last().id != id {
        without_id(s.drop_last(), id).push(s.last())
    } else {
        without_id(s.drop_last(), id)
    }
}

/// Index of the first surface of `s` with the given id.
pub open spec fn first_with_id(s: Seq<Surface>, id: u64) -> Option<int>
    decreases s.len(),
{
    if s.len() == 0 {
        None
    } else {
        match first_with_id(s.drop_last(), id) {
            Some(i) => Some(i),
            None => if s.last().id == id { Some(s.len() - 1) } else { None },
        }
    }
}

proof fn lemma_first_with_id(s: Seq<Surface>, id: u64, i: int)
    requires
        0 <= i < s.len(),
        s[i].id == id,
        forall|k: int| 0 <= k < i ==> (#[trigger] s[k]).id != id,
    ensures
        first_with_id(s, id) == Some(i),
    decreases s.len(),
{
    if i < s.len() - 1 {
        lemma_first_with_id(s.drop_last(), id, i);
    } else {
        lemma_first_with_id_none(s.drop_last(), id);
    }
}

proof fn lemma_first_with_id_none(s: Seq<Surface>, id: u64)
    requires
        forall|k: int| 0 <= k < s.len() ==> (#[trigger] s[k]).id != id,
    ensures
        first_with_id(s, id) is None,
    decreases s.len(),
{
    if s.len() > 0 {
        lemma_first_with_id_none(s.drop_last(), id);
    }
}

/// Every surface left by `without_id` was well formed before, and none of
/// them has the removed id.
proof fn lemma_without_id_keeps(s: Seq<Surface>, id: u64)
    ensures
        forall|k: int| 0 <= k < without_id(s, id).len() ==> (#[trigger] without_id(s, id)[k]).id != id,
        forall|k: int| 0 <= k < without_id(s, id).len() ==> exists|m: int| 0 <= m < s.len() && s[m] == #[trigger] without_id(s, id)[k],
    decreases s.len(),
{
    if s.len() > 0 {
        let d = s.drop_last();
        lemma_without_id_keeps(d, id);
        let w = without_id(d, id);
        assert forall|k: int| 0 <= k < without_id(s, id).len() implies exists|m: int| 0 <= m < s.len() && s[m] == #[trigger] without_id(s, id)[k] by {
            if k < w.len() {
                let m = choose|m: int| 0 <= m < d.len() && d[m] == w[k];
                assert(s[m] == d[m]);
            } else {
                assert(s[s.len() - 1] == without_id(s, id)[k]);
            }
        }
    }
}

/// The surfaces in z-order: sorting leaves them ordered by z and keeps
/// their number.
pub proof fn lemma_sort_by_z_sorted(s: Seq<Surface>)
    ensures
        sort_by_z(s).len() == s.len(),
        forall|i: int, j: int| 0 <= i <= j < s.len() ==> (#[trigger] sort_by_z(s)[i]).z_order <= (#[trigger] sort_by_z(s)[j]).z_order,
    decreases s.len(),
{
    if s.len() > 0 {
        lemma_sort_by_z_sorted(s.drop_last());
        lemma_insert_sorted(sort_by_z(s.drop_last()), s.last());
    }
}

proof fn lemma_insert_sorted(t: Seq<Surface>, x: Surface)
    requires
        forall|i: int, j: int| 0 <= i <= j < t.len() ==> (#[trigger] t[i]).z_order <= (#[trigger] t[j]).z_order,
    ensures
        insert_by_z(t, x).len() == t.len() + 1,
        forall|i: int, j: int| 0 <= i <= j < t.len() + 1 ==> (#[trigger] insert_by_z(t, x)[i]).z_order <= (#[trigger] insert_by_z(t, x)[j]).z_order,
        forall|i: int| 0 <= i < t.len() + 1 ==> #[trigger] insert_by_z(t, x)[i] == x || exists|k: int| 0 <= k < t.len() && t[k] == insert_by_z(t, x)[i],
    decreases t.len(),
{
    if t.len() == 0 {
    } else if t.last().z_order <= x.z_order {
        assert forall|i: int| 0 <= i < t.len() + 1 implies #[trigger] insert_by_z(t, x)[i] == x
            || exists|k: int| 0 <= k < t.len() && t[k] == insert_by_z(t, x)[i] by {
            if i < t.len() { assert(t[i] == insert_by_z(t, x)[i]); }
        }
    } else {
        let d = t.drop_last();
        lemma_insert_sorted(d, x);
        let r = insert_by_z(d, x);
        assert forall|i: int| 0 <= i < r.len() implies (#[trigger] r[i]).z_order <= t.last().z_order by {
            if r[i] != x {
                let k = choose|k: int| 0 <= k < d.len() && d[k] == r[i];
                assert(t[k] == d[k]);
                assert(t[k].z_order <= t[t.len() - 1].z_order);
            }
        }
        assert forall|i: int| 0 <= i < t.len() + 1 implies #[trigger] insert_by_z(t, x)[i] == x
            || exists|k: int| 0 <= k < t.len() && t[k] == insert_by_z(t, x)[i] by {
            if i < r.len() {
                if r[i] != x {
                    let k = choose|k: int| 0 <= k < d.len() && d[k] == r[i];
                    assert(t[k] == d[k]);
                }
            }
        }
    }
}

/// Destroying a surface just created undoes the creation, when no other
/// surface had its id.
pub proof fn lemma_destroy_undoes_create(s: Seq<Surface>, x: Surface)
    requires
        forall|k: int| 0 <= k < s.len() ==> (#[trigger] s[k]).id != x.id,
    ensures
        without_id(s.push(x), x.id) == s,
{
    assert(s.push(x).drop_last() =~= s);
    lemma_without_id_absent(s, x.id);
}

/// Removing an id that no surface has changes nothing.
pub proof fn lemma_without_id_absent(s: Seq<Surface>, id: u64)
    requires
        forall|k: int| 0 <= k < s.len() ==> (#[trigger] s[k]).id != id,
    ensures
        without_id(s, id) == s,
    decreases s.len(),
{
    if s.len() > 0 {
        lemma_without_id_absent(s.drop_last(), id);
        assert(s.drop_last().push(s.last()) =~= s);
    }
}

/// After a surface is destroyed no surface has its id, and every other
/// surface is still there.
pub proof fn lemma_destroy_removes(s: Seq<Surface>, id: u64)
    ensures
        forall|k: int| 0 <= k < without_id(s, id).len() ==> (#[trigger] without_id(s, id)[k]).id != id,
        forall|k: int| 0 <= k < s.len() && s[k].id != id ==> without_id(s, id).contains(#[trigger] s[k]),
    decreases s.len(),
{
    lemma_without_id_keeps(s, id);
    if s.len() > 0 {
        let d = s.drop_last();
        lemma_destroy_removes(d, id);
        assert forall|k: int| 0 <= k < s.len() && s[k].id != id implies without_id(s, id).contains(#[trigger] s[k]) by {
            if k < d.len() {
                assert(s[k] == d[k]);
                let w = without_id(d, id);
                let m = choose|m: int| 0 <= m < w.len() && w[m] == d[k];
                if s.last().id != id {
                    assert(without_id(s, id)[m] == w[m]);
                }
            } else {
                assert(without_id(s, id).last() == s[k]);
            }
        }
    }
}

/// The graphics server.
pub struct GraphicsServer {
    pub compositor: Compositor,
    pub surfaces: Vec<Surface>,
    pub next_surface_id: u64,
}

impl GraphicsServer {
    /// The compositor is sound and holds no damage between frames, and
    /// every surface is well formed.
    pub open spec fn wf(&self) -> bool {
        &&& self.compositor.wf()
        &&& self.compositor.pitch <= 8192
        &&& self.compositor.damage_rects@.len() == 0
        &&& forall|i: int| 0 <= i < self.surfaces@.len() ==> surface_ok(#[trigger] self.surfaces@[i])
    }

    pub fn new(width: usize, height: usize, pitch: usize) -> (g: Self)
        requires
            width <= 8192,
            height <= 8192,
            pitch / 4 <= 8192,
        ensures
            g.wf(),
            g.surfaces@.len() == 0,
            g.next_surface_id == 1,
            g.compositor.width == width && g.compositor.height == height && g.compositor.pitch == pitch / 4,
    {
        GraphicsServer { compositor: Compositor::new(width, height, pitch), surfaces: Vec::new(), next_surface_id: 1 }
    }

    /// Creates a surface with the next id; the id is used up even when the
    /// dimensions are refused.
    pub fn create_surface(&mut self, width: u32, height: u32) -> (r: Result<u64, &'static str>)
        requires
            old(self).wf(),
            old(self).next_surface_id < u64::MAX,
        ensures
            final(self).wf(),
            final(self).next_surface_id == old(self).next_surface_id + 1,
            final(self).compositor == old(self).compositor,
            (width == 0 || height == 0) ==> (r matches Err(e) && e@ == "Invalid surface dimensions"@ && final(self).surfaces@ == old(self).surfaces@),
            (width != 0 && height != 0 && (width > 8192 || height > 8192)) ==> (r matches Err(e) && e@ == "Surface too large"@
                && final(self).surfaces@ == old(self).surfaces@),
            (1 <= width <= 8192 && 1 <= height <= 8192) ==> {
                &&& r == Ok::<u64, &'static str>(old(self).next_surface_id)
                &&& final(self).surfaces@.len() == old(self).surfaces@.len() + 1
                &&& final(self).surfaces@.drop_last() == old(self).surfaces@
                &&& final(self).surfaces@.last().id == old(self).next_surface_id
                &&& final(self).surfaces@.last().width == width && final(self).surfaces@.last().height == height
            },
    {
        let id = self.next_surface_id;
        self.next_surface_id = self.next_surface_id + 1;
        let surface = match Surface::new(id, width, height) {
            Ok(s) => s,
            Err(e) => return Err(e),
        };
        let ghost before = self.surfaces@;
        self.surfaces.push(surface);
        proof {
            assert(self.surfaces@.drop_last() =~= before);
            assert forall|i: int| 0 <= i < self.surfaces@.len() implies surface_ok(#[trigger] self.surfaces@[i]) by {
                if i < before.len() { assert(self.surfaces@[i] == before[i]); }
            }
        }
        Ok(id)
    }

    /// Removes every surface with the given id.
    pub fn destroy_surface(&mut self, id: u64) -> (r: Result<(), &'static str>)
        requires
            old(self).wf(),
        ensures
            final(self).wf(),
            r is Ok,
            final(self).surfaces@ == without_id(old(self).surfaces@, id),
            final(self).compositor == old(self).compositor,
            final(self).next_surface_id == old(self).next_surface_id,
    {
        let ghost src = self.surfaces@;
        let mut i: usize = 0;
        let ghost mut j: int = 0;
        assert(src.subrange(0, 0) =~= Seq::<Surface>::empty());
        assert(src.subrange(0, src.len() as int) =~= src);
        while i < self.surfaces.len()
            invariant
                self.compositor == old(self).compositor,
                self.next_surface_id == old(self).next_surface_id,
                src == old(self).surfaces@,
                0 <= j <= src.len(),
                i == without_id(src.subrange(0, j), id).len(),
                self.surfaces@ == without_id(src.subrange(0, j), id) + src.subrange(j, src.len() as int),
            decreases self.surfaces@.len() - i,
        {
            let ghost w = without_id(src.subrange(0, j), id);
            assert(self.surfaces@[i as int] == src[j]);
            assert(src.subrange(0, j + 1).drop_last() =~= src.subrange(0, j));
            assert(src.subrange(0, j + 1).last() == src[j]);
            if self.surfaces[i].id == id {
                self.surfaces.remove(i);
                assert(self.surfaces@ =~= w + src.subrange(j + 1, src.len() as int));
            } else {
                i = i + 1;
                assert(self.surfaces@ =~= w.push(src[j]) + src.subrange(j + 1, src.len() as int));
            }
            proof { j = j + 1; }
        }
        proof {
            assert(j == src.len());
            assert(src.subrange(j, src.len() as int) =~= Seq::<Surface>::empty());
            assert(self.surfaces@ =~= without_id(src, id));
            lemma_without_id_keeps(src, id);
            assert forall|k: int| 0 <= k < self.surfaces@.len() implies surface_ok(#[trigger] self.surfaces@[k]) by {
                let m = choose|m: int| 0 <= m < src.len() && src[m] == without_id(src, id)[k];
            }
        }
        Ok(())
    }

    /// Index of the first surface with the given id.
    fn find(&self, id: u64) -> (r: Option<usize>)
        ensures
            match r {
                Some(i) => i < self.surfaces@.len() && self.surfaces@[i as int].id == id
                    && forall|k: int| 0 <= k < i ==> (#[trigger] self.surfaces@[k]).id != id,
                None => forall|k: int| 0 <= k < self.surfaces@.len() ==> (#[trigger] self.surfaces@[k]).id != id,
            },
    {
        let mut i: usize = 0;
        while i < self.surfaces.len()
            invariant
                i <= self.surfaces@.len(),
                forall|k: int| 0 <= k < i ==> (#[trigger] self.surfaces@[k]).id != id,
            decreases self.surfaces@.len() - i,
        {
            if self.surfaces[i].id == id {
                return Some(i);
            }
            i = i + 1;
        }
        None
    }

    /// The first surface with the given id, for changing it in place.
    pub fn get_surface_mut(&mut self, id: u64) -> (r: Option<&mut Surface>)
        ensures
            match r {
                Some(s) => first_with_id(old(self).surfaces@, id) matches Some(i)
                    && *s == old(self).surfaces@[i]
                    && final(self).surfaces@ == old(self).surfaces@.update(i, *final(s))
                    && final(self).compositor == old(self).compositor
                    && final(self).next_surface_id == old(self).next_surface_id,
                None => first_with_id(old(self).surfaces@, id) is None && *final(self) == *old(self),
            },
    {
        match self.find(id) {
            Some(i) => {
                proof { lemma_first_with_id(self.surfaces@, id, i as int); }
                Some(&mut self.surfaces[i])
            },
            None => {
                proof { lemma_first_with_id_none(self.surfaces@, id); }
                None
            },
        }
    }

    /// The first surface with the given id.
    pub fn get_surface(&self, id: u64) -> (r: Option<&Surface>)
        ensures
            match r {
                Some(s) => first_with_id(self.surfaces@, id) matches Some(i) && *s == self.surfaces@[i],
                None => first_with_id(self.surfaces@, id) is None,
            },
    {
        match self.find(id) {
            Some(i) => {
                proof { lemma_first_with_id(self.surfaces@, id, i as int); }
                Some(&self.surfaces[i])
            },
            None => {
                proof { lemma_first_with_id_none(self.surfaces@, id); }
                None
            },
        }
    }

    /// Replaces the pixels of the first surface with the given id and marks
    /// it dirty.
    pub fn update_surface(&mut self, id: u64, pixels: &[u8]) -> (r: Result<(), &'static str>)
        requires
            old(self).wf(),
        ensures
            final(self).wf(),
            final(self).compositor == old(self).compositor,
            final(self).next_surface_id == old(self).next_surface_id,
            final(self).surfaces@.len() == old(self).surfaces@.len(),
            first_with_id(old(self).surfaces@, id) is None ==> (r matches Err(e) && e@ == "Surface not found"@
                && final(self).surfaces@ == old(self).surfaces@),
            first_with_id(old(self).surfaces@, id) matches Some(i) ==> {
                let o = old(self).surfaces@[i];
                let n = final(self).surfaces@[i];
                &&& forall|k: int| 0 <= k < old(self).surfaces@.len() && k != i ==> final(self).surfaces@[k] == old(self).surfaces@[k]
                &&& pixels@.len() != o.pixels@.len() ==> (r matches Err(e) && e@ == "Invalid pixel data size"@ && n == o)
                &&& pixels@.len() == o.pixels@.len() ==> {
                    &&& r is Ok
                    &&& n.pixels@ == pixels@ && n.dirty
                    &&& n.same_except_pixels(&o) && n.dirty_rects@ == o.dirty_rects@
                }
            },
    {
        match self.find(id) {
            None => {
                proof { lemma_first_with_id_none(self.surfaces@, id); }
                Err("Surface not found")
            },
            Some(i) => {
                proof { lemma_first_with_id(self.surfaces@, id, i as int); }
                let ghost before = self.surfaces@;
                let res = self.surfaces[i].update_pixels(pixels);
                match res {
                    Err(e) => {
                        proof {
                            assert forall|k: int| 0 <= k < self.surfaces@.len() implies surface_ok(#[trigger] self.surfaces@[k]) by {
                                if k != i { assert(self.surfaces@[k] == before[k]); }
                            }
                        }
                        assert(self.surfaces@[i as int] == before[i as int]);
                        Err(e)
                    },
                    Ok(()) => {
                        self.surfaces[i].mark_dirty();
                        proof {
                            assert forall|k: int| 0 <= k < self.surfaces@.len() implies surface_ok(#[trigger] self.surfaces@[k]) by {
                                if k != i { assert(self.surfaces@[k] == before[k]); }
                            }
                        }
                        Ok(())
                    },
                }
            },
        }
    }

    /// Flags the first surface with the given id as asking to be shown.
    pub fn present_surface(&mut self, id: u64) -> (r: Result<(), &'static str>)
        requires
            old(self).wf(),
        ensures
            final(self).wf(),
            final(self).compositor == old(self).compositor,
            final(self).next_surface_id == old(self).next_surface_id,
            first_with_id(old(self).surfaces@, id) is None ==> (r matches Err(e) && e@ == "Surface not found"@
                && final(self).surfaces@ == old(self).surfaces@),
            first_with_id(old(self).surfaces@, id) matches Some(i) ==> r is Ok
                && final(self).surfaces@ == old(self).surfaces@.update(i, Surface { present_requested: true, ..old(self).surfaces@[i] }),
    {
        match self.find(id) {
            None => {
                proof { lemma_first_with_id_none(self.surfaces@, id); }
                Err("Surface not found")
            },
            Some(i) => {
                proof { lemma_first_with_id(self.surfaces@, id, i as int); }
                let ghost before = self.surfaces@;
                self.surfaces[i].present_requested = true;
                proof {
                    assert(self.surfaces@ =~= before.update(i as int, Surface { present_requested: true, ..before[i as int] }));
                    assert forall|k: int| 0 <= k < self.surfaces@.len() implies surface_ok(#[trigger] self.surfaces@[k]) by {
                        if k != i { assert(self.surfaces@[k] == before[k]); }
                    }
                }
                Ok(())
            },
        }
    }

    /// Sorts the surfaces by z-order (stably), composites the visible dirty
    /// ones into the back buffer in that order, marks them clean, and ends
    /// the frame. Returns the rows to copy to the screen.
    pub fn composite_frame(&mut self) -> (spans: Vec<(usize, usize, usize)>)
        requires
            old(self).wf(),
            old(self).compositor.frame_count < u64::MAX,
        ensures
            final(self).wf(),
            final(self).next_surface_id == old(self).next_surface_id,
            final(self).surfaces@.len() == old(self).surfaces@.len(),
            forall|i: int| 0 <= i < old(self).surfaces@.len() ==>
                after_frame(#[trigger] final(self).surfaces@[i], sort_by_z(old(self).surfaces@)[i]),
            final(self).compositor.back_buffer@ == composite_all(frame_start(old(self).compositor),
                old(self).compositor.width as int, sort_by_z(old(self).surfaces@)),
            spans@ == if old(self).compositor.full_redraw {
                full_spans(old(self).compositor.width as int, old(self).compositor.height as int, old(self).compositor.pitch as int)
            } else {
                Seq::empty()
            },
            final(self).compositor.frame_count == old(self).compositor.frame_count + 1,
            !final(self).compositor.full_redraw,
            final(self).compositor.width == old(self).compositor.width,
            final(self).compositor.height == old(self).compositor.height,
            final(self).compositor.pitch == old(self).compositor.pitch,
    {
        let ghost c0 = self.compositor;
        self.compositor.begin_frame();
        let ghost b0 = self.compositor.back_buffer@;
        assert(b0 =~= frame_start(c0));
        let ghost c1 = self.compositor;
        let ghost src = self.surfaces@;
        let n = self.surfaces.len();
        // Insertion sort: each surface goes after the last one whose
        // z-order is at most its own, which keeps equal ones in order.
        let mut i: usize = 0;
        assert(self.surfaces@.subrange(0, 0) =~= sort_by_z(src.subrange(0, 0)));
        assert(self.surfaces@.subrange(0, n as int) =~= src.subrange(0, n as int));
        while i < n
            invariant
                self.compositor == c1,
                self.next_surface_id == old(self).next_surface_id,
                src == old(self).surfaces@,
                n == src.len(),
                self.surfaces@.len() == n,
                i <= n,
                self.surfaces@.subrange(0, i as int) == sort_by_z(src.subrange(0, i as int)),
                self.surfaces@.subrange(i as int, n as int) == src.subrange(i as int, n as int),
                forall|k: int| 0 <= k < n ==> surface_ok(#[trigger] self.surfaces@[k]),
            decreases n - i,
        {
            let ghost before = self.surfaces@;
            let x = self.surfaces.remove(i);
            assert(x == src[i as int]) by {
                assert(before.subrange(i as int, n as int)[0] == src.subrange(i as int, n as int)[0]);
            }
            let ghost r = self.surfaces@;
            let mut j: usize = i;
            while j > 0 && self.surfaces[j - 1].z_order > x.z_order
                invariant
                    self.surfaces@ == r,
                    r.len() == n - 1,
                    i < n,
                    j <= i,
                    forall|k: int| j <= k < i ==> (#[trigger] r[k]).z_order > x.z_order,
                decreases j,
            {
                j = j - 1;
            }
            self.surfaces.insert(j, x);
            proof {
                let sorted = sort_by_z(src.subrange(0, i as int));
                assert(r.subrange(0, i as int) =~= before.subrange(0, i as int));
                assert forall|k: int| j <= k < sorted.len() implies (#[trigger] sorted[k]).z_order > x.z_order by {
                    assert(sorted[k] == before.subrange(0, i as int)[k]);
                    assert(r[k] == before[k]);
                }
                if j > 0 {
                    assert(sorted[j - 1] == r[j - 1]);
                }
                lemma_insert_by_z(sorted, x, j as int);
                let t = src.subrange(0, i + 1);
                assert(t.drop_last() =~= src.subrange(0, i as int));
                assert(t.last() == x);
                assert(self.surfaces@.subrange(0, i + 1) =~= sorted.insert(j as int, x));
                assert(self.surfaces@.subrange(i + 1, n as int) =~= src.subrange(i + 1, n as int)) by {
                    assert forall|k: int| 0 <= k < n - i - 1 implies
                        #[trigger] self.surfaces@.subrange(i + 1, n as int)[k] == src.subrange(i + 1, n as int)[k] by {
                        assert(self.surfaces@[i + 1 + k] == r[i + k]);
                        assert(r[i + k] == before[i + 1 + k]);
                        assert(before[i + 1 + k] == before.subrange(i as int, n as int)[k + 1]);
                    }
                }
                assert forall|k: int| 0 <= k < n implies surface_ok(#[trigger] self.surfaces@[k]) by {
                    if k < j {
                        assert(self.surfaces@[k] == r[k]);
                        assert(r[k] == before[k]);
                    } else if k > j {
                        assert(self.surfaces@[k] == r[k - 1]);
                        if k - 1 < i { assert(r[k - 1] == before[k - 1]); } else { assert(r[k - 1] == before[k]); }
                    } else {
                        assert(self.surfaces@[k] == x);
                        assert(before[i as int] == x);
                    }
                }
            }
            i = i + 1;
        }
        let ghost sorted = self.surfaces@;
        assert(sorted =~= sort_by_z(src)) by {
            assert(self.surfaces@.subrange(0, n as int) =~= self.surfaces@);
            assert(src.subrange(0, n as int) =~= src);
        }
        let w = self.compositor.width;
        // Composite the drawn surfaces in z-order.
        let mut i: usize = 0;
        assert(sorted.subrange(0, 0) =~= Seq::<Surface>::empty());
        while i < n
            invariant
                n == sorted.len(),
                self.surfaces@.len() == n,
                i <= n,
                self.next_surface_id == old(self).next_surface_id,
                forall|k: int| 0 <= k < i ==> after_frame(#[trigger] self.surfaces@[k], sorted[k]),
                forall|k: int| i <= k < n ==> #[trigger] self.surfaces@[k] == sorted[k],
                forall|k: int| 0 <= k < n ==> surface_ok(#[trigger] self.surfaces@[k]),
                forall|k: int| 0 <= k < n ==> surface_ok(#[trigger] sorted[k]),
                self.compositor.wf(),
                self.compositor.back_buffer@ == composite_all(b0, w as int, sorted.subrange(0, i as int)),
                self.compositor.surface_count <= i,
                self.compositor.width == w,
                self.compositor.height == c1.height,
                self.compositor.pitch == c1.pitch,
                self.compositor.damage_rects@.len() == 0,
                self.compositor.full_redraw == c1.full_redraw,
                self.compositor.frame_count == c1.frame_count,
            decreases n - i,
        {
            let ghost before = self.surfaces@;
            let ghost bb = self.compositor.back_buffer@;
            proof {
                let t = sorted.subrange(0, i + 1);
                assert(t.drop_last() =~= sorted.subrange(0, i as int));
                assert(t.last() == sorted[i as int]);
            }
            if self.surfaces[i].visible && self.surfaces[i].is_dirty() {
                self.compositor.composite_surface(&self.surfaces[i]);
                self.surfaces[i].clear_dirty();
                proof {
                    assert forall|k: int| 0 <= k < n && k != i implies self.surfaces@[k] == before[k] by {}
                    assert(surface_ok(self.surfaces@[i as int]));
                }
            }
            i = i + 1;
        }
        assert(sorted.subrange(0, n as int) =~= sorted);
        let spans = self.compositor.end_frame();
        spans
    }
}

} // verus!
