//! The display server: clients, their windows, focus and z-order, and the
//! dwindle tiling layout that gives each tiled window its target rectangle.
use vstd::prelude::*;
use crate::graphics::GraphicsServer;
use crate::text::{str_eq, to_string};

verus! {

/// How windows are arranged.
#[derive(Clone, Copy, PartialEq, Eq, Structural)]
pub enum LayoutMode {
    Floating,
    Dwindle,
}

/// A window: its current and target geometry (the renderer animates one
/// towards the other), surface and state.
pub struct Window {
    pub id: u64,
    pub client_id: u64,
    pub title: String,
    pub x: i32,
    pub y: i32,
    pub width: u32,
    pub height: u32,
    pub target_x: i32,
    pub target_y: i32,
    pub target_width: u32,
    pub target_height: u32,
    pub surface_id: u64,
    pub visible: bool,
    pub focused: bool,
    pub z_order: i32,
    pub decorated: bool,
    pub is_floating: bool,
}

/// An application connected to the display server.
pub struct Client {
    pub id: u64,
    pub name: String,
    pub windows: Vec<u64>,
}

/// A target rectangle: x, y, width, height.
pub type Rect = (i32, i32, u32, u32);

/// The dwindle layout of `n` windows in the area (x, y, w, h): each window
/// but the last takes half of the remaining area, split side by side when
/// it is wider than tall and top and bottom otherwise, less the gap; the
/// last takes what remains. Arithmetic wraps.
pub open spec fn dwindle(x: i32, y: i32, w: u32, h: u32, gap: u32, n: nat) -> Seq<Rect>
    decreases n,
{
    if n == 0 {
        Seq::empty()
    } else if n == 1 {
        seq![(x, y, w, h)]
    } else if w > h {
        let sw = w / 2;
        seq![(x, y, sw.wrapping_sub(gap), h)] + dwindle(x.wrapping_add(sw as i32), y, (w - sw) as u32, h, gap, (n - 1) as nat)
    } else {
        let sh = h / 2;
        seq![(x, y, w, sh.wrapping_sub(gap))] + dwindle(x, y.wrapping_add(sh as i32), w, (h - sh) as u32, gap, (n - 1) as nat)
    }
}

/// A window the dwindle layout places.
pub open spec fn tiled(w: Window) -> bool {
    !w.is_floating && w.visible
}

/// Number of tiled windows among the first `n`.
pub open spec fn tiled_before(ws: Seq<Window>, n: int) -> nat
    decreases n,
{
    if n <= 0 {
        0
    } else {
        tiled_before(ws, n - 1) + if tiled(ws[n - 1]) { 1nat } else { 0nat }
    }
}

/// The screen and layout settings the layout depends on.
pub struct LayoutParams {
    pub screen_width: u32,
    pub screen_height: u32,
    pub gap_size: i32,
    pub taskbar_height: u32,
    pub layout_mode: LayoutMode,
}

/// The layout settings of a server.
pub open spec fn params(s: DisplayServer) -> LayoutParams {
    LayoutParams {
        screen_width: s.screen_width,
        screen_height: s.screen_height,
        gap_size: s.gap_size,
        taskbar_height: s.taskbar_height,
        layout_mode: s.layout_mode,
    }
}

/// The work area: the screen less the gap around it and the taskbar.
pub open spec fn work_area(p: LayoutParams) -> (i32, i32, u32, u32) {
    let g2 = (p.gap_size as u32).wrapping_mul(2);
    (p.gap_size, p.gap_size,
        if p.screen_width >= g2 { (p.screen_width - g2) as u32 } else { 0 },
        if p.screen_height >= p.taskbar_height.wrapping_add(g2) { (p.screen_height - p.taskbar_height.wrapping_add(g2)) as u32 } else { 0 })
}

/// `a / 2` rounded toward zero, as integer division does.
pub open spec fn half(a: i32) -> i32 {
    if a >= 0 { (a / 2) as i32 } else { (-((-(a as int)) / 2)) as i32 }
}

/// Target of a floating window whose width is still the initial 10: at
/// least 100×100, centred on the screen.
pub open spec fn float_target(w: Window, sw: u32, sh: u32) -> Rect {
    let tw = if w.target_width > 100 { w.target_width } else { 100 };
    let th = if w.target_height > 100 { w.target_height } else { 100 };
    (half((sw as i32).wrapping_sub(tw as i32)), half((sh as i32).wrapping_sub(th as i32)), tw, th)
}

/// The window with its target set.
pub open spec fn with_target(w: Window, r: Rect) -> Window {
    Window { target_x: r.0, target_y: r.1, target_width: r.2, target_height: r.3, ..w }
}

/// Window `k` after the first pass of the layout (before floating windows
/// are centred), given the dwindle rectangles.
pub open spec fn first_pass(p: LayoutParams, ws: Seq<Window>, k: int, rects: Seq<Rect>) -> Window {
    let w = ws[k];
    if p.layout_mode == LayoutMode::Floating {
        if !w.is_floating { with_target(w, (w.x, w.y, w.width, w.height)) } else { w }
    } else if tiled(w) {
        with_target(w, rects[tiled_before(ws, k) as int])
    } else {
        w
    }
}

/// The dwindle rectangles of the tiled windows.
pub open spec fn layout_rects(p: LayoutParams, ws: Seq<Window>) -> Seq<Rect> {
    let (ax, ay, aw, ah) = work_area(p);
    dwindle(ax, ay, aw, ah, p.gap_size as u32, tiled_before(ws, ws.len() as int))
}

/// Window `i` after the layout pass.
pub open spec fn laid_out(p: LayoutParams, ws: Seq<Window>, i: int) -> Window {
    let placed = first_pass(p, ws, i, layout_rects(p, ws));
    if p.layout_mode == LayoutMode::Dwindle && tiled_before(ws, ws.len() as int) == 0 {
        ws[i]
    } else if placed.is_floating && placed.width == 10 {
        with_target(placed, float_target(placed, p.screen_width, p.screen_height))
    } else {
        placed
    }
}

/// The windows with the first one with the id unfocused.
pub open spec fn unfocused(ws: Seq<Window>, id: u64) -> Seq<Window> {
    let i = window_index(ws, id);
    if i < ws.len() { ws.update(i, Window { focused: false, ..ws[i] }) } else { ws }
}

/// The windows with the first one with the id focused.
pub open spec fn refocused(ws: Seq<Window>, id: u64) -> Seq<Window> {
    let i = window_index(ws, id);
    if i < ws.len() { ws.update(i, Window { focused: true, ..ws[i] }) } else { ws }
}

/// The highest z-order of the windows (0 when there are none).
pub open spec fn max_z(ws: Seq<Window>) -> int
    decreases ws.len(),
{
    if ws.len() == 0 {
        0
    } else if ws.len() == 1 {
        ws[0].z_order as int
    } else {
        let m = max_z(ws.drop_last());
        if ws.last().z_order > m { ws.last().z_order as int } else { m }
    }
}

/// No window lies above the highest z-order.
proof fn lemma_max_z_ge(ws: Seq<Window>, k: int)
    requires
        0 <= k < ws.len(),
    ensures
        ws[k].z_order <= max_z(ws),
    decreases ws.len(),
{
    if ws.len() > 1 && k < ws.len() - 1 {
        lemma_max_z_ge(ws.drop_last(), k);
        assert(ws.drop_last()[k] == ws[k]);
    }
}

/// Windows with the same ids in the same places are found at the same
/// index.
proof fn lemma_window_index_ids(a: Seq<Window>, b: Seq<Window>, id: u64)
    requires
        a.len() == b.len(),
        forall|m: int| 0 <= m < a.len() ==> (#[trigger] a[m]).id == b[m].id,
    ensures
        window_index(a, id) == window_index(b, id),
    decreases a.len(),
{
    if a.len() > 0 {
        assert(a[0].id == b[0].id);
        if a[0].id != id {
            assert forall|m: int| 0 <= m < a.drop_first().len() implies (#[trigger] a.drop_first()[m]).id == b.drop_first()[m].id by {
                assert(a[m + 1].id == b[m + 1].id);
            }
            lemma_window_index_ids(a.drop_first(), b.drop_first(), id);
        }
    }
}

proof fn lemma_max_z_member(ws: Seq<Window>)
    ensures
        ws.len() == 0 ==> max_z(ws) == 0,
        ws.len() > 0 ==> exists|k: int| 0 <= k < ws.len() && max_z(ws) == (#[trigger] ws[k]).z_order,
    decreases ws.len(),
{
    if ws.len() > 1 {
        lemma_max_z_member(ws.drop_last());
        if ws.last().z_order <= max_z(ws.drop_last()) {
            let k = choose|k: int| 0 <= k < ws.drop_last().len() && max_z(ws.drop_last()) == (#[trigger] ws.drop_last()[k]).z_order;
            assert(ws[k] == ws.drop_last()[k]);
        } else {
            assert(max_z(ws) == ws[ws.len() - 1].z_order);
        }
    } else if ws.len() == 1 {
        assert(max_z(ws) == ws[0].z_order);
    }
}

/// The display server's state.
pub struct DisplayServer {
    pub clients: Vec<Client>,
    pub windows: Vec<Window>,
    pub next_client_id: u64,
    pub next_window_id: u64,
    pub focused_window: Option<u64>,
    pub screen_width: u32,
    pub screen_height: u32,
    pub layout_mode: LayoutMode,
    pub gap_size: i32,
    pub taskbar_height: u32,
    pub taskbar_visible: bool,
    pub running: bool,
    pub dirty: bool,
}

/// Index of the first window with the id, or the number of windows.
pub open spec fn window_index(ws: Seq<Window>, id: u64) -> int
    decreases ws.len(),
{
    if ws.len() == 0 {
        0
    } else if ws[0].id == id {
        0
    } else {
        1 + window_index(ws.drop_first(), id)
    }
}

proof fn lemma_window_index(ws: Seq<Window>, id: u64, k: int)
    requires
        0 <= k <= ws.len(),
        forall|j: int| 0 <= j < k ==> (#[trigger] ws[j]).id != id,
        k == ws.len() || ws[k].id == id,
    ensures
        window_index(ws, id) == k,
    decreases ws.len(),
{
    if ws.len() > 0 && k > 0 {
        assert forall|j: int| 0 <= j < k - 1 implies (#[trigger] ws.drop_first()[j]).id != id by {
            assert(ws.drop_first()[j] == ws[j + 1]);
        }
        lemma_window_index(ws.drop_first(), id, k - 1);
    }
}

proof fn lemma_window_index_bounds(ws: Seq<Window>, id: u64)
    ensures
        0 <= window_index(ws, id) <= ws.len(),
        window_index(ws, id) < ws.len() ==> ws[window_index(ws, id)].id == id,
    decreases ws.len(),
{
    if ws.len() > 0 && ws[0].id != id {
        lemma_window_index_bounds(ws.drop_first(), id);
        let i = window_index(ws.drop_first(), id);
        if i < ws.len() - 1 {
            assert(ws.drop_first()[i] == ws[i + 1]);
        }
    }
}

proof fn lemma_dwindle_len(x: i32, y: i32, w: u32, h: u32, gap: u32, n: nat)
    ensures
        dwindle(x, y, w, h, gap, n).len() == n,
    decreases n,
{
    if n > 1 {
        if w > h {
            let sw = w / 2;
            lemma_dwindle_len(x.wrapping_add(sw as i32), y, (w - sw) as u32, h, gap, (n - 1) as nat);
        } else {
            let sh = h / 2;
            lemma_dwindle_len(x, y.wrapping_add(sh as i32), w, (h - sh) as u32, gap, (n - 1) as nat);
        }
    }
}

proof fn lemma_tiled_before_mono(ws: Seq<Window>, a: int, b: int)
    requires
        0 <= a <= b <= ws.len(),
    ensures
        tiled_before(ws, a) <= tiled_before(ws, b),
        a < b && tiled(ws[a]) ==> tiled_before(ws, a) < tiled_before(ws, b),
    decreases b - a,
{
    if a < b {
        lemma_tiled_before_mono(ws, a, b - 1);
        if a < b - 1 {
            lemma_tiled_before_mono(ws, a + 1, b - 1);
        }
    }
}

/// The windows' ids and z-orders, for the ordering functions.
pub open spec fn z_key_lt(ws: Seq<Window>, a: usize, b: usize) -> bool {
    ws[a as int].z_order < ws[b as int].z_order || (ws[a as int].z_order == ws[b as int].z_order && a < b)
}

impl DisplayServer {
    /// An empty server for a screen of the given size: dwindle layout,
    /// gaps of 10, a visible 40-pixel taskbar.
    pub fn new(width: u32, height: u32) -> (s: Self)
        ensures
            s.clients@.len() == 0 && s.windows@.len() == 0,
            s.next_client_id == 1 && s.next_window_id == 1,
            s.focused_window is None,
            s.screen_width == width && s.screen_height == height,
            s.layout_mode == LayoutMode::Dwindle,
            s.gap_size == 10 && s.taskbar_height == 40 && s.taskbar_visible,
            !s.running && s.dirty,
    {
        DisplayServer {
            clients: Vec::new(),
            windows: Vec::new(),
            next_client_id: 1,
            next_window_id: 1,
            focused_window: None,
            screen_width: width,
            screen_height: height,
            layout_mode: LayoutMode::Dwindle,
            gap_size: 10,
            taskbar_height: 40,
            taskbar_visible: true,
            running: false,
            dirty: true,
        }
    }

    /// Adds a client with the next client id and returns the id.
    pub fn register_client(&mut self, name: &str) -> (id: u64)
        requires
            old(self).next_client_id < u64::MAX,
        ensures
            id == old(self).next_client_id,
            final(self).next_client_id == id + 1,
            final(self).clients@.len() == old(self).clients@.len() + 1,
            forall|k: int| 0 <= k < old(self).clients@.len() ==> #[trigger] final(self).clients@[k] == old(self).clients@[k],
            final(self).clients@.last().id == id,
            final(self).clients@.last().name@ == name@,
            final(self).clients@.last().windows@.len() == 0,
            final(self).windows@ == old(self).windows@,
            final(self).focused_window == old(self).focused_window,
    {
        let id = self.next_client_id;
        self.next_client_id = self.next_client_id + 1;
        self.clients.push(Client { id, name: to_string(name), windows: Vec::new() });
        id
    }

    /// Sets every window's target rectangle: in the floating mode tiled
    /// windows stay where they are; in the dwindle mode the tiled windows
    /// share the work area in order, and nothing changes when none is tiled.
    /// A floating window whose width is still the initial 10 is then centred
    /// at 100×100 or more.
    pub fn recalculate_layout(&mut self)
        ensures
            old(self).windows@.len() == 0 ==> *final(self) == *old(self),
            old(self).windows@.len() > 0 ==> {
                &&& final(self).windows@.len() == old(self).windows@.len()
                &&& forall|i: int| 0 <= i < old(self).windows@.len() ==> #[trigger] final(self).windows@[i] == laid_out(params(*old(self)), old(self).windows@, i)
                &&& *final(self) == (DisplayServer { windows: final(self).windows, ..*old(self) })
            },
    {
        if self.windows.len() == 0 {
            return;
        }
        let ghost s0 = *self;
        let ghost ws = self.windows@;
        let gap = self.gap_size;
        let g2 = (gap as u32).wrapping_mul(2);
        let work_x = gap;
        let work_y = gap;
        let work_w = self.screen_width.saturating_sub(g2);
        let work_h = self.screen_height.saturating_sub(self.taskbar_height.wrapping_add(g2));
        let n = self.windows.len();
        // Count the tiled windows first: the last one takes the rest.
        let mut count: usize = 0;
        let mut i: usize = 0;
        while i < n
            invariant
                self.windows@ == ws,
                n == ws.len(),
                i <= n,
                count == tiled_before(ws, i as int),
                count <= i,
            decreases n - i,
        {
            if !self.windows[i].is_floating && self.windows[i].visible {
                count = count + 1;
            }
            i = i + 1;
        }
        if count == 0 && matches!(self.layout_mode, LayoutMode::Dwindle) {
            return;
        }
        let ghost rects = dwindle(work_x, work_y, work_w, work_h, gap as u32, count as nat);
        proof { lemma_dwindle_len(work_x, work_y, work_w, work_h, gap as u32, count as nat); }
        let mut ax = work_x;
        let mut ay = work_y;
        let mut aw = work_w;
        let mut ah = work_h;
        let mut placed: usize = 0;
        let mut i: usize = 0;
        while i < n
            invariant
                n == ws.len(),
                ws == s0.windows@,
                self.windows@.len() == n,
                *self == (DisplayServer { windows: self.windows, ..s0 }),
                gap == s0.gap_size,
                (work_x, work_y, work_w, work_h) == work_area(params(s0)),
                count == tiled_before(ws, n as int),
                rects == dwindle(work_x, work_y, work_w, work_h, gap as u32, count as nat),
                rects.len() == count,
                i <= n,
                placed == tiled_before(ws, i as int),
                placed <= count,
                s0.layout_mode == LayoutMode::Dwindle && placed < count ==> dwindle(ax, ay, aw, ah, gap as u32, (count - placed) as nat)
                    == rects.subrange(placed as int, count as int),
                forall|k: int| 0 <= k < i ==> #[trigger] self.windows@[k] == first_pass(params(s0), ws, k, rects),
                forall|k: int| i <= k < n ==> #[trigger] self.windows@[k] == ws[k],
            decreases n - i,
        {
            proof { lemma_tiled_before_mono(ws, i as int, n as int); }
            let ghost wi = self.windows@[i as int];
            match self.layout_mode {
                LayoutMode::Floating => {
                    if !self.windows[i].is_floating {
                        let (x, y, w, h) = (self.windows[i].x, self.windows[i].y, self.windows[i].width, self.windows[i].height);
                        self.windows[i].target_width = w;
                        self.windows[i].target_height = h;
                        self.windows[i].target_x = x;
                        self.windows[i].target_y = y;
                    }
                    if !self.windows[i].is_floating && self.windows[i].visible {
                        placed = placed + 1;
                    }
                },
                LayoutMode::Dwindle => {
                    if !self.windows[i].is_floating && self.windows[i].visible {
                        let ghost rest = dwindle(ax, ay, aw, ah, gap as u32, (count - placed) as nat);
                        proof {
                            assert(rest[0] == rects[placed as int]);
                        }
                        let r: Rect = if placed == count - 1 {
                            (ax, ay, aw, ah)
                        } else if aw > ah {
                            let spawn_w = aw / 2;
                            let keep_w = aw - spawn_w;
                            let r = (ax, ay, spawn_w.wrapping_sub(gap as u32), ah);
                            ax = ax.wrapping_add(spawn_w as i32);
                            aw = keep_w;
                            proof {
                                assert(rest == seq![r] + dwindle(ax, ay, aw, ah, gap as u32, (count - placed - 1) as nat));
                                assert(rest.drop_first() =~= rects.subrange(placed + 1, count as int));
                                assert(rest.drop_first() =~= dwindle(ax, ay, aw, ah, gap as u32, (count - placed - 1) as nat));
                            }
                            r
                        } else {
                            let spawn_h = ah / 2;
                            let keep_h = ah - spawn_h;
                            let r = (ax, ay, aw, spawn_h.wrapping_sub(gap as u32));
                            ay = ay.wrapping_add(spawn_h as i32);
                            ah = keep_h;
                            proof {
                                assert(rest == seq![r] + dwindle(ax, ay, aw, ah, gap as u32, (count - placed - 1) as nat));
                                assert(rest.drop_first() =~= rects.subrange(placed + 1, count as int));
                                assert(rest.drop_first() =~= dwindle(ax, ay, aw, ah, gap as u32, (count - placed - 1) as nat));
                            }
                            r
                        };
                        self.windows[i].target_x = r.0;
                        self.windows[i].target_y = r.1;
                        self.windows[i].target_width = r.2;
                        self.windows[i].target_height = r.3;
                        placed = placed + 1;
                    }
                },
            }
            i = i + 1;
        }
        // Floating windows still at their initial width are centred.
        let sw = self.screen_width;
        let sh = self.screen_height;
        let mut i: usize = 0;
        while i < n
            invariant
                n == ws.len(),
                ws == s0.windows@,
                self.windows@.len() == n,
                *self == (DisplayServer { windows: self.windows, ..s0 }),
                sw == s0.screen_width && sh == s0.screen_height,
                !(s0.layout_mode == LayoutMode::Dwindle && tiled_before(ws, n as int) == 0),
                i <= n,
                forall|k: int| 0 <= k < i ==> #[trigger] self.windows@[k] == laid_out(params(s0), ws, k),
                forall|k: int| i <= k < n ==> #[trigger] self.windows@[k] == first_pass(params(s0), ws, k, layout_rects(params(s0), ws)),
            decreases n - i,
        {
            if self.windows[i].is_floating && self.windows[i].width == 10 {
                let tw = if self.windows[i].target_width > 100 { self.windows[i].target_width } else { 100 };
                let th = if self.windows[i].target_height > 100 { self.windows[i].target_height } else { 100 };
                self.windows[i].target_width = tw;
                self.windows[i].target_height = th;
                self.windows[i].target_x = (sw as i32).wrapping_sub(tw as i32) / 2;
                self.windows[i].target_y = (sh as i32).wrapping_sub(th as i32) / 2;
            }
            i = i + 1;
        }
    }

    /// Index of the first window with the id.
    fn find_window(&self, id: u64) -> (r: Option<usize>)
        ensures
            r is None ==> window_index(self.windows@, id) == self.windows@.len(),
            r matches Some(i) ==> i == window_index(self.windows@, id) && i < self.windows@.len()
                && self.windows@[i as int].id == id,
    {
        let mut i: usize = 0;
        while i < self.windows.len()
            invariant
                i <= self.windows@.len(),
                forall|j: int| 0 <= j < i ==> (#[trigger] self.windows@[j]).id != id,
            decreases self.windows@.len() - i,
        {
            if self.windows[i].id == id {
                proof { lemma_window_index(self.windows@, id, i as int); }
                return Some(i);
            }
            i = i + 1;
        }
        proof { lemma_window_index(self.windows@, id, self.windows@.len() as int); }
        None
    }

    /// Index of the first client with the id.
    fn find_client(&self, id: u64) -> (r: Option<usize>)
        ensures
            r is None ==> forall|j: int| 0 <= j < self.clients@.len() ==> (#[trigger] self.clients@[j]).id != id,
            r matches Some(i) ==> i < self.clients@.len() && self.clients@[i as int].id == id
                && forall|j: int| 0 <= j < i ==> (#[trigger] self.clients@[j]).id != id,
    {
        let mut i: usize = 0;
        while i < self.clients.len()
            invariant
                i <= self.clients@.len(),
                forall|j: int| 0 <= j < i ==> (#[trigger] self.clients@[j]).id != id,
            decreases self.clients@.len() - i,
        {
            if self.clients[i].id == id {
                return Some(i);
            }
            i = i + 1;
        }
        None
    }

    /// Clears the focus flag of the first window with the id, if any.
    fn unfocus(&mut self, id: u64)
        ensures
            final(self).windows@ == unfocused(old(self).windows@, id),
            *final(self) == (DisplayServer { windows: final(self).windows, ..*old(self) }),
    {
        match self.find_window(id) {
            Some(i) => {
                self.windows[i].focused = false;
            },
            None => {},
        }
    }

    /// Opens a window for a client: a surface of the requested size is made
    /// in the graphics server, the window starts small at the screen's
    /// centre with the requested size as its target, takes the focus and
    /// the next z-order, and the layout is recalculated. Windows titled
    /// `Calculator` or `About` float.
    pub fn create_window(&mut self, gfx: &mut GraphicsServer, client_id: u64, title: &str, width: u32, height: u32)
        -> (r: Result<u64, &'static str>)
        requires
            old(gfx).wf(),
            old(gfx).next_surface_id < u64::MAX,
            old(self).next_window_id < u64::MAX,
            old(self).windows@.len() <= i32::MAX,
        ensures
            final(gfx).wf(),
            (forall|j: int| 0 <= j < old(self).clients@.len() ==> (#[trigger] old(self).clients@[j]).id != client_id)
                ==> (r matches Err(e) && e@ == "Client not found"@ && *final(self) == *old(self) && *final(gfx) == *old(gfx)),
            (exists|j: int| 0 <= j < old(self).clients@.len() && (#[trigger] old(self).clients@[j]).id == client_id) ==> {
                &&& final(gfx).next_surface_id == old(gfx).next_surface_id + 1
                &&& !(1 <= width <= 8192 && 1 <= height <= 8192) ==> r is Err && *final(self) == *old(self)
                &&& (1 <= width <= 8192 && 1 <= height <= 8192) ==> exists|w: Window| {
                    &&& r == Ok::<u64, &'static str>(old(self).next_window_id)
                    &&& w.id == old(self).next_window_id && w.client_id == client_id && w.title@ == title@
                    &&& w.surface_id == old(gfx).next_surface_id
                    &&& w.x == half(old(self).screen_width as i32) && w.y == half(old(self).screen_height as i32)
                    &&& w.width == 50 && w.height == 50
                    &&& w.target_x == w.x && w.target_y == w.y && w.target_width == width && w.target_height == height
                    &&& w.visible && w.focused && w.z_order == old(self).windows@.len() as i32
                    &&& w.is_floating == (title@ == "Calculator"@ || title@ == "About"@) && w.decorated == w.is_floating
                    &&& final(self).next_window_id == old(self).next_window_id + 1
                    &&& final(self).focused_window == Some(old(self).next_window_id)
                    &&& final(self).dirty
                    &&& ({
                        let ws0 = match old(self).focused_window { Some(f) => unfocused(old(self).windows@, f), None => old(self).windows@ };
                        let ws1 = ws0.push(w);
                        &&& final(self).windows@.len() == ws1.len()
                        &&& forall|i: int| 0 <= i < ws1.len() ==> #[trigger] final(self).windows@[i] == laid_out(params(*old(self)), ws1, i)
                    })
                }
            },
    {
        let ci = match self.find_client(client_id) {
            Some(c) => c,
            None => return Err("Client not found"),
        };
        let surface_id = match gfx.create_surface(width, height) {
            Ok(s) => s,
            Err(e) => return Err(e),
        };
        let win_id = self.next_window_id;
        self.next_window_id = self.next_window_id + 1;
        let center_x = (self.screen_width as i32) / 2;
        let center_y = (self.screen_height as i32) / 2;
        assert(center_x == half(self.screen_width as i32));
        assert(center_y == half(self.screen_height as i32));
        let is_floating = str_eq(title, "Calculator") || str_eq(title, "About");
        proof {
            reveal_strlit("Calculator");
            reveal_strlit("About");
        }
        let window = Window {
            id: win_id,
            client_id,
            title: to_string(title),
            x: center_x,
            y: center_y,
            width: 50,
            height: 50,
            target_x: center_x,
            target_y: center_y,
            target_width: width,
            target_height: height,
            surface_id,
            visible: true,
            focused: true,
            z_order: self.windows.len() as i32,
            decorated: is_floating,
            is_floating,
        };
        let ghost wv = window;
        if let Some(old_id) = self.focused_window {
            self.unfocus(old_id);
        }
        self.focused_window = Some(win_id);
        self.windows.push(window);
        self.clients[ci].windows.push(win_id);
        let ghost ws1 = self.windows@;
        let ghost p0 = params(*self);
        self.recalculate_layout();
        self.dirty = true;
        proof {
            let ws0 = match old(self).focused_window { Some(f) => unfocused(old(self).windows@, f), None => old(self).windows@ };
            assert(ws1 == ws0.push(wv));
            assert(p0 == params(*old(self)));
            assert(wv.title@ == title@);
            assert(wv.is_floating == (title@ == "Calculator"@ || title@ == "About"@));
            assert(wv.z_order == old(self).windows@.len() as i32);
            assert(self.windows@.len() == ws1.len());
            assert(forall|i: int| 0 <= i < ws1.len() ==> #[trigger] self.windows@[i] == laid_out(params(*old(self)), ws1, i));
            assert(self.focused_window == Some(old(self).next_window_id));
        }
        Ok(win_id)
    }

    /// Closes a window: removes it, destroys its surface, drops it from its
    /// client's list, moves the focus to the last window when it had it,
    /// and recalculates the layout.
    pub fn destroy_window(&mut self, gfx: &mut GraphicsServer, window_id: u64) -> (r: Result<(), &'static str>)
        requires
            old(gfx).wf(),
        ensures
            final(gfx).wf(),
            window_index(old(self).windows@, window_id) == old(self).windows@.len() ==> (r matches Err(e)
                && e@ == "Window not found"@ && *final(self) == *old(self) && *final(gfx) == *old(gfx)),
            window_index(old(self).windows@, window_id) < old(self).windows@.len() ==> {
                let i = window_index(old(self).windows@, window_id);
                let w = old(self).windows@[i];
                let rest = old(self).windows@.remove(i);
                &&& r is Ok
                &&& final(gfx).surfaces@ == crate::graphics::without_id(old(gfx).surfaces@, w.surface_id)
                &&& final(self).dirty
                &&& old(self).focused_window == Some(window_id) ==> final(self).focused_window == if rest.len() > 0 { Some(rest.last().id) } else { None }
                &&& old(self).focused_window != Some(window_id) ==> final(self).focused_window == old(self).focused_window
                &&& final(self).windows@.len() == rest.len()
                &&& forall|k: int| 0 <= k < rest.len() ==> #[trigger] final(self).windows@[k] == laid_out(params(*old(self)),
                    if old(self).focused_window == Some(window_id) && rest.len() > 0 { refocused(rest, rest.last().id) } else { rest }, k)
            },
    {
        let i = match self.find_window(window_id) {
            Some(i) => i,
            None => return Err("Window not found"),
        };
        let ghost rest = self.windows@.remove(i as int);
        let window = self.windows.remove(i);
        let _ = gfx.destroy_surface(window.surface_id);
        if let Some(ci) = self.find_client(window.client_id) {
            let mut kept: Vec<u64> = Vec::new();
            let mut k: usize = 0;
            while k < self.clients[ci].windows.len()
                invariant
                    ci < self.clients@.len(),
                    k <= self.clients@[ci as int].windows@.len(),
                decreases self.clients@[ci as int].windows@.len() - k,
            {
                let id = self.clients[ci].windows[k];
                if id != window_id {
                    kept.push(id);
                }
                k = k + 1;
            }
            self.clients[ci].windows = kept;
        }
        if self.focused_window == Some(window_id) {
            let n = self.windows.len();
            if n > 0 {
                let nf = self.windows[n - 1].id;
                self.focused_window = Some(nf);
                match self.find_window(nf) {
                    Some(j) => {
                        self.windows[j].focused = true;
                    },
                    None => {},
                }
            } else {
                self.focused_window = None;
            }
        }
        let ghost ws1 = self.windows@;
        let ghost p0 = params(*self);
        self.recalculate_layout();
        self.dirty = true;
        proof {
            assert(p0 == params(*old(self)));
            if old(self).focused_window == Some(window_id) && rest.len() > 0 {
                assert(ws1 == refocused(rest, rest.last().id));
            } else {
                assert(ws1 == rest);
            }
        }
        Ok(())
    }

    /// Gives a window the focus and raises it above all others; the
    /// previously focused window loses the focus.
    pub fn focus_window(&mut self, window_id: u64)
        requires
            forall|k: int| 0 <= k < old(self).windows@.len() ==> (#[trigger] old(self).windows@[k]).z_order < i32::MAX,
        ensures
            ({
                let ws0 = match old(self).focused_window { Some(f) => unfocused(old(self).windows@, f), None => old(self).windows@ };
                let j = window_index(ws0, window_id);
                &&& j < ws0.len() ==> final(self).windows@ == ws0.update(j, Window {
                    focused: true, z_order: (max_z(old(self).windows@) + 1) as i32, ..ws0[j] })
                &&& j == ws0.len() ==> final(self).windows@ == ws0
            }),
            final(self).focused_window == Some(window_id),
            final(self).dirty,
            *final(self) == (DisplayServer { windows: final(self).windows, focused_window: Some(window_id), dirty: true, ..*old(self) }),
            final(self).windows@.len() == old(self).windows@.len(),
            ({
                let j = window_index(old(self).windows@, window_id);
                j < old(self).windows@.len() ==> forall|k: int| 0 <= k < final(self).windows@.len() && k != j
                    ==> (#[trigger] final(self).windows@[k]).z_order < final(self).windows@[j].z_order
            }),
            forall|k: int| 0 <= k < final(self).windows@.len() && (#[trigger] final(self).windows@[k]).focused
                ==> k == window_index(old(self).windows@, window_id) || (old(self).windows@[k].focused
                    && !(old(self).focused_window matches Some(f) && k == window_index(old(self).windows@, f))),
            ({
                let j = window_index(old(self).windows@, window_id);
                j < old(self).windows@.len() && (forall|k: int| 0 <= k < old(self).windows@.len()
                    && (#[trigger] old(self).windows@[k]).focused
                    ==> (old(self).focused_window matches Some(f) && k == window_index(old(self).windows@, f)))
                ==> forall|k: int| 0 <= k < final(self).windows@.len() ==> ((#[trigger] final(self).windows@[k]).focused <==> k == j)
            }),
    {
        if let Some(old_id) = self.focused_window {
            proof { lemma_window_index_bounds(self.windows@, old_id); }
            self.unfocus(old_id);
        }
        let ghost ws0 = self.windows@;
        let mut max: i32 = 0;
        let mut k: usize = 0;
        while k < self.windows.len()
            invariant
                k <= self.windows@.len(),
                self.windows@ == ws0,
                ws0.len() == old(self).windows@.len(),
                forall|m: int| 0 <= m < ws0.len() ==> (#[trigger] ws0[m]).z_order == old(self).windows@[m].z_order,
                max == max_z(old(self).windows@.subrange(0, k as int)),
            decreases self.windows@.len() - k,
        {
            proof {
                let q = old(self).windows@.subrange(0, k + 1);
                assert(q.drop_last() =~= old(self).windows@.subrange(0, k as int));
            }
            if k == 0 || self.windows[k].z_order > max {
                max = self.windows[k].z_order;
            }
            k = k + 1;
        }
        assert(old(self).windows@.subrange(0, old(self).windows@.len() as int) =~= old(self).windows@);
        proof {
            lemma_max_z_member(old(self).windows@);
            assert forall|m: int| 0 <= m < ws0.len() implies (#[trigger] ws0[m]).z_order <= max by {
                lemma_max_z_ge(old(self).windows@, m);
            }
            lemma_window_index_ids(old(self).windows@, ws0, window_id);
        }
        match self.find_window(window_id) {
            Some(j) => {
                self.windows[j].focused = true;
                self.windows[j].z_order = max + 1;
            },
            None => {},
        }
        self.focused_window = Some(window_id);
        self.dirty = true;
    }

    /// Moves a window to (x, y) at once; a moved window floats. The layout
    /// is recalculated.
    pub fn move_window(&mut self, window_id: u64, x: i32, y: i32)
        ensures
            window_index(old(self).windows@, window_id) == old(self).windows@.len() ==> *final(self) == *old(self),
            window_index(old(self).windows@, window_id) < old(self).windows@.len() ==> {
                let i = window_index(old(self).windows@, window_id);
                let ws1 = old(self).windows@.update(i, Window { target_x: x, target_y: y, x, y, is_floating: true, ..old(self).windows@[i] });
                &&& final(self).windows@.len() == ws1.len()
                &&& forall|k: int| 0 <= k < ws1.len() ==> #[trigger] final(self).windows@[k] == laid_out(params(*old(self)), ws1, k)
                &&& final(self).dirty
                &&& final(self).focused_window == old(self).focused_window
            },
    {
        match self.find_window(window_id) {
            Some(i) => {
                self.windows[i].target_x = x;
                self.windows[i].target_y = y;
                self.windows[i].x = x;
                self.windows[i].y = y;
                self.windows[i].is_floating = true;
                let ghost ws1 = self.windows@;
                let ghost p0 = params(*self);
                self.recalculate_layout();
                self.dirty = true;
                proof {
                    assert(p0 == params(*old(self)));
                    assert(ws1 =~= old(self).windows@.update(i as int, Window { target_x: x, target_y: y, x, y, is_floating: true, ..old(self).windows@[i as int] }));
                }
            },
            None => {},
        }
    }

    /// Window indices from bottom to top: by z-order, ties in window order.
    pub fn windows_sorted(&self) -> (r: Vec<usize>)
        ensures
            r@.len() == self.windows@.len(),
            forall|k: int| 0 <= k < r@.len() ==> #[trigger] r@[k] < self.windows@.len(),
            forall|a: int, b: int| 0 <= a < b < r@.len() ==> z_key_lt(self.windows@, #[trigger] r@[a], #[trigger] r@[b]),
    {
        let ws = &self.windows;
        let mut r: Vec<usize> = Vec::new();
        let mut i: usize = 0;
        while i < ws.len()
            invariant
                i <= ws@.len(),
                r@.len() == i,
                forall|k: int| 0 <= k < r@.len() ==> #[trigger] r@[k] < i,
                forall|a: int, b: int| 0 <= a < b < r@.len() ==> z_key_lt(ws@, #[trigger] r@[a], #[trigger] r@[b]),
            decreases ws@.len() - i,
        {
            let z = ws[i].z_order;
            let mut j: usize = r.len();
            while j > 0 && ws[r[j - 1]].z_order > z
                invariant
                    j <= r@.len(),
                    i < ws@.len(),
                    z == ws@[i as int].z_order,
                    forall|k: int| 0 <= k < r@.len() ==> #[trigger] r@[k] < i,
                    forall|k: int| j <= k < r@.len() ==> ws@[r@[k] as int].z_order > z,
                decreases j,
            {
                j = j - 1;
            }
            let ghost before = r@;
            r.insert(j, i);
            proof {
                assert forall|a: int, b: int| 0 <= a < b < r@.len() implies z_key_lt(ws@, #[trigger] r@[a], #[trigger] r@[b]) by {
                    if b < j {
                        assert(r@[a] == before[a] && r@[b] == before[b]);
                    } else if b == j {
                        assert(r@[a] == before[a]);
                        assert(ws@[before[j - 1] as int].z_order <= z);
                        if a < j - 1 {
                            assert(z_key_lt(ws@, before[a], before[j - 1]));
                        }
                    } else if a == j {
                        assert(r@[b] == before[b - 1]);
                    } else if a < j {
                        assert(r@[a] == before[a] && r@[b] == before[b - 1]);
                    } else {
                        assert(r@[a] == before[a - 1] && r@[b] == before[b - 1]);
                    }
                }
            }
            i = i + 1;
        }
        r
    }

    pub fn mark_clean(&mut self)
        ensures
            *final(self) == (DisplayServer { dirty: false, ..*old(self) }),
    {
        self.dirty = false;
    }

    /// Focuses the window after the focused one (the first when none is
    /// focused), wrapping around.
    pub fn focus_next(&mut self)
        requires
            forall|k: int| 0 <= k < old(self).windows@.len() ==> (#[trigger] old(self).windows@[k]).z_order < i32::MAX,
        ensures
            old(self).windows@.len() == 0 ==> *final(self) == *old(self),
            old(self).windows@.len() > 0 ==> {
                let cur = match old(self).focused_window {
                    Some(f) => if window_index(old(self).windows@, f) < old(self).windows@.len() { window_index(old(self).windows@, f) } else { 0 },
                    None => 0,
                };
                final(self).focused_window == Some(old(self).windows@[(cur + 1) % old(self).windows@.len() as int].id)
            },
    {
        let n = self.windows.len();
        if n == 0 {
            return;
        }
        let cur = match self.focused_window {
            Some(f) => match self.find_window(f) {
                Some(i) => i,
                None => 0,
            },
            None => 0,
        };
        let next = (cur + 1) % n;
        let id = self.windows[next].id;
        self.focus_window(id);
    }

    /// The first window showing the surface, for changing it in place.
    pub fn get_window_by_surface(&mut self, surface_id: u64) -> (r: Option<&mut Window>)
        ensures
            match r {
                Some(w) => exists|i: int| 0 <= i < old(self).windows@.len() && old(self).windows@[i].surface_id == surface_id
                    && (forall|k: int| 0 <= k < i ==> (#[trigger] old(self).windows@[k]).surface_id != surface_id)
                    && *w == old(self).windows@[i]
                    && final(self).windows@ == old(self).windows@.update(i, *final(w)),
                None => forall|k: int| 0 <= k < old(self).windows@.len() ==> (#[trigger] old(self).windows@[k]).surface_id != surface_id,
            },
    {
        let mut i: usize = 0;
        while i < self.windows.len()
            invariant
                *self == *old(self),
                i <= self.windows@.len(),
                forall|k: int| 0 <= k < i ==> (#[trigger] self.windows@[k]).surface_id != surface_id,
            decreases self.windows@.len() - i,
        {
            if self.windows[i].surface_id == surface_id {
                return Some(&mut self.windows[i]);
            }
            i = i + 1;
        }
        None
    }
}

} // verus!
