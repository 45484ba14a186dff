//! The desktop GUI: themes, windows (with the built-in terminal's input
//! and history) and the desktop that stacks and focuses them.
use vstd::prelude::*;
use crate::terminal::{trim_spaces, printable, Terminal};
use crate::surface::Surface;
use crate::font::{geom, string_pixels, draw_string};
use vstd::arithmetic::div_mod::lemma_fundamental_div_mod_converse;
use crate::text::{chars_of, string_from_chars, str_eq, to_string, push_str, push_decimal, decimal, chars_eq};

verus! {

/// Colours and sizes of the GUI.
#[derive(Clone, Copy, PartialEq, Eq, Structural)]
pub struct Theme {
    pub desktop_bg: u32,
    pub desktop_gradient_top: u32,
    pub desktop_gradient_bottom: u32,
    pub taskbar_bg: u32,
    pub taskbar_text: u32,
    pub taskbar_button_bg: u32,
    pub taskbar_button_hover: u32,
    pub taskbar_height: u32,
    pub window_bg: u32,
    pub window_border: u32,
    pub window_border_active_start: u32,
    pub window_border_active_end: u32,
    pub window_title_bg: u32,
    pub window_title_bg_inactive: u32,
    pub window_title_text: u32,
    pub window_title_height: u32,
    pub window_radius: u32,
    pub button_close: u32,
    pub button_maximize: u32,
    pub button_minimize: u32,
    pub button_hover: u32,
    pub text_primary: u32,
    pub text_secondary: u32,
    pub accent: u32,
    pub shadow: u32,
}

impl Theme {
    /// Dark theme.
    pub fn dark() -> (t: Theme)
        ensures
            t.taskbar_height == 40 && t.window_title_height == 30 && t.window_radius == 12,
            t.desktop_bg == 0x1a1a2e && t.accent == 0x0a84ff,
    {
        Theme {
            desktop_bg: 0x1a1a2e,
            desktop_gradient_top: 0x16213e,
            desktop_gradient_bottom: 0x0f3460,
            taskbar_bg: 0x252525,
            taskbar_text: 0xffffff,
            taskbar_button_bg: 0x3d3d3d,
            taskbar_button_hover: 0x4d4d4d,
            taskbar_height: 40,
            window_bg: 0x2d2d2d,
            window_border: 0x3d3d3d,
            window_border_active_start: 0x0a84ff,
            window_border_active_end: 0x00ff88,
            window_title_bg: 0x383838,
            window_title_bg_inactive: 0x2a2a2a,
            window_title_text: 0xffffff,
            window_title_height: 30,
            window_radius: 12,
            button_close: 0xff5f57,
            button_maximize: 0x28c840,
            button_minimize: 0xfebc2e,
            button_hover: 0x666666,
            text_primary: 0xffffff,
            text_secondary: 0xaaaaaa,
            accent: 0x0a84ff,
            shadow: 0x00000080,
        }
    }

    /// Mocha theme.
    pub fn hyprland() -> (t: Theme)
        ensures
            t == hyprland_theme(),
    {
        Theme {
            desktop_bg: 0x1e1e2e,
            desktop_gradient_top: 0x1e1e2e,
            desktop_gradient_bottom: 0x11111b,
            taskbar_bg: 0x181825,
            taskbar_text: 0xcdd6f4,
            taskbar_button_bg: 0x313244,
            taskbar_button_hover: 0x45475a,
            taskbar_height: 38,
            window_bg: 0x1e1e2e,
            window_border: 0x313244,
            window_border_active_start: 0x89b4fa,
            window_border_active_end: 0xcba6f7,
            window_title_bg: 0x181825,
            window_title_bg_inactive: 0x11111b,
            window_title_text: 0xcdd6f4,
            window_title_height: 28,
            window_radius: 12,
            button_close: 0xf38ba8,
            button_maximize: 0xa6e3a1,
            button_minimize: 0xf9e2af,
            button_hover: 0x585b70,
            text_primary: 0xcdd6f4,
            text_secondary: 0xa6adc8,
            accent: 0xcba6f7,
            shadow: 0x00000060,
        }
    }

    /// Neon theme.
    pub fn neon() -> (t: Theme)
        ensures
            t.taskbar_height == 44 && t.window_title_height == 28 && t.window_radius == 4,
            t.desktop_bg == 0x0d0221 && t.accent == 0xff00ff,
    {
        Theme {
            desktop_bg: 0x0d0221,
            desktop_gradient_top: 0x1a0533,
            desktop_gradient_bottom: 0x0d0221,
            taskbar_bg: 0x150734,
            taskbar_text: 0x00ff88,
            taskbar_button_bg: 0x2a0f4a,
            taskbar_button_hover: 0x3d1666,
            taskbar_height: 44,
            window_bg: 0x150734,
            window_border: 0xff00ff,
            window_border_active_start: 0xff00ff,
            window_border_active_end: 0x00ff88,
            window_title_bg: 0x2a0f4a,
            window_title_bg_inactive: 0x1a0533,
            window_title_text: 0x00ff88,
            window_title_height: 28,
            window_radius: 4,
            button_close: 0xff0055,
            button_maximize: 0x00ff88,
            button_minimize: 0xffff00,
            button_hover: 0xff00ff,
            text_primary: 0x00ff88,
            text_secondary: 0x00ccff,
            accent: 0xff00ff,
            shadow: 0xff00ff40,
        }
    }
}

/// The Mocha theme's values.
pub open spec fn hyprland_theme() -> Theme {
    Theme {
        desktop_bg: 0x1e1e2e,
        desktop_gradient_top: 0x1e1e2e,
        desktop_gradient_bottom: 0x11111b,
        taskbar_bg: 0x181825,
        taskbar_text: 0xcdd6f4,
        taskbar_button_bg: 0x313244,
        taskbar_button_hover: 0x45475a,
        taskbar_height: 38,
        window_bg: 0x1e1e2e,
        window_border: 0x313244,
        window_border_active_start: 0x89b4fa,
        window_border_active_end: 0xcba6f7,
        window_title_bg: 0x181825,
        window_title_bg_inactive: 0x11111b,
        window_title_text: 0xcdd6f4,
        window_title_height: 28,
        window_radius: 12,
        button_close: 0xf38ba8,
        button_maximize: 0xa6e3a1,
        button_minimize: 0xf9e2af,
        button_hover: 0x585b70,
        text_primary: 0xcdd6f4,
        text_secondary: 0xa6adc8,
        accent: 0xcba6f7,
        shadow: 0x00000060,
    }
}

/// The theme in use: Mocha.
pub fn current() -> (t: Theme)
    ensures
        t == hyprland_theme(),
{
    Theme::hyprland()
}

/// What a window shows.
#[derive(Clone, Copy, PartialEq, Eq, Structural)]
pub enum WindowType {
    Terminal,
    FileManager,
    Settings,
    About,
    Custom,
}

#[derive(Clone, Copy, PartialEq, Eq, Structural)]
pub enum WindowState {
    Normal,
    Minimized,
    Maximized,
}

/// The terminal window's scrollback, input line and input cursor.
pub struct TerminalData {
    pub lines: Vec<String>,
    pub input: String,
    pub cursor_pos: usize,
}

/// The scrollback after adding a line: at most the last 100 lines.
pub open spec fn with_line(ls: Seq<Seq<char>>, l: Seq<char>) -> Seq<Seq<char>> {
    let n = ls.push(l);
    if n.len() > 100 { n.drop_first() } else { n }
}

/// The terminal's reply to a command line, as lines added to the
/// scrollback after the echo `> <line>`; `None` clears the scrollback.
pub open spec fn gui_command(cmd: Seq<char>, mem: (u64, u64, u64)) -> Option<Seq<Seq<char>>> {
    let t = trim_spaces(cmd);
    if t == "help"@ {
        Some(seq!["Commands: help, clear, date, mem, exit"@])
    } else if t == "clear"@ {
        None
    } else if t == "date"@ {
        Some(seq!["Date: 2024-12-12 (simulated)"@])
    } else if t == "mem"@ {
        Some(seq!["Memory: "@ + decimal(mem.0 as nat) + " total, "@ + decimal(mem.1 as nat) + " used, "@
            + decimal(mem.2 as nat) + " free"@])
    } else if t == "exit"@ {
        Some(seq!["Use 'q' to exit GUI"@])
    } else if t.len() == 0 {
        Some(seq![])
    } else {
        Some(seq!["Unknown: "@ + cmd])
    }
}

impl TerminalData {
    /// The scrollback's lines.
    pub open spec fn lines_view(&self) -> Seq<Seq<char>> {
        self.lines@.map_values(|s: String| s@)
    }

    /// The input holds printable characters and the cursor lies within it.
    pub open spec fn wf(&self) -> bool {
        &&& self.cursor_pos <= self.input@.len()
        &&& forall|i: int| 0 <= i < self.input@.len() ==> printable(#[trigger] self.input@[i])
    }

    /// A terminal showing its banner.
    pub fn new() -> (t: Self)
        ensures
            t.wf(),
            t.lines_view() == seq!["Astral OS Terminal v1.0"@, "Type 'help' for commands"@, ""@],
            t.input@.len() == 0 && t.cursor_pos == 0,
    {
        let mut lines: Vec<String> = Vec::new();
        lines.push(to_string("Astral OS Terminal v1.0"));
        lines.push(to_string("Type 'help' for commands"));
        lines.push(to_string(""));
        let t = TerminalData { lines, input: String::new(), cursor_pos: 0 };
        assert(t.lines_view() =~= seq!["Astral OS Terminal v1.0"@, "Type 'help' for commands"@, ""@]);
        t
    }

    /// Adds a line, keeping the last 100.
    pub fn add_line(&mut self, line: &str)
        ensures
            final(self).lines_view() == with_line(old(self).lines_view(), line@),
            final(self).input@ == old(self).input@ && final(self).cursor_pos == old(self).cursor_pos,
    {
        self.lines.push(to_string(line));
        if self.lines.len() > 100 {
            self.lines.remove(0);
        }
        assert(self.lines_view() =~= with_line(old(self).lines_view(), line@));
    }

    /// Runs the input line: echoes it, adds the command's reply (`mem`
    /// reports the given total, used and free memory) and clears the input.
    pub fn process_input(&mut self, mem: (u64, u64, u64))
        requires
            old(self).wf(),
        ensures
            final(self).wf(),
            final(self).input@.len() == 0 && final(self).cursor_pos == 0,
            ({
                let echoed = with_line(old(self).lines_view(), "> "@ + old(self).input@);
                match gui_command(old(self).input@, mem) {
                    None => final(self).lines_view().len() == 0,
                    Some(reply) => final(self).lines_view() == add_lines(echoed, reply),
                }
            }),
    {
        let cmd = chars_of(self.input.as_str());
        let mut echo = to_string("> ");
        push_str(&mut echo, self.input.as_str());
        self.add_line(echo.as_str());
        let t = Terminal::trimmed(&cmd);
        proof {
            reveal_strlit("help");
            reveal_strlit("clear");
            reveal_strlit("date");
            reveal_strlit("mem");
            reveal_strlit("exit");
            reveal_strlit("> ");
        }
        let ts = string_from_chars(&t);
        let ghost echoed = self.lines_view();
        if str_eq(ts.as_str(), "help") {
            self.add_line("Commands: help, clear, date, mem, exit");
            proof { lemma_add_one(echoed, "Commands: help, clear, date, mem, exit"@); }
        } else if str_eq(ts.as_str(), "clear") {
            self.lines.clear();
            assert(self.lines_view() =~= Seq::<Seq<char>>::empty());
        } else if str_eq(ts.as_str(), "date") {
            self.add_line("Date: 2024-12-12 (simulated)");
            proof { lemma_add_one(echoed, "Date: 2024-12-12 (simulated)"@); }
        } else if str_eq(ts.as_str(), "mem") {
            let mut line = to_string("Memory: ");
            push_decimal(&mut line, mem.0);
            push_str(&mut line, " total, ");
            push_decimal(&mut line, mem.1);
            push_str(&mut line, " used, ");
            push_decimal(&mut line, mem.2);
            push_str(&mut line, " free");
            let ghost l = line@;
            self.add_line(line.as_str());
            proof { lemma_add_one(echoed, l); }
        } else if str_eq(ts.as_str(), "exit") {
            self.add_line("Use 'q' to exit GUI");
            proof { lemma_add_one(echoed, "Use 'q' to exit GUI"@); }
        } else if ts.unicode_len() == 0 {
            assert(self.lines_view() == add_lines(echoed, seq![]));
        } else {
            let mut line = to_string("Unknown: ");
            let c = string_from_chars(&cmd);
            push_str(&mut line, c.as_str());
            let ghost l = line@;
            self.add_line(line.as_str());
            proof { lemma_add_one(echoed, l); }
        }
        self.input = String::new();
        self.cursor_pos = 0;
    }
}

proof fn lemma_add_one(ls: Seq<Seq<char>>, l: Seq<char>)
    ensures
        add_lines(ls, seq![l]) == with_line(ls, l),
{
    let one = seq![l];
    assert(one.drop_last() =~= Seq::<Seq<char>>::empty());
    assert(add_lines(ls, one.drop_last()) == ls);
    assert(one.last() == l);
}

/// The scrollback after adding the lines one by one.
pub open spec fn add_lines(ls: Seq<Seq<char>>, new: Seq<Seq<char>>) -> Seq<Seq<char>>
    decreases new.len(),
{
    if new.len() == 0 {
        ls
    } else {
        with_line(add_lines(ls, new.drop_last()), new.last())
    }
}

/// The kind of window a title opens.
pub open spec fn window_type_of(title: Seq<char>) -> WindowType {
    if title == "Terminal"@ {
        WindowType::Terminal
    } else if title == "Files"@ || title == "File Manager"@ {
        WindowType::FileManager
    } else if title == "Settings"@ {
        WindowType::Settings
    } else if title == "About"@ {
        WindowType::About
    } else {
        WindowType::Custom
    }
}

/// A desktop window.
pub struct Window {
    pub id: u64,
    pub title: String,
    pub x: i32,
    pub y: i32,
    pub width: u32,
    pub height: u32,
    pub state: WindowState,
    pub focused: bool,
    pub z_order: i32,
    pub window_type: WindowType,
    pub terminal: Option<TerminalData>,
    pub saved_x: i32,
    pub saved_y: i32,
    pub saved_w: u32,
    pub saved_h: u32,
}

/// The terminal after a key: Enter runs the input, backspace deletes
/// before the cursor, a printable key is inserted at the cursor.
pub open spec fn term_after_key(t: TerminalData, key: u8, mem: (u64, u64, u64), n: TerminalData) -> bool {
    if key == 10 {
        &&& n.input@.len() == 0 && n.cursor_pos == 0
        &&& match gui_command(t.input@, mem) {
            None => n.lines_view().len() == 0,
            Some(reply) => n.lines_view() == add_lines(with_line(t.lines_view(), "> "@ + t.input@), reply),
        }
    } else if key == 8 || key == 127 {
        &&& n.lines_view() == t.lines_view()
        &&& t.cursor_pos > 0 ==> n.input@ == t.input@.remove(t.cursor_pos - 1) && n.cursor_pos == t.cursor_pos - 1
        &&& t.cursor_pos == 0 ==> n.input@ == t.input@ && n.cursor_pos == 0
    } else if 32 <= key <= 126 {
        &&& n.lines_view() == t.lines_view()
        &&& n.input@ == t.input@.insert(t.cursor_pos as int, key as char)
        &&& n.cursor_pos == t.cursor_pos + 1
    } else {
        n.lines_view() == t.lines_view() && n.input@ == t.input@ && n.cursor_pos == t.cursor_pos
    }
}

impl Window {
    /// A window of the given geometry; its title decides what it shows, and
    /// a terminal window starts its terminal.
    pub fn new(id: u64, title: &str, x: i32, y: i32, width: u32, height: u32) -> (w: Self)
        ensures
            w.id == id && w.title@ == title@ && w.x == x && w.y == y && w.width == width && w.height == height,
            w.state == WindowState::Normal && !w.focused && w.z_order == 0,
            w.window_type == window_type_of(title@),
            w.window_type == WindowType::Terminal <==> w.terminal is Some,
            w.terminal matches Some(t) ==> t.wf() && t.input@.len() == 0 && t.cursor_pos == 0
                && t.lines_view() == seq!["Astral OS Terminal v1.0"@, "Type 'help' for commands"@, ""@],
            w.saved_x == x && w.saved_y == y && w.saved_w == width && w.saved_h == height,
    {
        proof {
            reveal_strlit("Terminal");
            reveal_strlit("Files");
            reveal_strlit("File Manager");
            reveal_strlit("Settings");
            reveal_strlit("About");
        }
        let window_type = if str_eq(title, "Terminal") {
            WindowType::Terminal
        } else if str_eq(title, "Files") || str_eq(title, "File Manager") {
            WindowType::FileManager
        } else if str_eq(title, "Settings") {
            WindowType::Settings
        } else if str_eq(title, "About") {
            WindowType::About
        } else {
            WindowType::Custom
        };
        let terminal = if window_type == WindowType::Terminal { Some(TerminalData::new()) } else { None };
        Window {
            id,
            title: to_string(title),
            x,
            y,
            width,
            height,
            state: WindowState::Normal,
            focused: false,
            z_order: 0,
            window_type,
            terminal,
            saved_x: x,
            saved_y: y,
            saved_w: width,
            saved_h: height,
        }
    }

    /// Passes a key to the window's terminal, if it has one; `mem` is what
    /// its `mem` command reports.
    pub fn handle_key(&mut self, key: u8, mem: (u64, u64, u64))
        requires
            old(self).terminal matches Some(t) ==> t.wf() && t.input@.len() < usize::MAX,
        ensures
            old(self).terminal is None ==> *final(self) == *old(self),
            old(self).terminal matches Some(t) ==> (final(self).terminal matches Some(n) && n.wf() && term_after_key(t, key, mem, n)),
            (Window { terminal: None, ..*final(self) }) == (Window { terminal: None, ..*old(self) }),
    {
        match self.terminal.take() {
            None => {},
            Some(mut term) => {
                if key == 10 {
                    term.process_input(mem);
                } else if key == 8 || key == 127 {
                    if term.cursor_pos > 0 {
                        let mut cs = chars_of(term.input.as_str());
                        cs.remove(term.cursor_pos - 1);
                        term.input = string_from_chars(&cs);
                        term.cursor_pos = term.cursor_pos - 1;
                    }
                } else if 32 <= key && key <= 126 {
                    let mut cs = chars_of(term.input.as_str());
                    let c = key as char;
                    cs.insert(term.cursor_pos, c);
                    term.input = string_from_chars(&cs);
                    term.cursor_pos = term.cursor_pos + 1;
                }
                self.terminal = Some(term);
            },
        }
    }

    /// The area inside the border and below the title bar.
    pub fn content_bounds(&self) -> (r: (i32, i32, u32, u32))
        requires
            self.x < i32::MAX,
            self.y + hyprland_theme().window_title_height <= i32::MAX,
            self.width >= 2,
        ensures
            r == (
                (self.x + 1) as i32,
                (self.y + hyprland_theme().window_title_height) as i32,
                (self.width - 2) as u32,
                if self.height >= hyprland_theme().window_title_height + 1 { (self.height - hyprland_theme().window_title_height - 1) as u32 } else { 0 },
            ),
    {
        let theme = current();
        let title_h = theme.window_title_height;
        (self.x + 1, self.y + title_h as i32, self.width - 2, self.height.saturating_sub(title_h + 1))
    }

    /// Whether the point lies in the window.
    pub fn point_in_window(&self, px: i32, py: i32) -> (r: bool)
        requires
            i32::MIN <= self.x + (self.width as i32) <= i32::MAX,
            i32::MIN <= self.y + (self.height as i32) <= i32::MAX,
        ensures
            r == (px >= self.x && px < self.x + (self.width as i32) && py >= self.y && py < self.y + (self.height as i32)),
    {
        px >= self.x && px < self.x + self.width as i32 && py >= self.y && py < self.y + self.height as i32
    }

    /// Maximizes a window over the screen above the taskbar, or restores a
    /// maximized one to where it was.
    pub fn toggle_maximize(&mut self, screen_w: u32, screen_h: u32, taskbar_h: u32)
        requires
            old(self).state != WindowState::Maximized ==> screen_h >= taskbar_h,
        ensures
            old(self).state == WindowState::Maximized ==> *final(self) == (Window {
                x: old(self).saved_x, y: old(self).saved_y, width: old(self).saved_w, height: old(self).saved_h,
                state: WindowState::Normal, ..*old(self) }),
            old(self).state != WindowState::Maximized ==> *final(self) == (Window {
                saved_x: old(self).x, saved_y: old(self).y, saved_w: old(self).width, saved_h: old(self).height,
                x: 0, y: 0, width: screen_w, height: (screen_h - taskbar_h) as u32,
                state: WindowState::Maximized, ..*old(self) }),
    {
        match self.state {
            WindowState::Maximized => {
                self.x = self.saved_x;
                self.y = self.saved_y;
                self.width = self.saved_w;
                self.height = self.saved_h;
                self.state = WindowState::Normal;
            },
            _ => {
                self.saved_x = self.x;
                self.saved_y = self.y;
                self.saved_w = self.width;
                self.saved_h = self.height;
                self.x = 0;
                self.y = 0;
                self.width = screen_w;
                self.height = screen_h - taskbar_h;
                self.state = WindowState::Maximized;
            },
        }
    }
}

/// Index of the first window with the id, or the number of windows.
pub open spec fn index_of(ws: Seq<Window>, id: u64) -> int
    decreases ws.len(),
{
    if ws.len() == 0 {
        0
    } else if ws[0].id == id {
        0
    } else {
        1 + index_of(ws.drop_first(), id)
    }
}

proof fn lemma_index_of(ws: Seq<Window>, id: u64, k: int)
    requires
        0 <= k <= ws.len(),
        forall|j: int| 0 <= j < k ==> (#[trigger] ws[j]).id != id,
        k == ws.len() || ws[k].id == id,
    ensures
        index_of(ws, id) == k,
    decreases ws.len(),
{
    if ws.len() > 0 && k > 0 {
        assert forall|j: int| 0 <= j < k - 1 implies (#[trigger] ws.drop_first()[j]).id != id by {
            assert(ws.drop_first()[j] == ws[j + 1]);
        }
        lemma_index_of(ws.drop_first(), id, k - 1);
    }
}

/// The windows with the first one with the id changed to `focused`.
pub open spec fn set_focus(ws: Seq<Window>, id: u64, focused: bool) -> Seq<Window> {
    let i = index_of(ws, id);
    if 0 <= i < ws.len() { ws.update(i, Window { focused, ..ws[i] }) } else { ws }
}

/// The windows whose id is not `id`, in order.
pub open spec fn others(ws: Seq<Window>, id: u64) -> Seq<Window>
    decreases ws.len(),
{
    if ws.len() == 0 {
        ws
    } else if ws.last().id != id {
        others(ws.drop_last(), id).push(ws.last())
    } else {
        others(ws.drop_last(), id)
    }
}

/// The highest z-order of the windows (0 when there are none).
pub open spec fn top_z(ws: Seq<Window>) -> int
    decreases ws.len(),
{
    if ws.len() == 0 {
        0
    } else if ws.len() == 1 {
        ws[0].z_order as int
    } else {
        let m = top_z(ws.drop_last());
        if ws.last().z_order > m { ws.last().z_order as int } else { m }
    }
}

/// The desktop: its windows, focus and pointer.
pub struct Desktop {
    pub screen_width: u32,
    pub screen_height: u32,
    pub windows: Vec<Window>,
    pub next_window_id: u64,
    pub focused_window: Option<u64>,
    pub cursor_x: i32,
    pub cursor_y: i32,
    pub cursor_visible: bool,
    pub dirty: bool,
}

impl Desktop {
    /// An empty desktop with the pointer at the screen's centre.
    pub fn new(screen_width: u32, screen_height: u32) -> (d: Self)
        ensures
            d.screen_width == screen_width && d.screen_height == screen_height,
            d.windows@.len() == 0 && d.next_window_id == 1 && d.focused_window is None,
            d.cursor_x == (screen_width / 2) as i32 && d.cursor_y == (screen_height / 2) as i32,
            d.cursor_visible && d.dirty,
    {
        Desktop {
            screen_width,
            screen_height,
            windows: Vec::new(),
            next_window_id: 1,
            focused_window: None,
            cursor_x: (screen_width / 2) as i32,
            cursor_y: (screen_height / 2) as i32,
            cursor_visible: true,
            dirty: true,
        }
    }

    fn find(&self, id: u64) -> (r: Option<usize>)
        ensures
            r is None ==> index_of(self.windows@, id) == self.windows@.len(),
            r matches Some(i) ==> i == index_of(self.windows@, id) && i < self.windows@.len() && self.windows@[i as int].id == id,
    {
        let mut i: usize = 0;
        while i < self.windows.len()
            invariant
                i <= self.windows@.len(),
                forall|j: int| 0 <= j < i ==> (#[trigger] self.windows@[j]).id != id,
            decreases self.windows@.len() - i,
        {
            if self.windows[i].id == id {
                proof { lemma_index_of(self.windows@, id, i as int); }
                return Some(i);
            }
            i = i + 1;
        }
        proof { lemma_index_of(self.windows@, id, self.windows@.len() as int); }
        None
    }

    fn set_focused(&mut self, id: u64, focused: bool)
        ensures
            final(self).windows@ == set_focus(old(self).windows@, id, focused),
            *final(self) == (Desktop { windows: final(self).windows, ..*old(self) }),
    {
        match self.find(id) {
            Some(i) => {
                self.windows[i].focused = focused;
            },
            None => {},
        }
    }

    /// Opens a focused window on top of the others and returns its id.
    pub fn create_window(&mut self, title: &str, x: i32, y: i32, width: u32, height: u32) -> (id: u64)
        requires
            old(self).next_window_id < u64::MAX,
            old(self).windows@.len() <= i32::MAX,
        ensures
            id == old(self).next_window_id,
            final(self).next_window_id == id + 1,
            final(self).focused_window == Some(id),
            final(self).dirty,
            ({
                let ws0 = match old(self).focused_window { Some(f) => set_focus(old(self).windows@, f, false), None => old(self).windows@ };
                &&& final(self).windows@.len() == ws0.len() + 1
                &&& final(self).windows@.drop_last() == ws0
                &&& ({
                    let w = final(self).windows@.last();
                    &&& w.id == id && w.title@ == title@ && w.x == x && w.y == y && w.width == width && w.height == height
                    &&& w.focused && w.z_order == old(self).windows@.len() as i32 && w.state == WindowState::Normal
                    &&& w.window_type == window_type_of(title@)
                    &&& (w.window_type == WindowType::Terminal <==> w.terminal is Some)
                })
            }),
    {
        let id = self.next_window_id;
        self.next_window_id = self.next_window_id + 1;
        let mut window = Window::new(id, title, x, y, width, height);
        window.z_order = self.windows.len() as i32;
        window.focused = true;
        if let Some(f) = self.focused_window {
            self.set_focused(f, false);
        }
        self.focused_window = Some(id);
        let ghost ws0 = self.windows@;
        self.windows.push(window);
        assert(self.windows@.drop_last() =~= ws0);
        self.dirty = true;
        id
    }

    /// Closes every window with the id; when it had the focus, the last
    /// window takes it.
    pub fn close_window(&mut self, id: u64)
        ensures
            final(self).dirty,
            ({
                let rest = others(old(self).windows@, id);
                &&& old(self).focused_window == Some(id) && rest.len() > 0 ==> final(self).focused_window == Some(rest.last().id)
                    && final(self).windows@ == set_focus(rest, rest.last().id, true)
                &&& old(self).focused_window == Some(id) && rest.len() == 0 ==> final(self).focused_window is None
                    && final(self).windows@ == rest
                &&& old(self).focused_window != Some(id) ==> final(self).focused_window == old(self).focused_window
                    && final(self).windows@ == rest
            }),
            final(self).next_window_id == old(self).next_window_id,
    {
        let ghost src = self.windows@;
        let mut i: usize = 0;
        let ghost mut j: int = 0;
        assert(src.subrange(0, 0) =~= Seq::<Window>::empty());
        assert(src.subrange(0, src.len() as int) =~= src);
        while i < self.windows.len()
            invariant
                src == old(self).windows@,
                self.focused_window == old(self).focused_window,
                self.next_window_id == old(self).next_window_id,
                0 <= j <= src.len(),
                i == others(src.subrange(0, j), id).len(),
                self.windows@ == others(src.subrange(0, j), id) + src.subrange(j, src.len() as int),
            decreases self.windows@.len() - i,
        {
            let ghost w = others(src.subrange(0, j), id);
            assert(self.windows@[i as int] == src[j]);
            assert(src.subrange(0, j + 1).drop_last() =~= src.subrange(0, j));
            assert(src.subrange(0, j + 1).last() == src[j]);
            if self.windows[i].id == id {
                self.windows.remove(i);
                assert(self.windows@ =~= w + src.subrange(j + 1, src.len() as int));
            } else {
                i = i + 1;
                assert(self.windows@ =~= w.push(src[j]) + src.subrange(j + 1, src.len() as int));
            }
            proof { j = j + 1; }
        }
        proof {
            assert(src.subrange(j, src.len() as int) =~= Seq::<Window>::empty());
            assert(self.windows@ =~= others(src, id));
        }
        if self.focused_window == Some(id) {
            let n = self.windows.len();
            if n > 0 {
                let nf = self.windows[n - 1].id;
                self.focused_window = Some(nf);
                self.set_focused(nf, true);
            } else {
                self.focused_window = None;
            }
        }
        self.dirty = true;
    }

    /// Gives a window the focus and raises it above all others.
    pub fn focus_window(&mut self, id: u64)
        requires
            forall|k: int| 0 <= k < old(self).windows@.len() ==> (#[trigger] old(self).windows@[k]).z_order < i32::MAX,
        ensures
            ({
                let ws0 = match old(self).focused_window { Some(f) => set_focus(old(self).windows@, f, false), None => old(self).windows@ };
                let j = index_of(ws0, id);
                &&& j < ws0.len() ==> final(self).windows@ == ws0.update(j, Window {
                    focused: true, z_order: (top_z(old(self).windows@) + 1) as i32, ..ws0[j] })
                &&& j >= ws0.len() ==> final(self).windows@ == ws0
            }),
            *final(self) == (Desktop { windows: final(self).windows, focused_window: Some(id), dirty: true, ..*old(self) }),
    {
        if let Some(f) = self.focused_window {
            self.set_focused(f, false);
        }
        let ghost ws0 = self.windows@;
        let mut max: i32 = 0;
        let mut k: usize = 0;
        while k < self.windows.len()
            invariant
                k <= self.windows@.len(),
                self.windows@ == ws0,
                ws0.len() == old(self).windows@.len(),
                forall|m: int| 0 <= m < ws0.len() ==> (#[trigger] ws0[m]).z_order == old(self).windows@[m].z_order,
                max == top_z(old(self).windows@.subrange(0, k as int)),
            decreases self.windows@.len() - k,
        {
            proof {
                let q = old(self).windows@.subrange(0, k + 1);
                assert(q.drop_last() =~= old(self).windows@.subrange(0, k as int));
            }
            if k == 0 || self.windows[k].z_order > max {
                max = self.windows[k].z_order;
            }
            k = k + 1;
        }
        assert(old(self).windows@.subrange(0, old(self).windows@.len() as int) =~= old(self).windows@);
        proof { lemma_top_z_member(old(self).windows@); }
        match self.find(id) {
            Some(j) => {
                self.windows[j].focused = true;
                self.windows[j].z_order = max + 1;
            },
            None => {},
        }
        self.focused_window = Some(id);
        self.dirty = true;
    }

    /// Handles a key: Tab focuses the next window; `c` closes the focused
    /// window unless it is a terminal; other keys go to the focused window.
    pub fn handle_key(&mut self, key: u8, mem: (u64, u64, u64))
        requires
            forall|k: int| 0 <= k < old(self).windows@.len() ==> (#[trigger] old(self).windows@[k]).z_order < i32::MAX,
            forall|k: int| 0 <= k < old(self).windows@.len() ==> ((#[trigger] old(self).windows@[k]).terminal matches Some(t)
                ==> t.wf() && t.input@.len() < usize::MAX),
        ensures
            key == 9 && old(self).windows@.len() > 0 ==> {
                let cur = match old(self).focused_window {
                    Some(f) => if index_of(old(self).windows@, f) < old(self).windows@.len() { index_of(old(self).windows@, f) } else { 0 },
                    None => 0,
                };
                final(self).focused_window == Some(old(self).windows@[(cur + 1) % old(self).windows@.len() as int].id)
            },
            !(key == 9 && old(self).windows@.len() > 0) && key == 0x63 ==> (old(self).focused_window matches Some(f)
                ==> (!(index_of(old(self).windows@, f) < old(self).windows@.len() && old(self).windows@[index_of(old(self).windows@, f)].terminal is Some)
                ==> final(self).windows@ == (if others(old(self).windows@, f).len() > 0 {
                    set_focus(others(old(self).windows@, f), others(old(self).windows@, f).last().id, true)
                } else {
                    others(old(self).windows@, f)
                }))),
    {
        let n = self.windows.len();
        if key == 9 && n > 0 {
            let cur = match self.focused_window {
                Some(f) => match self.find(f) {
                    Some(i) => i,
                    None => 0,
                },
                None => 0,
            };
            let next = (cur + 1) % n;
            let id = self.windows[next].id;
            self.focus_window(id);
            return;
        }
        if key == 0x63 {
            if let Some(id) = self.focused_window {
                let is_terminal = match self.find(id) {
                    Some(i) => self.windows[i].terminal.is_some(),
                    None => false,
                };
                if !is_terminal {
                    self.close_window(id);
                    return;
                }
            }
        }
        if let Some(id) = self.focused_window {
            if let Some(i) = self.find(id) {
                self.windows[i].handle_key(key, mem);
                self.dirty = true;
            }
        }
    }

    /// Input is delivered through `handle_key`; nothing to poll.
    pub fn handle_input(&mut self)
        ensures
            *final(self) == *old(self),
    {
    }

    pub fn needs_redraw(&self) -> (r: bool)
        ensures
            r == self.dirty,
    {
        self.dirty
    }
}

proof fn lemma_top_z_member(ws: Seq<Window>)
    ensures
        ws.len() == 0 ==> top_z(ws) == 0,
        ws.len() > 0 ==> exists|k: int| 0 <= k < ws.len() && top_z(ws) == (#[trigger] ws[k]).z_order,
    decreases ws.len(),
{
    if ws.len() > 1 {
        lemma_top_z_member(ws.drop_last());
        if ws.last().z_order <= top_z(ws.drop_last()) {
            let k = choose|k: int| 0 <= k < ws.drop_last().len() && top_z(ws.drop_last()) == (#[trigger] ws.drop_last()[k]).z_order;
            assert(ws[k] == ws.drop_last()[k]);
        } else {
            assert(top_z(ws) == ws[ws.len() - 1].z_order);
        }
    } else if ws.len() == 1 {
        assert(top_z(ws) == ws[0].z_order);
    }
}

/// The file list of the desktop's file browser and the selected entry.
pub struct FileBrowser {
    pub files: Vec<String>,
    pub selected: usize,
}

impl FileBrowser {
    /// A browser over `files` with the first one selected.
    pub fn new(files: Vec<String>) -> (b: Self)
        ensures
            b.files@ == files@,
            b.selected == 0,
    {
        FileBrowser { files, selected: 0 }
    }

    /// Takes a fresh file list; a selection past its end moves to the last
    /// file (it stays when the list is empty).
    pub fn refresh(&mut self, files: Vec<String>)
        ensures
            final(self).files@ == files@,
            (old(self).selected >= files@.len() && files@.len() > 0) ==> final(self).selected == files@.len() - 1,
            !(old(self).selected >= files@.len() && files@.len() > 0) ==> final(self).selected == old(self).selected,
    {
        self.files = files;
        if self.selected >= self.files.len() && self.files.len() > 0 {
            self.selected = self.files.len() - 1;
        }
    }

    /// Selects the previous file, if any.
    pub fn move_up(&mut self)
        ensures
            final(self).files@ == old(self).files@,
            final(self).selected == if old(self).selected > 0 { (old(self).selected - 1) as usize } else { 0 },
    {
        if self.selected > 0 {
            self.selected = self.selected - 1;
        }
    }

    /// Selects the next file, if any.
    pub fn move_down(&mut self)
        ensures
            final(self).files@ == old(self).files@,
            final(self).selected == if old(self).selected + 1 < old(self).files@.len() {
                (old(self).selected + 1) as usize
            } else {
                old(self).selected
            },
    {
        if self.selected < self.files.len() && self.selected + 1 < self.files.len() {
            self.selected = self.selected + 1;
        }
    }

    /// The selected file's name.
    pub fn selected_file(&self) -> (r: Option<&String>)
        ensures
            self.selected < self.files@.len() ==> r == Some(&self.files@[self.selected as int]),
            self.selected >= self.files@.len() ==> r is None,
    {
        if self.selected < self.files.len() {
            Some(&self.files[self.selected])
        } else {
            None
        }
    }
}

/// Whether screen point (mx, my) lies on window `w`.
pub open spec fn window_hit(w: crate::display::Window, mx: int, my: int) -> bool {
    w.x <= mx < w.x + w.width && w.y <= my < w.y + w.height
}

/// The topmost window under the point among positions `0..k` of the
/// back-to-front order: its id and the point relative to its corner.
pub open spec fn hit_from(ws: Seq<crate::display::Window>, order: Seq<usize>, k: int, mx: int, my: int) -> Option<(u64, int, int)>
    decreases k,
{
    if k <= 0 {
        None
    } else {
        let w = ws[order[k - 1] as int];
        if window_hit(w, mx, my) {
            Some((w.id, mx - w.x, my - w.y))
        } else {
            hit_from(ws, order, k - 1, mx, my)
        }
    }
}

/// The window under the mouse: the topmost one (highest in the z-order)
/// whose rectangle holds (mx, my), with the point relative to the window.
pub fn hit_test_window(server: &crate::display::DisplayServer, mx: i32, my: i32) -> (r: Option<(u64, i32, i32)>)
    requires
        forall|i: int| 0 <= i < server.windows@.len() ==> #[trigger] server.windows@[i].x + server.windows@[i].width <= i32::MAX
            && server.windows@[i].y + server.windows@[i].height <= i32::MAX && server.windows@[i].width <= i32::MAX
            && server.windows@[i].height <= i32::MAX,
    ensures
        exists|order: Seq<usize>| #[trigger] crate::render::z_sorted(server.windows@, order) && match (r, hit_from(server.windows@, order, order.len() as int, mx as int, my as int)) {
            (None, None) => true,
            (Some((id, dx, dy)), Some((id2, dx2, dy2))) => id == id2 && dx == dx2 && dy == dy2,
            _ => false,
        },
{
    let order = server.windows_sorted();
    let mut k: usize = order.len();
    while k > 0
        invariant
            k <= order@.len(),
            crate::render::z_sorted(server.windows@, order@),
            forall|i: int| 0 <= i < server.windows@.len() ==> #[trigger] server.windows@[i].x + server.windows@[i].width <= i32::MAX
                && server.windows@[i].y + server.windows@[i].height <= i32::MAX && server.windows@[i].width <= i32::MAX
                && server.windows@[i].height <= i32::MAX,
            hit_from(server.windows@, order@, order@.len() as int, mx as int, my as int) == hit_from(server.windows@, order@, k as int, mx as int, my as int),
        decreases k,
    {
        let w = &server.windows[order[k - 1]];
        let x = w.x as i64;
        let y = w.y as i64;
        if mx as i64 >= x && (mx as i64) < x + w.width as i64 && my as i64 >= y && (my as i64) < y + w.height as i64 {
            let r = Some((w.id, (mx as i64 - x) as i32, (my as i64 - y) as i32));
            assert(hit_from(server.windows@, order@, k as int, mx as int, my as int) == Some((w.id, mx - w.x, my - w.y)));
            assert(crate::render::z_sorted(server.windows@, order@));
            return r;
        }
        k = k - 1;
    }
    None
}

/// What the desktop loop remembers between events: the file browser's
/// window, whether the calculator and the terminal are open and in which
/// windows, the left button's last state, and the window being dragged
/// with the point where it was grabbed.
#[derive(Clone, Copy)]
pub struct DesktopState {
    pub files_id: Option<u64>,
    pub calculator_open: bool,
    pub calc_window_id: Option<u64>,
    pub terminal_open: bool,
    pub term_window_id: Option<u64>,
    pub last_mouse_pressed: bool,
    pub dragging: Option<(u64, i32, i32)>,
}

/// What happens to the desktop.
#[derive(Clone, Copy)]
pub enum DesktopEvent {
    /// The pointer's place, whether the left button is down, and the window
    /// under the pointer with the point relative to it (`hit_test_window`).
    Pointer { x: i32, y: i32, pressed: bool, hit: Option<(u64, i32, i32)> },
    /// A key, with the window that has the focus.
    Key { key: u8, focused: Option<u64> },
    /// The window made for the calculator (or the terminal) after an open
    /// request, if one could be made.
    Opened { calculator: bool, id: Option<u64> },
}

/// What the loop has to do after an event.
#[derive(Clone, Copy)]
pub enum DesktopAction {
    Nothing,
    /// Focus a window, then move a window to a place (each when given).
    Pointer { focus: Option<u64>, move_to: Option<(u64, i32, i32)> },
    Quit,
    FocusNext,
    Focus(u64),
    /// Make the calculator's window and report it with `Opened`.
    OpenCalculator,
    /// Make the terminal's window and report it with `Opened`.
    OpenTerminal,
    Close(u64),
    ToggleLayout,
    CalculatorKey(u8),
    TerminalKey(u8),
    BrowserDown,
    BrowserUp,
    BrowserRefresh,
    /// Delete the selected file, if any, and refresh the browser.
    DeleteSelected,
}

/// The pointer event: a press focuses the window under the pointer and,
/// on its title bar (the top 30 rows), starts dragging it; a release stops
/// dragging; while the button is down the dragged window follows the
/// pointer.
pub open spec fn pointer_next(s: DesktopState, x: i32, y: i32, pressed: bool, hit: Option<(u64, i32, i32)>)
    -> (DesktopState, DesktopAction) {
    let press = pressed && !s.last_mouse_pressed;
    let focus = if press && hit is Some { Some((hit->0).0) } else { None };
    let grabbed = if press && hit is Some && (hit->0).2 < 30 { hit } else { s.dragging };
    let dragging = if !pressed && s.last_mouse_pressed { None } else { grabbed };
    let move_to = if pressed && dragging is Some {
        Some(((dragging->0).0, (x - (dragging->0).1) as i32, (y - (dragging->0).2) as i32))
    } else {
        None
    };
    (DesktopState { last_mouse_pressed: pressed, dragging, ..s }, DesktopAction::Pointer { focus, move_to })
}

/// A key: while the calculator's or the terminal's window has the focus,
/// keys other than Escape and `q` go to it; otherwise `q` and Escape quit,
/// Tab moves the focus, `1`/`c` and `2` open (or focus) the calculator and
/// the terminal, `x` closes the focused window, space switches the layout,
/// and in the file browser `j`/Down, `k`/Up, `r` and `d` move, refresh and
/// delete.
pub open spec fn key_next(s: DesktopState, key: u8, focused: Option<u64>) -> (DesktopState, DesktopAction) {
    let interactive = (focused == s.calc_window_id || focused == s.term_window_id) && key != 27 && key != 0x71;
    if interactive && focused == s.calc_window_id && s.calculator_open {
        (s, DesktopAction::CalculatorKey(key))
    } else if interactive && focused != s.calc_window_id && focused == s.term_window_id && s.terminal_open {
        (s, DesktopAction::TerminalKey(key))
    } else if key == 0x71 || key == 27 {
        (s, DesktopAction::Quit)
    } else if key == 9 {
        (s, DesktopAction::FocusNext)
    } else if key == 0x31 || key == 0x63 {
        if !s.calculator_open {
            (DesktopState { calculator_open: true, ..s }, DesktopAction::OpenCalculator)
        } else if s.calc_window_id is Some {
            (s, DesktopAction::Focus(s.calc_window_id->0))
        } else {
            (s, DesktopAction::Nothing)
        }
    } else if key == 0x32 {
        if !s.terminal_open {
            (DesktopState { terminal_open: true, ..s }, DesktopAction::OpenTerminal)
        } else if s.term_window_id is Some {
            (s, DesktopAction::Focus(s.term_window_id->0))
        } else {
            (s, DesktopAction::Nothing)
        }
    } else if key == 0x78 {
        if focused is Some {
            if focused == s.calc_window_id {
                (DesktopState { calculator_open: false, calc_window_id: None, ..s }, DesktopAction::Close(focused->0))
            } else if focused == s.term_window_id {
                (DesktopState { terminal_open: false, term_window_id: None, ..s }, DesktopAction::Close(focused->0))
            } else {
                (s, DesktopAction::Close(focused->0))
            }
        } else {
            (s, DesktopAction::Nothing)
        }
    } else if key == 0x20 {
        (s, DesktopAction::ToggleLayout)
    } else if (key == 0x6a || key == 80) && focused == s.files_id {
        (s, DesktopAction::BrowserDown)
    } else if (key == 0x6b || key == 72) && focused == s.files_id {
        (s, DesktopAction::BrowserUp)
    } else if key == 0x72 && focused == s.files_id {
        (s, DesktopAction::BrowserRefresh)
    } else if key == 0x64 && focused == s.files_id {
        (s, DesktopAction::DeleteSelected)
    } else {
        (s, DesktopAction::Nothing)
    }
}

/// The desktop's next state and action for an event.
pub open spec fn desktop_next(s: DesktopState, ev: DesktopEvent) -> (DesktopState, DesktopAction) {
    match ev {
        DesktopEvent::Pointer { x, y, pressed, hit } => pointer_next(s, x, y, pressed, hit),
        DesktopEvent::Key { key, focused } => key_next(s, key, focused),
        DesktopEvent::Opened { calculator, id } => if calculator {
            (DesktopState { calc_window_id: id, ..s }, DesktopAction::Nothing)
        } else {
            (DesktopState { term_window_id: id, ..s }, DesktopAction::Nothing)
        },
    }
}

/// The pointer's place minus a grab point stays an `i32`, for the grab
/// point of the window under the pointer and of the one being dragged.
pub open spec fn pointer_fits(s: DesktopState, ev: DesktopEvent) -> bool {
    ev matches DesktopEvent::Pointer { x, y, hit, .. } ==> {
        &&& (hit matches Some((w, hx, hy)) ==> i32::MIN <= x - hx <= i32::MAX && i32::MIN <= y - hy <= i32::MAX)
        &&& (s.dragging matches Some((w, ox, oy)) ==> i32::MIN <= x - ox <= i32::MAX && i32::MIN <= y - oy <= i32::MAX)
    }
}

impl DesktopState {
    /// The desktop as it starts: the file browser in `files_id`, nothing
    /// else open, the button up and nothing dragged.
    pub fn new(files_id: Option<u64>) -> (s: Self)
        ensures
            s == (DesktopState { files_id, calculator_open: false, calc_window_id: None, terminal_open: false,
                term_window_id: None, last_mouse_pressed: false, dragging: None }),
    {
        DesktopState { files_id, calculator_open: false, calc_window_id: None, terminal_open: false,
            term_window_id: None, last_mouse_pressed: false, dragging: None }
    }
}

/// One step of the desktop loop: the state after the event and what the
/// loop has to do.
pub fn desktop_step(d: &mut DesktopState, ev: DesktopEvent) -> (a: DesktopAction)
    requires
        pointer_fits(*old(d), ev),
    ensures
        (*final(d), a) == desktop_next(*old(d), ev),
{
    match ev {
        DesktopEvent::Pointer { x, y, pressed, hit } => {
            let press = pressed && !d.last_mouse_pressed;
            let mut focus: Option<u64> = None;
            if press {
                if let Some((w, hx, hy)) = hit {
                    focus = Some(w);
                    if hy < 30 {
                        d.dragging = Some((w, hx, hy));
                    }
                }
            }
            if !pressed && d.last_mouse_pressed {
                d.dragging = None;
            }
            let mut move_to: Option<(u64, i32, i32)> = None;
            if pressed {
                if let Some((w, ox, oy)) = d.dragging {
                    move_to = Some((w, x - ox, y - oy));
                }
            }
            d.last_mouse_pressed = pressed;
            DesktopAction::Pointer { focus, move_to }
        },
        DesktopEvent::Key { key, focused } => {
            let interactive = (focused == d.calc_window_id || focused == d.term_window_id) && key != 27 && key != 0x71;
            if interactive && focused == d.calc_window_id && d.calculator_open {
                DesktopAction::CalculatorKey(key)
            } else if interactive && focused != d.calc_window_id && focused == d.term_window_id && d.terminal_open {
                DesktopAction::TerminalKey(key)
            } else if key == 0x71 || key == 27 {
                DesktopAction::Quit
            } else if key == 9 {
                DesktopAction::FocusNext
            } else if key == 0x31 || key == 0x63 {
                if !d.calculator_open {
                    d.calculator_open = true;
                    DesktopAction::OpenCalculator
                } else {
                    match d.calc_window_id {
                        Some(id) => DesktopAction::Focus(id),
                        None => DesktopAction::Nothing,
                    }
                }
            } else if key == 0x32 {
                if !d.terminal_open {
                    d.terminal_open = true;
                    DesktopAction::OpenTerminal
                } else {
                    match d.term_window_id {
                        Some(id) => DesktopAction::Focus(id),
                        None => DesktopAction::Nothing,
                    }
                }
            } else if key == 0x78 {
                match focused {
                    Some(w) => {
                        if focused == d.calc_window_id {
                            d.calculator_open = false;
                            d.calc_window_id = None;
                        } else if focused == d.term_window_id {
                            d.terminal_open = false;
                            d.term_window_id = None;
                        }
                        DesktopAction::Close(w)
                    },
                    None => DesktopAction::Nothing,
                }
            } else if key == 0x20 {
                DesktopAction::ToggleLayout
            } else if (key == 0x6a || key == 80) && focused == d.files_id {
                DesktopAction::BrowserDown
            } else if (key == 0x6b || key == 72) && focused == d.files_id {
                DesktopAction::BrowserUp
            } else if key == 0x72 && focused == d.files_id {
                DesktopAction::BrowserRefresh
            } else if key == 0x64 && focused == d.files_id {
                DesktopAction::DeleteSelected
            } else {
                DesktopAction::Nothing
            }
        },
        DesktopEvent::Opened { calculator, id } => {
            if calculator {
                d.calc_window_id = id;
            } else {
                d.term_window_id = id;
            }
            DesktopAction::Nothing
        },
    }
}

/// The bytes after pixel (x, y) of a `w`×`h` surface with `b` bytes a
/// pixel gets the four bytes `c`: only when it is on the surface and its
/// four bytes lie inside the buffer.
pub open spec fn put_pixel(w: int, h: int, b: int, p: Seq<u8>, x: int, y: int, c: (u8, u8, u8, u8)) -> Seq<u8> {
    let idx = (y * w + x) * b;
    if 0 <= x < w && 0 <= y < h && idx + 3 < p.len() {
        p.update(idx, c.0).update(idx + 1, c.1).update(idx + 2, c.2).update(idx + 3, c.3)
    } else {
        p
    }
}

/// The bytes after the first `k` pixels, row by row, of the rectangle
/// `cw` columns wide from (x0, y0).
pub open spec fn fill_upto(w: int, h: int, b: int, p: Seq<u8>, x0: int, y0: int, cw: int, c: (u8, u8, u8, u8), k: int) -> Seq<u8>
    decreases k,
{
    if k <= 0 || cw <= 0 {
        p
    } else {
        put_pixel(w, h, b, fill_upto(w, h, b, p, x0, y0, cw, c, k - 1), x0 + (k - 1) % cw, y0 + (k - 1) / cw, c)
    }
}

/// The bytes after filling `rows` rows of `cw` pixels from (x0, y0).
pub open spec fn filled(w: int, h: int, b: int, p: Seq<u8>, x0: int, y0: int, cw: int, rows: int, c: (u8, u8, u8, u8)) -> Seq<u8> {
    fill_upto(w, h, b, p, x0, y0, cw, c, cw * rows)
}

/// Fills `rows` rows of `cw` pixels from (x0, y0) with the bytes `c`.
fn fill_rect(s: &mut Surface, x0: u32, y0: u32, cw: u32, rows: u32, c: (u8, u8, u8, u8))
    requires
        old(s).wf(),
        x0 + cw <= u32::MAX,
        y0 + rows <= u32::MAX,
    ensures
        final(s).wf(),
        final(s).pixels@ == filled(geom(*old(s)).0, geom(*old(s)).1, geom(*old(s)).2, old(s).pixels@,
            x0 as int, y0 as int, cw as int, rows as int, c),
        final(s).same_except_pixels(old(s)),
        final(s).dirty == old(s).dirty && final(s).dirty_rects@ == old(s).dirty_rects@,
{
    let ghost g = geom(*old(s));
    let b = s.format.bytes_per_pixel();
    let mut r: u32 = 0;
    assert(0 * cw == 0) by (nonlinear_arith);
    while r < rows
        invariant
            s.wf(),
            s.same_except_pixels(old(s)),
            s.dirty == old(s).dirty && s.dirty_rects@ == old(s).dirty_rects@,
            g == geom(*old(s)),
            b == g.2,
            x0 + cw <= u32::MAX,
            y0 + rows <= u32::MAX,
            r <= rows,
            s.pixels@ == fill_upto(g.0, g.1, g.2, old(s).pixels@, x0 as int, y0 as int, cw as int, c, r * cw),
        decreases rows - r,
    {
        let mut col: u32 = 0;
        while col < cw
            invariant
                s.wf(),
                s.same_except_pixels(old(s)),
                s.dirty == old(s).dirty && s.dirty_rects@ == old(s).dirty_rects@,
                g == geom(*old(s)),
                b == g.2,
                x0 + cw <= u32::MAX,
                y0 + rows <= u32::MAX,
                r < rows,
                col <= cw,
                s.pixels@ == fill_upto(g.0, g.1, g.2, old(s).pixels@, x0 as int, y0 as int, cw as int, c, r * cw + col),
            decreases cw - col,
        {
            let ghost k = r * cw + col;
            proof {
                lemma_fundamental_div_mod_converse(k, cw as int, r as int, col as int);
            }
            let x = x0 + col;
            let y = y0 + r;
            let ghost before = s.pixels@;
            if x < s.width && y < s.height {
                assert(y * s.width + x < 8192 * 8192) by (nonlinear_arith)
                    requires y < s.height, x < s.width, s.width <= 8192, s.height <= 8192;
                assert(b <= 4);
                let idx = ((y * s.width + x) as usize) * b;
                if idx + 3 < s.pixels.len() {
                    s.pixels.set(idx, c.0);
                    s.pixels.set(idx + 1, c.1);
                    s.pixels.set(idx + 2, c.2);
                    s.pixels.set(idx + 3, c.3);
                }
            }
            assert(s.pixels@ == put_pixel(g.0, g.1, g.2, before, x as int, y as int, c));
            col = col + 1;
            assert(r * cw + col == k + 1);
        }
        assert((r + 1) * cw == r * cw + cw) by (nonlinear_arith);
        r = r + 1;
    }
    assert(rows * cw == cw * rows) by (nonlinear_arith);
}

/// The bytes after drawing `cs` from (x, y) in `color`.
pub open spec fn text_at(g: (int, int, int), p: Seq<u8>, x: int, y: int, cs: Seq<char>, color: u32) -> Seq<u8> {
    string_pixels(g.0, g.1, g.2, p, x, y, cs, color, cs.len() as int).0
}

/// The bytes after drawing a file's row at y: the highlight when it is
/// selected, its icon and its name.
pub open spec fn browser_row(g: (int, int, int), p: Seq<u8>, name: Seq<char>, selected: bool, y: int) -> Seq<u8> {
    let p1 = if selected { filled(g.0, g.1, g.2, p, 5, y, g.0 - 10, 20, (0x0au8, 0x84u8, 0xffu8, 0xd0u8)) } else { p };
    let p2 = filled(g.0, g.1, g.2, p1, 15, y + 4, 12, 12, (0x44u8, 0x88u8, 0xffu8, 0xffu8));
    text_at(g, p2, 35, y + 4, name, if selected { 0xFFFFFFu32 } else { 0xE0E0E0u32 })
}

/// The bytes after the rows of the first `k` files, 24 pixels apart from
/// y = 40; rows below `height - 40` are not drawn.
pub open spec fn browser_rows(g: (int, int, int), p: Seq<u8>, names: Seq<Seq<char>>, selected: int, k: int) -> Seq<u8>
    decreases k,
{
    if k <= 0 {
        p
    } else {
        let q = browser_rows(g, p, names, selected, k - 1);
        let y = 40 + 24 * (k - 1);
        if y > g.1 - 40 { q } else { browser_row(g, q, names[k - 1], k - 1 == selected, y) }
    }
}

/// The file browser's window: a dark translucent background, the header
/// bar with its title and the number of files, the rows, "No files" when
/// there are none, and the key help at the bottom when the window is taller
/// than 50 pixels.
pub open spec fn browser_image(g: (int, int, int), p0: Seq<u8>, names: Seq<Seq<char>>, selected: int) -> Seq<u8> {
    let (w, h, b) = g;
    let p1 = filled(w, h, b, p0, 0, 0, w, h, (0x15u8, 0x15u8, 0x15u8, 0xc0u8));
    let p2 = filled(w, h, b, p1, 0, 0, w, 30, (0x2au8, 0x2au8, 0x2au8, 0xeeu8));
    let p3 = text_at(g, p2, 10, 8, "File Browser"@, 0xFFFFFF);
    let p4 = text_at(g, p3, 180, 8, decimal(names.len()) + " files"@, 0x888888);
    let p5 = browser_rows(g, p4, names, selected, names.len() as int);
    let p6 = if names.len() == 0 { text_at(g, p5, 120, 100, "No files"@, 0x888888) } else { p5 };
    if h > 50 { text_at(g, p6, 10, h - 20, "j/k:Navigate  d:Delete  r:Refresh"@, 0x666666) } else { p6 }
}

/// Rows past the bottom limit add nothing.
proof fn lemma_rows_stop(g: (int, int, int), p: Seq<u8>, names: Seq<Seq<char>>, selected: int, i: int, k: int)
    requires
        0 <= i <= k,
        40 + 24 * i > g.1 - 40,
    ensures
        browser_rows(g, p, names, selected, k) == browser_rows(g, p, names, selected, i),
    decreases k - i,
{
    if k > i {
        lemma_rows_stop(g, p, names, selected, i, k - 1);
        assert(40 + 24 * (k - 1) >= 40 + 24 * i);
    }
}

/// Draws the file browser into its window's surface.
pub fn draw_file_browser(s: &mut Surface, browser: &FileBrowser)
    requires
        old(s).wf(),
        browser.files@.len() > 0 ==> old(s).height >= 40,
        browser.selected < browser.files@.len() && 40 + 24 * browser.selected <= old(s).height - 40 ==> old(s).width >= 5,
    ensures
        final(s).wf(),
        final(s).pixels@ == browser_image(geom(*old(s)), old(s).pixels@, browser.files@.map_values(|f: String| f@),
            browser.selected as int),
        final(s).same_except_pixels(old(s)),
        final(s).dirty == old(s).dirty && final(s).dirty_rects@ == old(s).dirty_rects@,
{
    let ghost g = geom(*old(s));
    let ghost names = browser.files@.map_values(|f: String| f@);
    let w = s.width;
    let h = s.height;
    fill_rect(s, 0, 0, w, h, (0x15u8, 0x15u8, 0x15u8, 0xc0u8));
    fill_rect(s, 0, 0, w, 30, (0x2au8, 0x2au8, 0x2au8, 0xeeu8));
    draw_string(s, 10, 8, "File Browser", 0xFFFFFF);
    let n = browser.files.len();
    let mut count = String::new();
    push_decimal(&mut count, n as u64);
    push_str(&mut count, " files");
    assert(count@ == decimal(names.len()) + " files"@) by {
        assert(Seq::<char>::empty() + decimal(n as nat) =~= decimal(n as nat));
    }
    draw_string(s, 180, 8, count.as_str(), 0x888888);
    let ghost p4 = s.pixels@;
    let mut y: u32 = 40;
    let mut i: usize = 0;
    while i < n
        invariant
            s.wf(),
            s.same_except_pixels(old(s)),
            s.dirty == old(s).dirty && s.dirty_rects@ == old(s).dirty_rects@,
            g == geom(*old(s)),
            w == old(s).width && h == old(s).height,
            n == names.len(),
            names == browser.files@.map_values(|f: String| f@),
            browser.files@.len() > 0 ==> h >= 40,
            browser.selected < browser.files@.len() && 40 + 24 * browser.selected <= h - 40 ==> w >= 5,
            i <= n,
            y == 40 + 24 * i,
            i > 0 ==> 40 + 24 * (i - 1) <= h - 40,
            s.pixels@ == browser_rows(g, p4, names, browser.selected as int, i as int),
        ensures
            s.wf(),
            s.same_except_pixels(old(s)),
            s.dirty == old(s).dirty && s.dirty_rects@ == old(s).dirty_rects@,
            g == geom(*old(s)),
            w == old(s).width && h == old(s).height,
            n == names.len(),
            s.pixels@ == browser_rows(g, p4, names, browser.selected as int, n as int),
        decreases n - i,
    {
        if y > h - 40 {
            proof { lemma_rows_stop(g, p4, names, browser.selected as int, i as int, n as int); }
            break;
        }
        let ghost q = s.pixels@;
        let selected = i == browser.selected;
        if selected {
            let span: u32 = if w >= 10 { w - 10 } else { 0 };
            fill_rect(s, 5, y, span, 20, (0x0au8, 0x84u8, 0xffu8, 0xd0u8));
        }
        fill_rect(s, 15, y + 4, 12, 12, (0x44u8, 0x88u8, 0xffu8, 0xffu8));
        let color: u32 = if selected { 0xFFFFFF } else { 0xE0E0E0 };
        draw_string(s, 35, y + 4, browser.files[i].as_str(), color);
        proof {
            assert(names[i as int] == browser.files@[i as int]@);
        }
        i = i + 1;
        y = y + 24;
    }
    if n == 0 {
        draw_string(s, 120, 100, "No files", 0x888888);
    }
    if h > 50 {
        draw_string(s, 10, h - 20, "j/k:Navigate  d:Delete  r:Refresh", 0x666666);
    }
}

} // verus!
