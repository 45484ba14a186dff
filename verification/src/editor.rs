//! A modal (vi-like) text editor over gap-buffered lines.
use vstd::prelude::*;
use crate::gap_buffer::GapBuffer;
use crate::text::{push_char, pop_char, str_eq, to_string};

verus! {

/// One line of text.
pub struct Line {
    content: GapBuffer,
}

impl Line {
    pub closed spec fn view(&self) -> Seq<u8> {
        self.content@
    }

    /// Bytes allocated for the line.
    pub closed spec fn capacity(&self) -> nat {
        self.content.capacity()
    }

    pub closed spec fn wf(&self) -> bool {
        self.content.wf()
    }

    /// The text never exceeds the allocation.
    pub proof fn lemma_len_bound(&self)
        requires
            self.wf(),
        ensures
            self@.len() <= self.capacity(),
    {
        self.content.lemma_len_bound();
    }

    pub fn new() -> (l: Self)
        ensures
            l.wf(),
            l@ == Seq::<u8>::empty(),
            l.capacity() == 4096,
    {
        Line { content: GapBuffer::new() }
    }

    pub fn from_bytes(data: &[u8]) -> (l: Self)
        requires
            data@.len() + 1024 <= usize::MAX,
        ensures
            l.wf(),
            l@ == data@,
            l.capacity() == data@.len() + 1024,
    {
        Line { content: GapBuffer::with_content(data) }
    }

    /// Bytes allocated for the line.
    pub fn allocated(&self) -> (r: usize)
        ensures
            r == self.capacity(),
    {
        self.content.allocated()
    }

    pub fn len(&self) -> (r: usize)
        requires
            self.wf(),
        ensures
            r == self@.len(),
    {
        self.content.content_len()
    }

    /// Inserts `ch` at column `min(col, length)`.
    pub fn insert(&mut self, col: usize, ch: u8)
        requires
            old(self).wf(),
            old(self).capacity() + 1025 <= usize::MAX,
        ensures
            final(self).wf(),
            final(self)@ == old(self)@.insert(if col < old(self)@.len() { col as int } else { old(self)@.len() as int }, ch),
            final(self).capacity() <= old(self).capacity() + 1025,
    {
        self.content.insert(col, ch);
    }

    /// Removes the byte at `col`; nothing happens past the end.
    pub fn delete(&mut self, col: usize)
        requires
            old(self).wf(),
        ensures
            final(self).wf(),
            final(self).capacity() == old(self).capacity(),
            col < old(self)@.len() ==> final(self)@ == old(self)@.remove(col as int),
            col >= old(self)@.len() ==> final(self)@ == old(self)@,
    {
        self.content.delete(col);
    }

    fn append(&mut self, data: &[u8])
        requires
            old(self).wf(),
            old(self).capacity() + data@.len() + 1024 <= usize::MAX,
        ensures
            final(self).wf(),
            final(self)@ == old(self)@ + data@,
            final(self).capacity() <= old(self).capacity() + data@.len() + 1024,
    {
        let n = self.len();
        self.content.insert_str(n, data);
        assert(old(self)@.subrange(0, n as int) =~= old(self)@);
        assert(old(self)@.subrange(n as int, n as int) =~= Seq::<u8>::empty());
        assert(old(self)@ + data@ + Seq::<u8>::empty() =~= old(self)@ + data@);
    }

    fn truncate(&mut self, col: usize)
        requires
            old(self).wf(),
            col <= old(self)@.len(),
        ensures
            final(self).wf(),
            final(self)@ == old(self)@.subrange(0, col as int),
            final(self).capacity() == old(self).capacity(),
    {
        let n = self.len();
        self.content.delete_range(col, n);
        assert(old(self)@.subrange(n as int, n as int) =~= Seq::<u8>::empty());
        assert(old(self)@.subrange(0, col as int) + Seq::<u8>::empty() =~= old(self)@.subrange(0, col as int));
    }

    pub fn to_bytes(&self) -> (r: Vec<u8>)
        requires
            self.wf(),
        ensures
            r@ == self@,
    {
        self.content.to_bytes()
    }
}

/// Cursor position: line and column.
pub struct Cursor {
    pub line: usize,
    pub col: usize,
}

/// Editing mode.
#[derive(Clone, Copy, PartialEq, Eq, Structural)]
pub enum EditorMode {
    Normal,
    Insert,
    Command,
}

/// What the caller has to do after a key.
#[derive(Clone, Copy, PartialEq, Eq, Structural)]
pub enum EditorAction {
    Nothing,
    /// The `:w` or `:wq` command asks for the file to be written.
    Save,
}

/// Abstract editor state.
pub struct EditorState {
    pub lines: Seq<Seq<u8>>,
    pub line: int,
    pub col: int,
    pub mode: EditorMode,
    pub modified: bool,
    pub command: Seq<char>,
}

pub open spec fn line_len(s: EditorState, l: int) -> int {
    if 0 <= l < s.lines.len() { s.lines[l].len() as int } else { 0 }
}

pub open spec fn min_int(a: int, b: int) -> int {
    if a < b { a } else { b }
}

/// Normal-mode keys: movement, `x`, `0`, `$`, `g`, `G`, `i` and `:`.
pub open spec fn normal_key(s: EditorState, key: u8) -> EditorState {
    if key == 0x69 {
        EditorState { mode: EditorMode::Insert, ..s }
    } else if key == 0x3a {
        EditorState { mode: EditorMode::Command, command: Seq::empty(), ..s }
    } else if key == 0x68 || key == 0x4B {
        EditorState { col: if s.col > 0 { s.col - 1 } else { 0 }, ..s }
    } else if key == 0x6a || key == 0x50 {
        if s.line < s.lines.len() - 1 {
            EditorState { line: s.line + 1, col: min_int(s.col, line_len(s, s.line + 1)), ..s }
        } else {
            s
        }
    } else if key == 0x6b || key == 0x48 {
        if s.line > 0 {
            EditorState { line: s.line - 1, col: min_int(s.col, line_len(s, s.line - 1)), ..s }
        } else {
            s
        }
    } else if key == 0x6c || key == 0x4D {
        if s.col < line_len(s, s.line) { EditorState { col: s.col + 1, ..s } } else { s }
    } else if key == 0x78 {
        if 0 <= s.line < s.lines.len() && s.col < s.lines[s.line].len() {
            EditorState { lines: s.lines.update(s.line, s.lines[s.line].remove(s.col)), modified: true, ..s }
        } else {
            s
        }
    } else if key == 0x30 {
        EditorState { col: 0, ..s }
    } else if key == 0x24 {
        EditorState { col: line_len(s, s.line), ..s }
    } else if key == 0x47 {
        EditorState { line: if s.lines.len() > 0 { s.lines.len() - 1 } else { 0 }, ..s }
    } else if key == 0x67 {
        EditorState { line: 0, ..s }
    } else {
        s
    }
}

/// Insert mode: Escape leaves, Backspace deletes or joins lines, Enter
/// splits the line, printable ASCII is inserted.
pub open spec fn insert_key(s: EditorState, key: u8) -> EditorState {
    if key == 27 {
        EditorState { mode: EditorMode::Normal, ..s }
    } else if key == 8 || key == 127 {
        if s.col > 0 {
            let c = s.col - 1;
            EditorState {
                col: c,
                lines: if 0 <= s.line < s.lines.len() && c < s.lines[s.line].len() {
                    s.lines.update(s.line, s.lines[s.line].remove(c))
                } else {
                    s.lines
                },
                modified: true,
                ..s
            }
        } else if s.line > 0 {
            let prev = s.lines[s.line - 1];
            let joined = s.lines.remove(s.line).update(s.line - 1, prev + s.lines[s.line]);
            EditorState { lines: joined, line: s.line - 1, col: prev.len() as int, modified: true, ..s }
        } else {
            s
        }
    } else if key == 10 {
        let cur = s.lines[s.line];
        let split = s.lines.update(s.line, cur.subrange(0, s.col)).insert(s.line + 1, cur.subrange(s.col, cur.len() as int));
        EditorState { lines: split, line: s.line + 1, col: 0, modified: true, ..s }
    } else if 32 <= key < 127 {
        if 0 <= s.line < s.lines.len() {
            let l = s.lines[s.line];
            let p = if s.col < l.len() { s.col } else { l.len() as int };
            EditorState { lines: s.lines.update(s.line, l.insert(p, key)), col: s.col + 1, modified: true, ..s }
        } else {
            s
        }
    } else {
        s
    }
}

/// The command line asks for a write.
pub open spec fn is_save_command(c: Seq<char>) -> bool {
    c == seq!['w'] || c == seq!['w', 'q']
}

/// Command mode: Escape leaves, Enter runs the command and leaves,
/// Backspace edits the command line, printable ASCII extends it.
pub open spec fn command_key(s: EditorState, key: u8) -> EditorState {
    if key == 27 || key == 10 {
        EditorState { mode: EditorMode::Normal, ..s }
    } else if key == 8 || key == 127 {
        EditorState { command: if s.command.len() > 0 { s.command.drop_last() } else { s.command }, ..s }
    } else if 32 <= key < 127 {
        EditorState { command: s.command.push(key as char), ..s }
    } else {
        s
    }
}

/// The state after one key.
pub open spec fn key_step(s: EditorState, key: u8) -> EditorState {
    match s.mode {
        EditorMode::Normal => normal_key(s, key),
        EditorMode::Insert => insert_key(s, key),
        EditorMode::Command => command_key(s, key),
    }
}

/// The action a key asks the caller to perform.
pub open spec fn key_action(s: EditorState, key: u8) -> EditorAction {
    if s.mode == EditorMode::Command && key == 10 && is_save_command(s.command) {
        EditorAction::Save
    } else {
        EditorAction::Nothing
    }
}

/// Lines joined with `\n`.
pub open spec fn join_lines(ls: Seq<Seq<u8>>) -> Seq<u8>
    decreases ls.len(),
{
    if ls.len() == 0 {
        Seq::empty()
    } else if ls.len() == 1 {
        ls[0]
    } else {
        join_lines(ls.drop_last()) + seq![10u8] + ls.last()
    }
}

/// Splits bytes at every `\n`; the part after the last `\n` is the last line.
pub open spec fn split_lines(data: Seq<u8>) -> Seq<Seq<u8>>
    decreases data.len(),
{
    if data.len() == 0 {
        seq![Seq::empty()]
    } else {
        let rest = split_lines(data.drop_last());
        if data.last() == 10 {
            rest.push(Seq::empty())
        } else {
            rest.update(rest.len() - 1, rest.last().push(data.last()))
        }
    }
}

/// Sum of a sequence of integers.
pub open spec fn sum_int(s: Seq<int>) -> int
    decreases s.len(),
{
    if s.len() == 0 { 0 } else { sum_int(s.drop_last()) + s.last() }
}

proof fn lemma_sum_concat(a: Seq<int>, b: Seq<int>)
    ensures
        sum_int(a + b) == sum_int(a) + sum_int(b),
    decreases b.len(),
{
    if b.len() == 0 {
        assert(a + b =~= a);
    } else {
        lemma_sum_concat(a, b.drop_last());
        assert((a + b).drop_last() =~= a + b.drop_last());
    }
}

proof fn lemma_sum_single(x: int)
    ensures
        sum_int(seq![x]) == x,
{
    let s = seq![x];
    assert(s.drop_last() =~= Seq::<int>::empty());
    assert(s.last() == x);
    assert(sum_int(s) == sum_int(s.drop_last()) + s.last());
}

/// A sum is its part before `i`, the element at `i` and its part after.
proof fn lemma_sum_split(s: Seq<int>, i: int)
    requires
        0 <= i < s.len(),
    ensures
        sum_int(s) == sum_int(s.subrange(0, i)) + s[i] + sum_int(s.subrange(i + 1, s.len() as int)),
{
    let a = s.subrange(0, i);
    let c = s.subrange(i + 1, s.len() as int);
    lemma_sum_concat(a, seq![s[i]]);
    lemma_sum_concat(a + seq![s[i]], c);
    lemma_sum_single(s[i]);
    assert(a + seq![s[i]] + c =~= s);
}

proof fn lemma_sum_update(s: Seq<int>, i: int, x: int)
    requires
        0 <= i < s.len(),
    ensures
        sum_int(s.update(i, x)) == sum_int(s) - s[i] + x,
{
    let u = s.update(i, x);
    lemma_sum_split(s, i);
    lemma_sum_split(u, i);
    assert(u.subrange(0, i) =~= s.subrange(0, i));
    assert(u.subrange(i + 1, u.len() as int) =~= s.subrange(i + 1, s.len() as int));
}

proof fn lemma_sum_insert(s: Seq<int>, i: int, x: int)
    requires
        0 <= i <= s.len(),
    ensures
        sum_int(s.insert(i, x)) == sum_int(s) + x,
{
    let u = s.insert(i, x);
    lemma_sum_split(u, i);
    assert(u.subrange(0, i) =~= s.subrange(0, i));
    assert(u.subrange(i + 1, u.len() as int) =~= s.subrange(i, s.len() as int));
    lemma_sum_concat(s.subrange(0, i), s.subrange(i, s.len() as int));
    assert(s.subrange(0, i) + s.subrange(i, s.len() as int) =~= s);
}

proof fn lemma_sum_remove(s: Seq<int>, i: int)
    requires
        0 <= i < s.len(),
    ensures
        sum_int(s.remove(i)) == sum_int(s) - s[i],
{
    let u = s.remove(i);
    lemma_sum_split(s, i);
    lemma_sum_concat(s.subrange(0, i), s.subrange(i + 1, s.len() as int));
    assert(s.subrange(0, i) + s.subrange(i + 1, s.len() as int) =~= u);
}

proof fn lemma_sum_nonneg(s: Seq<int>)
    requires
        forall|k: int| 0 <= k < s.len() ==> s[k] >= 0,
    ensures
        sum_int(s) >= 0,
    decreases s.len(),
{
    if s.len() > 0 {
        lemma_sum_nonneg(s.drop_last());
    }
}

/// Two entries of a sum of non-negative integers add up to at most the sum.
proof fn lemma_sum_two(s: Seq<int>, i: int, j: int)
    requires
        0 <= i < s.len(),
        0 <= j < s.len(),
        forall|k: int| 0 <= k < s.len() ==> s[k] >= 0,
    ensures
        s[i] <= sum_int(s),
        i != j ==> s[i] + s[j] <= sum_int(s),
{
    lemma_sum_split(s, i);
    lemma_sum_nonneg(s.subrange(0, i));
    lemma_sum_nonneg(s.subrange(i + 1, s.len() as int));
    if j < i {
        lemma_sum_split(s.subrange(0, i), j);
        lemma_sum_nonneg(s.subrange(0, i).subrange(0, j));
        lemma_sum_nonneg(s.subrange(0, i).subrange(j + 1, i));
    } else if j > i {
        let c = s.subrange(i + 1, s.len() as int);
        lemma_sum_split(c, j - i - 1);
        lemma_sum_nonneg(c.subrange(0, j - i - 1));
        lemma_sum_nonneg(c.subrange(j - i, c.len() as int));
    }
}

/// The text editor.
pub struct Editor {
    pub lines: Vec<Line>,
    pub cursor: Cursor,
    pub mode: EditorMode,
    pub filename: Option<String>,
    pub modified: bool,
    pub view_offset: usize,
    pub view_height: usize,
    pub command_buffer: String,
}

impl Editor {
    pub open spec fn line_views(&self) -> Seq<Seq<u8>> {
        self.lines@.map_values(|l: Line| l@)
    }

    /// The line buffers' capacities.
    pub open spec fn capacities(&self) -> Seq<int> {
        self.lines@.map_values(|l: Line| l.capacity() as int)
    }

    /// Bytes the line buffers have room for in all.
    pub open spec fn capacity_total(&self) -> int {
        sum_int(self.capacities())
    }

    /// The editing state the key handler works on.
    pub open spec fn state(&self) -> EditorState {
        EditorState {
            lines: self.line_views(),
            line: self.cursor.line as int,
            col: self.cursor.col as int,
            mode: self.mode,
            modified: self.modified,
            command: self.command_buffer@,
        }
    }

    /// Rows visible at once.
    pub open spec fn height(&self) -> usize {
        self.view_height
    }

    pub open spec fn wf(&self) -> bool {
        &&& self.lines@.len() >= 1
        &&& forall|i: int| 0 <= i < self.lines@.len() ==> (#[trigger] self.lines@[i]).wf()
        &&& self.view_height == 24
    }

    /// Room in the line buffers makes a key acceptable: with
    /// `capacity_total() + 2048 <= usize::MAX` (4096 for a new editor, at most
    /// doubling plus 2048 a key), only the cursor conditions of `key_ok`
    /// remain.
    pub proof fn lemma_room_for_key(&self, key: u8)
        requires
            self.wf(),
            self.capacity_total() + 2048 <= usize::MAX,
            self.state().mode == EditorMode::Insert && key == 10 ==> 0 <= self.state().line < self.state().lines.len()
                && self.state().col <= self.state().lines[self.state().line].len(),
            self.state().mode == EditorMode::Insert && (key == 8 || key == 127) && self.state().col == 0
                && self.state().line > 0 ==> self.state().line < self.state().lines.len(),
            self.state().mode == EditorMode::Insert && 32 <= key < 127 ==> self.state().col < usize::MAX,
        ensures
            self.key_ok(key),
    {
        let caps = self.capacities();
        let s = self.state();
        assert forall|k: int| 0 <= k < caps.len() implies caps[k] >= 0 by {}
        if 0 <= s.line < s.lines.len() {
            lemma_sum_two(caps, s.line, s.line);
        }
        if s.col == 0 && s.line > 0 && s.line < s.lines.len() {
            lemma_sum_two(caps, s.line - 1, s.line);
            self.lines@[s.line].lemma_len_bound();
        }
    }

    /// Whether `key` can be handled in this state: Enter in insert mode needs
    /// the cursor inside the text, a joining Backspace needs the cursor line
    /// to exist, and edits need the line buffers to have room to grow.
    pub open spec fn key_ok(&self, key: u8) -> bool {
        let s = self.state();
        &&& s.mode == EditorMode::Insert && key == 10 ==> 0 <= s.line < s.lines.len() && s.col <= s.lines[s.line].len()
        &&& s.mode == EditorMode::Insert && (key == 8 || key == 127) && s.col == 0 && s.line > 0 ==> s.line < s.lines.len()
            && self.lines@[s.line - 1].capacity() + s.lines[s.line].len() + 1024 <= usize::MAX
        &&& s.mode == EditorMode::Insert && 0 <= s.line < s.lines.len() ==> self.lines@[s.line].capacity() + 1025 <= usize::MAX
        &&& s.mode == EditorMode::Insert && 32 <= key < 127 ==> s.col < usize::MAX
    }

    pub fn new() -> (e: Self)
        ensures
            e.wf(),
            e.state() == (EditorState {
                lines: seq![Seq::<u8>::empty()],
                line: 0,
                col: 0,
                mode: EditorMode::Normal,
                modified: false,
                command: Seq::empty(),
            }),
            e.filename is None,
            e.view_offset == 0,
            e.height() == 24,
            e.capacity_total() == 4096,
    {
        let mut lines: Vec<Line> = Vec::new();
        lines.push(Line::new());
        let e = Editor {
            lines,
            cursor: Cursor { line: 0, col: 0 },
            mode: EditorMode::Normal,
            filename: None,
            modified: false,
            view_offset: 0,
            view_height: 24,
            command_buffer: String::new(),
        };
        assert(e.line_views() =~= seq![Seq::<u8>::empty()]);
        assert(e.capacities() =~= seq![4096int]);
        proof { lemma_sum_single(4096); }
        e
    }

    /// Loads `data`, the contents read for `filename` (`None` when the file
    /// could not be read): the lines are the bytes split at `\n`, and the
    /// cursor goes to the start. When nothing was read the buffer becomes one
    /// empty line and the cursor stays where it was.
    pub fn load(&mut self, filename: &str, data: Option<Vec<u8>>) -> (ok: bool)
        requires
            old(self).wf(),
            data matches Some(d) ==> d@.len() + 1024 <= usize::MAX,
        ensures
            ok,
            final(self).wf(),
            final(self).filename matches Some(f) && f@ == filename@,
            !final(self).modified,
            final(self).mode == old(self).mode,
            final(self).view_offset == old(self).view_offset,
            final(self).command_buffer@ == old(self).command_buffer@,
            match data {
                Some(d) => final(self).line_views() == split_lines(d@) && final(self).cursor.line == 0 && final(self).cursor.col == 0
                    && final(self).capacity_total() <= 1025 * d@.len() + 1024,
                None => final(self).line_views() == seq![Seq::<u8>::empty()]
                    && final(self).cursor.line == old(self).cursor.line && final(self).cursor.col == old(self).cursor.col
                    && final(self).capacity_total() == 4096,
            },
    {
        match data {
            Some(d) => {
                let mut lines: Vec<Line> = Vec::new();
                let mut start: usize = 0;
                let mut i: usize = 0;
                assert(d@.subrange(0, 0) =~= Seq::<u8>::empty());
                assert(lines@.map_values(|l: Line| l@) =~= Seq::<Seq<u8>>::empty());
                while i < d.len()
                    invariant
                        i <= d@.len(),
                        start <= i,
                        d@.len() + 1024 <= usize::MAX,
                        split_lines(d@.subrange(0, i as int)) == lines@.map_values(|l: Line| l@).push(d@.subrange(start as int, i as int)),
                        forall|j: int| 0 <= j < lines@.len() ==> (#[trigger] lines@[j]).wf(),
                        lines@.len() <= start,
                        sum_int(lines@.map_values(|l: Line| l.capacity() as int)) <= start + 1024 * lines@.len(),
                    decreases d@.len() - i,
                {
                    let ghost pre = d@.subrange(0, i as int);
                    assert(d@.subrange(0, i + 1).drop_last() =~= pre);
                    assert(d@.subrange(0, i + 1).last() == d@[i as int]);
                    if d[i] == 10u8 {
                        let ghost s0 = start;
                        let part = &d.as_slice()[start..i];
                        assert(part@ == d@.subrange(s0 as int, i as int));
                        let ghost before = lines@.map_values(|l: Line| l@);
                        let ghost cb = lines@.map_values(|l: Line| l.capacity() as int);
                        lines.push(Line::from_bytes(part));
                        proof {
                            assert(lines@.map_values(|l: Line| l.capacity() as int) =~= cb.push(part@.len() as int + 1024));
                            lemma_sum_insert(cb, cb.len() as int, part@.len() as int + 1024);
                            assert(cb.insert(cb.len() as int, part@.len() as int + 1024) =~= cb.push(part@.len() as int + 1024));
                        }
                        start = i + 1;
                        assert(lines@.map_values(|l: Line| l@) =~= before.push(part@));
                        assert(d@.subrange(start as int, i + 1) =~= Seq::<u8>::empty());
                    } else {
                        assert(d@.subrange(start as int, i + 1) =~= d@.subrange(start as int, i as int).push(d@[i as int]));
                    }
                    i = i + 1;
                }
                assert(d@.subrange(0, d@.len() as int) =~= d@);
                let last = &d.as_slice()[start..d.len()];
                let ghost before = lines@.map_values(|l: Line| l@);
                let ghost cb = lines@.map_values(|l: Line| l.capacity() as int);
                lines.push(Line::from_bytes(last));
                assert(lines@.map_values(|l: Line| l@) =~= before.push(last@));
                proof {
                    assert(lines@.map_values(|l: Line| l.capacity() as int) =~= cb.push(last@.len() as int + 1024));
                    lemma_sum_insert(cb, cb.len() as int, last@.len() as int + 1024);
                    assert(cb.insert(cb.len() as int, last@.len() as int + 1024) =~= cb.push(last@.len() as int + 1024));
                    assert(1024 * lines@.len() <= 1024 * d@.len() + 1024) by (nonlinear_arith)
                        requires lines@.len() <= d@.len() + 1;
                }
                self.lines = lines;
                self.cursor = Cursor { line: 0, col: 0 };
            },
            None => {
                let mut lines: Vec<Line> = Vec::new();
                lines.push(Line::new());
                self.lines = lines;
                assert(self.line_views() =~= seq![Seq::<u8>::empty()]);
                assert(self.capacities() =~= seq![4096int]);
                proof { lemma_sum_single(4096); }
            },
        }
        self.filename = Some(to_string(filename));
        self.modified = false;
        true
    }
    /// The file name and the bytes to write: the lines joined with `\n`.
    /// `None` when the buffer has no file name. After a successful write the
    /// caller reports it with `mark_saved`.
    pub fn save(&self) -> (r: Option<(String, Vec<u8>)>)
        requires
            self.wf(),
        ensures
            match self.filename {
                None => r is None,
                Some(f) => r matches Some((name, data)) && name@ == f@ && data@ == join_lines(self.line_views()),
            },
    {
        let name = match &self.filename {
            Some(f) => to_string(f.as_str()),
            None => return None,
        };
        let mut data: Vec<u8> = Vec::new();
        let mut i: usize = 0;
        while i < self.lines.len()
            invariant
                self.wf(),
                i <= self.lines@.len(),
                i == 0 ==> data@ == Seq::<u8>::empty(),
                i > 0 ==> data@ == join_lines(self.line_views().subrange(0, i as int)),
            decreases self.lines@.len() - i,
        {
            let ghost prev = data@;
            if i > 0 {
                data.push(10u8);
            }
            let bytes = self.lines[i].to_bytes();
            let mut j: usize = 0;
            let ghost base = data@;
            while j < bytes.len()
                invariant
                    j <= bytes@.len(),
                    data@ == base + bytes@.subrange(0, j as int),
                decreases bytes@.len() - j,
            {
                data.push(bytes[j]);
                j = j + 1;
                assert(data@ =~= base + bytes@.subrange(0, j as int));
            }
            assert(bytes@.subrange(0, j as int) =~= bytes@);
            proof {
                let vs = self.line_views().subrange(0, i + 1);
                assert(vs.drop_last() =~= self.line_views().subrange(0, i as int));
                assert(vs.last() == self.lines@[i as int]@);
                if i == 0 {
                    assert(vs.len() == 1);
                    assert(data@ =~= vs[0]);
                } else {
                    assert(data@ =~= prev + seq![10u8] + bytes@);
                }
            }
            i = i + 1;
        }
        assert(self.line_views().subrange(0, i as int) =~= self.line_views());
        Some((name, data))
    }

    /// Records that the text was written out.
    pub fn mark_saved(&mut self)
        ensures
            !final(self).modified,
            final(self).state() == (EditorState { modified: false, ..old(self).state() }),
            final(self).filename == old(self).filename,
            final(self).view_offset == old(self).view_offset,
            final(self).wf() == old(self).wf(),
    {
        self.modified = false;
    }

    fn current_line_len(&self) -> (r: usize)
        requires
            self.wf(),
        ensures
            r == line_len(self.state(), self.cursor.line as int),
    {
        if self.cursor.line < self.lines.len() {
            self.lines[self.cursor.line].len()
        } else {
            0
        }
    }

    fn handle_normal_key(&mut self, key: u8)
        requires
            old(self).wf(),
            old(self).mode == EditorMode::Normal,
        ensures
            final(self).wf(),
            final(self).state() == normal_key(old(self).state(), key),
            final(self).filename == old(self).filename,
            final(self).view_offset == old(self).view_offset,
            final(self).capacities() == old(self).capacities(),
    {
        let ghost s = self.state();
        if key == 0x69 {
            self.mode = EditorMode::Insert;
        } else if key == 0x3a {
            self.mode = EditorMode::Command;
            self.command_buffer = String::new();
        } else if key == 0x68 || key == 0x4B {
            self.cursor.col = if self.cursor.col > 0 { self.cursor.col - 1 } else { 0 };
        } else if key == 0x6a || key == 0x50 {
            if self.cursor.line < self.lines.len() - 1 {
                self.cursor.line = self.cursor.line + 1;
                let l = self.current_line_len();
                if l < self.cursor.col {
                    self.cursor.col = l;
                }
            }
        } else if key == 0x6b || key == 0x48 {
            if self.cursor.line > 0 {
                self.cursor.line = self.cursor.line - 1;
                let l = self.current_line_len();
                if l < self.cursor.col {
                    self.cursor.col = l;
                }
            }
        } else if key == 0x6c || key == 0x4D {
            let l = self.current_line_len();
            if self.cursor.col < l {
                self.cursor.col = self.cursor.col + 1;
            }
        } else if key == 0x78 {
            let line = self.cursor.line;
            let col = self.cursor.col;
            if line < self.lines.len() {
                if col < self.lines[line].len() {
                    self.lines[line].delete(col);
                    self.modified = true;
                    assert(self.line_views() =~= s.lines.update(line as int, s.lines[line as int].remove(col as int)));
                    assert(self.capacities() =~= old(self).capacities());
                }
            }
        } else if key == 0x30 {
            self.cursor.col = 0;
        } else if key == 0x24 {
            self.cursor.col = self.current_line_len();
        } else if key == 0x47 {
            self.cursor.line = self.lines.len() - 1;
        } else if key == 0x67 {
            self.cursor.line = 0;
        }
    }

    fn handle_insert_key(&mut self, key: u8)
        requires
            old(self).wf(),
            old(self).mode == EditorMode::Insert,
            old(self).key_ok(key),
        ensures
            final(self).wf(),
            final(self).state() == insert_key(old(self).state(), key),
            final(self).filename == old(self).filename,
            final(self).view_offset == old(self).view_offset,
            final(self).capacity_total() <= 2 * old(self).capacity_total() + 2048,
    {
        let ghost s = self.state();
        let ghost caps = self.capacities();
        proof {
            assert forall|k: int| 0 <= k < caps.len() implies caps[k] >= 0 by {}
            lemma_sum_nonneg(caps);
        }
        let line = self.cursor.line;
        let col = self.cursor.col;
        if key == 27 {
            self.mode = EditorMode::Normal;
        } else if key == 8 || key == 127 {
            if col > 0 {
                self.cursor.col = col - 1;
                if line < self.lines.len() {
                    self.lines[line].delete(col - 1);
                    assert(self.capacities() =~= caps);
                    assert(col - 1 < s.lines[line as int].len() ==> self.line_views() =~= s.lines.update(line as int, s.lines[line as int].remove(col - 1)));
                    assert(col - 1 >= s.lines[line as int].len() ==> self.line_views() =~= s.lines);
                }
                self.modified = true;
            } else if line > 0 {
                let removed = self.lines.remove(line);
                let current = removed.to_bytes();
                let prev_len = self.lines[line - 1].len();
                self.lines[line - 1].append(current.as_slice());
                self.cursor.line = line - 1;
                self.cursor.col = prev_len;
                self.modified = true;
                assert(self.line_views() =~= s.lines.remove(line as int).update(line - 1, s.lines[line - 1] + s.lines[line as int]));
                proof {
                    old(self).lines@[line as int].lemma_len_bound();
                    assert(self.capacities() =~= caps.remove(line as int).update(line - 1, self.lines@[line - 1].capacity() as int));
                    lemma_sum_remove(caps, line as int);
                    lemma_sum_update(caps.remove(line as int), line - 1, self.lines@[line - 1].capacity() as int);
                }
            }
        } else if key == 10 {
            let n = self.lines.len();
            proof { self.lines@[line as int].lemma_len_bound(); }
            let bytes = self.lines[line].to_bytes();
            let rest = &bytes.as_slice()[col..bytes.len()];
            self.lines[line].truncate(col);
            let new_line = Line::from_bytes(rest);
            self.lines.insert(line + 1, new_line);
            self.cursor.line = line + 1;
            self.cursor.col = 0;
            self.modified = true;
            assert(self.line_views() =~= s.lines.update(line as int, s.lines[line as int].subrange(0, col as int))
                .insert(line + 1, s.lines[line as int].subrange(col as int, s.lines[line as int].len() as int)));
            proof {
                lemma_sum_two(caps, line as int, line as int);
                assert(self.capacities() =~= caps.insert(line + 1, self.lines@[line + 1].capacity() as int));
                lemma_sum_insert(caps, line + 1, self.lines@[line + 1].capacity() as int);
            }
        } else if 32 <= key && key < 127 {
            if line < self.lines.len() {
                self.lines[line].insert(col, key);
                proof {
                    assert(self.capacities() =~= caps.update(line as int, self.lines@[line as int].capacity() as int));
                    lemma_sum_update(caps, line as int, self.lines@[line as int].capacity() as int);
                }
                self.cursor.col = col + 1;
                self.modified = true;
                assert(self.line_views() =~= s.lines.update(line as int, s.lines[line as int].insert(
                    if (col as int) < s.lines[line as int].len() { col as int } else { s.lines[line as int].len() as int }, key)));
            }
        }
    }

    fn handle_command_key(&mut self, key: u8) -> (act: EditorAction)
        requires
            old(self).wf(),
            old(self).mode == EditorMode::Command,
        ensures
            final(self).wf(),
            final(self).state() == command_key(old(self).state(), key),
            act == key_action(old(self).state(), key),
            final(self).filename == old(self).filename,
            final(self).view_offset == old(self).view_offset,
            final(self).capacities() == old(self).capacities(),
    {
        if key == 27 {
            self.mode = EditorMode::Normal;
            EditorAction::Nothing
        } else if key == 10 {
            let w = "w";
            let wq = "wq";
            proof {
                reveal_strlit("w");
                reveal_strlit("wq");
                assert(w@ =~= seq!['w']);
                assert(wq@ =~= seq!['w', 'q']);
            }
            let save = str_eq(self.command_buffer.as_str(), w) || str_eq(self.command_buffer.as_str(), wq);
            self.mode = EditorMode::Normal;
            if save { EditorAction::Save } else { EditorAction::Nothing }
        } else if key == 8 || key == 127 {
            let _ = pop_char(&mut self.command_buffer);
            EditorAction::Nothing
        } else if 32 <= key && key < 127 {
            push_char(&mut self.command_buffer, key as char);
            EditorAction::Nothing
        } else {
            EditorAction::Nothing
        }
    }

    /// Handles one key in the current mode and says whether the caller must
    /// write the file (`:w` and `:wq`).
    pub fn handle_key(&mut self, key: u8) -> (act: EditorAction)
        requires
            old(self).wf(),
            old(self).key_ok(key),
        ensures
            final(self).wf(),
            final(self).state() == key_step(old(self).state(), key),
            act == key_action(old(self).state(), key),
            final(self).filename == old(self).filename,
            final(self).view_offset == old(self).view_offset,
            final(self).capacity_total() <= 2 * old(self).capacity_total() + 2048,
    {
        proof {
            let caps = old(self).capacities();
            assert forall|k: int| 0 <= k < caps.len() implies caps[k] >= 0 by {}
            lemma_sum_nonneg(caps);
        }
        match self.mode {
            EditorMode::Normal => {
                self.handle_normal_key(key);
                EditorAction::Nothing
            },
            EditorMode::Insert => {
                self.handle_insert_key(key);
                EditorAction::Nothing
            },
            EditorMode::Command => self.handle_command_key(key),
        }
    }

    /// Name of the mode for the status line.
    pub fn mode_str(&self) -> (r: &'static str)
        ensures
            r@ == match self.mode {
                EditorMode::Normal => "NORMAL"@,
                EditorMode::Insert => "INSERT"@,
                EditorMode::Command => "COMMAND"@,
            },
    {
        match self.mode {
            EditorMode::Normal => "NORMAL",
            EditorMode::Insert => "INSERT",
            EditorMode::Command => "COMMAND",
        }
    }

    /// The command line being typed.
    pub fn command_str(&self) -> (r: &str)
        ensures
            r@ == self.command_buffer@,
    {
        self.command_buffer.as_str()
    }

    /// Whether the last command asked to quit (`:q` or `:wq`).
    pub fn should_quit(&self) -> (r: bool)
        ensures
            r == (self.command_buffer@ == seq!['q'] || self.command_buffer@ == seq!['w', 'q']),
    {
        let q = "q";
        let wq = "wq";
        proof {
            reveal_strlit("q");
            reveal_strlit("wq");
            assert(q@ =~= seq!['q']);
            assert(wq@ =~= seq!['w', 'q']);
        }
        str_eq(self.command_buffer.as_str(), q) || str_eq(self.command_buffer.as_str(), wq)
    }

    /// (line, column) of the cursor.
    pub fn cursor_pos(&self) -> (r: (usize, usize))
        ensures
            r == (self.cursor.line, self.cursor.col),
    {
        (self.cursor.line, self.cursor.col)
    }

    /// The lines shown: indices `view_offset .. min(view_offset + height, count)`
    /// with their lines.
    pub fn visible_lines(&self) -> (r: Vec<(usize, &Line)>)
        requires
            self.view_offset + self.view_height <= usize::MAX,
        ensures
            ({
                let end = if self.view_offset + self.view_height < self.lines@.len() {
                    self.view_offset + self.view_height
                } else {
                    self.lines@.len() as int
                };
                &&& r@.len() == if self.view_offset < end { end - self.view_offset } else { 0 }
                &&& forall|i: int| 0 <= i < r@.len() ==> (#[trigger] r@[i]).0 == self.view_offset + i
                        && *r@[i].1 == self.lines@[self.view_offset + i]
            }),
    {
        let start = self.view_offset;
        let end = if start + self.view_height < self.lines.len() { start + self.view_height } else { self.lines.len() };
        let mut out: Vec<(usize, &Line)> = Vec::new();
        let mut i: usize = start;
        while i < end
            invariant
                start <= i <= end || (start > end && i == start),
                end <= self.lines@.len(),
                out@.len() == if i >= start { i - start } else { 0 },
                forall|k: int| 0 <= k < out@.len() ==> (#[trigger] out@[k]).0 == start + k && *out@[k].1 == self.lines@[start + k],
            decreases end - i,
        {
            out.push((i, &self.lines[i]));
            i = i + 1;
        }
        out
    }

    /// Scrolls so that the cursor line is visible.
    pub fn update_view(&mut self)
        requires
            old(self).view_offset + old(self).view_height <= usize::MAX,
            old(self).view_height >= 1,
        ensures
            final(self).view_offset == if old(self).cursor.line < old(self).view_offset {
                old(self).cursor.line
            } else if old(self).cursor.line >= old(self).view_offset + old(self).view_height {
                (old(self).cursor.line - old(self).view_height + 1) as usize
            } else {
                old(self).view_offset
            },
            final(self).view_offset <= old(self).cursor.line < final(self).view_offset + old(self).view_height,
            final(self).state() == old(self).state(),
            final(self).filename == old(self).filename,
            final(self).view_height == old(self).view_height,
            final(self).wf() == old(self).wf(),
    {
        if self.cursor.line < self.view_offset {
            self.view_offset = self.cursor.line;
        } else if self.cursor.line >= self.view_offset + self.view_height {
            self.view_offset = self.cursor.line - self.view_height + 1;
        }
    }
    /// Whether `key` may be handed to `handle_key` (see `key_ok`).
    pub fn key_allowed(&self, key: u8) -> (r: bool)
        requires
            self.wf(),
        ensures
            r == self.key_ok(key),
    {
        let line = self.cursor.line;
        let col = self.cursor.col;
        if self.mode != EditorMode::Insert {
            return true;
        }
        let n = self.lines.len();
        if key == 10 && !(line < n && col <= self.lines[line].len()) {
            return false;
        }
        if (key == 8 || key == 127) && col == 0 && line > 0 {
            if line >= n {
                return false;
            }
            let cap = self.lines[line - 1].allocated();
            let len = self.lines[line].len();
            if cap > usize::MAX - 1024 || len > usize::MAX - 1024 - cap {
                return false;
            }
        }
        if line < n && self.lines[line].allocated() > usize::MAX - 1025 {
            return false;
        }
        if 32 <= key && key < 127 && col == usize::MAX {
            return false;
        }
        true
    }
}

proof fn lemma_join_append(ls: Seq<Seq<u8>>, b: u8)
    requires
        ls.len() >= 1,
    ensures
        join_lines(ls.update(ls.len() - 1, ls.last().push(b))) == join_lines(ls).push(b),
{
    let u = ls.update(ls.len() - 1, ls.last().push(b));
    if ls.len() == 1 {
    } else {
        assert(u.drop_last() =~= ls.drop_last());
        assert(join_lines(ls.drop_last()) + seq![10u8] + ls.last().push(b) =~= (join_lines(ls.drop_last()) + seq![10u8] + ls.last()).push(b));
    }
}

/// Splitting into lines yields at least one line.
pub proof fn lemma_split_nonempty(data: Seq<u8>)
    ensures
        split_lines(data).len() >= 1,
    decreases data.len(),
{
    if data.len() > 0 {
        lemma_split_nonempty(data.drop_last());
    }
}

/// Saving what was loaded gives back the same bytes: joining the lines that
/// `load` splits off with `\n` reproduces the file.
pub proof fn lemma_load_save_round_trip(data: Seq<u8>)
    ensures
        join_lines(split_lines(data)) == data,
    decreases data.len(),
{
    if data.len() == 0 {
        assert(join_lines(seq![Seq::<u8>::empty()]) =~= Seq::<u8>::empty());
    } else {
        let d0 = data.drop_last();
        lemma_load_save_round_trip(d0);
        lemma_split_nonempty(d0);
        let rest = split_lines(d0);
        if data.last() == 10 {
            let p = rest.push(Seq::<u8>::empty());
            assert(p.drop_last() =~= rest);
            assert(join_lines(p) =~= d0 + seq![10u8] + Seq::<u8>::empty());
            assert(d0.push(10u8) =~= data);
        } else {
            lemma_join_append(rest, data.last());
            assert(d0.push(data.last()) =~= data);
        }
    }
}

/// In normal mode `x` deletes exactly the byte under the cursor: the line
/// keeps what lies before the cursor column and what lies after it, one byte
/// shorter; the other lines, the cursor and the mode stay, and the text
/// counts as modified.
pub proof fn lemma_x_deletes_under_cursor(s: EditorState)
    requires
        s.mode == EditorMode::Normal,
        0 <= s.line < s.lines.len(),
        0 <= s.col < s.lines[s.line].len(),
    ensures
        ({
            let r = key_step(s, 0x78);
            let l = s.lines[s.line];
            &&& r.lines.len() == s.lines.len()
            &&& r.lines[s.line] == l.subrange(0, s.col) + l.subrange(s.col + 1, l.len() as int)
            &&& r.lines[s.line].len() == l.len() - 1
            &&& forall|k: int| 0 <= k < s.lines.len() && k != s.line ==> r.lines[k] == s.lines[k]
            &&& r.line == s.line && r.col == s.col && r.mode == EditorMode::Normal && r.modified
        }),
{
    let l = s.lines[s.line];
    assert(l.remove(s.col) =~= l.subrange(0, s.col) + l.subrange(s.col + 1, l.len() as int));
}

/// A line without `\n` splits into itself.
proof fn lemma_split_plain(w: Seq<u8>)
    requires
        forall|i: int| 0 <= i < w.len() ==> w[i] != 10,
    ensures
        split_lines(w) == seq![w],
    decreases w.len(),
{
    if w.len() > 0 {
        let d = w.drop_last();
        assert forall|i: int| 0 <= i < d.len() implies d[i] != 10 by {
            assert(d[i] == w[i]);
        }
        lemma_split_plain(d);
        assert(w[w.len() - 1] != 10);
        assert(d.push(w.last()) =~= w);
        assert(seq![d].update(0, d.push(w.last())) =~= seq![w]);
    } else {
        assert(w =~= Seq::<u8>::empty());
    }
}

/// Splitting text, a `\n` and a line without `\n` adds that line.
proof fn lemma_split_after_newline(a: Seq<u8>, w: Seq<u8>)
    requires
        forall|i: int| 0 <= i < w.len() ==> w[i] != 10,
    ensures
        split_lines(a + seq![10u8] + w) == split_lines(a).push(w),
    decreases w.len(),
{
    let x = a + seq![10u8] + w;
    if w.len() == 0 {
        assert(x =~= a.push(10u8));
        assert(x.drop_last() =~= a);
        assert(w =~= Seq::<u8>::empty());
    } else {
        let d = w.drop_last();
        assert forall|i: int| 0 <= i < d.len() implies d[i] != 10 by {
            assert(d[i] == w[i]);
        }
        lemma_split_after_newline(a, d);
        assert(w[w.len() - 1] != 10);
        assert(d.push(w.last()) =~= w);
        assert(x.drop_last() =~= a + seq![10u8] + d);
        assert(x.last() == w.last());
        assert(split_lines(a).push(d).update(split_lines(a).len() as int, d.push(w.last())) =~= split_lines(a).push(w));
    }
}

/// Loading what was saved gives back the lines: splitting the lines joined
/// with `\n` at `\n` yields them, when no line holds a `\n` (as none that
/// `load` or the key handler makes does).
pub proof fn lemma_save_load_round_trip(ls: Seq<Seq<u8>>)
    requires
        ls.len() >= 1,
        forall|k: int, i: int| 0 <= k < ls.len() && 0 <= i < ls[k].len() ==> #[trigger] ls[k][i] != 10,
    ensures
        split_lines(join_lines(ls)) == ls,
    decreases ls.len(),
{
    if ls.len() == 1 {
        assert forall|i: int| 0 <= i < ls[0].len() implies ls[0][i] != 10 by {
            assert(ls[0][i] != 10);
        }
        lemma_split_plain(ls[0]);
        assert(seq![ls[0]] =~= ls);
    } else {
        let d = ls.drop_last();
        assert forall|k: int, i: int| 0 <= k < d.len() && 0 <= i < d[k].len() implies #[trigger] d[k][i] != 10 by {
            assert(d[k] == ls[k]);
            assert(ls[k][i] != 10);
        }
        lemma_save_load_round_trip(d);
        let w = ls.last();
        assert forall|i: int| 0 <= i < w.len() implies w[i] != 10 by {
            assert(ls[ls.len() - 1][i] != 10);
        }
        lemma_split_after_newline(join_lines(d), w);
        assert(d.push(w) =~= ls);
    }
}

/// In insert mode, Backspace at the start of a line undoes the Enter that
/// split it: the lines and the cursor are as before, and the text counts as
/// modified.
pub proof fn lemma_newline_then_backspace(s: EditorState)
    requires
        s.mode == EditorMode::Insert,
        0 <= s.line < s.lines.len(),
        0 <= s.col <= s.lines[s.line].len(),
    ensures
        key_step(key_step(s, 10), 8) == (EditorState { modified: true, ..s }),
{
    let s1 = key_step(s, 10);
    let cur = s.lines[s.line];
    assert(s1.lines[s.line] == cur.subrange(0, s.col));
    assert(s1.lines[s.line + 1] == cur.subrange(s.col, cur.len() as int));
    let s2 = key_step(s1, 8);
    assert(cur.subrange(0, s.col) + cur.subrange(s.col, cur.len() as int) =~= cur);
    assert(s2.lines =~= s.lines);
}

/// `s` preceded by spaces up to `width` characters.
pub open spec fn pad_left(s: Seq<char>, width: nat) -> Seq<char> {
    if s.len() >= width {
        s
    } else {
        Seq::new((width - s.len()) as nat, |i: int| ' ') + s
    }
}

/// The gutter label of line `line_num` (counted from 0): its number from 1
/// right-aligned in four columns, then a space.
pub fn line_label(line_num: usize) -> (s: String)
    requires
        line_num < u64::MAX,
    ensures
        s@ == pad_left(crate::text::decimal((line_num + 1) as nat), 4) + seq![' '],
{
    let mut digits = String::new();
    crate::text::push_decimal(&mut digits, (line_num as u64) + 1);
    let n = digits.unicode_len();
    let mut s = String::new();
    let mut k: usize = n;
    while k < 4
        invariant
            n == digits@.len(),
            n <= k,
            n < 4 ==> k <= 4,
            n >= 4 ==> k == n,
            s@ == Seq::new((k - n) as nat, |i: int| ' '),
        decreases 4 - k,
    {
        crate::text::push_char(&mut s, ' ');
        k = k + 1;
        assert(s@ =~= Seq::new((k - n) as nat, |i: int| ' '));
    }
    let ghost pad = s@;
    crate::text::push_str(&mut s, digits.as_str());
    crate::text::push_char(&mut s, ' ');
    if n >= 4 {
        assert(pad =~= Seq::<char>::empty());
        assert(s@ =~= pad_left(digits@, 4) + seq![' ']);
    } else {
        assert(s@ =~= pad_left(digits@, 4) + seq![' ']);
    }
    s
}

impl Editor {
    /// The title bar's text after "Astral Editor": "  -  " and the file's
    /// name when it has one, then " [modified]" when it has unsaved edits.
    pub fn header_suffix(&self) -> (s: String)
        ensures
            s@ == (match self.filename {
                Some(n) => "  -  "@ + n@,
                None => Seq::<char>::empty(),
            }) + (if self.modified { " [modified]"@ } else { Seq::<char>::empty() }),
    {
        let mut s = String::new();
        match &self.filename {
            Some(n) => {
                crate::text::push_str(&mut s, "  -  ");
                crate::text::push_str(&mut s, n.as_str());
            },
            None => {},
        }
        let ghost mid = s@;
        if self.modified {
            crate::text::push_str(&mut s, " [modified]");
        } else {
            assert(s@ =~= mid + Seq::<char>::empty());
        }
        s
    }

    /// The status bar's position text, "Ln <row>, Col <column>" counted
    /// from 1.
    pub fn position_text(&self) -> (s: String)
        requires
            self.cursor.line < u64::MAX,
            self.cursor.col < u64::MAX,
        ensures
            s@ == "Ln "@ + crate::text::decimal((self.cursor.line + 1) as nat) + ", Col "@ + crate::text::decimal((self.cursor.col + 1) as nat),
    {
        let mut s = String::new();
        crate::text::push_str(&mut s, "Ln ");
        crate::text::push_decimal(&mut s, self.cursor.line as u64 + 1);
        crate::text::push_str(&mut s, ", Col ");
        crate::text::push_decimal(&mut s, self.cursor.col as u64 + 1);
        s
    }

    /// The command line shown in command mode: ":" and the command typed.
    pub fn command_line(&self) -> (r: Option<String>)
        ensures
            self.mode == EditorMode::Command ==> (r matches Some(s) && s@ == seq![':'] + self.command_buffer@),
            self.mode != EditorMode::Command ==> r is None,
    {
        match self.mode {
            EditorMode::Command => {
                let mut s = String::new();
                crate::text::push_char(&mut s, ':');
                crate::text::push_str(&mut s, self.command_buffer.as_str());
                Some(s)
            },
            _ => None,
        }
    }
}

} // verus!
