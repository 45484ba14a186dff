//! A small note-taking application: lines of text, a cursor, and the file
//! name to save under.
use vstd::prelude::*;
use crate::text::{chars_of, string_from_chars, to_string, push_str, push_char, push_decimal, utf8_lossy, lossy_text,
    text_lines, split_newlines, split_on_newline, strip_cr, decimal, lemma_split_on_newline_nonempty};

verus! {

/// Cursor movement direction.
#[derive(Clone, Copy)]
pub enum Direction {
    Up,
    Down,
    Left,
    Right,
}

/// Abstract notes state.
pub struct NotesState {
    pub lines: Seq<Seq<char>>,
    pub line: int,
    pub col: int,
    pub modified: bool,
}

/// The effect of a key: printable ASCII is inserted, Enter splits the line,
/// Backspace deletes the previous character or joins with the line above.
pub open spec fn notes_key(s: NotesState, key: u8) -> NotesState {
    if 32 <= key <= 126 {
        let l = s.lines[s.line];
        if s.col <= l.len() {
            NotesState { lines: s.lines.update(s.line, l.insert(s.col, key as char)), col: s.col + 1, modified: true, ..s }
        } else {
            s
        }
    } else if key == 10 {
        let l = s.lines[s.line];
        let before = if s.col <= l.len() { l.subrange(0, s.col) } else { l };
        let after = if s.col <= l.len() { l.subrange(s.col, l.len() as int) } else { Seq::empty() };
        NotesState { lines: s.lines.update(s.line, before).insert(s.line + 1, after), line: s.line + 1, col: 0, modified: true, ..s }
    } else if key == 8 || key == 127 {
        if s.col > 0 {
            NotesState { lines: s.lines.update(s.line, s.lines[s.line].remove(s.col - 1)), col: s.col - 1, modified: true, ..s }
        } else if s.line > 0 {
            let prev = s.lines[s.line - 1];
            NotesState {
                lines: s.lines.remove(s.line).update(s.line - 1, prev + s.lines[s.line]),
                line: s.line - 1,
                col: prev.len() as int,
                modified: true,
                ..s
            }
        } else {
            s
        }
    } else {
        s
    }
}

/// Backspace at the start of a line undoes the Enter that split it: the
/// lines and the cursor are as before, and the notes count as modified.
pub proof fn lemma_enter_then_backspace(s: NotesState)
    requires
        0 <= s.line < s.lines.len(),
        0 <= s.col <= s.lines[s.line].len(),
    ensures
        notes_key(notes_key(s, 10), 8) == (NotesState { modified: true, ..s }),
{
    let s1 = notes_key(s, 10);
    let cur = s.lines[s.line];
    assert(s1.lines[s.line] == cur.subrange(0, s.col));
    assert(s1.lines[s.line + 1] == cur.subrange(s.col, cur.len() as int));
    let s2 = notes_key(s1, 8);
    assert(cur.subrange(0, s.col) + cur.subrange(s.col, cur.len() as int) =~= cur);
    assert(s2.lines =~= s.lines);
}

/// The notes after typing the keys `ks` in turn.
pub open spec fn notes_typed(s: NotesState, ks: Seq<u8>) -> NotesState
    decreases ks.len(),
{
    if ks.len() == 0 { s } else { notes_key(notes_typed(s, ks.drop_last()), ks.last()) }
}

/// Typing a printable character puts it at the cursor and moves the cursor
/// one column right; the other lines stay.
pub proof fn lemma_typing_inserts_at_cursor(s: NotesState, key: u8)
    requires
        32 <= key <= 126,
        0 <= s.line < s.lines.len(),
        0 <= s.col <= s.lines[s.line].len(),
    ensures
        ({
            let r = notes_key(s, key);
            let l = s.lines[s.line];
            &&& r.lines.len() == s.lines.len()
            &&& r.lines[s.line] == l.subrange(0, s.col) + seq![key as char] + l.subrange(s.col, l.len() as int)
            &&& forall|k: int| 0 <= k < s.lines.len() && k != s.line ==> r.lines[k] == s.lines[k]
            &&& r.line == s.line && r.col == s.col + 1 && r.modified
        }),
{
    let l = s.lines[s.line];
    assert(l.insert(s.col, key as char) =~= l.subrange(0, s.col) + seq![key as char] + l.subrange(s.col, l.len() as int));
}

/// Typing printable characters at the end of a line appends them in order,
/// and the cursor ends after the last one.
pub proof fn lemma_typing_appends(s: NotesState, ks: Seq<u8>)
    requires
        0 <= s.line < s.lines.len(),
        s.col == s.lines[s.line].len(),
        forall|i: int| 0 <= i < ks.len() ==> 32 <= #[trigger] ks[i] <= 126,
    ensures
        ({
            let r = notes_typed(s, ks);
            &&& r.lines.len() == s.lines.len()
            &&& r.lines[s.line] == s.lines[s.line] + ks.map_values(|b: u8| b as char)
            &&& forall|k: int| 0 <= k < s.lines.len() && k != s.line ==> r.lines[k] == s.lines[k]
            &&& r.line == s.line && r.col == s.col + ks.len()
        }),
    decreases ks.len(),
{
    if ks.len() == 0 {
        assert(s.lines[s.line] + ks.map_values(|b: u8| b as char) =~= s.lines[s.line]);
    } else {
        let d = ks.drop_last();
        assert forall|i: int| 0 <= i < d.len() implies 32 <= #[trigger] d[i] <= 126 by {
            assert(d[i] == ks[i]);
        }
        lemma_typing_appends(s, d);
        let p = notes_typed(s, d);
        assert(32 <= ks[ks.len() - 1] <= 126);
        lemma_typing_inserts_at_cursor(p, ks.last());
        let l = p.lines[s.line];
        assert(l.subrange(0, p.col) =~= l);
        assert(l.subrange(p.col, l.len() as int) =~= Seq::<char>::empty());
        assert(s.lines[s.line] + d.map_values(|b: u8| b as char) + seq![ks.last() as char]
            =~= s.lines[s.line] + ks.map_values(|b: u8| b as char));
    }
}

/// Cursor movement; Left and Right wrap across line ends.
pub open spec fn notes_move(s: NotesState, d: Direction) -> NotesState {
    match d {
        Direction::Up => if s.line > 0 {
            let n = s.lines[s.line - 1].len() as int;
            NotesState { line: s.line - 1, col: if s.col < n { s.col } else { n }, ..s }
        } else { s },
        Direction::Down => if s.line + 1 < s.lines.len() {
            let n = s.lines[s.line + 1].len() as int;
            NotesState { line: s.line + 1, col: if s.col < n { s.col } else { n }, ..s }
        } else { s },
        Direction::Left => if s.col > 0 {
            NotesState { col: s.col - 1, ..s }
        } else if s.line > 0 {
            NotesState { line: s.line - 1, col: s.lines[s.line - 1].len() as int, ..s }
        } else { s },
        Direction::Right => if s.col < s.lines[s.line].len() {
            NotesState { col: s.col + 1, ..s }
        } else if s.line + 1 < s.lines.len() {
            NotesState { line: s.line + 1, col: 0, ..s }
        } else { s },
    }
}

/// Lines joined with `\n`.
pub open spec fn join_text(ls: Seq<Seq<char>>) -> Seq<char>
    decreases ls.len(),
{
    if ls.len() == 0 {
        Seq::empty()
    } else if ls.len() == 1 {
        ls[0]
    } else {
        join_text(ls.drop_last()) + seq!['\n'] + ls.last()
    }
}

/// The notes application.
pub struct Notes {
    content: Vec<String>,
    cursor_line: usize,
    cursor_col: usize,
    filename: String,
    modified: bool,
}

impl Notes {
    pub closed spec fn state(&self) -> NotesState {
        NotesState {
            lines: self.content@.map_values(|l: String| l@),
            line: self.cursor_line as int,
            col: self.cursor_col as int,
            modified: self.modified,
        }
    }

    /// Name the notes are saved under.
    pub closed spec fn file(&self) -> Seq<char> {
        self.filename@
    }

    pub closed spec fn wf(&self) -> bool {
        &&& 1 <= self.content@.len() <= usize::MAX
        &&& self.cursor_line < self.content@.len()
        &&& self.cursor_col <= self.content@[self.cursor_line as int]@.len()
    }

    pub fn new() -> (n: Self)
        ensures
            n.wf(),
            n.state() == (NotesState { lines: seq![Seq::<char>::empty()], line: 0, col: 0, modified: false }),
            n.file() == "untitled.txt"@,
    {
        let mut content: Vec<String> = Vec::new();
        content.push(String::new());
        let n = Notes { content, cursor_line: 0, cursor_col: 0, filename: to_string("untitled.txt"), modified: false };
        assert(n.state().lines =~= seq![Seq::<char>::empty()]);
        n
    }

    /// Loads `data`, the bytes read for `filename` (`None` when reading
    /// failed, which leaves the notes as they were and returns false). The
    /// bytes are decoded as UTF-8 and split into lines as `str::lines` does;
    /// no lines give one empty line.
    pub fn load(&mut self, filename: &str, data: Option<Vec<u8>>) -> (ok: bool)
        requires
            old(self).wf(),
        ensures
            final(self).wf(),
            ok == data is Some,
            !ok ==> final(self).state() == old(self).state() && final(self).file() == old(self).file(),
            ok ==> {
                &&& final(self).file() == filename@
                &&& final(self).state().line == 0 && final(self).state().col == 0 && !final(self).state().modified
                &&& data matches Some(d) && ({
                    let ls = text_lines(lossy_text(d@));
                    final(self).state().lines == if ls.len() == 0 { seq![Seq::<char>::empty()] } else { ls }
                })
                &&& data matches Some(d) && (vstd::utf8::valid_utf8(d@) ==> {
                    let ls = text_lines(vstd::utf8::decode_utf8(d@));
                    final(self).state().lines == if ls.len() == 0 { seq![Seq::<char>::empty()] } else { ls }
                })
            },
    {
        let d = match data {
            Some(d) => d,
            None => return false,
        };
        let text = utf8_lossy(d.as_slice());
        let cs = chars_of(text.as_str());
        let pieces = split_newlines(&cs);
        proof { lemma_split_on_newline_nonempty(cs@); }
        let ghost p = split_on_newline(cs@);
        let mut content: Vec<String> = Vec::new();
        let last = pieces.len() - 1;
        let mut i: usize = 0;
        while i < last
            invariant
                last == pieces@.len() - 1,
                pieces@.map_values(|v: Vec<char>| v@) == p,
                i <= last,
                content@.map_values(|l: String| l@) == p.subrange(0, i as int).map_values(|l: Seq<char>| strip_cr(l)),
            decreases last - i,
        {
            let piece = &pieces[i];
            let n = piece.len();
            let mut kept: Vec<char> = Vec::new();
            let keep = if n > 0 && piece[n - 1] == '\r' { n - 1 } else { n };
            let mut j: usize = 0;
            while j < keep
                invariant
                    keep <= piece@.len(),
                    j <= keep,
                    kept@ == piece@.subrange(0, j as int),
                decreases keep - j,
            {
                kept.push(piece[j]);
                j = j + 1;
                assert(kept@ =~= piece@.subrange(0, j as int));
            }
            assert(pieces@[i as int]@ == p[i as int]);
            assert(kept@ =~= strip_cr(p[i as int]));
            let ghost before = content@.map_values(|l: String| l@);
            content.push(string_from_chars(&kept));
            assert(content@.map_values(|l: String| l@) =~= before.push(strip_cr(p[i as int])));
            assert(p.subrange(0, i + 1).map_values(|l: Seq<char>| strip_cr(l)) =~= p.subrange(0, i as int).map_values(|l: Seq<char>| strip_cr(l)).push(strip_cr(p[i as int])));
            i = i + 1;
        }
        assert(p.subrange(0, last as int) =~= p.drop_last());
        assert(pieces@[last as int]@ == p.last());
        if pieces[last].len() > 0 {
            let ghost before = content@.map_values(|l: String| l@);
            content.push(string_from_chars(&pieces[last]));
            assert(content@.map_values(|l: String| l@) =~= before.push(p.last()));
        }
        let _n = content.len();
        if content.len() == 0 {
            content.push(String::new());
            assert(content@.map_values(|l: String| l@) =~= seq![Seq::<char>::empty()]);
        }
        self.content = content;
        self.filename = to_string(filename);
        self.cursor_line = 0;
        self.cursor_col = 0;
        self.modified = false;
        true
    }

    fn joined(&self) -> (t: String)
        ensures
            t@ == join_text(self.state().lines),
    {
        let mut t = String::new();
        let mut i: usize = 0;
        while i < self.content.len()
            invariant
                i <= self.content@.len(),
                i == 0 ==> t@ == Seq::<char>::empty(),
                i > 0 ==> t@ == join_text(self.state().lines.subrange(0, i as int)),
            decreases self.content@.len() - i,
        {
            let ghost prev = t@;
            if i > 0 {
                push_char(&mut t, '\n');
            }
            push_str(&mut t, self.content[i].as_str());
            proof {
                let vs = self.state().lines.subrange(0, i + 1);
                assert(vs.drop_last() =~= self.state().lines.subrange(0, i as int));
                if i == 0 {
                    assert(t@ =~= vs[0]);
                }
            }
            i = i + 1;
        }
        assert(self.state().lines.subrange(0, i as int) =~= self.state().lines);
        t
    }

    /// The file name and the bytes to write: the lines joined with `\n`,
    /// UTF-8 encoded. After a successful write the caller reports it with
    /// `mark_saved`.
    pub fn save(&self) -> (r: (String, Vec<u8>))
        ensures
            r.0@ == self.file(),
            r.1@ == vstd::utf8::encode_utf8(join_text(self.state().lines)),
    {
        let t = self.joined();
        let bytes = t.as_str().as_bytes();
        let mut v: Vec<u8> = Vec::new();
        let mut i: usize = 0;
        while i < bytes.len()
            invariant
                i <= bytes@.len(),
                v@ == bytes@.subrange(0, i as int),
            decreases bytes@.len() - i,
        {
            v.push(bytes[i]);
            i = i + 1;
            assert(v@ =~= bytes@.subrange(0, i as int));
        }
        assert(bytes@.subrange(0, i as int) =~= bytes@);
        (to_string(self.filename.as_str()), v)
    }

    /// Sets a new file name and returns what to write under it.
    pub fn save_as(&mut self, filename: &str) -> (r: (String, Vec<u8>))
        ensures
            final(self).file() == filename@,
            final(self).state() == old(self).state(),
            final(self).wf() == old(self).wf(),
            r.0@ == filename@,
            r.1@ == vstd::utf8::encode_utf8(join_text(old(self).state().lines)),
    {
        self.filename = to_string(filename);
        self.save()
    }

    /// Records that the notes were written out.
    pub fn mark_saved(&mut self)
        ensures
            final(self).state() == (NotesState { modified: false, ..old(self).state() }),
            final(self).file() == old(self).file(),
            final(self).wf() == old(self).wf(),
    {
        self.modified = false;
    }

    pub fn filename(&self) -> (r: &str)
        ensures
            r@ == self.file(),
    {
        self.filename.as_str()
    }

    pub fn is_modified(&self) -> (r: bool)
        ensures
            r == self.state().modified,
    {
        self.modified
    }

    pub fn lines(&self) -> (r: &[String])
        ensures
            r@.map_values(|l: String| l@) == self.state().lines,
    {
        self.content.as_slice()
    }

    pub fn cursor(&self) -> (r: (usize, usize))
        ensures
            r.0 == self.state().line && r.1 == self.state().col,
    {
        (self.cursor_line, self.cursor_col)
    }

    pub fn line_count(&self) -> (r: usize)
        ensures
            r == self.state().lines.len(),
    {
        self.content.len()
    }

    fn set_line(&mut self, i: usize, cs: &Vec<char>)
        requires
            i < old(self).content@.len(),
        ensures
            final(self).content@.map_values(|l: String| l@) == old(self).content@.map_values(|l: String| l@).update(i as int, cs@),
            final(self).content@.len() == old(self).content@.len(),
            final(self).content@[i as int]@ == cs@,
            forall|j: int| 0 <= j < old(self).content@.len() && j != i ==> final(self).content@[j] == old(self).content@[j],
            final(self).cursor_line == old(self).cursor_line,
            final(self).cursor_col == old(self).cursor_col,
            final(self).modified == old(self).modified,
            final(self).filename == old(self).filename,
    {
        let s = string_from_chars(cs);
        self.content.set(i, s);
        assert(self.content@.map_values(|l: String| l@) =~= old(self).content@.map_values(|l: String| l@).update(i as int, cs@));
    }

    /// Handles a key: printable ASCII, Enter and Backspace edit the text.
    pub fn handle_key(&mut self, key: u8)
        requires
            old(self).wf(),
        ensures
            final(self).wf(),
            final(self).state() == notes_key(old(self).state(), key),
            final(self).file() == old(self).file(),
    {
        let ghost s = self.state();
        let line = self.cursor_line;
        let col = self.cursor_col;
        if 32 <= key && key <= 126 {
            let cs = chars_of(self.content[line].as_str());
            let mut out: Vec<char> = Vec::new();
            let mut j: usize = 0;
            while j < cs.len()
                invariant
                    j <= cs@.len(),
                    col <= cs@.len(),
                    out@ == if j <= col { cs@.subrange(0, j as int) } else { cs@.subrange(0, col as int).push(key as char) + cs@.subrange(col as int, j as int) },
                decreases cs@.len() - j,
            {
                if j == col {
                    out.push(key as char);
                }
                out.push(cs[j]);
                j = j + 1;
                proof {
                    if j <= col {
                        assert(out@ =~= cs@.subrange(0, j as int));
                    } else {
                        assert(out@ =~= cs@.subrange(0, col as int).push(key as char) + cs@.subrange(col as int, j as int));
                    }
                }
            }
            if col == cs.len() {
                out.push(key as char);
            }
            assert(out@ =~= cs@.insert(col as int, key as char));
            assert(col < out.len());
            self.set_line(line, &out);
            self.cursor_col = col + 1;
            self.modified = true;
            assert(self.state().lines =~= s.lines.update(line as int, s.lines[line as int].insert(col as int, key as char)));
        } else if key == 10 {
            let cs = chars_of(self.content[line].as_str());
            let mut before: Vec<char> = Vec::new();
            let mut after: Vec<char> = Vec::new();
            let mut j: usize = 0;
            while j < cs.len()
                invariant
                    j <= cs@.len(),
                    col <= cs@.len(),
                    before@ == cs@.subrange(0, if j < col { j as int } else { col as int }),
                    after@ == if j < col { Seq::<char>::empty() } else { cs@.subrange(col as int, j as int) },
                decreases cs@.len() - j,
            {
                if j < col {
                    before.push(cs[j]);
                } else {
                    after.push(cs[j]);
                }
                j = j + 1;
                assert(before@ =~= cs@.subrange(0, if j < col { j as int } else { col as int }));
                assert(after@ =~= if j < col { Seq::<char>::empty() } else { cs@.subrange(col as int, j as int) });
            }
            self.set_line(line, &before);
            let a = string_from_chars(&after);
            let ghost mid = self.content@.map_values(|l: String| l@);
            self.content.insert(line + 1, a);
            let _n = self.content.len();
            assert(self.content@.map_values(|l: String| l@) =~= mid.insert(line + 1, after@));
            self.cursor_line = line + 1;
            self.cursor_col = 0;
            self.modified = true;
        } else if key == 8 || key == 127 {
            if col > 0 {
                let cs = chars_of(self.content[line].as_str());
                let mut out: Vec<char> = Vec::new();
                let mut j: usize = 0;
                while j < cs.len()
                    invariant
                        j <= cs@.len(),
                        0 < col <= cs@.len(),
                        out@ == if j < col { cs@.subrange(0, j as int) } else { cs@.subrange(0, col - 1) + cs@.subrange(col as int, j as int) },
                    decreases cs@.len() - j,
                {
                    if j != col - 1 {
                        out.push(cs[j]);
                    }
                    j = j + 1;
                    proof {
                        if j < col {
                            assert(out@ =~= cs@.subrange(0, j as int));
                        } else {
                            assert(out@ =~= cs@.subrange(0, col - 1) + cs@.subrange(col as int, j as int));
                        }
                    }
                }
                assert(out@ =~= cs@.remove(col - 1));
                self.set_line(line, &out);
                self.cursor_col = col - 1;
                self.modified = true;
            } else if line > 0 {
                let ghost v0 = self.content@.map_values(|l: String| l@);
                let current = self.content.remove(line);
                let ghost v1 = self.content@.map_values(|l: String| l@);
                assert(v1 =~= v0.remove(line as int));
                let prev = chars_of(self.content[line - 1].as_str());
                let cur = chars_of(current.as_str());
                let mut joined: Vec<char> = prev.clone();
                let mut j: usize = 0;
                assert(joined@ == prev@);
                while j < cur.len()
                    invariant
                        j <= cur@.len(),
                        joined@ == prev@ + cur@.subrange(0, j as int),
                    decreases cur@.len() - j,
                {
                    joined.push(cur[j]);
                    j = j + 1;
                    assert(joined@ =~= prev@ + cur@.subrange(0, j as int));
                }
                assert(cur@.subrange(0, j as int) =~= cur@);
                self.set_line(line - 1, &joined);
                self.cursor_line = line - 1;
                self.cursor_col = prev.len();
                self.modified = true;
            }
        }
    }

    /// Moves the cursor.
    pub fn move_cursor(&mut self, direction: Direction)
        requires
            old(self).wf(),
        ensures
            final(self).wf(),
            final(self).state() == notes_move(old(self).state(), direction),
            final(self).file() == old(self).file(),
    {
        match direction {
            Direction::Up => {
                if self.cursor_line > 0 {
                    self.cursor_line = self.cursor_line - 1;
                    let n = self.content[self.cursor_line].as_str().unicode_len();
                    if n < self.cursor_col {
                        self.cursor_col = n;
                    }
                }
            },
            Direction::Down => {
                if self.cursor_line + 1 < self.content.len() {
                    self.cursor_line = self.cursor_line + 1;
                    let n = self.content[self.cursor_line].as_str().unicode_len();
                    if n < self.cursor_col {
                        self.cursor_col = n;
                    }
                }
            },
            Direction::Left => {
                if self.cursor_col > 0 {
                    self.cursor_col = self.cursor_col - 1;
                } else if self.cursor_line > 0 {
                    self.cursor_line = self.cursor_line - 1;
                    self.cursor_col = self.content[self.cursor_line].as_str().unicode_len();
                }
            },
            Direction::Right => {
                let n = self.content[self.cursor_line].as_str().unicode_len();
                if self.cursor_col < n {
                    self.cursor_col = self.cursor_col + 1;
                } else if self.cursor_line + 1 < self.content.len() {
                    self.cursor_line = self.cursor_line + 1;
                    self.cursor_col = 0;
                }
            },
        }
    }

    /// `"<file> [+] L:<line> C:<col>"`, with `[+]` only when modified and
    /// line and column counted from 1.
    pub fn status(&self) -> (r: String)
        requires
            self.wf(),
            self.state().col < usize::MAX,
        ensures
            r@ == self.file() + seq![' '] + (if self.state().modified { seq!['[', '+', ']'] } else { Seq::empty() })
                + seq![' ', 'L', ':'] + decimal((self.state().line + 1) as nat) + seq![' ', 'C', ':']
                + decimal((self.state().col + 1) as nat),
    {
        let mut r = to_string(self.filename.as_str());
        push_char(&mut r, ' ');
        if self.modified {
            push_char(&mut r, '[');
            push_char(&mut r, '+');
            push_char(&mut r, ']');
        }
        push_char(&mut r, ' ');
        push_char(&mut r, 'L');
        push_char(&mut r, ':');
        push_decimal(&mut r, (self.cursor_line + 1) as u64);
        push_char(&mut r, ' ');
        push_char(&mut r, 'C');
        push_char(&mut r, ':');
        push_decimal(&mut r, (self.cursor_col + 1) as u64);
        proof {
            let m: Seq<char> = if self.modified { seq!['[', '+', ']'] } else { Seq::empty() };
            assert(r@ =~= self.file() + seq![' '] + m + seq![' ', 'L', ':'] + decimal((self.cursor_line + 1) as nat)
                + seq![' ', 'C', ':'] + decimal((self.cursor_col + 1) as nat));
        }
        r
    }
}

} // verus!
