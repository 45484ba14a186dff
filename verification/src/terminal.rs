//! The terminal application: an output log, an input line with a cursor,
//! command history and a small set of built-in commands.
use vstd::prelude::*;
use crate::text::{chars_of, string_from_chars, to_string, push_str, push_char, push_decimal, decimal, str_eq};

verus! {

/// Lines of output kept.
pub const MAX_OUTPUT_LINES: usize = 500;
/// Commands kept in the history.
pub const MAX_HISTORY: usize = 100;

/// Scheduling state of a process, as `ps` shows it.
#[derive(Clone, Copy, PartialEq, Eq, Structural)]
pub enum ProcessState {
    Ready,
    Running,
    Blocked,
    Zombie,
}

/// System facts that the `ls`, `ps`, `mem`, `cpu` and `date` commands report.
pub struct SysInfo {
    pub files: Vec<String>,
    pub processes: Vec<(u64, ProcessState)>,
    pub mem_total: u64,
    pub mem_used: u64,
    pub mem_free: u64,
    pub cpu_count: u64,
    pub ticks: u64,
}

/// Abstract terminal state.
pub struct TermState {
    pub output: Seq<Seq<char>>,
    pub input: Seq<char>,
    pub cursor: int,
    pub history: Seq<Seq<char>>,
    pub history_idx: Option<int>,
}

pub open spec fn printable(c: char) -> bool {
    32 <= (c as u32) <= 126
}

/// The last `n` elements (all of them when there are fewer).
pub open spec fn keep_last<T>(s: Seq<T>, n: nat) -> Seq<T> {
    if s.len() > n { s.subrange(s.len() - n, s.len() as int) } else { s }
}

/// Leading and trailing spaces removed.
pub open spec fn trim_spaces(s: Seq<char>) -> Seq<char>
    decreases s.len(),
{
    if s.len() > 0 && s[0] == ' ' {
        trim_spaces(s.drop_first())
    } else if s.len() > 0 && s.last() == ' ' {
        trim_spaces(s.drop_last())
    } else {
        s
    }
}

/// Words separated by spaces.
pub open spec fn words(s: Seq<char>) -> Seq<Seq<char>>
    decreases s.len(),
{
    if s.len() == 0 {
        Seq::empty()
    } else {
        let w = words(s.drop_last());
        if s.last() == ' ' {
            w
        } else if s.len() >= 2 && s[s.len() - 2] != ' ' && w.len() > 0 {
            w.update(w.len() - 1, w.last().push(s.last()))
        } else {
            w.push(seq![s.last()])
        }
    }
}

/// Words joined with single spaces.
pub open spec fn join_words(ws: Seq<Seq<char>>) -> Seq<char>
    decreases ws.len(),
{
    if ws.len() == 0 {
        Seq::empty()
    } else if ws.len() == 1 {
        ws[0]
    } else {
        join_words(ws.drop_last()) + seq![' '] + ws.last()
    }
}

/// `s` preceded by spaces up to width `w`.
pub open spec fn pad_left(s: Seq<char>, w: nat) -> Seq<char> {
    if s.len() >= w { s } else { Seq::new((w - s.len()) as nat, |i: int| ' ') + s }
}

/// `s` followed by spaces up to width `w`.
pub open spec fn pad_right(s: Seq<char>, w: nat) -> Seq<char> {
    if s.len() >= w { s } else { s + Seq::new((w - s.len()) as nat, |i: int| ' ') }
}

pub open spec fn state_name(st: ProcessState) -> Seq<char> {
    match st {
        ProcessState::Ready => "READY"@,
        ProcessState::Running => "RUNNING"@,
        ProcessState::Blocked => "BLOCKED"@,
        ProcessState::Zombie => "ZOMBIE"@,
    }
}

pub open spec fn help_lines() -> Seq<Seq<char>> {
    seq![
        "Available commands:"@,
        "  help    - Show this help"@,
        "  clear   - Clear screen"@,
        "  ls      - List files"@,
        "  ps      - Show processes"@,
        "  mem     - Memory info"@,
        "  cpu     - CPU info"@,
        "  date    - Show date"@,
        "  echo    - Echo text"@,
        "  exit    - Close terminal"@
    ]
}

pub open spec fn ls_lines(files: Seq<Seq<char>>) -> Seq<Seq<char>> {
    if files.len() == 0 {
        seq!["(no files)"@]
    } else {
        files.map_values(|f: Seq<char>| seq![' ', ' '] + f)
    }
}

pub open spec fn ps_line(p: (u64, ProcessState)) -> Seq<char> {
    pad_left(decimal(p.0 as nat), 4) + seq![' '] + pad_right(state_name(p.1), 9) + " shell"@
}

/// What a command prints (the `clear` command prints nothing).
pub open spec fn command_lines(ws: Seq<Seq<char>>, files: Seq<Seq<char>>, procs: Seq<(u64, ProcessState)>,
    mem: (u64, u64, u64), cpus: u64, ticks: u64) -> Seq<Seq<char>> {
    if ws.len() == 0 {
        Seq::empty()
    } else {
        let c = ws[0];
        if c == "help"@ {
            help_lines()
        } else if c == "clear"@ {
            Seq::empty()
        } else if c == "ls"@ {
            ls_lines(files)
        } else if c == "ps"@ {
            seq!["PID  STATE     NAME"@] + procs.map_values(|p: (u64, ProcessState)| ps_line(p))
        } else if c == "mem"@ {
            seq![
                "Total: "@ + decimal((mem.0 / 1024) as nat) + " KB"@,
                "Used:  "@ + decimal((mem.1 / 1024) as nat) + " KB"@,
                "Free:  "@ + decimal((mem.2 / 1024) as nat) + " KB"@
            ]
        } else if c == "cpu"@ {
            seq!["CPUs: "@ + decimal(cpus as nat), "Arch: x86_64"@]
        } else if c == "date"@ {
            seq!["Uptime: "@ + decimal((ticks / 100) as nat) + " seconds"@]
        } else if c == "echo"@ {
            seq![join_words(ws.drop_first())]
        } else if c == "exit"@ {
            seq!["Use 'q' to exit GUI mode"@]
        } else {
            seq!["Unknown command: "@ + c]
        }
    }
}

/// `ls` lists the files in order, one line each, indented by two spaces.
pub proof fn lemma_ls_lists_every_file(ws: Seq<Seq<char>>, files: Seq<Seq<char>>, procs: Seq<(u64, ProcessState)>,
    mem: (u64, u64, u64), cpus: u64, ticks: u64)
    requires
        ws.len() > 0,
        ws[0] == "ls"@,
        files.len() > 0,
    ensures
        ({
            let out = command_lines(ws, files, procs, mem, cpus, ticks);
            &&& out.len() == files.len()
            &&& forall|i: int| 0 <= i < files.len() ==> out[i] == seq![' ', ' '] + files[i]
        }),
{
    reveal_strlit("help");
    reveal_strlit("clear");
    reveal_strlit("ls");
    assert("ls"@.len() != "help"@.len());
    assert("ls"@.len() != "clear"@.len());
    let out = command_lines(ws, files, procs, mem, cpus, ticks);
    assert(out == ls_lines(files));
}

/// The effect of Enter: the trimmed input is echoed, recorded in the history
/// when non-empty, and run; the input line is then cleared.
pub open spec fn run_command(s: TermState, files: Seq<Seq<char>>, procs: Seq<(u64, ProcessState)>,
    mem: (u64, u64, u64), cpus: u64, ticks: u64) -> TermState {
    let cmd = trim_spaces(s.input);
    let ws = words(cmd);
    let echoed = s.output.push("> "@ + cmd);
    TermState {
        output: if ws.len() > 0 && ws[0] == "clear"@ {
            Seq::empty()
        } else {
            keep_last(echoed + command_lines(ws, files, procs, mem, cpus, ticks), MAX_OUTPUT_LINES as nat)
        },
        input: Seq::empty(),
        cursor: 0,
        history: if cmd.len() > 0 { keep_last(s.history.push(cmd), MAX_HISTORY as nat) } else { s.history },
        history_idx: None,
    }
}

/// The history holds at most `MAX_HISTORY` commands: a command run is
/// recorded last, the oldest one dropped beyond the cap, and a blank input
/// leaves the history alone.
pub proof fn lemma_history_cap(s: TermState, files: Seq<Seq<char>>, procs: Seq<(u64, ProcessState)>,
    mem: (u64, u64, u64), cpus: u64, ticks: u64)
    requires
        s.history.len() <= MAX_HISTORY,
    ensures
        ({
            let r = run_command(s, files, procs, mem, cpus, ticks);
            let cmd = trim_spaces(s.input);
            let n = s.history.len();
            &&& r.history.len() <= MAX_HISTORY
            &&& cmd.len() == 0 ==> r.history == s.history
            &&& cmd.len() > 0 ==> {
                &&& r.history.len() == if n < MAX_HISTORY { n + 1 } else { MAX_HISTORY as nat }
                &&& r.history.last() == cmd
                &&& r.history.drop_last() == s.history.subrange(n + 1 - r.history.len(), n as int)
            }
            &&& r.input.len() == 0 && r.cursor == 0 && r.history_idx is None
        }),
{
    let r = run_command(s, files, procs, mem, cpus, ticks);
    let cmd = trim_spaces(s.input);
    let n = s.history.len();
    if cmd.len() > 0 {
        let p = s.history.push(cmd);
        if p.len() > MAX_HISTORY {
            assert(r.history.drop_last() =~= s.history.subrange(n + 1 - r.history.len(), n as int));
        } else {
            assert(r.history.drop_last() =~= s.history.subrange(0, n as int));
        }
    }
}

/// The effect of a key.
pub open spec fn term_key(s: TermState, key: u8, files: Seq<Seq<char>>, procs: Seq<(u64, ProcessState)>,
    mem: (u64, u64, u64), cpus: u64, ticks: u64) -> TermState {
    if 32 <= key <= 126 {
        TermState { input: s.input.insert(s.cursor, key as char), cursor: s.cursor + 1, history_idx: None, ..s }
    } else if key == 10 {
        run_command(s, files, procs, mem, cpus, ticks)
    } else if key == 8 || key == 127 {
        if s.cursor > 0 { TermState { input: s.input.remove(s.cursor - 1), cursor: s.cursor - 1, ..s } } else { s }
    } else if key == 9 {
        if s.input.len() >= 3 && s.input.subrange(0, 3) == "hel"@ {
            TermState { input: "help"@, cursor: 4, ..s }
        } else if s.input.len() >= 3 && s.input.subrange(0, 3) == "cle"@ {
            TermState { input: "clear"@, cursor: 5, ..s }
        } else {
            s
        }
    } else {
        s
    }
}

/// Backspace right after typing a character takes it out again: the input
/// line and cursor are as before (and history browsing has stopped).
pub proof fn lemma_type_then_backspace(s: TermState, key: u8, files: Seq<Seq<char>>, procs: Seq<(u64, ProcessState)>,
    mem: (u64, u64, u64), cpus: u64, ticks: u64)
    requires
        32 <= key <= 126,
        0 <= s.cursor <= s.input.len(),
    ensures
        term_key(term_key(s, key, files, procs, mem, cpus, ticks), 8, files, procs, mem, cpus, ticks)
            == (TermState { history_idx: None, ..s }),
{
    let s1 = term_key(s, key, files, procs, mem, cpus, ticks);
    assert(s1.input.remove(s.cursor) =~= s.input);
}

/// Trimming to the last `n` in steps gives the same as trimming once.
pub proof fn lemma_keep_last_append<T>(a: Seq<T>, b: Seq<T>, n: nat)
    requires
        n > 0,
    ensures
        keep_last(keep_last(a, n) + b, n) == keep_last(a + b, n),
{
    assert(keep_last(keep_last(a, n) + b, n) =~= keep_last(a + b, n));
}

/// Where the trimmed text starts and ends.
pub open spec fn trim_bounds(s: Seq<char>) -> (int, int)
    decreases s.len(),
{
    if s.len() > 0 && s[0] == ' ' {
        let (a, b) = trim_bounds(s.drop_first());
        (a + 1, b + 1)
    } else if s.len() > 0 && s.last() == ' ' {
        trim_bounds(s.drop_last())
    } else {
        (0, s.len() as int)
    }
}

/// The trimmed text is a slice of the text.
pub proof fn lemma_trim_is_slice(s: Seq<char>)
    ensures
        0 <= trim_bounds(s).0 <= trim_bounds(s).1 <= s.len(),
        trim_spaces(s) == s.subrange(trim_bounds(s).0, trim_bounds(s).1),
    decreases s.len(),
{
    if s.len() > 0 && s[0] == ' ' {
        lemma_trim_is_slice(s.drop_first());
        let (a, b) = trim_bounds(s.drop_first());
        assert(s.drop_first().subrange(a, b) =~= s.subrange(a + 1, b + 1));
    } else if s.len() > 0 && s.last() == ' ' {
        lemma_trim_is_slice(s.drop_last());
        let (a, b) = trim_bounds(s.drop_last());
        assert(s.drop_last().subrange(a, b) =~= s.subrange(a, b));
    } else {
        assert(s.subrange(0, s.len() as int) =~= s);
    }
}

/// `s` is `base` followed by `n` spaces.
pub open spec fn final_pad(s: Seq<char>, base: Seq<char>, n: nat) -> bool {
    s == base + Seq::new(n, |i: int| ' ')
}

/// The terminal.
pub struct Terminal {
    output: Vec<String>,
    input: String,
    cursor: usize,
    history: Vec<String>,
    history_idx: Option<usize>,
}

impl Terminal {
    pub closed spec fn state(&self) -> TermState {
        TermState {
            output: self.output@.map_values(|l: String| l@),
            input: self.input@,
            cursor: self.cursor as int,
            history: self.history@.map_values(|l: String| l@),
            history_idx: match self.history_idx { Some(i) => Some(i as int), None => None },
        }
    }

    pub closed spec fn wf(&self) -> bool {
        &&& self.output@.len() <= MAX_OUTPUT_LINES
        &&& self.history@.len() <= MAX_HISTORY
        &&& self.cursor <= self.input@.len()
        &&& forall|i: int| 0 <= i < self.input@.len() ==> printable(#[trigger] self.input@[i])
        &&& forall|h: int, i: int| 0 <= h < self.history@.len() && 0 <= i < self.history@[h]@.len()
                ==> printable(#[trigger] self.history@[h]@[i])
        &&& self.history_idx matches Some(i) ==> i < self.history@.len()
    }

    /// Appends a line, dropping the oldest lines beyond `MAX_OUTPUT_LINES`.
    pub fn println(&mut self, line: &str)
        requires
            old(self).state().output.len() <= MAX_OUTPUT_LINES,
        ensures
            final(self).state() == (TermState { output: keep_last(old(self).state().output.push(line@), MAX_OUTPUT_LINES as nat), ..old(self).state() }),
            final(self).state().output.len() <= MAX_OUTPUT_LINES,
            old(self).wf() ==> final(self).wf(),
    {
        let ghost o = self.state().output;
        self.output.push(to_string(line));
        if self.output.len() > MAX_OUTPUT_LINES {
            self.output.remove(0);
            assert(self.state().output =~= keep_last(o.push(line@), MAX_OUTPUT_LINES as nat));
        } else {
            assert(self.state().output =~= o.push(line@));
        }
    }

    pub fn new() -> (t: Self)
        ensures
            t.wf(),
            t.state() == (TermState {
                output: seq!["Astral OS Terminal v0.3"@, "Type 'help' for commands"@, ""@],
                input: Seq::empty(),
                cursor: 0,
                history: Seq::empty(),
                history_idx: None,
            }),
    {
        let mut t = Terminal { output: Vec::new(), input: String::new(), cursor: 0, history: Vec::new(), history_idx: None };
        assert(t.state().output =~= Seq::<Seq<char>>::empty());
        assert(t.state().history =~= Seq::<Seq<char>>::empty());
        t.println("Astral OS Terminal v0.3");
        t.println("Type 'help' for commands");
        t.println("");
        assert(t.state().output =~= seq!["Astral OS Terminal v0.3"@, "Type 'help' for commands"@, ""@]);
        t
    }

    /// Output lines, oldest first.
    pub fn output_lines(&self) -> (r: &[String])
        ensures
            r@.map_values(|l: String| l@) == self.state().output,
    {
        self.output.as_slice()
    }

    pub fn input_line(&self) -> (r: &str)
        ensures
            r@ == self.state().input,
    {
        self.input.as_str()
    }

    pub fn cursor_pos(&self) -> (r: usize)
        ensures
            r == self.state().cursor,
    {
        self.cursor
    }
    pub(crate) fn trimmed(cs: &Vec<char>) -> (r: Vec<char>)
        ensures
            r@ == trim_spaces(cs@),
    {
        let mut a: usize = 0;
        let mut b: usize = cs.len();
        assert(cs@.subrange(0, b as int) =~= cs@);
        while a < b && cs[a] == ' '
            invariant
                a <= b == cs@.len(),
                trim_spaces(cs@) == trim_spaces(cs@.subrange(a as int, b as int)),
            decreases b - a,
        {
            assert(cs@.subrange(a as int, b as int).drop_first() =~= cs@.subrange(a + 1, b as int));
            a = a + 1;
        }
        while a < b && cs[b - 1] == ' '
            invariant
                a <= b <= cs@.len(),
                a < b ==> cs@[a as int] != ' ',
                trim_spaces(cs@) == trim_spaces(cs@.subrange(a as int, b as int)),
            decreases b - a,
        {
            assert(cs@.subrange(a as int, b as int).drop_last() =~= cs@.subrange(a as int, b - 1));
            b = b - 1;
        }
        let mut r: Vec<char> = Vec::new();
        let mut i: usize = a;
        while i < b
            invariant
                a <= i <= b <= cs@.len(),
                r@ == cs@.subrange(a as int, i as int),
            decreases b - i,
        {
            r.push(cs[i]);
            i = i + 1;
            assert(r@ =~= cs@.subrange(a as int, i as int));
        }
        r
    }

    fn split_words(cs: &Vec<char>) -> (r: Vec<Vec<char>>)
        ensures
            r@.map_values(|v: Vec<char>| v@) == words(cs@),
    {
        let mut out: Vec<Vec<char>> = Vec::new();
        let mut cur: Vec<char> = Vec::new();
        let mut i: usize = 0;
        assert(cs@.subrange(0, 0) =~= Seq::<char>::empty());
        assert(out@.map_values(|v: Vec<char>| v@) =~= Seq::<Seq<char>>::empty());
        while i < cs.len()
            invariant
                i <= cs@.len(),
                words(cs@.subrange(0, i as int)) == if cur@.len() > 0 { out@.map_values(|v: Vec<char>| v@).push(cur@) } else { out@.map_values(|v: Vec<char>| v@) },
                cur@.len() > 0 <==> (i > 0 && cs@[i - 1] != ' '),
            decreases cs@.len() - i,
        {
            let ghost pre = cs@.subrange(0, i as int);
            let ghost w = words(pre);
            assert(cs@.subrange(0, i + 1).drop_last() =~= pre);
            assert(cs@.subrange(0, i + 1).last() == cs@[i as int]);
            let ghost before = out@.map_values(|v: Vec<char>| v@);
            if cs[i] == ' ' {
                if cur.len() > 0 {
                    let c = cur;
                    cur = Vec::new();
                    out.push(c);
                    assert(out@.map_values(|v: Vec<char>| v@) =~= before.push(c@));
                }
            } else {
                if cur.len() > 0 {
                    assert(cs@.subrange(0, i + 1)[i - 1] == cs@[i - 1]);
                    cur.push(cs[i]);
                    assert(before.push(cur@) =~= w.update(w.len() - 1, w.last().push(cs@[i as int])));
                } else {
                    cur.push(cs[i]);
                    assert(cur@ =~= seq![cs@[i as int]]);
                }
            }
            i = i + 1;
        }
        assert(cs@.subrange(0, i as int) =~= cs@);
        if cur.len() > 0 {
            let ghost before = out@.map_values(|v: Vec<char>| v@);
            out.push(cur);
            assert(out@.map_values(|v: Vec<char>| v@) =~= before.push(cur@));
        }
        out
    }
    fn pad_left_str(s: &mut String, t: &Vec<char>, w: usize)
        ensures
            final(s)@ == old(s)@ + pad_left(t@, w as nat),
    {
        let mut k: usize = t.len();
        while k < w
            invariant
                t@.len() <= k <= w || (k == t@.len() && k >= w),
                final_pad(s@, old(s)@, (k - t@.len()) as nat),
            decreases w - k,
        {
            push_char(s, ' ');
            k = k + 1;
            assert(s@ =~= old(s)@ + Seq::new((k - t@.len()) as nat, |i: int| ' '));
        }
        let ghost mid = s@;
        let mut j: usize = 0;
        while j < t.len()
            invariant
                j <= t@.len(),
                s@ == mid + t@.subrange(0, j as int),
            decreases t@.len() - j,
        {
            push_char(s, t[j]);
            j = j + 1;
            assert(s@ =~= mid + t@.subrange(0, j as int));
        }
        assert(t@.subrange(0, j as int) =~= t@);
        proof {
            if t@.len() >= w {
                assert(mid =~= old(s)@);
            } else {
                assert(mid =~= old(s)@ + Seq::new((w - t@.len()) as nat, |i: int| ' '));
            }
            assert(s@ =~= old(s)@ + pad_left(t@, w as nat));
        }
    }

    fn pad_right_str(s: &mut String, t: &Vec<char>, w: usize)
        ensures
            final(s)@ == old(s)@ + pad_right(t@, w as nat),
    {
        let ghost o = s@;
        let mut j: usize = 0;
        while j < t.len()
            invariant
                j <= t@.len(),
                s@ == o + t@.subrange(0, j as int),
            decreases t@.len() - j,
        {
            push_char(s, t[j]);
            j = j + 1;
            assert(s@ =~= o + t@.subrange(0, j as int));
        }
        assert(t@.subrange(0, j as int) =~= t@);
        let ghost mid = s@;
        let mut k: usize = t.len();
        while k < w
            invariant
                t@.len() <= k <= w || (k == t@.len() && k >= w),
                final_pad(s@, mid, (k - t@.len()) as nat),
            decreases w - k,
        {
            push_char(s, ' ');
            k = k + 1;
            assert(s@ =~= mid + Seq::new((k - t@.len()) as nat, |i: int| ' '));
        }
        proof {
            if t@.len() >= w {
                assert(s@ =~= mid);
            } else {
                assert(s@ =~= mid + Seq::new((w - t@.len()) as nat, |i: int| ' '));
            }
            assert(s@ =~= o + pad_right(t@, w as nat));
        }
    }

    fn word_is(w: &Vec<char>, lit: &str) -> (r: bool)
        ensures
            r == (w@ == lit@),
    {
        let ws = string_from_chars(w);
        str_eq(ws.as_str(), lit)
    }

    fn state_str(st: ProcessState) -> (r: &'static str)
        ensures
            r@ == state_name(st),
    {
        match st {
            ProcessState::Ready => "READY",
            ProcessState::Running => "RUNNING",
            ProcessState::Blocked => "BLOCKED",
            ProcessState::Zombie => "ZOMBIE",
        }
    }

    fn lines_for(ws: &Vec<Vec<char>>, sys: &SysInfo) -> (r: Vec<String>)
        ensures
            r@.map_values(|l: String| l@) == command_lines(ws@.map_values(|v: Vec<char>| v@),
                sys.files@.map_values(|f: String| f@), sys.processes@, (sys.mem_total, sys.mem_used, sys.mem_free),
                sys.cpu_count, sys.ticks),
    {
        let ghost wv = ws@.map_values(|v: Vec<char>| v@);
        let mut out: Vec<String> = Vec::new();
        if ws.len() == 0 {
            assert(out@.map_values(|l: String| l@) =~= Seq::<Seq<char>>::empty());
            return out;
        }
        let c = &ws[0];
        assert(wv[0] == c@);
        if Self::word_is(c, "help") {
            out.push(to_string("Available commands:"));
            out.push(to_string("  help    - Show this help"));
            out.push(to_string("  clear   - Clear screen"));
            out.push(to_string("  ls      - List files"));
            out.push(to_string("  ps      - Show processes"));
            out.push(to_string("  mem     - Memory info"));
            out.push(to_string("  cpu     - CPU info"));
            out.push(to_string("  date    - Show date"));
            out.push(to_string("  echo    - Echo text"));
            out.push(to_string("  exit    - Close terminal"));
            assert(out@.map_values(|l: String| l@) =~= help_lines());
        } else if Self::word_is(c, "clear") {
            assert(out@.map_values(|l: String| l@) =~= Seq::<Seq<char>>::empty());
        } else if Self::word_is(c, "ls") {
            let ghost fv = sys.files@.map_values(|f: String| f@);
            if sys.files.len() == 0 {
                out.push(to_string("(no files)"));
                assert(out@.map_values(|l: String| l@) =~= ls_lines(fv));
            } else {
                let mut i: usize = 0;
                while i < sys.files.len()
                    invariant
                        i <= sys.files@.len(),
                        fv == sys.files@.map_values(|f: String| f@),
                        out@.map_values(|l: String| l@) == fv.subrange(0, i as int).map_values(|f: Seq<char>| seq![' ', ' '] + f),
                    decreases sys.files@.len() - i,
                {
                    let ghost before = out@.map_values(|l: String| l@);
                    let mut line = String::new();
                    push_char(&mut line, ' ');
                    push_char(&mut line, ' ');
                    push_str(&mut line, sys.files[i].as_str());
                    assert(line@ =~= seq![' ', ' '] + fv[i as int]);
                    let ghost lv = line@;
                    out.push(line);
                    assert(out@.map_values(|l: String| l@) =~= before.push(lv));
                    assert(before.push(lv) =~= fv.subrange(0, i + 1).map_values(|f: Seq<char>| seq![' ', ' '] + f));
                    i = i + 1;
                }
                assert(fv.subrange(0, i as int) =~= fv);
            }
        } else if Self::word_is(c, "ps") {
            out.push(to_string("PID  STATE     NAME"));
            let ghost ps = sys.processes@;
            let mut i: usize = 0;
            assert(out@.map_values(|l: String| l@) =~= seq!["PID  STATE     NAME"@] + ps.subrange(0, 0).map_values(|p: (u64, ProcessState)| ps_line(p)));
            while i < sys.processes.len()
                invariant
                    i <= ps.len(),
                    ps == sys.processes@,
                    out@.map_values(|l: String| l@) == seq!["PID  STATE     NAME"@] + ps.subrange(0, i as int).map_values(|p: (u64, ProcessState)| ps_line(p)),
                decreases ps.len() - i,
            {
                let (pid, st) = sys.processes[i];
                let mut line = String::new();
                let mut digits = String::new();
                push_decimal(&mut digits, pid);
                let dv = chars_of(digits.as_str());
                Self::pad_left_str(&mut line, &dv, 4);
                push_char(&mut line, ' ');
                let sv = chars_of(Self::state_str(st));
                Self::pad_right_str(&mut line, &sv, 9);
                push_str(&mut line, " shell");
                let ghost before = out@.map_values(|l: String| l@);
                assert(line@ =~= ps_line(ps[i as int]));
                let ghost lv = line@;
                out.push(line);
                assert(out@.map_values(|l: String| l@) =~= before.push(lv));
                assert(before.push(lv) =~= seq!["PID  STATE     NAME"@] + ps.subrange(0, i + 1).map_values(|p: (u64, ProcessState)| ps_line(p)));
                assert(out@.map_values(|l: String| l@) =~= seq!["PID  STATE     NAME"@] + ps.subrange(0, i + 1).map_values(|p: (u64, ProcessState)| ps_line(p)));
                i = i + 1;
            }
            assert(ps.subrange(0, i as int) =~= ps);
        } else if Self::word_is(c, "mem") {
            let mut a = to_string("Total: ");
            push_decimal(&mut a, sys.mem_total / 1024);
            push_str(&mut a, " KB");
            let mut b = to_string("Used:  ");
            push_decimal(&mut b, sys.mem_used / 1024);
            push_str(&mut b, " KB");
            let mut d = to_string("Free:  ");
            push_decimal(&mut d, sys.mem_free / 1024);
            push_str(&mut d, " KB");
            out.push(a);
            out.push(b);
            out.push(d);
        } else if Self::word_is(c, "cpu") {
            let mut a = to_string("CPUs: ");
            push_decimal(&mut a, sys.cpu_count);
            out.push(a);
            out.push(to_string("Arch: x86_64"));
        } else if Self::word_is(c, "date") {
            let mut a = to_string("Uptime: ");
            push_decimal(&mut a, sys.ticks / 100);
            push_str(&mut a, " seconds");
            out.push(a);
        } else if Self::word_is(c, "echo") {
            let mut a = String::new();
            let mut i: usize = 1;
            assert(wv.drop_first().subrange(0, 0) =~= Seq::<Seq<char>>::empty());
            while i < ws.len()
                invariant
                    1 <= i <= ws@.len(),
                    wv == ws@.map_values(|v: Vec<char>| v@),
                    a@ == join_words(wv.drop_first().subrange(0, i - 1)),
                decreases ws@.len() - i,
            {
                let ghost prev = a@;
                if i > 1 {
                    push_char(&mut a, ' ');
                }
                let piece = string_from_chars(&ws[i]);
                push_str(&mut a, piece.as_str());
                proof {
                    let sub = wv.drop_first().subrange(0, i as int);
                    assert(sub.drop_last() =~= wv.drop_first().subrange(0, i - 1));
                    assert(sub.last() == ws@[i as int]@);
                    if i == 1 {
                        assert(a@ =~= sub[0]);
                    } else {
                        assert(a@ =~= prev + seq![' '] + sub.last());
                    }
                }
                i = i + 1;
            }
            assert(wv.drop_first().subrange(0, i - 1) =~= wv.drop_first());
            out.push(a);
        } else if Self::word_is(c, "exit") {
            out.push(to_string("Use 'q' to exit GUI mode"));
        } else {
            let mut a = to_string("Unknown command: ");
            let cw = string_from_chars(c);
            push_str(&mut a, cw.as_str());
            out.push(a);
        }
        assert(out@.map_values(|l: String| l@) =~= command_lines(wv, sys.files@.map_values(|f: String| f@), sys.processes@,
            (sys.mem_total, sys.mem_used, sys.mem_free), sys.cpu_count, sys.ticks));
        out
    }
    fn println_all(&mut self, lines: &Vec<String>)
        requires
            old(self).state().output.len() <= MAX_OUTPUT_LINES,
        ensures
            final(self).state() == (TermState {
                output: keep_last(old(self).state().output + lines@.map_values(|l: String| l@), MAX_OUTPUT_LINES as nat),
                ..old(self).state()
            }),
            final(self).state().output.len() <= MAX_OUTPUT_LINES,
            old(self).wf() ==> final(self).wf(),
    {
        let ghost lv = lines@.map_values(|l: String| l@);
        let ghost o = self.state().output;
        let mut i: usize = 0;
        assert(o + lv.subrange(0, 0) =~= o);
        while i < lines.len()
            invariant
                i <= lines@.len(),
                lv == lines@.map_values(|l: String| l@),
                self.state() == (TermState { output: keep_last(o + lv.subrange(0, i as int), MAX_OUTPUT_LINES as nat), ..old(self).state() }),
                self.state().output.len() <= MAX_OUTPUT_LINES,
                old(self).wf() ==> self.wf(),
            decreases lines@.len() - i,
        {
            let ghost cur = self.state().output;
            self.println(lines[i].as_str());
            proof {
                lemma_keep_last_append(o + lv.subrange(0, i as int), seq![lv[i as int]], MAX_OUTPUT_LINES as nat);
                assert(cur.push(lv[i as int]) =~= keep_last(o + lv.subrange(0, i as int), MAX_OUTPUT_LINES as nat) + seq![lv[i as int]]);
                assert(o + lv.subrange(0, i as int) + seq![lv[i as int]] =~= o + lv.subrange(0, i + 1));
            }
            i = i + 1;
        }
        assert(lv.subrange(0, i as int) =~= lv);
    }

    fn execute_command(&mut self, sys: &SysInfo)
        requires
            old(self).wf(),
        ensures
            final(self).wf(),
            final(self).state() == run_command(old(self).state(), sys.files@.map_values(|f: String| f@), sys.processes@,
                (sys.mem_total, sys.mem_used, sys.mem_free), sys.cpu_count, sys.ticks),
    {
        let ghost s0 = self.state();
        let ics = chars_of(self.input.as_str());
        let cmd = Self::trimmed(&ics);
        let mut echo = to_string("> ");
        let cmd_s = string_from_chars(&cmd);
        push_str(&mut echo, cmd_s.as_str());
        self.println(echo.as_str());
        let ghost trim_ok: bool = forall|i: int| 0 <= i < cmd@.len() ==> printable(#[trigger] cmd@[i]);
        proof {
            lemma_trim_is_slice(ics@);
            let (a, b) = trim_bounds(ics@);
            assert forall|i: int| 0 <= i < cmd@.len() implies printable(#[trigger] cmd@[i]) by {
                assert(cmd@[i] == ics@[a + i]);
            }
        }
        if cmd.len() > 0 {
            let ghost hv = self.state().history;
            self.history.push(string_from_chars(&cmd));
            if self.history.len() > MAX_HISTORY {
                self.history.remove(0);
            }
            proof {
                assert forall|h: int, i: int| 0 <= h < self.history@.len() && 0 <= i < self.history@[h]@.len()
                    implies printable(#[trigger] self.history@[h]@[i]) by {
                }
            }
            assert(self.state().history =~= keep_last(hv.push(cmd@), MAX_HISTORY as nat));
        }
        let ws = Self::split_words(&cmd);
        let ghost wv = ws@.map_values(|v: Vec<char>| v@);
        let is_clear = ws.len() > 0 && Self::word_is(&ws[0], "clear");
        if is_clear {
            self.output.clear();
            assert(self.state().output =~= Seq::<Seq<char>>::empty());
        } else {
            let lines = Self::lines_for(&ws, sys);
            let ghost before = self.state().output;
            self.println_all(&lines);
            proof {
                lemma_keep_last_append(s0.output.push("> "@ + cmd@), lines@.map_values(|l: String| l@), MAX_OUTPUT_LINES as nat);
            }
        }
        self.input = String::new();
        self.cursor = 0;
        self.history_idx = None;
        assert(self.state().input =~= Seq::<char>::empty());
    }
    fn starts_with3(cs: &Vec<char>, lit: &str) -> (r: bool)
        requires
            lit@.len() == 3,
        ensures
            r == (cs@.len() >= 3 && cs@.subrange(0, 3) == lit@),
    {
        if cs.len() < 3 {
            return false;
        }
        let l = chars_of(lit);
        let r = cs[0] == l[0] && cs[1] == l[1] && cs[2] == l[2];
        proof {
            if r {
                assert(cs@.subrange(0, 3) =~= lit@);
            } else if cs@.subrange(0, 3) == lit@ {
                assert(cs@.subrange(0, 3)[0] == cs@[0]);
                assert(cs@.subrange(0, 3)[1] == cs@[1]);
                assert(cs@.subrange(0, 3)[2] == cs@[2]);
            }
        }
        r
    }

    /// Handles one key. Printable ASCII is inserted at the cursor, Backspace
    /// deletes before it, Tab completes `hel`/`cle` to `help`/`clear`, and
    /// Enter runs the command with `sys` as the facts it may report.
    pub fn handle_key(&mut self, key: u8, sys: &SysInfo)
        requires
            old(self).wf(),
        ensures
            final(self).wf(),
            final(self).state() == term_key(old(self).state(), key, sys.files@.map_values(|f: String| f@), sys.processes@,
                (sys.mem_total, sys.mem_used, sys.mem_free), sys.cpu_count, sys.ticks),
    {
        let ghost s0 = self.state();
        if 32 <= key && key <= 126 {
            let cs = chars_of(self.input.as_str());
            let mut out: Vec<char> = Vec::new();
            let col = self.cursor;
            let mut j: usize = 0;
            while j < cs.len()
                invariant
                    j <= cs@.len(),
                    col <= cs@.len(),
                    out@ == if j <= col { cs@.subrange(0, j as int) } else { cs@.subrange(0, col as int).push(key as char) + cs@.subrange(col as int, j as int) },
                decreases cs@.len() - j,
            {
                if j == col {
                    out.push(key as char);
                }
                out.push(cs[j]);
                j = j + 1;
                proof {
                    if j <= col {
                        assert(out@ =~= cs@.subrange(0, j as int));
                    } else {
                        assert(out@ =~= cs@.subrange(0, col as int).push(key as char) + cs@.subrange(col as int, j as int));
                    }
                }
            }
            if col == cs.len() {
                out.push(key as char);
            }
            assert(out@ =~= cs@.insert(col as int, key as char));
            assert(col < out.len());
            self.input = string_from_chars(&out);
            self.cursor = col + 1;
            self.history_idx = None;
            proof {
                assert forall|i: int| 0 <= i < self.input@.len() implies printable(#[trigger] self.input@[i]) by {
                    if i < col { assert(self.input@[i] == cs@[i]); }
                    else if i > col { assert(self.input@[i] == cs@[i - 1]); }
                }
            }
        } else if key == 10 {
            self.execute_command(sys);
        } else if key == 8 || key == 127 {
            if self.cursor > 0 {
                let col = self.cursor;
                let cs = chars_of(self.input.as_str());
                let mut out: Vec<char> = Vec::new();
                let mut j: usize = 0;
                while j < cs.len()
                    invariant
                        j <= cs@.len(),
                        0 < col <= cs@.len(),
                        out@ == if j < col { cs@.subrange(0, j as int) } else { cs@.subrange(0, col - 1) + cs@.subrange(col as int, j as int) },
                    decreases cs@.len() - j,
                {
                    if j != col - 1 {
                        out.push(cs[j]);
                    }
                    j = j + 1;
                    proof {
                        if j < col {
                            assert(out@ =~= cs@.subrange(0, j as int));
                        } else {
                            assert(out@ =~= cs@.subrange(0, col - 1) + cs@.subrange(col as int, j as int));
                        }
                    }
                }
                assert(out@ =~= cs@.remove(col - 1));
                self.input = string_from_chars(&out);
                self.cursor = col - 1;
                proof {
                    assert forall|i: int| 0 <= i < self.input@.len() implies printable(#[trigger] self.input@[i]) by {
                        if i < col - 1 { assert(self.input@[i] == cs@[i]); }
                        else { assert(self.input@[i] == cs@[i + 1]); }
                    }
                }
            }
        } else if key == 9 {
            let cs = chars_of(self.input.as_str());
            proof {
                reveal_strlit("hel");
                reveal_strlit("cle");
                reveal_strlit("help");
                reveal_strlit("clear");
            }
            if Self::starts_with3(&cs, "hel") {
                self.input = to_string("help");
                self.cursor = 4;
            } else if Self::starts_with3(&cs, "cle") {
                self.input = to_string("clear");
                self.cursor = 5;
            }
        }
    }

    /// Recalls the previous command of the history into the input line.
    pub fn history_up(&mut self)
        requires
            old(self).wf(),
        ensures
            final(self).wf(),
            ({
                let s = old(self).state();
                if s.history.len() == 0 {
                    final(self).state() == s
                } else {
                    let i = match s.history_idx { Some(i) => if i > 0 { i - 1 } else { i }, None => s.history.len() - 1 };
                    final(self).state() == (TermState { history_idx: Some(i), input: s.history[i], cursor: s.history[i].len() as int, ..s })
                }
            }),
    {
        if self.history.len() == 0 {
            return;
        }
        let idx = match self.history_idx {
            Some(i) => if i > 0 { i - 1 } else { i },
            None => self.history.len() - 1,
        };
        self.history_idx = Some(idx);
        self.input = to_string(self.history[idx].as_str());
        self.cursor = self.input.as_str().unicode_len();
        assert(self.history@[idx as int]@ == self.state().history[idx as int]);
    }

    /// Moves forward in the history; past the newest entry the input is cleared.
    pub fn history_down(&mut self)
        requires
            old(self).wf(),
        ensures
            final(self).wf(),
            ({
                let s = old(self).state();
                match s.history_idx {
                    None => final(self).state() == s,
                    Some(i) => if i + 1 < s.history.len() {
                        final(self).state() == (TermState { history_idx: Some(i + 1), input: s.history[i + 1], cursor: s.history[i + 1].len() as int, ..s })
                    } else {
                        final(self).state() == (TermState { history_idx: None, input: Seq::empty(), cursor: 0, ..s })
                    },
                }
            }),
    {
        if let Some(idx) = self.history_idx {
            if idx + 1 < self.history.len() {
                self.history_idx = Some(idx + 1);
                self.input = to_string(self.history[idx + 1].as_str());
                assert(self.history@[idx + 1]@ == self.state().history[idx + 1]);
            } else {
                self.history_idx = None;
                self.input = String::new();
            }
            self.cursor = self.input.as_str().unicode_len();
            assert(self.state().input.len() == self.cursor);
        }
    }
}

} // verus!
