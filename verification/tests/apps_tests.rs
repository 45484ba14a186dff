use astral_kernel::editor::line_label;
use astral_kernel::users::{login_attempt, LoginOutcome};
use astral_kernel::editor::{Editor, EditorAction};
use astral_kernel::keyboard::{KeyBuffer, KeyboardState};
use astral_kernel::notes::{Direction, Notes};
use astral_kernel::terminal::{SysInfo, Terminal};
use astral_kernel::users::{hash_password, Session, User, UserDatabase};
use astral_kernel::vfs_path::{file_name, normalize_path, parent_path};

fn no_sys() -> SysInfo {
    SysInfo { files: vec![], processes: vec![], mem_total: 0, mem_used: 0, mem_free: 0, cpu_count: 1, ticks: 0 }
}

fn type_line(t: &mut Terminal, line: &str) {
    let sys = no_sys();
    for b in line.bytes() {
        t.handle_key(b, &sys);
    }
    t.handle_key(b'\n', &sys);
}

#[test]
fn terminal_echo_command() {
    let mut t = Terminal::new();
    let before = t.output_lines().len();
    type_line(&mut t, "echo hello there");
    let out = t.output_lines();
    assert_eq!(out.len(), before + 2);
    assert_eq!(out[out.len() - 2], "> echo hello there");
    assert_eq!(out[out.len() - 1], "hello there");
    assert_eq!(t.input_line(), "");
}

#[test]
fn terminal_clear_and_backspace() {
    let mut t = Terminal::new();
    let sys = no_sys();
    t.handle_key(b'a', &sys);
    t.handle_key(b'b', &sys);
    t.handle_key(8, &sys);
    assert_eq!(t.input_line(), "a");
    assert_eq!(t.cursor_pos(), 1);
    t.handle_key(8, &sys);
    type_line(&mut t, "clear");
    assert_eq!(t.output_lines().len(), 0);
}

#[test]
fn editor_load_save_round_trip() {
    let mut e = Editor::new();
    let data = b"first line\nsecond line\n\nlast".to_vec();
    assert!(e.load("doc.txt", Some(data.clone())));
    let (name, saved) = e.save().expect("a named document saves");
    assert_eq!(name, "doc.txt");
    assert_eq!(saved, data);
}

#[test]
fn editor_insert_and_quit() {
    let mut e = Editor::new();
    assert!(e.load("new.txt", None));
    assert_eq!(e.mode_str(), "NORMAL");
    e.handle_key(b'i');
    assert_eq!(e.mode_str(), "INSERT");
    e.handle_key(b'h');
    e.handle_key(b'i');
    e.handle_key(27);
    let (_, bytes) = e.save().unwrap();
    assert_eq!(bytes, b"hi".to_vec());
    e.handle_key(b':');
    e.handle_key(b'q');
    let act = e.handle_key(b'\n');
    assert!(matches!(act, EditorAction::Nothing));
    assert!(e.should_quit());
}

#[test]
fn notes_save_uses_filename() {
    let mut n = Notes::new();
    assert!(n.load("todo.txt", Some(b"buy milk\ncall home".to_vec())));
    assert_eq!(n.line_count(), 2);
    let (name, bytes) = n.save();
    assert_eq!(name, "todo.txt");
    assert_eq!(bytes, b"buy milk\ncall home".to_vec());
}

#[test]
fn notes_load_replaces_invalid_utf8() {
    let mut n = Notes::new();
    assert!(n.load("raw.bin", Some(vec![b'a', 0xFF, b'b', b'\r', b'\n', b'c'])));
    assert_eq!(n.lines().to_vec(), vec!["a\u{FFFD}b".to_string(), "c".to_string()]);
    assert!(!n.load("none.txt", None));
    assert_eq!(n.filename(), "raw.bin");
}

#[test]
fn path_normalization() {
    assert_eq!(normalize_path("/a/./b/../c/"), "/a/c");
    assert_eq!(normalize_path("//"), "/");
    assert_eq!(normalize_path("/.."), "/");
    assert_eq!(parent_path("/a/b"), Some("/a".to_string()));
    assert_eq!(parent_path("/"), None);
    assert_eq!(file_name("/a/b.txt"), Some("b.txt"));
    assert_eq!(file_name("/a/b/"), Some("b"));
    assert_eq!(file_name("/a/b/.."), Some("a"));
    assert_eq!(file_name("/"), None);
}

#[test]
fn password_hash_and_verify() {
    let h1 = hash_password("astral");
    let h2 = hash_password("astral");
    assert_eq!(h1, h2);
    assert_eq!(h1.len(), 32);
    assert_ne!(hash_password("astral"), hash_password("Astral"));
    let u = User::new(1000, "alice", "secret");
    assert!(u.verify_password("secret"));
    assert!(!u.verify_password("Secret"));
    assert!(!u.is_root());
}

#[test]
fn authenticate_default_users() {
    let mut db = UserDatabase::new();
    db.init();
    let root = db.authenticate("root", "astral").expect("root logs in");
    assert!(root.is_root());
    assert!(db.authenticate("root", "wrong").is_none());
    assert!(db.authenticate("nobody", "astral").is_none());
    let mut s = Session::new();
    assert!(!s.is_root());
    s.login(root);
    assert!(s.is_root());
    assert_eq!(s.username(), "root");
    s.logout();
    assert!(!s.is_root());
}

#[test]
fn keyboard_shift_and_letters() {
    let mut k = KeyboardState::new();
    assert_eq!(k.handle_scancode(0x1E), Some(b'a'));
    assert_eq!(k.handle_scancode(0x2A), None);
    assert_eq!(k.handle_scancode(0x1E), Some(b'A'));
    assert_eq!(k.handle_scancode(0xAA), None);
    assert_eq!(k.handle_scancode(0x1E), Some(b'a'));
    assert_eq!(k.handle_scancode(0x9E), None);
}

#[test]
fn key_buffer_is_fifo() {
    let mut b = KeyBuffer::new();
    assert_eq!(b.getchar(), None);
    b.push(b'x');
    b.push(b'y');
    assert_eq!(b.getchar(), Some(b'x'));
    assert_eq!(b.getchar(), Some(b'y'));
    assert_eq!(b.getchar(), None);
}

#[test]
fn normalizing_twice_changes_nothing() {
    for p in ["/a/./b/../c/", "x/../../y//z", "/", "", "..", "/.../..."] {
        let once = normalize_path(p);
        assert_eq!(normalize_path(&once), once);
    }
    assert_eq!(normalize_path("/.../..."), "/.../...");
}

#[test]
fn editor_status_texts() {
    assert_eq!(line_label(0), "   1 ");
    assert_eq!(line_label(41), "  42 ");
    assert_eq!(line_label(99999), "100000 ");
    let mut e = Editor::new();
    assert!(e.load("a.txt", Some(b"xy".to_vec())));
    assert_eq!(e.header_suffix(), "  -  a.txt");
    assert_eq!(e.position_text(), "Ln 1, Col 1");
    assert!(e.command_line().is_none());
    e.handle_key(b'i');
    e.handle_key(b'z');
    assert_eq!(e.header_suffix(), "  -  a.txt [modified]");
    assert_eq!(e.position_text(), "Ln 1, Col 2");
    e.handle_key(27);
    e.handle_key(b':');
    e.handle_key(b'w');
    assert_eq!(e.command_line(), Some(":w".to_string()));
}

#[test]
fn login_attempts_lock_after_three() {
    let mut db = UserDatabase::new();
    db.init();
    assert!(matches!(login_attempt(&db, "", "x", 0), LoginOutcome::Retry(0)));
    assert!(matches!(login_attempt(&db, "root", "bad", 0), LoginOutcome::Retry(1)));
    assert!(matches!(login_attempt(&db, "root", "bad", 1), LoginOutcome::Retry(2)));
    assert!(matches!(login_attempt(&db, "root", "bad", 2), LoginOutcome::Locked));
    match login_attempt(&db, "user", "password", 2) {
        LoginOutcome::Success(u) => assert_eq!(u.uid, 1000),
        _ => panic!("valid credentials log in"),
    }
}

#[test]
fn terminal_history_keeps_last_hundred() {
    let mut t = Terminal::new();
    for k in 0..105 {
        type_line(&mut t, &format!("echo {}", k));
    }
    type_line(&mut t, "   ");
    t.history_up();
    assert_eq!(t.input_line(), "echo 104");
    for _ in 0..150 {
        t.history_up();
    }
    assert_eq!(t.input_line(), "echo 5");
}

#[test]
fn editor_enter_then_backspace_restores_line() {
    let mut e = Editor::new();
    assert!(e.load("x.txt", Some(b"hello world".to_vec())));
    for _ in 0..5 {
        e.handle_key(b'l');
    }
    e.handle_key(b'i');
    let before = e.cursor_pos();
    e.handle_key(b'\n');
    assert_eq!(e.save().unwrap().1, b"hello\n world".to_vec());
    e.handle_key(8);
    assert_eq!(e.save().unwrap().1, b"hello world".to_vec());
    assert_eq!(e.cursor_pos(), before);
}

#[test]
fn notes_enter_then_backspace_restores_line() {
    let mut n = Notes::new();
    assert!(n.load("n.txt", Some(b"abcdef".to_vec())));
    n.move_cursor(Direction::Right);
    n.move_cursor(Direction::Right);
    n.handle_key(b'\n');
    assert_eq!(n.lines().to_vec(), vec!["ab".to_string(), "cdef".to_string()]);
    assert_eq!(n.cursor(), (1, 0));
    n.handle_key(8);
    assert_eq!(n.lines().to_vec(), vec!["abcdef".to_string()]);
    assert_eq!(n.cursor(), (0, 2));
    assert!(n.is_modified());
}

#[test]
fn file_name_of_normalized_paths() {
    assert_eq!(file_name("a/b/c"), Some("c"));
    assert_eq!(file_name("/a/./b//"), Some("b"));
    assert_eq!(file_name("/a/.."), None);
    assert_eq!(normalize_path("a//b/./c/"), "/a/b/c");
}

#[test]
fn editor_fresh_typing_and_split() {
    let mut e = Editor::new();
    for k in [b'i', b'a', b'b', b'c', 27] {
        e.handle_key(k);
    }
    assert_eq!(e.mode_str(), "NORMAL");
    assert_eq!(e.lines.len(), 1);
    assert_eq!(e.lines[0].to_bytes(), b"abc".to_vec());
    assert_eq!(e.cursor_pos(), (0, 3));
    assert!(e.modified);
    for k in [b'h', b'i', b'\n'] {
        e.handle_key(k);
    }
    assert_eq!(e.lines.iter().map(|l| l.to_bytes()).collect::<Vec<_>>(), vec![b"ab".to_vec(), b"c".to_vec()]);
    assert_eq!(e.cursor_pos(), (1, 0));
}

#[test]
fn terminal_type_then_backspace() {
    let mut t = Terminal::new();
    let sys = no_sys();
    for b in b"ls" {
        t.handle_key(*b, &sys);
    }
    t.handle_key(b'x', &sys);
    t.handle_key(8, &sys);
    assert_eq!(t.input_line(), "ls");
    assert_eq!(t.cursor_pos(), 2);
}
