//! The menu shown after login: which environment to start, the kernel
//! shell being kept for root.
use vstd::prelude::*;
use crate::text::{push_char, push_str};

verus! {

/// What the user can start.
#[derive(Clone, Copy, PartialEq, Eq, Structural)]
pub enum BootOption {
    /// The ring-3 shell.
    Shell,
    /// The ring-3 desktop.
    Graphics,
    /// The ring-0 kernel shell, for root only.
    KShell,
}

/// What a key does in the menu.
#[derive(Clone, Copy, PartialEq, Eq, Structural)]
pub enum MenuAction {
    /// Start this option.
    Start(BootOption),
    /// The kernel shell was asked for by a user who is not root: say so and
    /// show the menu again.
    Denied,
    /// Any other key: keep waiting.
    Ignore,
}

/// The menu's answer to key `ch` for a user who is root or not.
pub fn menu_choice(ch: char, is_root: bool) -> (a: MenuAction)
    ensures
        ch == '1' ==> a == MenuAction::Start(BootOption::Shell),
        ch == '2' ==> a == MenuAction::Start(BootOption::Graphics),
        ch == '3' && is_root ==> a == MenuAction::Start(BootOption::KShell),
        ch == '3' && !is_root ==> a == MenuAction::Denied,
        ch != '1' && ch != '2' && ch != '3' ==> a == MenuAction::Ignore,
{
    if ch == '1' {
        MenuAction::Start(BootOption::Shell)
    } else if ch == '2' {
        MenuAction::Start(BootOption::Graphics)
    } else if ch == '3' {
        if is_root {
            MenuAction::Start(BootOption::KShell)
        } else {
            MenuAction::Denied
        }
    } else {
        MenuAction::Ignore
    }
}

/// `s` followed by spaces up to `width` characters (nothing added when it
/// is already that long).
pub open spec fn pad_right(s: Seq<char>, width: nat) -> Seq<char> {
    if s.len() >= width {
        s
    } else {
        s + Seq::new((width - s.len()) as nat, |i: int| ' ')
    }
}

/// The menu's welcome line for `username`, the name left-aligned in a field
/// of 27 characters inside the frame.
pub fn welcome_line(username: &str) -> (s: String)
    ensures
        s@ == "  ║  Welcome, "@ + pad_right(username@, 27) + "║\n"@,
{
    let mut s = String::new();
    push_str(&mut s, "  ║  Welcome, ");
    let ghost prefix = s@;
    push_str(&mut s, username);
    let n = username.unicode_len();
    let mut k: usize = n;
    while k < 27
        invariant
            n == username@.len(),
            n <= k <= 27 || (k == n && n >= 27),
            s@ == prefix + username@ + Seq::new((k - n) as nat, |i: int| ' '),
        decreases 27 - k,
    {
        push_char(&mut s, ' ');
        k = k + 1;
        assert(s@ =~= prefix + username@ + Seq::new((k - n) as nat, |i: int| ' '));
    }
    if n >= 27 {
        assert(s@ =~= prefix + pad_right(username@, 27));
    } else {
        assert(s@ =~= prefix + pad_right(username@, 27));
    }
    push_str(&mut s, "║\n");
    s
}

} // verus!
