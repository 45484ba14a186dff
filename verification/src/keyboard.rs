//! PS/2 keyboard decoding: scancode set 1 to key codes, with modifier and
//! escape-prefix state, and the ring buffer that holds the keys.
use vstd::prelude::*;

verus! {

pub const KB_ARROW_UP: u8 = 0x80;
pub const KB_ARROW_DOWN: u8 = 0x81;
pub const KB_ARROW_LEFT: u8 = 0x82;
pub const KB_ARROW_RIGHT: u8 = 0x83;
pub const KB_HOME: u8 = 0x84;
pub const KB_END: u8 = 0x85;
pub const KB_DELETE: u8 = 0x86;
pub const KB_BUFFER_SIZE: usize = 256;

/// Characters of the unshifted keys, by scancode.
pub open spec fn plain_table() -> Seq<u8> {
    seq![
        0u8, 27, 0x31, 0x32, 0x33, 0x34, 0x35, 0x36, 0x37, 0x38, 0x39, 0x30, 0x2d, 0x3d, 8,
        9, 0x71, 0x77, 0x65, 0x72, 0x74, 0x79, 0x75, 0x69, 0x6f, 0x70, 0x5b, 0x5d, 10,
        0, 0x61, 0x73, 0x64, 0x66, 0x67, 0x68, 0x6a, 0x6b, 0x6c, 0x3b, 0x27, 0x60,
        0, 0x5c, 0x7a, 0x78, 0x63, 0x76, 0x62, 0x6e, 0x6d, 0x2c, 0x2e, 0x2f, 0,
        0x2a, 0, 0x20, 0,
        0, 0, 0, 0, 0, 0, 0, 0, 0, 0,
        0, 0,
        0x37, 0x38, 0x39, 0x2d, 0x34, 0x35, 0x36, 0x2b, 0x31, 0x32, 0x33, 0x30, 0x2e,
        0, 0, 0, 0, 0,
        0, 0, 0, 0, 0, 0, 0, 0, 0, 0, 0, 0, 0, 0, 0, 0,
        0, 0, 0, 0, 0, 0, 0, 0, 0, 0, 0, 0, 0, 0, 0, 0,
        0, 0, 0, 0, 0, 0, 0
    ]
}

/// Characters of the keys with shift held, by scancode.
pub open spec fn shift_table() -> Seq<u8> {
    seq![
        0u8, 27, 0x21, 0x40, 0x23, 0x24, 0x25, 0x5e, 0x26, 0x2a, 0x28, 0x29, 0x5f, 0x2b, 8,
        9, 0x51, 0x57, 0x45, 0x52, 0x54, 0x59, 0x55, 0x49, 0x4f, 0x50, 0x7b, 0x7d, 10,
        0, 0x41, 0x53, 0x44, 0x46, 0x47, 0x48, 0x4a, 0x4b, 0x4c, 0x3a, 0x22, 0x7e,
        0, 0x7c, 0x5a, 0x58, 0x43, 0x56, 0x42, 0x4e, 0x4d, 0x3c, 0x3e, 0x3f, 0,
        0x2a, 0, 0x20, 0,
        0, 0, 0, 0, 0, 0, 0, 0, 0, 0,
        0, 0,
        0x37, 0x38, 0x39, 0x2d, 0x34, 0x35, 0x36, 0x2b, 0x31, 0x32, 0x33, 0x30, 0x2e,
        0, 0, 0, 0, 0,
        0, 0, 0, 0, 0, 0, 0, 0, 0, 0, 0, 0, 0, 0, 0, 0,
        0, 0, 0, 0, 0, 0, 0, 0, 0, 0, 0, 0, 0, 0, 0, 0,
        0, 0, 0, 0, 0, 0, 0
    ]
}

fn plain_char(sc: u8) -> (c: u8)
    requires
        sc < 128,
    ensures
        c == plain_table()[sc as int],
{
    let t: [u8; 128] = [
        0u8, 27, 0x31, 0x32, 0x33, 0x34, 0x35, 0x36, 0x37, 0x38, 0x39, 0x30, 0x2d, 0x3d, 8,
        9, 0x71, 0x77, 0x65, 0x72, 0x74, 0x79, 0x75, 0x69, 0x6f, 0x70, 0x5b, 0x5d, 10,
        0, 0x61, 0x73, 0x64, 0x66, 0x67, 0x68, 0x6a, 0x6b, 0x6c, 0x3b, 0x27, 0x60,
        0, 0x5c, 0x7a, 0x78, 0x63, 0x76, 0x62, 0x6e, 0x6d, 0x2c, 0x2e, 0x2f, 0,
        0x2a, 0, 0x20, 0,
        0, 0, 0, 0, 0, 0, 0, 0, 0, 0,
        0, 0,
        0x37, 0x38, 0x39, 0x2d, 0x34, 0x35, 0x36, 0x2b, 0x31, 0x32, 0x33, 0x30, 0x2e,
        0, 0, 0, 0, 0,
        0, 0, 0, 0, 0, 0, 0, 0, 0, 0, 0, 0, 0, 0, 0, 0,
        0, 0, 0, 0, 0, 0, 0, 0, 0, 0, 0, 0, 0, 0, 0, 0,
        0, 0, 0, 0, 0, 0, 0
    ];
    assert(t@ =~= plain_table());
    t[sc as usize]
}

fn shift_char(sc: u8) -> (c: u8)
    requires
        sc < 128,
    ensures
        c == shift_table()[sc as int],
{
    let t: [u8; 128] = [
        0u8, 27, 0x21, 0x40, 0x23, 0x24, 0x25, 0x5e, 0x26, 0x2a, 0x28, 0x29, 0x5f, 0x2b, 8,
        9, 0x51, 0x57, 0x45, 0x52, 0x54, 0x59, 0x55, 0x49, 0x4f, 0x50, 0x7b, 0x7d, 10,
        0, 0x41, 0x53, 0x44, 0x46, 0x47, 0x48, 0x4a, 0x4b, 0x4c, 0x3a, 0x22, 0x7e,
        0, 0x7c, 0x5a, 0x58, 0x43, 0x56, 0x42, 0x4e, 0x4d, 0x3c, 0x3e, 0x3f, 0,
        0x2a, 0, 0x20, 0,
        0, 0, 0, 0, 0, 0, 0, 0, 0, 0,
        0, 0,
        0x37, 0x38, 0x39, 0x2d, 0x34, 0x35, 0x36, 0x2b, 0x31, 0x32, 0x33, 0x30, 0x2e,
        0, 0, 0, 0, 0,
        0, 0, 0, 0, 0, 0, 0, 0, 0, 0, 0, 0, 0, 0, 0, 0,
        0, 0, 0, 0, 0, 0, 0, 0, 0, 0, 0, 0, 0, 0, 0, 0,
        0, 0, 0, 0, 0, 0, 0
    ];
    assert(t@ =~= shift_table());
    t[sc as usize]
}

/// The key code of an extended (0xE0-prefixed) key press.
pub open spec fn extended_key(sc: u8) -> Option<u8> {
    if sc == 0x48 {
        Some(KB_ARROW_UP)
    } else if sc == 0x50 {
        Some(KB_ARROW_DOWN)
    } else if sc == 0x4B {
        Some(KB_ARROW_LEFT)
    } else if sc == 0x4D {
        Some(KB_ARROW_RIGHT)
    } else if sc == 0x47 {
        Some(KB_HOME)
    } else if sc == 0x4F {
        Some(KB_END)
    } else if sc == 0x53 {
        Some(KB_DELETE)
    } else {
        None
    }
}

/// The control code of a key pressed with Ctrl held.
pub open spec fn ctrl_key(sc: u8) -> Option<u8> {
    if sc == 0x1E {
        Some(1u8)
    } else if sc == 0x2E {
        Some(3u8)
    } else if sc == 0x20 {
        Some(4u8)
    } else if sc == 0x12 {
        Some(5u8)
    } else if sc == 0x25 {
        Some(11u8)
    } else if sc == 0x26 {
        Some(12u8)
    } else if sc == 0x16 {
        Some(21u8)
    } else if sc == 0x2F {
        Some(22u8)
    } else if sc == 0x11 {
        Some(23u8)
    } else if sc == 0x2D {
        Some(24u8)
    } else if sc == 0x15 {
        Some(25u8)
    } else if sc == 0x2C {
        Some(26u8)
    } else {
        None
    }
}

/// Modifier and escape-prefix state of the keyboard.
#[derive(Clone, Copy, PartialEq, Eq, Structural)]
pub struct KeyboardState {
    pub escape: bool,
    pub shift: bool,
    pub ctrl: bool,
    pub alt: bool,
}

/// The state after a scancode and the key code it produces, if any.
pub open spec fn scancode_step(s: KeyboardState, sc: u8) -> (KeyboardState, Option<u8>) {
    if sc == 0xE0 {
        (KeyboardState { escape: true, ..s }, None)
    } else if s.escape {
        (KeyboardState { escape: false, ..s }, if sc & 0x80 == 0 { extended_key(sc) } else { None })
    } else if sc & 0x80 != 0 {
        let r = sc & 0x7F;
        if r == 0x2A || r == 0x36 {
            (KeyboardState { shift: false, ..s }, None)
        } else if r == 0x1D {
            (KeyboardState { ctrl: false, ..s }, None)
        } else if r == 0x38 {
            (KeyboardState { alt: false, ..s }, None)
        } else {
            (s, None)
        }
    } else if sc == 0x2A || sc == 0x36 {
        (KeyboardState { shift: true, ..s }, None)
    } else if sc == 0x1D {
        (KeyboardState { ctrl: true, ..s }, None)
    } else if sc == 0x38 {
        (KeyboardState { alt: true, ..s }, None)
    } else if s.ctrl {
        (s, ctrl_key(sc))
    } else {
        let c = if s.shift { shift_table()[sc as int] } else { plain_table()[sc as int] };
        (s, if c != 0 { Some(c) } else { None })
    }
}

/// The modifier keys: pressing a Shift key (0x2A or 0x36) sets shift and
/// releasing either (0xAA or 0xB6) clears it; Ctrl (0x1D/0x9D) and Alt
/// (0x38/0xB8) likewise; nothing else changes and no key is produced.
pub proof fn lemma_modifier_keys(s: KeyboardState)
    requires
        !s.escape,
    ensures
        scancode_step(s, 0x2A) == (KeyboardState { shift: true, ..s }, None::<u8>),
        scancode_step(s, 0x36) == (KeyboardState { shift: true, ..s }, None::<u8>),
        scancode_step(s, 0xAA) == (KeyboardState { shift: false, ..s }, None::<u8>),
        scancode_step(s, 0xB6) == (KeyboardState { shift: false, ..s }, None::<u8>),
        scancode_step(s, 0x1D) == (KeyboardState { ctrl: true, ..s }, None::<u8>),
        scancode_step(s, 0x9D) == (KeyboardState { ctrl: false, ..s }, None::<u8>),
        scancode_step(s, 0x38) == (KeyboardState { alt: true, ..s }, None::<u8>),
        scancode_step(s, 0xB8) == (KeyboardState { alt: false, ..s }, None::<u8>),
{
    assert(0xAAu8 & 0x80 != 0 && 0xAAu8 & 0x7F == 0x2A && 0xB6u8 & 0x80 != 0 && 0xB6u8 & 0x7F == 0x36
        && 0x9Du8 & 0x80 != 0 && 0x9Du8 & 0x7F == 0x1D && 0xB8u8 & 0x80 != 0 && 0xB8u8 & 0x7F == 0x38
        && 0x2Au8 & 0x80 == 0 && 0x36u8 & 0x80 == 0 && 0x1Du8 & 0x80 == 0 && 0x38u8 & 0x80 == 0) by (bit_vector);
}

/// Pressing and releasing a modifier key that was up leaves the keyboard as
/// it was: what any later key produces is unchanged.
pub proof fn lemma_press_release_restores(s: KeyboardState, press: u8)
    requires
        !s.escape,
        press == 0x2A || press == 0x36 ==> !s.shift,
        press == 0x1D ==> !s.ctrl,
        press == 0x38 ==> !s.alt,
        press == 0x2A || press == 0x36 || press == 0x1D || press == 0x38,
    ensures
        scancode_step(scancode_step(s, press).0, press | 0x80).0 == s,
        scancode_step(scancode_step(s, press).0, press | 0x80).1 is None,
{
    lemma_modifier_keys(s);
    let s1 = scancode_step(s, press).0;
    lemma_modifier_keys(s1);
    assert(0x2Au8 | 0x80 == 0xAA && 0x36u8 | 0x80 == 0xB6 && 0x1Du8 | 0x80 == 0x9D && 0x38u8 | 0x80 == 0xB8) by (bit_vector);
}

impl KeyboardState {
    /// No modifier held, no prefix pending.
    pub fn new() -> (s: Self)
        ensures
            s == (KeyboardState { escape: false, shift: false, ctrl: false, alt: false }),
    {
        KeyboardState { escape: false, shift: false, ctrl: false, alt: false }
    }

    /// Takes one scancode: updates the modifiers and the 0xE0 prefix, and
    /// returns the key code a press produces (an ASCII code, a control code
    /// with Ctrl held, or one of the `KB_*` codes for extended keys).
    pub fn handle_scancode(&mut self, scancode: u8) -> (key: Option<u8>)
        ensures
            (*final(self), key) == scancode_step(*old(self), scancode),
    {
        if scancode == 0xE0 {
            self.escape = true;
            return None;
        }
        if self.escape {
            self.escape = false;
            if scancode & 0x80 == 0 {
                return match scancode {
                    0x48 => Some(KB_ARROW_UP),
                    0x50 => Some(KB_ARROW_DOWN),
                    0x4B => Some(KB_ARROW_LEFT),
                    0x4D => Some(KB_ARROW_RIGHT),
                    0x47 => Some(KB_HOME),
                    0x4F => Some(KB_END),
                    0x53 => Some(KB_DELETE),
                    _ => None,
                };
            }
            return None;
        }
        if scancode & 0x80 != 0 {
            let released = scancode & 0x7F;
            if released == 0x2A || released == 0x36 {
                self.shift = false;
            } else if released == 0x1D {
                self.ctrl = false;
            } else if released == 0x38 {
                self.alt = false;
            }
            return None;
        }
        assert(scancode < 128) by (bit_vector)
            requires scancode & 0x80 == 0;
        if scancode == 0x2A || scancode == 0x36 {
            self.shift = true;
            None
        } else if scancode == 0x1D {
            self.ctrl = true;
            None
        } else if scancode == 0x38 {
            self.alt = true;
            None
        } else if self.ctrl {
            match scancode {
                0x1E => Some(1),
                0x2E => Some(3),
                0x20 => Some(4),
                0x12 => Some(5),
                0x25 => Some(11),
                0x26 => Some(12),
                0x16 => Some(21),
                0x2F => Some(22),
                0x11 => Some(23),
                0x2D => Some(24),
                0x15 => Some(25),
                0x2C => Some(26),
                _ => None,
            }
        } else {
            let c = if self.shift { shift_char(scancode) } else { plain_char(scancode) };
            if c != 0 { Some(c) } else { None }
        }
    }
}

/// The keys typed and not yet read: a ring of 256 slots that holds at most
/// 255 keys and drops keys that arrive when it is full.
pub struct KeyBuffer {
    pub buf: Vec<u8>,
    pub write_pos: usize,
    pub read_pos: usize,
}

impl KeyBuffer {
    pub open spec fn wf(&self) -> bool {
        &&& self.buf@.len() == KB_BUFFER_SIZE
        &&& self.write_pos < KB_BUFFER_SIZE
        &&& self.read_pos < KB_BUFFER_SIZE
    }

    /// The waiting keys, oldest first.
    pub open spec fn view(&self) -> Seq<u8> {
        let n = if self.write_pos >= self.read_pos { self.write_pos - self.read_pos } else { self.write_pos + 256 - self.read_pos };
        Seq::new(n as nat, |i: int| self.buf@[(self.read_pos + i) % 256])
    }

    pub fn new() -> (b: Self)
        ensures
            b.wf(),
            b.view().len() == 0,
    {
        let mut buf: Vec<u8> = Vec::new();
        let mut i: usize = 0;
        while i < KB_BUFFER_SIZE
            invariant
                i <= KB_BUFFER_SIZE,
                buf@.len() == i,
            decreases KB_BUFFER_SIZE - i,
        {
            buf.push(0u8);
            i = i + 1;
        }
        KeyBuffer { buf, write_pos: 0, read_pos: 0 }
    }

    /// Appends a key unless 255 are already waiting.
    pub fn push(&mut self, byte: u8)
        requires
            old(self).wf(),
        ensures
            final(self).wf(),
            old(self).view().len() < 255 ==> final(self).view() == old(self).view().push(byte),
            old(self).view().len() >= 255 ==> final(self).view() == old(self).view(),
    {
        let write = self.write_pos;
        let next = (write + 1) % KB_BUFFER_SIZE;
        if next != self.read_pos {
            let ghost before = self.view();
            self.buf.set(write, byte);
            self.write_pos = next;
            proof {
                assert(self.view() =~= before.push(byte)) by {
                    assert forall|i: int| 0 <= i < before.len() implies #[trigger] self.view()[i] == before[i] by {
                        assert((self.read_pos + i) % 256 != write);
                    }
                }
            }
        } else {
            assert(old(self).view().len() == 255);
        }
    }

    /// Takes the oldest waiting key.
    pub fn getchar(&mut self) -> (c: Option<u8>)
        requires
            old(self).wf(),
        ensures
            final(self).wf(),
            old(self).view().len() == 0 ==> c is None && final(self).view() == old(self).view(),
            old(self).view().len() > 0 ==> c == Some(old(self).view()[0]) && final(self).view() == old(self).view().drop_first(),
    {
        let read = self.read_pos;
        if read == self.write_pos {
            return None;
        }
        let c = self.buf[read];
        let ghost before = self.view();
        self.read_pos = (read + 1) % KB_BUFFER_SIZE;
        proof {
            assert(self.view() =~= before.drop_first()) by {
                assert forall|i: int| 0 <= i < before.len() - 1 implies #[trigger] self.view()[i] == before[i + 1] by {
                    assert((self.read_pos + i) % 256 == (read + i + 1) % 256);
                }
            }
        }
        Some(c)
    }
}

} // verus!
