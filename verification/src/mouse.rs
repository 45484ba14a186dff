//! The PS/2 mouse: three-byte packets assembled from the bytes the
//! controller delivers, and the pointer position and buttons they move.
use vstd::prelude::*;

verus! {

/// Button bits of the first packet byte and of the button state.
pub const BUTTON_LEFT: u8 = 0x01;
pub const BUTTON_RIGHT: u8 = 0x02;
pub const BUTTON_MIDDLE: u8 = 0x04;

/// Largest screen side the pointer is kept within.
pub const MAX_SCREEN: i32 = 0x4000_0000;

/// The pointer's state and the packet being assembled.
pub struct MouseState {
    pub x: i32,
    pub y: i32,
    pub buttons: u8,
    pub initialized: bool,
    pub screen_width: i32,
    pub screen_height: i32,
    pub packet: [u8; 3],
    pub packet_index: u8,
}

/// `v` kept within `0..=hi`, lower bound first (so `hi - 1` below 0 wins).
pub open spec fn clamp(v: int, hi: int) -> int {
    let lo = if v < 0 { 0 } else { v };
    if lo > hi { hi } else { lo }
}

/// The signed horizontal movement of a packet.
pub open spec fn packet_dx(p0: u8, p1: u8) -> int {
    if p0 & 0x10 != 0 { p1 as int - 256 } else { p1 as int }
}

/// The signed vertical movement of a packet, downwards positive on screen.
pub open spec fn packet_dy(p0: u8, p2: u8) -> int {
    if p0 & 0x20 != 0 { 256 - p2 as int } else { -(p2 as int) }
}

impl MouseState {
    /// Pointer and packet state kept within the screen's bounds.
    pub open spec fn wf(&self) -> bool {
        &&& 0 <= self.screen_width <= MAX_SCREEN
        &&& 0 <= self.screen_height <= MAX_SCREEN
        &&& -1 <= self.x <= MAX_SCREEN
        &&& -1 <= self.y <= MAX_SCREEN
        &&& self.packet_index <= 2
    }

    /// The state before the controller is set up: pointer at (400, 300)
    /// on an 800 by 600 screen, no button, no packet byte.
    pub fn new() -> (m: Self)
        ensures
            m.wf(),
            m.x == 400 && m.y == 300,
            m.buttons == 0,
            !m.initialized,
            m.screen_width == 800 && m.screen_height == 600,
            m.packet_index == 0,
    {
        MouseState {
            x: 400,
            y: 300,
            buttons: 0,
            initialized: false,
            screen_width: 800,
            screen_height: 600,
            packet: [0u8; 3],
            packet_index: 0,
        }
    }

    /// Records the screen size, centres the pointer and marks the mouse
    /// ready (after the controller has been programmed).
    pub fn init(&mut self, width: i32, height: i32)
        requires
            0 <= width <= MAX_SCREEN,
            0 <= height <= MAX_SCREEN,
            old(self).packet_index <= 2,
        ensures
            final(self).wf(),
            final(self).screen_width == width && final(self).screen_height == height,
            final(self).x == width / 2 && final(self).y == height / 2,
            final(self).initialized,
            final(self).buttons == old(self).buttons,
            final(self).packet_index == old(self).packet_index,
    {
        self.screen_width = width;
        self.screen_height = height;
        self.x = width / 2;
        self.y = height / 2;
        self.initialized = true;
    }

    /// Applies a complete packet: the buttons from its first byte, the
    /// pointer moved by its deltas and kept on the screen.
    pub fn process_packet(&mut self, p0: u8, p1: u8, p2: u8)
        requires
            old(self).wf(),
        ensures
            final(self).wf(),
            final(self).buttons == p0 & 0x07,
            final(self).x == clamp(old(self).x + packet_dx(p0, p1), old(self).screen_width - 1),
            final(self).y == clamp(old(self).y + packet_dy(p0, p2), old(self).screen_height - 1),
            final(self).screen_width == old(self).screen_width,
            final(self).screen_height == old(self).screen_height,
            final(self).initialized == old(self).initialized,
            final(self).packet_index == old(self).packet_index,
            final(self).packet == old(self).packet,
    {
        let buttons = p0 & 0x07;
        let dx: i32 = if p0 & 0x10 != 0 { p1 as i32 - 256 } else { p1 as i32 };
        let dy: i32 = if p0 & 0x20 != 0 { 256 - p2 as i32 } else { -(p2 as i32) };
        let mut nx = self.x + dx;
        if nx < 0 {
            nx = 0;
        }
        if nx > self.screen_width - 1 {
            nx = self.screen_width - 1;
        }
        let mut ny = self.y + dy;
        if ny < 0 {
            ny = 0;
        }
        if ny > self.screen_height - 1 {
            ny = self.screen_height - 1;
        }
        self.x = nx;
        self.y = ny;
        self.buttons = buttons;
    }

    /// Takes one byte from the controller: a first byte without bit 3 is
    /// out of step and dropped; the third byte completes the packet, which
    /// is applied.
    pub fn handle_byte(&mut self, byte: u8)
        requires
            old(self).wf(),
        ensures
            final(self).wf(),
            old(self).packet_index == 0 && byte & 0x08 == 0 ==> *final(self) == *old(self),
            old(self).packet_index == 0 && byte & 0x08 != 0 ==> final(self).packet_index == 1 && final(self).packet@
                == old(self).packet@.update(0, byte) && final(self).x == old(self).x && final(self).y == old(self).y
                && final(self).buttons == old(self).buttons,
            old(self).packet_index == 1 ==> final(self).packet_index == 2 && final(self).packet@ == old(self).packet@.update(
                1,
                byte,
            ) && final(self).x == old(self).x && final(self).y == old(self).y && final(self).buttons == old(self).buttons,
            old(self).packet_index == 2 ==> final(self).packet_index == 0 && final(self).packet@ == old(self).packet@.update(
                2,
                byte,
            ) && final(self).buttons == old(self).packet@[0] & 0x07 && final(self).x == clamp(
                old(self).x + packet_dx(old(self).packet@[0], old(self).packet@[1]),
                old(self).screen_width - 1,
            ) && final(self).y == clamp(
                old(self).y + packet_dy(old(self).packet@[0], byte),
                old(self).screen_height - 1,
            ),
            final(self).screen_width == old(self).screen_width,
            final(self).screen_height == old(self).screen_height,
            final(self).initialized == old(self).initialized,
    {
        let idx = self.packet_index;
        if idx == 0 && (byte & 0x08) == 0 {
            return;
        }
        self.packet[idx as usize] = byte;
        if idx == 2 {
            let p0 = self.packet[0];
            let p1 = self.packet[1];
            let p2 = self.packet[2];
            self.process_packet(p0, p1, p2);
            self.packet_index = 0;
        } else {
            self.packet_index = idx + 1;
        }
    }

    /// The pointer position.
    pub fn get_position(&self) -> (p: (i32, i32))
        ensures
            p == (self.x, self.y),
    {
        (self.x, self.y)
    }

    /// The buttons held.
    pub fn get_buttons(&self) -> (b: u8)
        ensures
            b == self.buttons,
    {
        self.buttons
    }

    pub fn is_left_pressed(&self) -> (b: bool)
        ensures
            b == (self.buttons & BUTTON_LEFT != 0),
    {
        self.buttons & BUTTON_LEFT != 0
    }

    pub fn is_right_pressed(&self) -> (b: bool)
        ensures
            b == (self.buttons & BUTTON_RIGHT != 0),
    {
        self.buttons & BUTTON_RIGHT != 0
    }

    pub fn is_initialized(&self) -> (b: bool)
        ensures
            b == self.initialized,
    {
        self.initialized
    }
}

} // verus!
