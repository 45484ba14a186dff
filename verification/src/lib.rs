//! Verified core of the Astral kernel: the data structures, parsers and
//! state machines of the file systems, the text applications, the graphics
//! stack, IPC and the hardware-description records.
use vstd::prelude::*;

pub mod ipc;
pub mod text;
pub mod vfs_path;
pub mod vfs;
pub mod gap_buffer;
pub mod editor;
pub mod notes;
pub mod terminal;
pub mod surface;
pub mod compositor;
pub mod graphics;
pub mod bytes;
pub mod psychicfs;
pub mod users;
pub mod elf;
pub mod syscall;
pub mod keyboard;
pub mod display;
pub mod glyphs;
pub mod framebuffer;
pub mod font;
pub mod gui;
pub mod virtqueue;
pub mod pci;
pub mod acpi;
pub mod cpu;
pub mod apic;
pub mod tss;
pub mod rtc;
pub mod mouse;
pub mod protocol;
pub mod bootmenu;
pub mod virtio_blk;
pub mod render;
pub mod serial;
pub mod pic;

verus! {

} // verus!
