//! The two chained 8259 interrupt controllers and the 8253 interval timer:
//! the port writes that program them and the mask and end-of-interrupt
//! values.
use vstd::prelude::*;

verus! {

pub const PIC1_COMMAND: u16 = 0x20;
pub const PIC1_DATA: u16 = 0x21;
pub const PIC2_COMMAND: u16 = 0xA0;
pub const PIC2_DATA: u16 = 0xA1;
pub const ICW1_INIT: u8 = 0x10;
pub const ICW1_ICW4: u8 = 0x01;
pub const ICW4_8086: u8 = 0x01;
pub const PIC_EOI: u8 = 0x20;
/// The port written to wait a moment between programming steps.
pub const IO_WAIT_PORT: u16 = 0x80;
pub const PIT_CHANNEL_0: u16 = 0x40;
pub const PIT_COMMAND: u16 = 0x43;
pub const PIT_FREQUENCY: u32 = 1193182;

/// The port writes that remap the controllers to vectors `offset1` (IRQs
/// 0 to 7) and `offset2` (8 to 15), chain them on IRQ 2 and restore their
/// masks, with a pause after each programming step.
pub fn init_sequence(offset1: u8, offset2: u8, mask1: u8, mask2: u8) -> (w: Vec<(u16, u8)>)
    ensures
        w@ == seq![
            (PIC1_COMMAND, 0x11u8), (IO_WAIT_PORT, 0u8),
            (PIC2_COMMAND, 0x11u8), (IO_WAIT_PORT, 0u8),
            (PIC1_DATA, offset1), (IO_WAIT_PORT, 0u8),
            (PIC2_DATA, offset2), (IO_WAIT_PORT, 0u8),
            (PIC1_DATA, 4u8), (IO_WAIT_PORT, 0u8),
            (PIC2_DATA, 2u8), (IO_WAIT_PORT, 0u8),
            (PIC1_DATA, ICW4_8086), (IO_WAIT_PORT, 0u8),
            (PIC2_DATA, ICW4_8086), (IO_WAIT_PORT, 0u8),
            (PIC1_DATA, mask1),
            (PIC2_DATA, mask2),
        ],
{
    let icw1 = ICW1_INIT | ICW1_ICW4;
    assert(ICW1_INIT | ICW1_ICW4 == 0x11u8) by (bit_vector);
    let w: Vec<(u16, u8)> = vec![
        (PIC1_COMMAND, icw1), (IO_WAIT_PORT, 0u8),
        (PIC2_COMMAND, icw1), (IO_WAIT_PORT, 0u8),
        (PIC1_DATA, offset1), (IO_WAIT_PORT, 0u8),
        (PIC2_DATA, offset2), (IO_WAIT_PORT, 0u8),
        (PIC1_DATA, 4u8), (IO_WAIT_PORT, 0u8),
        (PIC2_DATA, 2u8), (IO_WAIT_PORT, 0u8),
        (PIC1_DATA, ICW4_8086), (IO_WAIT_PORT, 0u8),
        (PIC2_DATA, ICW4_8086), (IO_WAIT_PORT, 0u8),
        (PIC1_DATA, mask1),
        (PIC2_DATA, mask2),
    ];
    w
}

/// The data port holding `irq`'s mask bit.
pub fn mask_port(irq: u8) -> (p: u16)
    ensures
        p == if irq < 8 { PIC1_DATA } else { PIC2_DATA },
{
    if irq < 8 {
        PIC1_DATA
    } else {
        PIC2_DATA
    }
}

/// The mask register with `irq` masked.
pub fn set_mask_value(current: u8, irq: u8) -> (v: u8)
    ensures
        v == current | (1u8 << (irq % 8)),
{
    current | (1u8 << (irq % 8))
}

/// The mask register with `irq` unmasked.
pub fn clear_mask_value(current: u8, irq: u8) -> (v: u8)
    ensures
        v == current & !(1u8 << (irq % 8)),
{
    current & !(1u8 << (irq % 8))
}

/// The command ports to send end-of-interrupt to for `irq`: the slave's
/// too for IRQs 8 and above, the master's always.
pub fn eoi_ports(irq: u8) -> (p: Vec<u16>)
    ensures
        irq >= 8 ==> p@ == seq![PIC2_COMMAND, PIC1_COMMAND],
        irq < 8 ==> p@ == seq![PIC1_COMMAND],
{
    if irq >= 8 {
        vec![PIC2_COMMAND, PIC1_COMMAND]
    } else {
        vec![PIC1_COMMAND]
    }
}

/// The timer's divisor for `frequency` ticks a second (cut to 16 bits).
pub fn pit_divisor(frequency: u32) -> (d: u16)
    requires
        frequency > 0,
    ensures
        d == (PIT_FREQUENCY / frequency) as u16,
{
    (PIT_FREQUENCY / frequency) as u16
}

/// The port writes that set channel 0 to square-wave mode at `frequency`.
pub fn pit_program(frequency: u32) -> (w: Vec<(u16, u8)>)
    requires
        frequency > 0,
    ensures
        ({
            let d = (PIT_FREQUENCY / frequency) as u16;
            w@ == seq![(PIT_COMMAND, 0x36u8), (PIT_CHANNEL_0, (d & 0xFF) as u8), (PIT_CHANNEL_0, ((d >> 8u16) & 0xFF) as u8)]
        }),
{
    let d = pit_divisor(frequency);
    vec![(PIT_COMMAND, 0x36u8), (PIT_CHANNEL_0, (d & 0xFF) as u8), (PIT_CHANNEL_0, ((d >> 8) & 0xFF) as u8)]
}

/// Masking and then unmasking an IRQ gives back a register in which it
/// was unmasked.
pub proof fn lemma_mask_unmask(current: u8, irq: u8)
    requires
        current & (1u8 << (irq % 8)) == 0,
    ensures
        (current | (1u8 << (irq % 8))) & !(1u8 << (irq % 8)) == current,
{
    let b = 1u8 << (irq % 8);
    assert(current & b == 0 ==> (current | b) & !b == current) by (bit_vector);
}

} // verus!
