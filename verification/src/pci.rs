//! PCI configuration space: addresses for the configuration mechanism, the
//! fields inside a 32-bit configuration word, and base-address registers.
use vstd::prelude::*;

verus! {

pub const PCI_CONFIG_ADDR: u16 = 0xCF8;
pub const PCI_CONFIG_DATA: u16 = 0xCFC;
pub const PCI_VENDOR_ID: u8 = 0x00;
pub const PCI_DEVICE_ID: u8 = 0x02;
pub const PCI_COMMAND: u8 = 0x04;
pub const PCI_BAR0: u8 = 0x10;
pub const PCI_CAPABILITY_LIST: u8 = 0x34;
pub const PCI_COMMAND_IO: u16 = 0x01;
pub const PCI_COMMAND_MEMORY: u16 = 0x02;
pub const PCI_COMMAND_MASTER: u16 = 0x04;
pub const VIRTIO_VENDOR_ID: u16 = 0x1AF4;
pub const VIRTIO_BLOCK_DEVICE_ID: u16 = 0x1042;

/// The value written to the address port to select a configuration word:
/// the enable bit, bus, device, function and the offset's word.
pub fn pci_config_address(bus: u8, device: u8, func: u8, offset: u8) -> (a: u32)
    ensures
        a == (1u32 << 31u32) | ((bus as u32) << 16u32) | ((device as u32) << 11u32) | ((func as u32) << 8u32) | ((offset as u32) & 0xFC),
{
    (1u32 << 31) | ((bus as u32) << 16) | ((device as u32) << 11) | ((func as u32) << 8) | ((offset as u32) & 0xFC)
}

/// The 16-bit field at `offset` inside the configuration word holding it.
pub fn config_field16(word: u32, offset: u8) -> (v: u16)
    ensures
        v == ((word >> (((offset & 2) as u32) * 8)) & 0xFFFF) as u16,
{
    assert(offset & 2 <= 2) by (bit_vector);
    let shift = ((offset & 2) as u32) * 8;
    ((word >> shift) & 0xFFFF) as u16
}

/// The byte at `offset` inside the configuration word holding it.
pub fn config_field8(word: u32, offset: u8) -> (v: u8)
    ensures
        v == ((word >> (((offset & 3) as u32) * 8)) & 0xFF) as u8,
{
    assert(offset & 3 <= 3) by (bit_vector);
    let shift = ((offset & 3) as u32) * 8;
    ((word >> shift) & 0xFF) as u8
}

/// The configuration word with the 16-bit field at `offset` replaced.
pub fn config_merge16(word: u32, offset: u8, value: u16) -> (w: u32)
    ensures
        ({
            let shift = ((offset & 2) as u32) * 8;
            w == (word & !(0xFFFFu32 << shift)) | ((value as u32) << shift)
        }),
{
    assert(offset & 2 <= 2) by (bit_vector);
    let shift = ((offset & 2) as u32) * 8;
    let mask = 0xFFFFu32 << shift;
    (word & !mask) | ((value as u32) << shift)
}

/// The command register with memory decoding and bus mastering on.
pub fn bus_master_command(cmd: u16) -> (c: u16)
    ensures
        c == cmd | PCI_COMMAND_MEMORY | PCI_COMMAND_MASTER,
{
    cmd | PCI_COMMAND_MEMORY | PCI_COMMAND_MASTER
}

/// Configuration offset of base-address register `bar_index` (0 to 5).
pub fn bar_offset(bar_index: u8) -> (o: u8)
    requires
        bar_index < 6,
    ensures
        o == PCI_BAR0 + bar_index * 4,
{
    PCI_BAR0 + bar_index * 4
}

/// Whether a BAR's low word marks a 64-bit BAR (its next word holds the
/// high half).
pub fn bar_is_64bit(bar_low: u32) -> (r: bool)
    ensures
        r == (bar_low & 0x04 != 0),
{
    (bar_low & 0x04) != 0
}

/// The address a BAR holds: its low word without the flag bits, with the
/// high word above it for a 64-bit BAR.
pub fn bar_address(bar_low: u32, bar_high: u32) -> (a: u64)
    ensures
        bar_low & 0x04 != 0 ==> a == ((bar_high as u64) << 32u64) | ((bar_low & !0xFu32) as u64),
        bar_low & 0x04 == 0 ==> a == (bar_low & !0xFu32) as u64,
{
    if (bar_low & 0x04) != 0 {
        ((bar_high as u64) << 32) | ((bar_low & !0xF) as u64)
    } else {
        (bar_low & !0xF) as u64
    }
}

/// A device function's place on the PCI bus.
#[derive(Clone, Copy, PartialEq, Eq, Structural)]
pub struct PciLocation {
    pub bus: u8,
    pub device: u8,
    pub function: u8,
}

impl PciLocation {
    pub fn new(bus: u8, device: u8, function: u8) -> (l: Self)
        ensures
            l == (PciLocation { bus, device, function }),
    {
        PciLocation { bus, device, function }
    }

    /// The address-port value for a configuration word of this function.
    pub fn config_address(&self, offset: u8) -> (a: u32)
        ensures
            a == (1u32 << 31u32) | ((self.bus as u32) << 16u32) | ((self.device as u32) << 11u32)
                | ((self.function as u32) << 8u32) | ((offset as u32) & 0xFC),
    {
        pci_config_address(self.bus, self.device, self.function, offset)
    }
}

/// What a bus scan does after reading a function's vendor (and device) id.
#[derive(Clone, Copy, PartialEq, Eq, Structural)]
pub enum ScanStep {
    /// No device here and, at function 0, none at the other functions.
    NextDevice,
    /// Go on with the next function.
    NextFunction,
    /// The virtio block device.
    Found,
}

/// The scan's decision for one function.
pub fn scan_step(function: u8, vendor: u16, device_id: u16) -> (s: ScanStep)
    ensures
        vendor == 0xFFFF && function == 0 ==> s == ScanStep::NextDevice,
        vendor == 0xFFFF && function != 0 ==> s == ScanStep::NextFunction,
        vendor != 0xFFFF && vendor == VIRTIO_VENDOR_ID && device_id == VIRTIO_BLOCK_DEVICE_ID ==> s == ScanStep::Found,
        vendor != 0xFFFF && !(vendor == VIRTIO_VENDOR_ID && device_id == VIRTIO_BLOCK_DEVICE_ID) ==> s == ScanStep::NextFunction,
{
    if vendor == 0xFFFF {
        if function == 0 { ScanStep::NextDevice } else { ScanStep::NextFunction }
    } else if vendor == VIRTIO_VENDOR_ID && device_id == VIRTIO_BLOCK_DEVICE_ID {
        ScanStep::Found
    } else {
        ScanStep::NextFunction
    }
}

} // verus!
