//! Local APIC and I/O APIC programming: which mode the local APIC runs in,
//! the values written to its interrupt-command register for each kind of
//! inter-processor interrupt, the timer's vector register, and the I/O
//! APIC's redirection entries.
use vstd::prelude::*;

verus! {

/// Bits of the APIC base MSR.
pub const APIC_BASE_ENABLE: u64 = 0x800;
pub const APIC_BASE_X2APIC: u64 = 0x400;
/// Delivery modes, level, trigger, destination mode and shorthands of the
/// interrupt-command register.
pub const IPI_DELIVERY_INIT: u64 = 0x500;
pub const IPI_DELIVERY_STARTUP: u64 = 0x600;
pub const IPI_DEST_LOGICAL: u64 = 0x800;
pub const IPI_LEVEL_ASSERT: u64 = 0x4000;
pub const IPI_TRIGGER_LEVEL: u64 = 0x8000;
pub const IPI_DEST_ALL: u64 = 0x80000;
pub const IPI_DEST_ALL_EXCEPT_SELF: u64 = 0xC0000;
/// Periodic mode of the local timer's vector register.
pub const APIC_TIMER_PERIODIC: u32 = 0x20000;
/// The mask bit of a local vector or a redirection entry.
pub const LVT_MASKED: u32 = 0x10000;
/// The spurious-vector register's value: APIC on, vector 0xFF.
pub const APIC_SPURIOUS_VALUE: u32 = 0x1FF;
/// First redirection register of the I/O APIC.
pub const IOREDTBL_BASE: u8 = 0x10;
/// Where the I/O APIC's registers are mapped by default.
pub const DEFAULT_IOAPIC_ADDR: usize = 0xFEC00000;

/// How the local APIC is driven.
#[derive(Clone, Copy, PartialEq, Eq, Structural)]
pub enum ApicMode {
    Disabled,
    XApic,
    X2Apic,
}

/// A local APIC's id.
#[derive(Clone, Copy, PartialEq, Eq, Structural)]
pub struct ApicId(pub u32);

impl ApicId {
    pub fn new(id: u32) -> (a: Self)
        ensures
            a.0 == id,
    {
        ApicId(id)
    }

    pub fn as_u32(self) -> (r: u32)
        ensures
            r == self.0,
    {
        self.0
    }
}

/// Who an inter-processor interrupt goes to.
#[derive(Clone, Copy, PartialEq, Eq, Structural)]
pub enum IpiDestination {
    Single(ApicId),
    All,
    AllExceptSelf,
    Logical(u32),
}

/// Whether CPUID leaf 1 (its EDX) reports a local APIC.
pub fn apic_supported(edx1: u32) -> (b: bool)
    ensures
        b == (edx1 & 0x200 != 0),
{
    edx1 & 0x200 != 0
}

/// Whether CPUID leaf 1 (its ECX) reports x2APIC mode.
pub fn x2apic_supported(ecx1: u32) -> (b: bool)
    ensures
        b == (ecx1 & 0x200000 != 0),
{
    ecx1 & 0x200000 != 0
}

/// The physical base address held in the APIC base MSR.
pub fn apic_base_address(msr: u64) -> (a: u64)
    ensures
        a == msr & 0xFFFF_FFFF_FFFF_F000,
{
    msr & 0xFFFF_FFFF_FFFF_F000
}

/// The APIC base MSR value that enables the APIC, in x2APIC mode when
/// asked.
pub fn apic_enable_value(msr: u64, x2apic: bool) -> (v: u64)
    ensures
        x2apic ==> v == msr | APIC_BASE_ENABLE | APIC_BASE_X2APIC,
        !x2apic ==> v == msr | APIC_BASE_ENABLE,
{
    if x2apic {
        msr | APIC_BASE_ENABLE | APIC_BASE_X2APIC
    } else {
        msr | APIC_BASE_ENABLE
    }
}

/// The mode the APIC ends up in: x2APIC when it was asked for and the MSR
/// read back after the write has the x2APIC bit, xAPIC otherwise.
pub fn mode_after_enable(x2apic_requested: bool, readback: u64) -> (m: ApicMode)
    ensures
        m == (if x2apic_requested && readback & APIC_BASE_X2APIC != 0 { ApicMode::X2Apic } else { ApicMode::XApic }),
{
    if x2apic_requested && readback & APIC_BASE_X2APIC != 0 {
        ApicMode::X2Apic
    } else {
        ApicMode::XApic
    }
}

/// The x2APIC interrupt-command value for a fixed, edge-triggered IPI.
pub open spec fn x2apic_icr_spec(dest: IpiDestination, vector: u8) -> u64 {
    let base = (vector as u64) | IPI_LEVEL_ASSERT;
    match dest {
        IpiDestination::Single(id) => base | ((id.0 as u64) << 32u64),
        IpiDestination::All => base | IPI_DEST_ALL,
        IpiDestination::AllExceptSelf => base | IPI_DEST_ALL_EXCEPT_SELF,
        IpiDestination::Logical(mask) => base | IPI_DEST_LOGICAL | ((mask as u64) << 32u64),
    }
}

/// The interrupt-command value written to the x2APIC for an IPI.
pub fn x2apic_ipi_icr(dest: IpiDestination, vector: u8) -> (icr: u64)
    ensures
        icr == x2apic_icr_spec(dest, vector),
{
    let base = (vector as u64) | IPI_LEVEL_ASSERT;
    match dest {
        IpiDestination::Single(id) => base | ((id.as_u32() as u64) << 32),
        IpiDestination::All => base | IPI_DEST_ALL,
        IpiDestination::AllExceptSelf => base | IPI_DEST_ALL_EXCEPT_SELF,
        IpiDestination::Logical(mask) => base | IPI_DEST_LOGICAL | ((mask as u64) << 32),
    }
}

/// The xAPIC register writes for an IPI: the high command word, when one
/// is written first, and the low command word.
pub fn xapic_ipi_icr(dest: IpiDestination, vector: u8) -> (r: (Option<u32>, u32))
    ensures
        ({
            let low = (vector as u32) | (IPI_LEVEL_ASSERT as u32);
            match dest {
                IpiDestination::Single(id) => r == (Some(id.0 << 24u32), low),
                IpiDestination::All => r == (None::<u32>, low | (IPI_DEST_ALL as u32)),
                IpiDestination::AllExceptSelf => r == (None::<u32>, low | (IPI_DEST_ALL_EXCEPT_SELF as u32)),
                IpiDestination::Logical(mask) => r == (Some(mask), low | (IPI_DEST_LOGICAL as u32)),
            }
        }),
{
    let low = (vector as u32) | (IPI_LEVEL_ASSERT as u32);
    match dest {
        IpiDestination::Single(id) => (Some(id.as_u32() << 24), low),
        IpiDestination::All => (None, low | (IPI_DEST_ALL as u32)),
        IpiDestination::AllExceptSelf => (None, low | (IPI_DEST_ALL_EXCEPT_SELF as u32)),
        IpiDestination::Logical(mask) => (Some(mask), low | (IPI_DEST_LOGICAL as u32)),
    }
}

/// The x2APIC command value of an INIT IPI (asserted, level-triggered).
pub fn x2apic_init_icr(apic_id: ApicId) -> (icr: u64)
    ensures
        icr == IPI_DELIVERY_INIT | IPI_LEVEL_ASSERT | IPI_TRIGGER_LEVEL | ((apic_id.0 as u64) << 32u64),
{
    IPI_DELIVERY_INIT | IPI_LEVEL_ASSERT | IPI_TRIGGER_LEVEL | ((apic_id.as_u32() as u64) << 32)
}

/// The xAPIC (high, low) command words of an INIT IPI.
pub fn xapic_init_icr(apic_id: ApicId) -> (r: (u32, u32))
    ensures
        r == (apic_id.0 << 24u32, (IPI_DELIVERY_INIT | IPI_LEVEL_ASSERT | IPI_TRIGGER_LEVEL) as u32),
{
    (apic_id.as_u32() << 24, (IPI_DELIVERY_INIT | IPI_LEVEL_ASSERT | IPI_TRIGGER_LEVEL) as u32)
}

/// The x2APIC command value of a STARTUP IPI for the start page `vector`.
pub fn x2apic_startup_icr(apic_id: ApicId, vector: u8) -> (icr: u64)
    ensures
        icr == (vector as u64) | IPI_DELIVERY_STARTUP | IPI_LEVEL_ASSERT | ((apic_id.0 as u64) << 32u64),
{
    (vector as u64) | IPI_DELIVERY_STARTUP | IPI_LEVEL_ASSERT | ((apic_id.as_u32() as u64) << 32)
}

/// The xAPIC (high, low) command words of a STARTUP IPI.
pub fn xapic_startup_icr(apic_id: ApicId, vector: u8) -> (r: (u32, u32))
    ensures
        r == (apic_id.0 << 24u32, (vector as u32) | ((IPI_DELIVERY_STARTUP | IPI_LEVEL_ASSERT) as u32)),
{
    (apic_id.as_u32() << 24, (vector as u32) | ((IPI_DELIVERY_STARTUP | IPI_LEVEL_ASSERT) as u32))
}

/// The local timer's vector register: the vector, periodic or one-shot.
pub fn lvt_timer_value(vector: u8, periodic: bool) -> (v: u32)
    ensures
        v == (vector as u32) | (if periodic { APIC_TIMER_PERIODIC } else { 0u32 }),
{
    let mode = if periodic { APIC_TIMER_PERIODIC } else { 0u32 };
    (vector as u32) | mode
}

/// The local APIC id held in the xAPIC id register.
pub fn xapic_id(reg: u32) -> (a: ApicId)
    ensures
        a.0 == reg >> 24u32,
{
    ApicId::new(reg >> 24)
}

/// The I/O APIC, reached through its register window at `base_addr`.
pub struct IoApic {
    pub base_addr: usize,
}

impl IoApic {
    /// The I/O APIC at its default address.
    pub fn new() -> (io: Self)
        ensures
            io.base_addr == DEFAULT_IOAPIC_ADDR,
    {
        IoApic { base_addr: DEFAULT_IOAPIC_ADDR }
    }

    /// The number of redirection entries that the version register reports.
    pub fn max_entries(version: u32) -> (n: u32)
        ensures
            n == ((version >> 16u32) & 0xFF) + 1,
    {
        assert((version >> 16u32) & 0xFF <= 0xFF) by (bit_vector);
        ((version >> 16) & 0xFF) + 1
    }

    /// The register index of the low word of `irq`'s redirection entry
    /// (the high word follows it).
    pub fn redirection_register(irq: u8) -> (r: u8)
        requires
            irq < 120,
        ensures
            r == IOREDTBL_BASE + irq * 2,
    {
        IOREDTBL_BASE + irq * 2
    }

    /// The (low, high) words of a redirection entry delivering to `vector`
    /// on the CPU with `apic_id`: fixed delivery, physical destination,
    /// edge-triggered, active high, unmasked.
    pub fn redirection_entry(vector: u8, apic_id: u8) -> (r: (u32, u32))
        ensures
            r == (vector as u32, (apic_id as u32) << 24u32),
    {
        (vector as u32, (apic_id as u32) << 24)
    }

    /// A redirection entry's low word with its mask bit set.
    pub fn masked(low: u32) -> (v: u32)
        ensures
            v == low | LVT_MASKED,
    {
        low | LVT_MASKED
    }

    /// A redirection entry's low word with its mask bit cleared.
    pub fn unmasked(low: u32) -> (v: u32)
        ensures
            v == low & !LVT_MASKED,
    {
        low & !LVT_MASKED
    }
}

/// Unmasking a masked redirection entry gives back the entry when it was
/// unmasked to begin with.
pub proof fn lemma_mask_round_trip(low: u32)
    requires
        low & LVT_MASKED == 0,
    ensures
        (low | LVT_MASKED) & !LVT_MASKED == low,
{
    assert((low & 0x10000u32 == 0) ==> ((low | 0x10000u32) & !0x10000u32 == low)) by (bit_vector);
}

} // verus!
