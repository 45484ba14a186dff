//! ACPI tables read from their bytes: the root pointer (RSDP), the system
//! description tables (RSDT and XSDT) and the interrupt-controller table
//! (MADT) with the processors and the I/O APIC it lists.
use vstd::prelude::*;
use crate::bytes::{get32, get64, read32, read64};

verus! {

/// Size of the header that starts every system description table.
pub const SDT_HEADER_SIZE: usize = 36;
/// Offset of the first entry in the MADT (header, local APIC address, flags).
pub const MADT_ENTRIES_OFFSET: usize = 44;
/// Size of the ACPI 2.0 root pointer.
pub const RSDP_SIZE: usize = 36;

/// The root pointer's signature, "RSD PTR ".
pub open spec fn rsdp_signature() -> Seq<u8> {
    seq![0x52u8, 0x53u8, 0x44u8, 0x20u8, 0x50u8, 0x54u8, 0x52u8, 0x20u8]
}

/// The bytes `data[at..at + n]` as a vector.
fn copy_bytes(data: &[u8], at: usize, n: usize) -> (v: Vec<u8>)
    requires
        at + n <= data@.len(),
    ensures
        v@ == data@.subrange(at as int, at + n),
{
    let len = data.len();
    assert(at + n <= len);
    vstd::slice::slice_to_vec(vstd::slice::slice_subrange(data, at, at + n))
}

/// Whether two byte strings are equal.
pub fn same_bytes(a: &[u8], b: &[u8]) -> (r: bool)
    ensures
        r == (a@ == b@),
{
    if a.len() != b.len() {
        return false;
    }
    let mut i: usize = 0;
    while i < a.len()
        invariant
            a@.len() == b@.len(),
            i <= a@.len(),
            forall|k: int| 0 <= k < i ==> a@[k] == b@[k],
        decreases a@.len() - i,
    {
        if a[i] != b[i] {
            assert(a@[i as int] != b@[i as int]);
            return false;
        }
        i = i + 1;
    }
    assert(a@ =~= b@);
    true
}

/// The common header of a system description table.
pub struct SdtHeader {
    pub signature: Vec<u8>,
    pub length: u32,
    pub revision: u8,
    pub checksum: u8,
    pub oemid: Vec<u8>,
    pub oem_table_id: Vec<u8>,
    pub oem_revision: u32,
    pub creator_id: u32,
    pub creator_revision: u32,
}

impl SdtHeader {
    /// The header stored at `at`, when its 36 bytes lie inside `data`.
    pub fn read(data: &[u8], at: usize) -> (r: Option<SdtHeader>)
        ensures
            r is Some <==> at + SDT_HEADER_SIZE <= data@.len(),
            r matches Some(h) ==> {
                &&& h.signature@ == data@.subrange(at as int, at + 4)
                &&& h.length == get32(data@, at + 4)
                &&& h.revision == data@[at + 8]
                &&& h.checksum == data@[at + 9]
                &&& h.oemid@ == data@.subrange(at + 10, at + 16)
                &&& h.oem_table_id@ == data@.subrange(at + 16, at + 24)
                &&& h.oem_revision == get32(data@, at + 24)
                &&& h.creator_id == get32(data@, at + 28)
                &&& h.creator_revision == get32(data@, at + 32)
            },
    {
        if at > data.len() || data.len() - at < SDT_HEADER_SIZE {
            return None;
        }
        Some(SdtHeader {
            signature: copy_bytes(data, at, 4),
            length: read32(data, at + 4),
            revision: data[at + 8],
            checksum: data[at + 9],
            oemid: copy_bytes(data, at + 10, 6),
            oem_table_id: copy_bytes(data, at + 16, 8),
            oem_revision: read32(data, at + 24),
            creator_id: read32(data, at + 28),
            creator_revision: read32(data, at + 32),
        })
    }
}

/// Whether the root pointer's signature stands at `i`.
pub open spec fn rsdp_at(region: Seq<u8>, i: int) -> bool {
    0 <= i && i + 8 <= region.len() && region.subrange(i, i + 8) == rsdp_signature()
}

fn signature_at(region: &[u8], i: usize) -> (r: bool)
    requires
        i + 8 <= region@.len(),
    ensures
        r == rsdp_at(region@, i as int),
{
    let r = region[i] == 0x52 && region[i + 1] == 0x53 && region[i + 2] == 0x44 && region[i + 3] == 0x20
        && region[i + 4] == 0x50 && region[i + 5] == 0x54 && region[i + 6] == 0x52 && region[i + 7] == 0x20;
    let ghost s = region@.subrange(i as int, i + 8);
    if r {
        assert(s =~= rsdp_signature());
    } else {
        assert(s[0] != rsdp_signature()[0] || s[1] != rsdp_signature()[1] || s[2] != rsdp_signature()[2]
            || s[3] != rsdp_signature()[3] || s[4] != rsdp_signature()[4] || s[5] != rsdp_signature()[5]
            || s[6] != rsdp_signature()[6] || s[7] != rsdp_signature()[7]);
    }
    r
}

/// Offset of the root pointer in a memory region searched on 16-byte
/// boundaries: the first boundary at which "RSD PTR " stands.
pub fn search_rsdp_offset(region: &[u8]) -> (r: Option<usize>)
    ensures
        r matches Some(i) ==> i % 16 == 0 && rsdp_at(region@, i as int)
            && forall|j: int| 0 <= j < i && j % 16 == 0 ==> !rsdp_at(region@, j),
        r is None ==> forall|j: int| 0 <= j && j % 16 == 0 ==> !rsdp_at(region@, j),
{
    let len = region.len();
    let mut i: usize = 0;
    while i < len
        invariant
            len == region@.len(),
            i % 16 == 0,
            i <= len + 15,
            forall|j: int| 0 <= j < i && j % 16 == 0 ==> !rsdp_at(region@, j),
        decreases len + 16 - i,
    {
        if len - i < 8 {
            assert forall|j: int| 0 <= j && j % 16 == 0 implies !rsdp_at(region@, j) by {
                if j >= i {
                    assert(j + 8 > len);
                }
            }
            return None;
        }
        if signature_at(region, i) {
            return Some(i);
        }
        if len - i < 16 {
            assert forall|j: int| 0 <= j && j % 16 == 0 implies !rsdp_at(region@, j) by {
                if j > i {
                    assert(j >= i + 16);
                }
            }
            return None;
        }
        i = i + 16;
    }
    None
}

/// What the root pointer says: its revision and where the RSDT and, from
/// revision 2 on, the XSDT stand.
pub struct RsdpInfo {
    pub revision: u8,
    pub rsdt_address: u32,
    pub xsdt_address: u64,
}

/// The fields of the ACPI 2.0 root pointer stored at the start of `data`.
pub fn parse_rsdp(data: &[u8]) -> (r: Option<RsdpInfo>)
    ensures
        r is Some <==> data@.len() >= RSDP_SIZE,
        r matches Some(p) ==> p.revision == data@[15] && p.rsdt_address == get32(data@, 16)
            && p.xsdt_address == get64(data@, 24),
{
    if data.len() < RSDP_SIZE {
        return None;
    }
    Some(RsdpInfo { revision: data[15], rsdt_address: read32(data, 16), xsdt_address: read64(data, 24) })
}

/// Whether the tables are looked up in the XSDT first.
pub fn use_xsdt(rsdp: &RsdpInfo) -> (r: bool)
    ensures
        r == (rsdp.revision >= 2 && rsdp.xsdt_address != 0),
{
    rsdp.revision >= 2 && rsdp.xsdt_address != 0
}

/// Whether a table's header length is usable: at least a header, and no
/// more than the bytes at hand.
pub open spec fn table_length_ok(t: Seq<u8>) -> bool {
    t.len() >= 8 && SDT_HEADER_SIZE <= get32(t, 4) <= t.len()
}

/// The XSDT's entries: the 64-bit table addresses after its header, as
/// many as its length holds.
pub fn parse_xsdt(table: &[u8]) -> (r: Option<Vec<u64>>)
    ensures
        r is Some <==> table_length_ok(table@),
        r matches Some(v) ==> v@.len() == (get32(table@, 4) - 36) / 8 && forall|k: int|
            0 <= k < v@.len() ==> v@[k] == get64(table@, 36 + 8 * k),
{
    if table.len() < 8 {
        return None;
    }
    let length = read32(table, 4);
    if (length as usize) < SDT_HEADER_SIZE || length as usize > table.len() {
        return None;
    }
    let count = (length as usize - SDT_HEADER_SIZE) / 8;
    let mut v: Vec<u64> = Vec::new();
    let mut k: usize = 0;
    while k < count
        invariant
            count == (get32(table@, 4) - 36) / 8,
            get32(table@, 4) <= table@.len(),
            k <= count,
            v@.len() == k,
            forall|m: int| 0 <= m < k ==> v@[m] == get64(table@, 36 + 8 * m),
        decreases count - k,
    {
        assert(36 + 8 * k + 8 <= table@.len()) by (nonlinear_arith)
            requires
                k < count,
                count == (get32(table@, 4) - 36) / 8,
                get32(table@, 4) <= table@.len(),
        ;
        v.push(read64(table, SDT_HEADER_SIZE + 8 * k));
        k = k + 1;
    }
    Some(v)
}

/// The RSDT's entries: the 32-bit table addresses after its header.
pub fn parse_rsdt(table: &[u8]) -> (r: Option<Vec<u32>>)
    ensures
        r is Some <==> table_length_ok(table@),
        r matches Some(v) ==> v@.len() == (get32(table@, 4) - 36) / 4 && forall|k: int|
            0 <= k < v@.len() ==> v@[k] == get32(table@, 36 + 4 * k),
{
    if table.len() < 8 {
        return None;
    }
    let length = read32(table, 4);
    if (length as usize) < SDT_HEADER_SIZE || length as usize > table.len() {
        return None;
    }
    let count = (length as usize - SDT_HEADER_SIZE) / 4;
    let mut v: Vec<u32> = Vec::new();
    let mut k: usize = 0;
    while k < count
        invariant
            count == (get32(table@, 4) - 36) / 4,
            get32(table@, 4) <= table@.len(),
            k <= count,
            v@.len() == k,
            forall|m: int| 0 <= m < k ==> v@[m] == get32(table@, 36 + 4 * m),
        decreases count - k,
    {
        assert(36 + 4 * k + 4 <= table@.len()) by (nonlinear_arith)
            requires
                k < count,
                count == (get32(table@, 4) - 36) / 4,
                get32(table@, 4) <= table@.len(),
        ;
        v.push(read32(table, SDT_HEADER_SIZE + 4 * k));
        k = k + 1;
    }
    Some(v)
}

/// The first entry from `i` on that is not null and whose table carries
/// `signature`.
pub open spec fn first_table(entries: Seq<u64>, sigs: Seq<Seq<u8>>, signature: Seq<u8>, i: int) -> Option<u64>
    decreases entries.len() - i,
{
    if i >= entries.len() || i < 0 {
        None
    } else if entries[i] != 0 && sigs[i] == signature {
        Some(entries[i])
    } else {
        first_table(entries, sigs, signature, i + 1)
    }
}

/// The address of the table with `signature` among the entries of a root
/// table; `entry_signatures[i]` is the signature of the table at
/// `entries[i]` (read for the non-null ones).
pub fn find_table_entry(entries: &[u64], entry_signatures: &[Vec<u8>], signature: &[u8]) -> (r: Option<u64>)
    requires
        entries@.len() == entry_signatures@.len(),
    ensures
        r == first_table(entries@, entry_signatures@.map_values(|s: Vec<u8>| s@), signature@, 0),
{
    let ghost sigs = entry_signatures@.map_values(|s: Vec<u8>| s@);
    let mut i: usize = 0;
    while i < entries.len()
        invariant
            entries@.len() == entry_signatures@.len(),
            sigs == entry_signatures@.map_values(|s: Vec<u8>| s@),
            i <= entries@.len(),
            first_table(entries@, sigs, signature@, 0) == first_table(entries@, sigs, signature@, i as int),
        decreases entries@.len() - i,
    {
        if entries[i] != 0 && same_bytes(entry_signatures[i].as_slice(), signature) {
            return Some(entries[i]);
        }
        i = i + 1;
    }
    None
}

/// The kinds of MADT entries.
#[derive(Clone, Copy, PartialEq, Eq, Structural)]
pub enum MadtEntryType {
    LocalApic,
    IoApic,
    InterruptSourceOverride,
    LocalApicNmi,
    LocalApicAddressOverride,
    X2Apic,
}

impl MadtEntryType {
    /// The kind an entry's type byte names, if it is one of the known ones.
    pub fn from_u8(t: u8) -> (r: Option<MadtEntryType>)
        ensures
            t == 0 ==> r == Some(MadtEntryType::LocalApic),
            t == 1 ==> r == Some(MadtEntryType::IoApic),
            t == 2 ==> r == Some(MadtEntryType::InterruptSourceOverride),
            t == 4 ==> r == Some(MadtEntryType::LocalApicNmi),
            t == 5 ==> r == Some(MadtEntryType::LocalApicAddressOverride),
            t == 9 ==> r == Some(MadtEntryType::X2Apic),
            !(t == 0 || t == 1 || t == 2 || t == 4 || t == 5 || t == 9) ==> r is None,
    {
        match t {
            0 => Some(MadtEntryType::LocalApic),
            1 => Some(MadtEntryType::IoApic),
            2 => Some(MadtEntryType::InterruptSourceOverride),
            4 => Some(MadtEntryType::LocalApicNmi),
            5 => Some(MadtEntryType::LocalApicAddressOverride),
            9 => Some(MadtEntryType::X2Apic),
            _ => None,
        }
    }
}

/// The two bytes that start every MADT entry.
#[derive(Clone, Copy)]
pub struct MadtEntryHeader {
    pub entry_type: u8,
    pub length: u8,
}

impl MadtEntryHeader {
    pub fn read(data: &[u8], at: usize) -> (r: Option<MadtEntryHeader>)
        ensures
            r is Some <==> at + 2 <= data@.len(),
            r matches Some(h) ==> h.entry_type == data@[at as int] && h.length == data@[at + 1],
    {
        if at > data.len() || data.len() - at < 2 {
            return None;
        }
        Some(MadtEntryHeader { entry_type: data[at], length: data[at + 1] })
    }
}

/// A processor's local APIC (entry type 0).
#[derive(Clone, Copy)]
pub struct LocalApicEntry {
    pub header: MadtEntryHeader,
    pub acpi_processor_id: u8,
    pub apic_id: u8,
    pub flags: u32,
}

impl LocalApicEntry {
    pub fn read(data: &[u8], at: usize) -> (r: Option<LocalApicEntry>)
        ensures
            r is Some <==> at + 8 <= data@.len(),
            r matches Some(e) ==> e.header.entry_type == data@[at as int] && e.header.length == data@[at + 1]
                && e.acpi_processor_id == data@[at + 2] && e.apic_id == data@[at + 3] && e.flags == get32(
                data@,
                at + 4,
            ),
    {
        if at > data.len() || data.len() - at < 8 {
            return None;
        }
        Some(LocalApicEntry {
            header: MadtEntryHeader { entry_type: data[at], length: data[at + 1] },
            acpi_processor_id: data[at + 2],
            apic_id: data[at + 3],
            flags: read32(data, at + 4),
        })
    }
}

/// An I/O APIC (entry type 1).
#[derive(Clone, Copy)]
pub struct IoApicEntry {
    pub header: MadtEntryHeader,
    pub io_apic_id: u8,
    pub reserved: u8,
    pub io_apic_address: u32,
    pub global_system_interrupt_base: u32,
}

impl IoApicEntry {
    pub fn read(data: &[u8], at: usize) -> (r: Option<IoApicEntry>)
        ensures
            r is Some <==> at + 12 <= data@.len(),
            r matches Some(e) ==> e.header.entry_type == data@[at as int] && e.header.length == data@[at + 1]
                && e.io_apic_id == data@[at + 2] && e.reserved == data@[at + 3] && e.io_apic_address == get32(
                data@,
                at + 4,
            ) && e.global_system_interrupt_base == get32(data@, at + 8),
    {
        if at > data.len() || data.len() - at < 12 {
            return None;
        }
        Some(IoApicEntry {
            header: MadtEntryHeader { entry_type: data[at], length: data[at + 1] },
            io_apic_id: data[at + 2],
            reserved: data[at + 3],
            io_apic_address: read32(data, at + 4),
            global_system_interrupt_base: read32(data, at + 8),
        })
    }
}

/// A processor's x2APIC (entry type 9).
#[derive(Clone, Copy)]
pub struct X2ApicEntry {
    pub header: MadtEntryHeader,
    pub reserved: u16,
    pub x2apic_id: u32,
    pub flags: u32,
    pub acpi_processor_uid: u32,
}

impl X2ApicEntry {
    pub fn read(data: &[u8], at: usize) -> (r: Option<X2ApicEntry>)
        ensures
            r is Some <==> at + 16 <= data@.len(),
            r matches Some(e) ==> e.header.entry_type == data@[at as int] && e.header.length == data@[at + 1]
                && e.reserved == crate::bytes::get16(data@, at + 2) && e.x2apic_id == get32(data@, at + 4)
                && e.flags == get32(data@, at + 8) && e.acpi_processor_uid == get32(data@, at + 12),
    {
        if at > data.len() || data.len() - at < 16 {
            return None;
        }
        Some(X2ApicEntry {
            header: MadtEntryHeader { entry_type: data[at], length: data[at + 1] },
            reserved: crate::bytes::read16(data, at + 2),
            x2apic_id: read32(data, at + 4),
            flags: read32(data, at + 8),
            acpi_processor_uid: read32(data, at + 12),
        })
    }
}

/// The MADT's fixed part: its header, the local APIC address and flags.
pub struct Madt {
    pub header: SdtHeader,
    pub local_apic_address: u32,
    pub flags: u32,
}

impl Madt {
    pub fn read(data: &[u8]) -> (r: Option<Madt>)
        ensures
            r is Some <==> data@.len() >= MADT_ENTRIES_OFFSET,
            r matches Some(m) ==> m.header.length == get32(data@, 4) && m.local_apic_address == get32(data@, 36)
                && m.flags == get32(data@, 40) && m.header.signature@ == data@.subrange(0, 4),
    {
        if data.len() < MADT_ENTRIES_OFFSET {
            return None;
        }
        match SdtHeader::read(data, 0) {
            Some(header) => Some(Madt { header, local_apic_address: read32(data, 36), flags: read32(data, 40) }),
            None => None,
        }
    }
}

/// How many bytes an entry of type `t` is read from: the fields of the
/// known kinds, the header alone for the others.
pub open spec fn entry_size(t: u8) -> int {
    if t == 0 {
        8
    } else if t == 1 {
        12
    } else if t == 9 {
        16
    } else {
        2
    }
}

/// The walk over the MADT entries from `off` up to `end`, carrying the APIC
/// ids of the enabled processors seen so far and the last I/O APIC's
/// address and interrupt base. `None` when an entry's fields do not lie in
/// `data` or an entry has length 0 (the walk would not advance).
pub open spec fn madt_walk(data: Seq<u8>, off: int, end: int, apics: Seq<u32>, io: (u64, u32)) -> Option<(Seq<u32>, (u64, u32))>
    decreases end - off,
{
    if off >= end {
        Some((apics, io))
    } else if off < 0 || off + 2 > data.len() || off + entry_size(data[off]) > data.len() || data[off + 1] == 0 {
        None
    } else {
        let t = data[off];
        let apics2 = if t == 0 && get32(data, off + 4) & 1 != 0 {
            apics.push(data[off + 3] as u32)
        } else if t == 9 && get32(data, off + 8) & 1 != 0 {
            apics.push(get32(data, off + 4))
        } else {
            apics
        };
        let io2 = if t == 1 {
            (get32(data, off + 4) as u64, get32(data, off + 8))
        } else {
            io
        };
        let next = off + data[off + 1];
        madt_walk(data, if next > end { end } else { next }, end, apics2, io2)
    }
}

/// What the MADT in `t` says, as (local APIC address, enabled processors'
/// APIC ids, I/O APIC address, I/O APIC interrupt base); `None` when the
/// table is shorter than its header says or an entry is malformed.
pub open spec fn madt_spec(t: Seq<u8>) -> Option<(u64, Seq<u32>, u64, u32)> {
    if t.len() < 44 || get32(t, 4) > t.len() {
        None
    } else {
        match madt_walk(t, 44, get32(t, 4) as int, seq![], (0, 0)) {
            Some((apics, io)) => Some((get32(t, 36) as u64, apics, io.0, io.1)),
            None => None,
        }
    }
}

/// The processors and the I/O APIC that the MADT describes.
pub struct MadtInfo {
    pub local_apic_addr: u64,
    pub local_apics: Vec<u32>,
    pub ioapic_addr: u64,
    pub ioapic_gsi_base: u32,
}

/// Reads the MADT held in `table`: the local APIC address, the APIC ids of
/// the enabled processors (local APIC and x2APIC entries, in table order)
/// and the last I/O APIC entry's address and interrupt base (0 when there
/// is none).
pub fn parse_madt(table: &[u8]) -> (r: Option<MadtInfo>)
    ensures
        r is None <==> madt_spec(table@) is None,
        r matches Some(i) ==> madt_spec(table@) == Some(
            (i.local_apic_addr, i.local_apics@, i.ioapic_addr, i.ioapic_gsi_base),
        ),
{
    if table.len() < MADT_ENTRIES_OFFSET {
        return None;
    }
    let length = read32(table, 4);
    if length as usize > table.len() {
        return None;
    }
    let end = length as usize;
    let mut apics: Vec<u32> = Vec::new();
    let mut io_addr: u64 = 0;
    let mut io_base: u32 = 0;
    let mut off: usize = MADT_ENTRIES_OFFSET;
    let ghost start = madt_walk(table@, 44, end as int, seq![], (0, 0));
    assert(apics@ =~= seq![]);
    while off < end
        invariant
            end <= table@.len(),
            end == get32(table@, 4),
            44 <= off,
            madt_walk(table@, off as int, end as int, apics@, (io_addr, io_base)) == start,
            start == madt_walk(table@, 44, end as int, seq![], (0, 0)),
        decreases end - off,
    {
        if table.len() - off < 2 {
            return None;
        }
        let t = table[off];
        let len = table[off + 1];
        let need: usize = if t == 0 {
            8
        } else if t == 1 {
            12
        } else if t == 9 {
            16
        } else {
            2
        };
        if table.len() - off < need || len == 0 {
            return None;
        }
        if t == 0 {
            if read32(table, off + 4) & 1 != 0 {
                apics.push(table[off + 3] as u32);
            }
        } else if t == 1 {
            io_addr = read32(table, off + 4) as u64;
            io_base = read32(table, off + 8);
        } else if t == 9 {
            if read32(table, off + 8) & 1 != 0 {
                apics.push(read32(table, off + 4));
            }
        }
        if len as usize >= end - off {
            off = end;
        } else {
            off = off + len as usize;
        }
    }
    Some(MadtInfo { local_apic_addr: read32(table, 36) as u64, local_apics: apics, ioapic_addr: io_addr, ioapic_gsi_base: io_base })
}

} // verus!
