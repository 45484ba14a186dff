//! The virtio block device: finding its configuration structures in the
//! PCI capability list, the start-up handshake's decisions, the queue size,
//! the requests it is sent and what their status byte means. The caller
//! does the register and memory accesses and hands over what it read.
use vstd::prelude::*;
use crate::bytes::{get32, get64, read32, read64, push32, push64, le32, le64};
use crate::pci::PciLocation;
use crate::virtqueue::{Virtqueue, VirtqUsedElem, QUEUE_SIZE, PAGE_SIZE, chain_ends, chain_nodes, chain_written};

verus! {

pub const VIRTIO_BLK_T_IN: u32 = 0;
pub const VIRTIO_BLK_T_OUT: u32 = 1;
pub const VIRTIO_BLK_S_OK: u8 = 0;
pub const VIRTIO_BLK_S_IOERR: u8 = 1;
pub const VIRTIO_BLK_S_UNSUPP: u8 = 2;
pub const VIRTIO_STATUS_ACKNOWLEDGE: u8 = 1;
pub const VIRTIO_STATUS_DRIVER: u8 = 2;
pub const VIRTIO_STATUS_DRIVER_OK: u8 = 4;
pub const VIRTIO_STATUS_FEATURES_OK: u8 = 8;
pub const VIRTIO_STATUS_FAILED: u8 = 128;
/// The only feature the driver asks for (bit 32, VERSION_1).
pub const VIRTIO_F_VERSION_1: u64 = 0x1_0000_0000;
pub const VIRTIO_PCI_CAP_COMMON_CFG: u8 = 1;
pub const VIRTIO_PCI_CAP_NOTIFY_CFG: u8 = 2;
pub const VIRTIO_PCI_CAP_ISR_CFG: u8 = 3;
pub const VIRTIO_PCI_CAP_DEVICE_CFG: u8 = 4;
/// Most capabilities followed in the list.
pub const MAX_CAP_STEPS: u32 = 64;
/// Size of a PCI configuration space.
pub const PCI_CONFIG_SIZE: usize = 256;

/// The byte at `o` of a configuration space.
pub open spec fn cfg8(c: Seq<u8>, o: u8) -> u8 {
    c[o as int]
}

/// The configuration word holding offset `o` (read on a 4-byte boundary).
pub open spec fn cfg32(c: Seq<u8>, o: u8) -> u32 {
    get32(c, (o & 0xFC) as int)
}

fn read_cfg8(c: &[u8], o: u8) -> (r: u8)
    requires
        c@.len() == PCI_CONFIG_SIZE,
    ensures
        r == cfg8(c@, o),
{
    c[o as usize]
}

fn read_cfg32(c: &[u8], o: u8) -> (r: u32)
    requires
        c@.len() == PCI_CONFIG_SIZE,
    ensures
        r == cfg32(c@, o),
{
    assert(o & 0xFC <= 252) by (bit_vector);
    read32(c, (o & 0xFC) as usize)
}

/// The address held in base-address register `i` (0 to 5): the low word
/// without its flag bits, with the next word above it for a 64-bit BAR.
pub open spec fn bar_value(c: Seq<u8>, i: u8) -> u64 {
    let low = cfg32(c, (0x10 + i * 4) as u8);
    if low & 0x04 != 0 {
        ((cfg32(c, (0x10 + i * 4 + 4) as u8) as u64) << 32u64) | ((low & !0xFu32) as u64)
    } else {
        (low & !0xFu32) as u64
    }
}

/// Base-address register `bar_index` of a configuration space.
pub fn read_bar(c: &[u8], bar_index: u8) -> (a: u64)
    requires
        c@.len() == PCI_CONFIG_SIZE,
        bar_index < 6,
    ensures
        a == bar_value(c@, bar_index),
{
    let offset = crate::pci::bar_offset(bar_index);
    let low = read_cfg32(c, offset);
    let high = read_cfg32(c, offset + 4);
    crate::pci::bar_address(low, high)
}

/// Where the device's configuration structures are, and the notify
/// stride.
#[derive(Clone, Copy, PartialEq, Eq, Structural)]
pub struct VirtioCapabilities {
    pub common_bar_addr: u64,
    pub notify_bar_addr: u64,
    pub device_bar_addr: u64,
    pub isr_bar_addr: u64,
    pub notify_off_multiplier: u32,
}

/// No structure found yet.
pub open spec fn no_caps() -> VirtioCapabilities {
    VirtioCapabilities { common_bar_addr: 0, notify_bar_addr: 0, device_bar_addr: 0, isr_bar_addr: 0, notify_off_multiplier: 0 }
}

/// What one vendor capability at `p` adds to `caps`: the address of the
/// structure it locates (its BAR's address plus its offset), by its type,
/// and for the notify structure the stride; a BAR index of 6 or more, or a
/// BAR holding 0, adds nothing.
pub open spec fn cap_update(c: Seq<u8>, p: u8, caps: VirtioCapabilities) -> VirtioCapabilities {
    let cfg_type = cfg8(c, p.wrapping_add(3));
    let bar = cfg8(c, p.wrapping_add(4));
    let offset = cfg32(c, p.wrapping_add(8));
    if bar >= 6 || bar_value(c, bar) == 0 {
        caps
    } else {
        let addr = bar_value(c, bar).wrapping_add(offset as u64);
        if cfg_type == VIRTIO_PCI_CAP_COMMON_CFG {
            VirtioCapabilities { common_bar_addr: addr, ..caps }
        } else if cfg_type == VIRTIO_PCI_CAP_NOTIFY_CFG {
            VirtioCapabilities { notify_bar_addr: addr, notify_off_multiplier: cfg32(c, p.wrapping_add(16)), ..caps }
        } else if cfg_type == VIRTIO_PCI_CAP_DEVICE_CFG {
            VirtioCapabilities { device_bar_addr: addr, ..caps }
        } else if cfg_type == VIRTIO_PCI_CAP_ISR_CFG {
            VirtioCapabilities { isr_bar_addr: addr, ..caps }
        } else {
            caps
        }
    }
}

/// The walk along the capability list from `p`, after `steps` steps: it
/// stops at a pointer of 0 or 0xFF or after 64 capabilities, and takes in
/// every vendor-specific one (id 9).
pub open spec fn cap_walk(c: Seq<u8>, p: u8, steps: u32, caps: VirtioCapabilities) -> VirtioCapabilities
    decreases MAX_CAP_STEPS - steps,
{
    if p == 0 || p == 0xFF || steps >= MAX_CAP_STEPS {
        caps
    } else {
        let next = cfg8(c, p.wrapping_add(1));
        let caps2 = if cfg8(c, p) == 0x09 { cap_update(c, p, caps) } else { caps };
        cap_walk(c, next, (steps + 1) as u32, caps2)
    }
}

fn apply_cap(c: &[u8], p: u8, caps: VirtioCapabilities) -> (r: VirtioCapabilities)
    requires
        c@.len() == PCI_CONFIG_SIZE,
    ensures
        r == cap_update(c@, p, caps),
{
    let cfg_type = read_cfg8(c, p.wrapping_add(3));
    let bar = read_cfg8(c, p.wrapping_add(4));
    let offset = read_cfg32(c, p.wrapping_add(8));
    if bar >= 6 {
        return caps;
    }
    let bar_addr = read_bar(c, bar);
    if bar_addr == 0 {
        return caps;
    }
    let addr = bar_addr.wrapping_add(offset as u64);
    let mut out = caps;
    if cfg_type == VIRTIO_PCI_CAP_COMMON_CFG {
        out.common_bar_addr = addr;
    } else if cfg_type == VIRTIO_PCI_CAP_NOTIFY_CFG {
        out.notify_bar_addr = addr;
        out.notify_off_multiplier = read_cfg32(c, p.wrapping_add(16));
    } else if cfg_type == VIRTIO_PCI_CAP_DEVICE_CFG {
        out.device_bar_addr = addr;
    } else if cfg_type == VIRTIO_PCI_CAP_ISR_CFG {
        out.isr_bar_addr = addr;
    }
    out
}

/// What the capability list of a configuration space gives: an error when
/// it has no list or no common configuration structure.
pub open spec fn capabilities_spec(c: Seq<u8>) -> Result<VirtioCapabilities, &'static str> {
    let first = cfg8(c, 0x34);
    if first == 0 || first == 0xFF {
        Err("No capability list")
    } else {
        let caps = cap_walk(c, first, 0, no_caps());
        if caps.common_bar_addr == 0 {
            Err("Common config not found")
        } else {
            Ok(caps)
        }
    }
}

/// Follows the capability list of the configuration space `c` (its 256
/// bytes) and collects where the virtio structures are.
pub fn parse_capabilities(c: &[u8]) -> (r: Result<VirtioCapabilities, &'static str>)
    requires
        c@.len() == PCI_CONFIG_SIZE,
    ensures
        match (r, capabilities_spec(c@)) {
            (Ok(a), Ok(b)) => a == b,
            (Err(e), Err(f)) => e@ == f@,
            _ => false,
        },
{
    let mut p = read_cfg8(c, 0x34);
    if p == 0 || p == 0xFF {
        return Err("No capability list");
    }
    let mut caps = VirtioCapabilities { common_bar_addr: 0, notify_bar_addr: 0, device_bar_addr: 0, isr_bar_addr: 0, notify_off_multiplier: 0 };
    let mut steps: u32 = 0;
    while p != 0 && p != 0xFF && steps < MAX_CAP_STEPS
        invariant
            c@.len() == PCI_CONFIG_SIZE,
            steps <= MAX_CAP_STEPS,
            cap_walk(c@, p, steps, caps) == cap_walk(c@, cfg8(c@, 0x34), 0, no_caps()),
        decreases MAX_CAP_STEPS - steps,
    {
        let next = read_cfg8(c, p.wrapping_add(1));
        if read_cfg8(c, p) == 0x09 {
            caps = apply_cap(c, p, caps);
        }
        steps = steps + 1;
        p = next;
    }
    if caps.common_bar_addr == 0 {
        return Err("Common config not found");
    }
    Ok(caps)
}

/// The queue size the driver uses: the device's maximum, at most 128,
/// halved until the whole queue fits in one page; refused when the device
/// offers no queue or when even 16 entries do not fit.
pub open spec fn queue_fits(q: int) -> bool {
    crate::virtqueue::align_up(18 * q + 6, 4) + 6 + 8 * q <= PAGE_SIZE
}

pub fn choose_queue_size(max_queue_size: u16) -> (r: Result<u16, &'static str>)
    ensures
        max_queue_size == 0 ==> (r matches Err(e) && e@ == "Queue not available"@),
        max_queue_size != 0 ==> (r matches Ok(q) && 0 < q <= 128 && q <= max_queue_size && queue_fits(q as int)),
{
    if max_queue_size == 0 {
        return Err("Queue not available");
    }
    let mut q: u16 = if max_queue_size < 128 { max_queue_size } else { 128 };
    loop
        invariant
            0 < q <= 128,
            q <= max_queue_size,
        decreases q,
    {
        let (_, _, used_offset) = Virtqueue::size_requirements(q);
        let used_size = 6 + 8 * q as usize;
        if used_offset + used_size <= PAGE_SIZE {
            return Ok(q);
        }
        if q <= 16 {
            return Err("Cannot fit queue in one page");
        }
        q = q / 2;
    }
}

/// The two words written to the driver-feature register (low, high): the
/// VERSION_1 feature alone.
pub fn driver_feature_words() -> (r: (u32, u32))
    ensures
        r == (0u32, 1u32),
{
    assert(0x1_0000_0000u64 & 0xFFFF_FFFF == 0 && 0x1_0000_0000u64 >> 32 == 1) by (bit_vector);
    ((VIRTIO_F_VERSION_1 & 0xFFFF_FFFF) as u32, (VIRTIO_F_VERSION_1 >> 32) as u32)
}

/// Whether the device accepted the features (FEATURES_OK reads back set).
pub fn features_accepted(status: u8) -> (b: bool)
    ensures
        b == (status & VIRTIO_STATUS_FEATURES_OK != 0),
{
    status & VIRTIO_STATUS_FEATURES_OK != 0
}

/// What a status read after setting DRIVER_OK says.
#[derive(Clone, Copy, PartialEq, Eq, Structural)]
pub enum DriverOkPoll {
    /// The device set FAILED.
    Failed,
    /// DRIVER_OK reads back set.
    Ready,
    /// Neither yet: read again.
    Waiting,
}

pub fn driver_ok_poll(status: u8) -> (p: DriverOkPoll)
    ensures
        status & VIRTIO_STATUS_FAILED != 0 ==> p == DriverOkPoll::Failed,
        status & VIRTIO_STATUS_FAILED == 0 && status & VIRTIO_STATUS_DRIVER_OK != 0 ==> p == DriverOkPoll::Ready,
        status & VIRTIO_STATUS_FAILED == 0 && status & VIRTIO_STATUS_DRIVER_OK == 0 ==> p == DriverOkPoll::Waiting,
{
    if status & VIRTIO_STATUS_FAILED != 0 {
        DriverOkPoll::Failed
    } else if status & VIRTIO_STATUS_DRIVER_OK != 0 {
        DriverOkPoll::Ready
    } else {
        DriverOkPoll::Waiting
    }
}

/// The block device's configuration structure.
#[derive(Clone, Copy)]
pub struct VirtioBlkConfig {
    pub capacity: u64,
    pub size_max: u32,
    pub seg_max: u32,
    pub geometry_cylinders: u16,
    pub geometry_heads: u8,
    pub geometry_sectors: u8,
    pub blk_size: u32,
}

impl VirtioBlkConfig {
    /// The structure from its bytes (24 of them).
    pub fn read(b: &[u8]) -> (r: Option<VirtioBlkConfig>)
        ensures
            r is Some <==> b@.len() >= 24,
            r matches Some(c) ==> c.capacity == get64(b@, 0) && c.size_max == get32(b@, 8) && c.seg_max == get32(
                b@,
                12,
            ) && c.geometry_cylinders == crate::bytes::get16(b@, 16) && c.geometry_heads == b@[18]
                && c.geometry_sectors == b@[19] && c.blk_size == get32(b@, 20),
    {
        if b.len() < 24 {
            return None;
        }
        Some(VirtioBlkConfig {
            capacity: read64(b, 0),
            size_max: read32(b, 8),
            seg_max: read32(b, 12),
            geometry_cylinders: crate::bytes::read16(b, 16),
            geometry_heads: b[18],
            geometry_sectors: b[19],
            blk_size: read32(b, 20),
        })
    }
}

/// The capacity the device reports, refused when it is 0.
pub fn check_capacity(capacity: u64) -> (r: Result<u64, &'static str>)
    ensures
        capacity == 0 ==> (r matches Err(e) && e@ == "Device reported zero capacity"@),
        capacity != 0 ==> r == Ok::<u64, &'static str>(capacity),
{
    if capacity == 0 {
        Err("Device reported zero capacity")
    } else {
        Ok(capacity)
    }
}

/// The 16-byte request header: type (read or write), a reserved word and
/// the sector.
pub open spec fn request_header(sector: u64, is_read: bool) -> Seq<u8> {
    le32(if is_read { VIRTIO_BLK_T_IN } else { VIRTIO_BLK_T_OUT }) + le32(0) + le64(sector)
}

pub fn blk_request(sector: u64, is_read: bool) -> (h: Vec<u8>)
    ensures
        h@ == request_header(sector, is_read),
{
    let mut h: Vec<u8> = Vec::new();
    push32(&mut h, if is_read { VIRTIO_BLK_T_IN } else { VIRTIO_BLK_T_OUT });
    push32(&mut h, 0);
    push64(&mut h, sector);
    assert(h@ =~= request_header(sector, is_read));
    h
}

/// The buffers of one request: the header (read by the device), the
/// sector's data (written by it on a read) and the status byte (written by
/// it).
pub fn io_buffers(header_phys: u64, data_phys: u64, status_phys: u64, is_read: bool) -> (b: Vec<(u64, u32, bool)>)
    ensures
        b@ == seq![(header_phys, 16u32, false), (data_phys, 512u32, is_read), (status_phys, 1u32, true)],
{
    let mut b: Vec<(u64, u32, bool)> = Vec::new();
    b.push((header_phys, 16u32, false));
    b.push((data_phys, 512u32, is_read));
    b.push((status_phys, 1u32, true));
    assert(b@ =~= seq![(header_phys, 16u32, false), (data_phys, 512u32, is_read), (status_phys, 1u32, true)]);
    b
}

/// What the device's status byte says of a finished request.
pub fn status_result(status: u8) -> (r: Result<(), &'static str>)
    ensures
        status_means(status, r),
{
    match status {
        0 => Ok(()),
        1 => Err("I/O error"),
        2 => Err("Unsupported operation"),
        _ => Err("Unknown error"),
    }
}

/// Capacity in MiB of a disk of `sectors` 512-byte sectors.
pub fn capacity_mb(sectors: u64) -> (mb: u64)
    requires
        sectors * 512 <= u64::MAX,
    ensures
        mb as int == (sectors as int * 512) / 1048576,
{
    (sectors * 512) / (1024 * 1024)
}

/// The block device as the driver keeps it: where its structures are
/// mapped, its request queue, its capacity and whether it is ready.
pub struct VirtioBlockDevice {
    pub pci_loc: PciLocation,
    pub common_cfg: usize,
    pub notify_base: usize,
    pub notify_off_multiplier: u32,
    pub device_cfg: usize,
    pub isr_cfg: usize,
    pub queue: Virtqueue,
    pub queue_notify_off: u16,
    pub capacity: u64,
    pub initialized: bool,
}

/// A request handed to the device and not yet finished.
#[derive(Clone, Copy, PartialEq, Eq, Structural)]
pub struct PendingIo {
    pub head: u16,
    pub is_read: bool,
}

impl VirtioBlockDevice {
    /// A device set up at the mapped addresses, with its queue, capacity
    /// and notify offset read, marked ready.
    pub fn new(
        pci_loc: PciLocation,
        caps: VirtioCapabilities,
        hhdm_offset: u64,
        queue: Virtqueue,
        queue_notify_off: u16,
        capacity: u64,
    ) -> (d: Self)
        ensures
            d.pci_loc == pci_loc,
            d.common_cfg == caps.common_bar_addr.wrapping_add(hhdm_offset) as usize,
            d.notify_base == caps.notify_bar_addr.wrapping_add(hhdm_offset) as usize,
            d.device_cfg == caps.device_bar_addr.wrapping_add(hhdm_offset) as usize,
            d.isr_cfg == caps.isr_bar_addr.wrapping_add(hhdm_offset) as usize,
            d.notify_off_multiplier == caps.notify_off_multiplier,
            d.queue == queue,
            d.queue_notify_off == queue_notify_off,
            d.capacity == capacity,
            d.initialized,
    {
        VirtioBlockDevice {
            pci_loc,
            common_cfg: caps.common_bar_addr.wrapping_add(hhdm_offset) as usize,
            notify_base: caps.notify_bar_addr.wrapping_add(hhdm_offset) as usize,
            notify_off_multiplier: caps.notify_off_multiplier,
            device_cfg: caps.device_bar_addr.wrapping_add(hhdm_offset) as usize,
            isr_cfg: caps.isr_bar_addr.wrapping_add(hhdm_offset) as usize,
            queue,
            queue_notify_off,
            capacity,
            initialized: true,
        }
    }

    /// The address written to notify the device of new requests.
    pub fn notify_address(&self) -> (a: usize)
        requires
            self.notify_base + self.queue_notify_off * self.notify_off_multiplier <= usize::MAX,
        ensures
            a == self.notify_base + self.queue_notify_off * self.notify_off_multiplier,
    {
        let stride = self.queue_notify_off as u64 * self.notify_off_multiplier as u64;
        assert(stride == self.queue_notify_off * self.notify_off_multiplier);
        self.notify_base + stride as usize
    }

    /// Refuses requests to a device that is not ready.
    pub fn check_ready(&self) -> (r: Result<(), &'static str>)
        ensures
            self.initialized ==> r is Ok,
            !self.initialized ==> (r matches Err(e) && e@ == "Device not initialized"@),
    {
        if self.initialized {
            Ok(())
        } else {
            Err("Device not initialized")
        }
    }

    /// Puts a request on the queue: a head descriptor and a chain over the
    /// header, data and status buffers at the given physical addresses.
    /// Refused when fewer than three descriptors are free or an address is
    /// null; the queue is then as it was (a head already taken is given
    /// back).
    pub fn submit(&mut self, header_phys: u64, data_phys: u64, status_phys: u64, is_read: bool) -> (r: Result<PendingIo, &'static str>)
        requires
            old(self).queue.wf(),
        ensures
            final(self).queue.wf(),
            *final(self) == (VirtioBlockDevice { queue: final(self).queue, ..*old(self) }),
            r is Ok <==> old(self).queue.free().len() >= 3 && header_phys != 0 && data_phys != 0 && status_phys != 0,
            old(self).queue.free().len() == 0 ==> (r matches Err(e) && e@ == "No free descriptors"@),
            old(self).queue.free().len() > 0 && (header_phys == 0 || data_phys == 0 || status_phys == 0)
                ==> (r matches Err(e) && e@ == "Invalid buffer"@),
            0 < old(self).queue.free().len() < 3 && header_phys != 0 && data_phys != 0 && status_phys != 0
                ==> (r matches Err(e) && e@ == "Out of descriptors"@),
            r is Err ==> final(self).queue.free_desc@ == old(self).queue.free_desc@
                && final(self).queue == (Virtqueue { free_desc: final(self).queue.free_desc, ..old(self).queue }),
            r matches Ok(p) ==> {
                let q = old(self).queue;
                let ids = q.free().subrange(0, 3);
                let bufs = seq![(header_phys, 16u32, false), (data_phys, 512u32, is_read), (status_phys, 1u32, true)];
                &&& p.is_read == is_read && p.head == q.free()[0]
                &&& final(self).queue.desc@ == chain_written(q.desc@, ids, bufs, 3)
                &&& forall|t: int| 0 <= t < QUEUE_SIZE ==> #[trigger] final(self).queue.free_desc@[t]
                    == (q.free_desc@[t] && t != ids[0] && t != ids[1] && t != ids[2])
                &&& final(self).queue.avail_ring@ == q.avail_ring@.update((q.next_avail_idx % QUEUE_SIZE) as int, p.head)
                &&& final(self).queue.avail_idx == q.avail_idx.wrapping_add(1)
                &&& final(self).queue.next_avail_idx == q.next_avail_idx.wrapping_add(1)
                &&& final(self).queue.queue_size == q.queue_size && final(self).queue.last_used_idx == q.last_used_idx
                &&& final(self).queue.avail_flags == q.avail_flags
                &&& final(self).queue.get_addresses_spec() == q.get_addresses_spec()
            },
    {
        let head = match self.queue.alloc_desc() {
            Some(h) => h,
            None => return Err("No free descriptors"),
        };
        let ghost q = old(self).queue;
        let ghost q1 = self.queue;
        proof {
            crate::virtqueue::lemma_alloc_shrinks_free(q.free_desc@, q.queue_size as int);
            crate::virtqueue::lemma_alloc_takes_first(q.free_desc@, q.queue_size as int);
            crate::virtqueue::lemma_free_list_bounds(q.free_desc@, q.queue_size as int);
            assert(q.free_desc@[head as int]);
        }
        let buffers = io_buffers(header_phys, data_phys, status_phys, is_read);
        proof {
            let b = buffers@;
            if header_phys == 0 || data_phys == 0 || status_phys == 0 {
                if header_phys == 0 { assert(b[0].0 == 0); }
                if data_phys == 0 { assert(b[1].0 == 0); }
                if status_phys == 0 { assert(b[2].0 == 0); }
            } else {
                assert forall|i: int| 0 <= i < b.len() implies (#[trigger] b[i]).1 != 0 && b[i].0 != 0 by {}
            }
        }
        match self.queue.add_buf(head, buffers.as_slice()) {
            Ok(()) => {
                proof {
                    let taken = q1.free().subrange(0, 2);
                    assert(seq![head] + taken =~= q.free().subrange(0, 3));
                    assert forall|t: int| 0 <= t < QUEUE_SIZE implies #[trigger] self.queue.free_desc@[t]
                        == (q.free_desc@[t] && t != q.free()[0] && t != q.free()[1] && t != q.free()[2]) by {
                        if exists|k: int| 0 <= k < 2 && q1.free()[k] == t {
                            let k = choose|k: int| 0 <= k < 2 && q1.free()[k] == t;
                            assert(q1.free()[k] == q.free()[k + 1]);
                        }
                        if t == q.free()[1] {
                            assert(q1.free()[0] == t);
                        }
                        if t == q.free()[2] {
                            assert(q1.free()[1] == t);
                        }
                    }
                }
                Ok(PendingIo { head, is_read })
            },
            Err(e) => {
                self.queue.free_desc(head);
                assert(self.queue.free_desc@ =~= q.free_desc@);
                Err(e)
            },
        }
    }

    /// Looks at the used ring once for `pending`: `None` when the device
    /// has not finished a request, or finished another one; else the
    /// request's result from its status byte. A finished request's chain
    /// goes back on the free list and the used index moves on by one.
    pub fn poll(&mut self, pending: PendingIo, used_idx: u16, elem: VirtqUsedElem, status: u8) -> (r: Option<Result<(), &'static str>>)
        requires
            old(self).queue.wf(),
            used_idx != old(self).queue.last_used_idx ==> chain_ends(old(self).queue.desc@, elem.id as u16, QUEUE_SIZE as nat),
        ensures
            final(self).queue.wf(),
            final(self).capacity == old(self).capacity,
            final(self).initialized == old(self).initialized,
            *final(self) == (VirtioBlockDevice { queue: final(self).queue, ..*old(self) }),
            used_idx == old(self).queue.last_used_idx ==> r is None && final(self).queue == old(self).queue,
            used_idx != old(self).queue.last_used_idx ==> {
                let q = old(self).queue;
                let nodes = chain_nodes(q.desc@, elem.id as u16, QUEUE_SIZE as nat);
                &&& final(self).queue.last_used_idx == q.last_used_idx.wrapping_add(1)
                &&& forall|t: int| 0 <= t < QUEUE_SIZE ==> #[trigger] final(self).queue.free_desc@[t]
                    == (q.free_desc@[t] || (t < q.queue_size && exists|k: int| 0 <= k < nodes.len() && nodes[k] == t))
                &&& final(self).queue == (Virtqueue { free_desc: final(self).queue.free_desc,
                    last_used_idx: final(self).queue.last_used_idx, ..q })
            },
            used_idx != old(self).queue.last_used_idx && elem.id as u16 != pending.head ==> r is None,
            used_idx != old(self).queue.last_used_idx && elem.id as u16 == pending.head ==> (r matches Some(res)
                && status_means(status, res)),
    {
        match self.queue.get_used(used_idx, elem) {
            Some((id, _len)) => {
                if id == pending.head {
                    Some(status_result(status))
                } else {
                    None
                }
            },
            None => None,
        }
    }

    pub fn capacity(&self) -> (c: u64)
        ensures
            c == self.capacity,
    {
        self.capacity
    }

    pub fn is_initialized(&self) -> (b: bool)
        ensures
            b == self.initialized,
    {
        self.initialized
    }
}

/// The result a status byte stands for: success for 0, else the error
/// it names.
pub open spec fn status_means(status: u8, r: Result<(), &'static str>) -> bool {
    if status == VIRTIO_BLK_S_OK {
        r is Ok
    } else if status == VIRTIO_BLK_S_IOERR {
        r matches Err(e) && e@ == "I/O error"@
    } else if status == VIRTIO_BLK_S_UNSUPP {
        r matches Err(e) && e@ == "Unsupported operation"@
    } else {
        r matches Err(e) && e@ == "Unknown error"@
    }
}

} // verus!
