use astral_kernel::pic::{clear_mask_value, eoi_ports, init_sequence, mask_port, pit_divisor, pit_program, set_mask_value};
use astral_kernel::acpi::{
    find_table_entry, parse_madt, parse_rsdp, parse_rsdt, parse_xsdt, search_rsdp_offset, use_xsdt, MadtEntryType,
    SdtHeader,
};
use astral_kernel::apic::{
    apic_enable_value, mode_after_enable, x2apic_ipi_icr, xapic_ipi_icr, ApicId, ApicMode, IoApic, IpiDestination,
};
use astral_kernel::cpu::{CpuFeatures, CpuId, CpuTable};
use astral_kernel::mouse::MouseState;
use astral_kernel::pci::{bar_address, config_field16, config_merge16, pci_config_address, scan_step, ScanStep};
use astral_kernel::rtc::{bcd_to_binary, datetime_from_registers, format_time, DateTime};
use astral_kernel::serial::SerialPort;
use astral_kernel::tss::{get_tss_size, tss_bytes, TaskStateSegment};
use astral_kernel::pci::PciLocation;
use astral_kernel::virtio_blk::{
    blk_request, capacity_mb, check_capacity, choose_queue_size, driver_ok_poll, parse_capabilities, status_result,
    DriverOkPoll, PendingIo, VirtioBlockDevice, VirtioCapabilities,
};
use astral_kernel::virtqueue::{VirtqUsedElem, Virtqueue};

fn le32(v: u32) -> [u8; 4] {
    v.to_le_bytes()
}

fn madt_table(entries: &[u8]) -> Vec<u8> {
    let mut t = vec![0u8; 44];
    t[0..4].copy_from_slice(b"APIC");
    let len = (44 + entries.len()) as u32;
    t[4..8].copy_from_slice(&le32(len));
    t[36..40].copy_from_slice(&le32(0xFEE0_0000));
    t.extend_from_slice(entries);
    t
}

#[test]
fn madt_lists_enabled_processors_and_ioapic() {
    let mut e = Vec::new();
    e.extend_from_slice(&[0, 8, 0, 0]);
    e.extend_from_slice(&le32(1));
    e.extend_from_slice(&[0, 8, 1, 1]);
    e.extend_from_slice(&le32(0));
    e.extend_from_slice(&[0, 8, 2, 3]);
    e.extend_from_slice(&le32(1));
    e.extend_from_slice(&[1, 12, 9, 0]);
    e.extend_from_slice(&le32(0xFEC0_0000));
    e.extend_from_slice(&le32(0));
    e.extend_from_slice(&[9, 16, 0, 0]);
    e.extend_from_slice(&le32(0x100));
    e.extend_from_slice(&le32(1));
    e.extend_from_slice(&le32(7));
    let info = parse_madt(&madt_table(&e)).expect("well-formed MADT");
    assert_eq!(info.local_apic_addr, 0xFEE0_0000);
    assert_eq!(info.local_apics, vec![0, 3, 0x100]);
    assert_eq!(info.ioapic_addr, 0xFEC0_0000);
    assert_eq!(info.ioapic_gsi_base, 0);
}

#[test]
fn madt_refuses_zero_length_entry_and_short_table() {
    assert!(parse_madt(&madt_table(&[0, 0, 0, 0, 1, 0, 0, 0])).is_none());
    assert!(parse_madt(&[0u8; 20]).is_none());
    let mut t = madt_table(&[]);
    t[4..8].copy_from_slice(&le32(200));
    assert!(parse_madt(&t).is_none());
}

#[test]
fn madt_entry_kinds() {
    assert!(MadtEntryType::from_u8(0) == Some(MadtEntryType::LocalApic));
    assert!(MadtEntryType::from_u8(9) == Some(MadtEntryType::X2Apic));
    assert!(MadtEntryType::from_u8(3).is_none());
}

#[test]
fn rsdp_search_and_parse() {
    let mut region = vec![0u8; 64];
    region[8..16].copy_from_slice(b"RSD PTR ");
    region[40..48].copy_from_slice(b"RSD PTR ");
    assert_eq!(search_rsdp_offset(&region), None);
    region[32..40].copy_from_slice(b"RSD PTR ");
    assert_eq!(search_rsdp_offset(&region), Some(32));
    let mut rsdp = vec![0u8; 36];
    rsdp[15] = 2;
    rsdp[16..20].copy_from_slice(&le32(0x1000));
    rsdp[24..32].copy_from_slice(&0x2000u64.to_le_bytes());
    let p = parse_rsdp(&rsdp).unwrap();
    assert_eq!((p.revision, p.rsdt_address, p.xsdt_address), (2, 0x1000, 0x2000));
    assert!(use_xsdt(&p));
    assert!(parse_rsdp(&rsdp[..20]).is_none());
}

#[test]
fn root_tables_and_lookup() {
    let mut x = vec![0u8; 36];
    x[4..8].copy_from_slice(&le32(36 + 16));
    x.extend_from_slice(&0x5000u64.to_le_bytes());
    x.extend_from_slice(&0x6000u64.to_le_bytes());
    assert_eq!(parse_xsdt(&x), Some(vec![0x5000, 0x6000]));
    let mut r = vec![0u8; 36];
    r[4..8].copy_from_slice(&le32(36 + 4));
    r.extend_from_slice(&le32(0x7000));
    assert_eq!(parse_rsdt(&r), Some(vec![0x7000]));
    r[4..8].copy_from_slice(&le32(20));
    assert_eq!(parse_rsdt(&r), None);
    let sigs = vec![b"FACP".to_vec(), b"APIC".to_vec(), b"APIC".to_vec()];
    assert_eq!(find_table_entry(&[0x10, 0, 0x30], &sigs, b"APIC"), Some(0x30));
    assert_eq!(find_table_entry(&[0x10, 0x20, 0x30], &sigs, b"APIC"), Some(0x20));
    assert_eq!(find_table_entry(&[0x10, 0x20, 0x30], &sigs, b"HPET"), None);
    let h = SdtHeader::read(&x, 0).unwrap();
    assert_eq!(h.length, 52);
}

#[test]
fn cpu_features_from_cpuid() {
    let f = CpuFeatures::detect((1 << 21) | 1, (1 << 9) | (1 << 25), 1 << 5);
    assert!(f.apic && f.x2apic && f.sse && f.sse3 && f.avx2);
    assert!(!f.tsc && !f.avx && !f.sse2);
}

#[test]
fn cpu_table_registration_and_online_list() {
    let mut t = CpuTable::new();
    let none = CpuFeatures::detect(0, 0, 0);
    let bsp = t.init_bsp(0, none, Some(0x9000));
    assert_eq!(bsp.as_u8(), 0);
    assert!(t.is_bsp(CpuId::new(0)));
    let ap = t.register_ap(4, none, None).unwrap();
    assert_eq!(ap.as_usize(), 1);
    assert_eq!(t.get_cpu_count(), 2);
    let d = t.get_cpu_data(ap).unwrap();
    assert_eq!(d.info.apic_id, 4);
    assert!(d.info.online && !d.info.bsp);
    let online: Vec<u8> = t.online_cpu_list().iter().map(|c| c.as_u8()).collect();
    assert_eq!(online, vec![0, 1]);
    t.preempt_disable(ap);
    assert!(t.preempt_disabled(ap));
    t.preempt_enable(ap);
    assert!(!t.preempt_disabled(ap));
    t.preempt_enable(ap);
    assert!(!t.preempt_disabled(ap));
}

#[test]
fn apic_command_values() {
    assert_eq!(x2apic_ipi_icr(IpiDestination::Single(ApicId::new(3)), 0x40), 0x0000_0003_0000_4040);
    assert_eq!(x2apic_ipi_icr(IpiDestination::AllExceptSelf, 0x20), 0xC4020);
    let (high, low) = xapic_ipi_icr(IpiDestination::Single(ApicId::new(2)), 0x30);
    assert_eq!(high, Some(0x0200_0000));
    assert_eq!(low, 0x4030);
    assert_eq!(apic_enable_value(0xFEE0_0000, true), 0xFEE0_0C00);
    assert!(mode_after_enable(true, 0x400) == ApicMode::X2Apic);
    assert!(mode_after_enable(true, 0) == ApicMode::XApic);
    assert_eq!(IoApic::redirection_register(1), 0x12);
    assert_eq!(IoApic::redirection_entry(33, 0), (33, 0));
    assert_eq!(IoApic::unmasked(IoApic::masked(33)), 33);
    assert_eq!(IoApic::max_entries(0x0017_0020), 24);
}

#[test]
fn tss_layout() {
    let mut t = TaskStateSegment::new();
    assert_eq!(t.iomap_base, 104);
    assert_eq!(get_tss_size(), 104);
    t.set_kernel_stack(0xFFFF_8000_0001_0000);
    t.set_ist(1, 0x1234);
    t.set_ist(9, 0x5678);
    assert_eq!(t.get_kernel_stack(), 0xFFFF_8000_0001_0000);
    assert_eq!(t.ist1, 0x1234);
    let b = tss_bytes(&t);
    assert_eq!(b.len(), 104);
    assert_eq!(&b[4..12], &0xFFFF_8000_0001_0000u64.to_le_bytes());
    assert_eq!(&b[36..44], &0x1234u64.to_le_bytes());
    assert_eq!(&b[102..104], &104u16.to_le_bytes());
}

#[test]
fn rtc_decoding_and_clock_text() {
    assert_eq!(bcd_to_binary(0x59), 59);
    let dt = datetime_from_registers(0x30, 0x05, 0x09, 0x31, 0x12, 0x24, 0x02);
    assert!(dt == DateTime { year: 2024, month: 12, day: 31, hour: 9, minute: 5, second: 30 });
    let bin = datetime_from_registers(30, 5, 21, 1, 1, 25, 0x04);
    assert_eq!((bin.hour, bin.minute, bin.year), (21, 5, 2025));
    assert_eq!(format_time(&dt), "09:05");
    assert_eq!(format_time(&bin), "21:05");
}

#[test]
fn mouse_packets_move_pointer() {
    let mut m = MouseState::new();
    m.init(800, 600);
    assert_eq!(m.get_position(), (400, 300));
    m.handle_byte(0x00);
    assert_eq!(m.get_position(), (400, 300));
    m.handle_byte(0x09);
    m.handle_byte(10);
    m.handle_byte(5);
    assert_eq!(m.get_position(), (410, 295));
    assert!(m.is_left_pressed());
    m.handle_byte(0x18);
    m.handle_byte(0);
    m.handle_byte(0);
    assert_eq!(m.get_position(), (154, 295));
    assert!(!m.is_left_pressed());
    for _ in 0..10 {
        m.handle_byte(0x18);
        m.handle_byte(0);
        m.handle_byte(0);
    }
    assert_eq!(m.get_position(), (0, 295));
}

#[test]
fn pci_config_words() {
    assert_eq!(pci_config_address(0, 3, 1, 0x06), 0x8000_1904);
    assert_eq!(config_field16(0x1042_1AF4, 0x00), 0x1AF4);
    assert_eq!(config_field16(0x1042_1AF4, 0x02), 0x1042);
    assert_eq!(config_merge16(0x0000_0000, 0x06, 0xBEEF), 0xBEEF_0000);
    assert_eq!(bar_address(0xFEB0_0004, 0x1), 0x1_FEB0_0000);
    assert_eq!(bar_address(0xFEB0_0001, 0x1), 0xFEB0_0000);
    assert!(scan_step(0, 0xFFFF, 0) == ScanStep::NextDevice);
    assert!(scan_step(1, 0xFFFF, 0) == ScanStep::NextFunction);
    assert!(scan_step(0, 0x1AF4, 0x1042) == ScanStep::Found);
}

#[test]
fn serial_line_endings() {
    let p = SerialPort::new(0x3F8);
    assert_eq!(SerialPort::write_bytes("a\nb"), b"a\r\nb".to_vec());
    assert_eq!(p.init_writes()[0], (0x3F9, 0));
    assert_eq!(p.line_status_port(), 0x3FD);
    assert!(SerialPort::transmit_ready(0x20));
}

fn config_with_caps() -> Vec<u8> {
    let mut c = vec![0u8; 256];
    c[0x34] = 0x40;
    c[0x10..0x14].copy_from_slice(&le32(0xFE00_0004));
    c[0x14..0x18].copy_from_slice(&le32(0));
    let caps: [(u8, u8, u8); 3] = [(0x40, 1, 0x60), (0x60, 2, 0x80), (0x80, 4, 0)];
    for (at, ty, next) in caps {
        let a = at as usize;
        c[a] = 0x09;
        c[a + 1] = next;
        c[a + 3] = ty;
        c[a + 4] = 0;
        c[a + 8..a + 12].copy_from_slice(&le32(0x1000 * ty as u32));
    }
    c[0x60 + 16..0x60 + 20].copy_from_slice(&le32(4));
    c
}

#[test]
fn virtio_capability_walk() {
    let caps = parse_capabilities(&config_with_caps()).unwrap();
    assert_eq!(caps.common_bar_addr, 0xFE00_1000);
    assert_eq!(caps.notify_bar_addr, 0xFE00_2000);
    assert_eq!(caps.device_bar_addr, 0xFE00_4000);
    assert_eq!(caps.isr_bar_addr, 0);
    assert_eq!(caps.notify_off_multiplier, 4);
    let mut none = vec![0u8; 256];
    assert_eq!(parse_capabilities(&none).err(), Some("No capability list"));
    none[0x34] = 0x40;
    assert_eq!(parse_capabilities(&none).err(), Some("Common config not found"));
}

#[test]
fn virtio_setup_decisions() {
    assert_eq!(choose_queue_size(0).err(), Some("Queue not available"));
    assert_eq!(choose_queue_size(256), Ok(128));
    assert_eq!(choose_queue_size(64), Ok(64));
    assert!(driver_ok_poll(0x80) == DriverOkPoll::Failed);
    assert!(driver_ok_poll(0x04) == DriverOkPoll::Ready);
    assert!(driver_ok_poll(0x03) == DriverOkPoll::Waiting);
    assert_eq!(check_capacity(0).err(), Some("Device reported zero capacity"));
    assert_eq!(capacity_mb(2048 * 64), 64);
    let h = blk_request(5, true);
    assert_eq!(h, vec![0, 0, 0, 0, 0, 0, 0, 0, 5, 0, 0, 0, 0, 0, 0, 0]);
    assert_eq!(blk_request(1, false)[0], 1);
    assert_eq!(status_result(0), Ok(()));
    assert_eq!(status_result(1), Err("I/O error"));
    assert_eq!(status_result(2), Err("Unsupported operation"));
    assert_eq!(status_result(9), Err("Unknown error"));
}

#[test]
fn virtio_request_round() {
    let q = Virtqueue::new(0x10_0000, 128).ok().unwrap();
    let caps = VirtioCapabilities { common_bar_addr: 0x1000, notify_bar_addr: 0x2000, device_bar_addr: 0x3000, isr_bar_addr: 0, notify_off_multiplier: 4 };
    let mut dev = VirtioBlockDevice::new(PciLocation::new(0, 4, 0), caps, 0x100, q, 2, 4096);
    assert!(dev.check_ready().is_ok());
    assert_eq!(dev.notify_address(), 0x2100 + 8);
    let p = dev.submit(0xA000, 0xB000, 0xC000, true).unwrap();
    assert!(p == PendingIo { head: 0, is_read: true });
    assert!(dev.poll(p, 0, VirtqUsedElem { id: 0, len: 0 }, 0).is_none());
    assert_eq!(dev.poll(p, 1, VirtqUsedElem { id: 0, len: 513 }, 0), Some(Ok(())));
    assert_eq!(dev.submit(0, 0xB000, 0xC000, false).err(), Some("Invalid buffer"));
}

#[test]
fn pic_and_pit_programming() {
    let w = init_sequence(32, 40, 0xFB, 0xFF);
    assert_eq!(w.len(), 18);
    assert_eq!(w[0], (0x20, 0x11));
    assert_eq!(w[4], (0x21, 32));
    assert_eq!(w[6], (0xA1, 40));
    assert_eq!(w[17], (0xA1, 0xFF));
    assert_eq!(mask_port(1), 0x21);
    assert_eq!(mask_port(12), 0xA1);
    assert_eq!(set_mask_value(0x00, 12), 0x10);
    assert_eq!(clear_mask_value(0xFF, 1), 0xFD);
    assert_eq!(eoi_ports(3), vec![0x20]);
    assert_eq!(eoi_ports(9), vec![0xA0, 0x20]);
    assert_eq!(pit_divisor(100), 11931);
    assert_eq!(pit_program(100), vec![(0x43, 0x36), (0x40, 0x9B), (0x40, 0x2E)]);
}

#[test]
fn per_cpu_slot_starts_empty() {
    let d = astral_kernel::cpu::PerCpuData::new();
    assert_eq!(d.info.id.0, 0);
    assert!(!d.info.online && !d.info.bsp);
    assert!(!d.info.features.apic && !d.info.features.sse2 && !d.info.features.avx);
    assert_eq!((d.kernel_stack, d.user_stack, d.tss_rsp0, d.current_pid, d.idle_ticks, d.preempt_disable), (0, 0, 0, 0, 0, 0));
}

#[test]
fn virtio_submit_fills_queue_and_poll_frees_chain() {
    let q = Virtqueue::new(0x10_0000, 128).ok().unwrap();
    let caps = VirtioCapabilities { common_bar_addr: 0x1000, notify_bar_addr: 0x2000, device_bar_addr: 0x3000, isr_bar_addr: 0, notify_off_multiplier: 4 };
    let mut dev = VirtioBlockDevice::new(PciLocation::new(0, 4, 0), caps, 0, q, 0, 8);
    let p = dev.submit(0xA000, 0xB000, 0xC000, false).unwrap();
    assert_eq!(p.head, 0);
    assert_eq!(dev.queue.avail_idx, 1);
    assert_eq!(dev.queue.next_avail_idx, 1);
    assert_eq!(dev.queue.avail_ring[0], 0);
    assert_eq!((dev.queue.desc[0].addr, dev.queue.desc[0].len, dev.queue.desc[0].next), (0xA000, 16, 1));
    assert_eq!((dev.queue.desc[1].addr, dev.queue.desc[1].len, dev.queue.desc[1].flags), (0xB000, 512, 1));
    assert_eq!((dev.queue.desc[2].addr, dev.queue.desc[2].len, dev.queue.desc[2].flags), (0xC000, 1, 2));
    assert!(!dev.queue.free_desc[0] && !dev.queue.free_desc[1] && !dev.queue.free_desc[2] && dev.queue.free_desc[3]);
    assert!(dev.queue.chain_ok(0));
    assert_eq!(dev.poll(p, 1, VirtqUsedElem { id: 0, len: 1 }, 1), Some(Err("I/O error")));
    assert_eq!(dev.queue.last_used_idx, 1);
    assert!(dev.queue.free_desc[0] && dev.queue.free_desc[1] && dev.queue.free_desc[2]);
    assert_eq!(dev.submit(0xA000, 0, 0xC000, true).err(), Some("Invalid buffer"));
    assert!(dev.queue.free_desc[0]);
    assert_eq!(dev.queue.avail_idx, 1);
}
