use edgecore_kernel::boot::{acpi_table_kind, madt_walk_ok, parse_madt, rsdp_signature_ok, xsdt_entry_count, AcpiTable, MadtInfo};
use edgecore_kernel::frame_allocator::{BitmapAllocator, UefiMemoryDescriptor, CONVENTIONAL_MEMORY, MAX_FRAMES, PAGE_SIZE};
use edgecore_kernel::hda::{hda_reset_step, HdaReset, IntelHda, HDA_RESET_LIMIT};
use edgecore_kernel::interrupts::{
    apic_routing_enabled, end_of_interrupt_address, keyboard_redirection, scancode_action, spurious_vector,
    KeyAction,
};
use edgecore_kernel::loader::{
    elf_image_readable, find_config_address, kernel_load_plan, memory_map_buffer_size, segments_to_copy, ConfigEntry,
    ElfSegment,
};
use edgecore_kernel::memory::{entry_address, entry_frame, leaf_entry, map_step, walk_step, WalkStep};
use edgecore_kernel::mmio::{next_wait, reg, reg32, register_address, RegWrite};
use edgecore_kernel::pcie::{
    bar_address, bar_address_64, bar_is_64bit, class_and_subclass, config_address, discover, enable_bus_master,
    get_device_type, is_e1000, is_nvme, is_present, is_xhci, mac_from_receive_address, vendor_and_device,
    Discovered, PciFunction,
};
use edgecore_kernel::smp::{
    ap_gdt, ap_gdt_pointer, ap_stack_top, cr0_without_write_protect, directory_entry, low_identity_entry,
    low_map_step, needs_low_identity_map, trampoline_image, LowMapStep, INIT_IPI, STARTUP_IPI,
};
use edgecore_kernel::syscall::{
    decode_syscall, enable_syscall_extensions, print_text, star_value, text_of, SyscallRequest, ERROR_COLOR, PRINT_ERROR,
};
use std::collections::HashMap;

fn conventional(start: u64, pages: u64) -> UefiMemoryDescriptor {
    UefiMemoryDescriptor {
        ty: CONVENTIONAL_MEMORY,
        pad: 0,
        physical_start: start,
        virtual_start: 0,
        number_of_pages: pages,
        attribute: 0,
    }
}

#[test]
fn rsdp_signature_accepts_text() {
    assert!(rsdp_signature_ok(b"RSD PTR "));
}

#[test]
fn rsdp_signature_rejects_invalid_utf8() {
    assert!(!rsdp_signature_ok(&[0x52, 0x53, 0x44, 0xFF, 0x50, 0x54, 0x52, 0x20]));
    assert!(!rsdp_signature_ok(&[0xC3, 0x28, 0, 0, 0, 0, 0, 0]));
}

#[test]
fn xsdt_counts_pointers_after_header() {
    assert_eq!(xsdt_entry_count(36), 0);
    assert_eq!(xsdt_entry_count(36 + 5 * 8), 5);
    assert_eq!(xsdt_entry_count(36 + 5 * 8 + 7), 5);
}

#[test]
fn acpi_tables_are_classified_by_signature() {
    assert_eq!(acpi_table_kind(b"MCFG"), AcpiTable::Mcfg);
    assert_eq!(acpi_table_kind(b"APIC"), AcpiTable::Madt);
    assert_eq!(acpi_table_kind(b"FACP"), AcpiTable::Other);
    assert_eq!(acpi_table_kind(b"mcfg"), AcpiTable::Other);
}

fn madt_with_entries(entries: &[Vec<u8>]) -> Vec<u8> {
    let mut t = vec![0u8; 0x2C];
    t[0..4].copy_from_slice(b"APIC");
    t[0x24..0x28].copy_from_slice(&0xFEE0_0000u32.to_le_bytes());
    for e in entries {
        t.extend_from_slice(e);
    }
    let len = t.len() as u32;
    t[4..8].copy_from_slice(&len.to_le_bytes());
    t
}

#[test]
fn madt_gives_local_apic_and_last_ioapic() {
    let local = vec![0u8, 8, 0, 0, 1, 0, 0, 0];
    let mut io1 = vec![1u8, 12, 0, 0];
    io1.extend_from_slice(&0xFEC0_0000u32.to_le_bytes());
    io1.extend_from_slice(&[0, 0, 0, 0]);
    let mut io2 = vec![1u8, 12, 1, 0];
    io2.extend_from_slice(&0xFEC1_0000u32.to_le_bytes());
    io2.extend_from_slice(&[0, 0, 0, 0]);
    let t = madt_with_entries(&[local.clone(), io1, local, io2]);
    assert_eq!(parse_madt(&t), MadtInfo { local_apic_base: 0xFEE0_0000, ioapic_base: 0xFEC1_0000 });
}

#[test]
fn madt_without_ioapic_gives_zero() {
    let local = vec![0u8, 8, 0, 0, 1, 0, 0, 0];
    let t = madt_with_entries(&[local]);
    assert_eq!(parse_madt(&t), MadtInfo { local_apic_base: 0xFEE0_0000, ioapic_base: 0 });
}

#[test]
fn config_table_lookup_takes_first_match() {
    let acpi2 = [0x71u8, 0xE8, 0x68, 0x88, 0xF1, 0xE4, 0xD3, 0x11, 0xBC, 0x22, 0x00, 0x80, 0xC7, 0x3C, 0x88, 0x81];
    let other = [1u8; 16];
    let entries = [
        ConfigEntry { guid: other, address: 0x1000 },
        ConfigEntry { guid: acpi2, address: 0x7FE1_4000 },
        ConfigEntry { guid: acpi2, address: 0x5000 },
    ];
    assert_eq!(find_config_address(&entries, &acpi2), 0x7FE1_4000);
    assert_eq!(find_config_address(&entries[..1], &acpi2), 0);
    assert_eq!(find_config_address(&[], &acpi2), 0);
}

#[test]
fn memory_map_buffer_has_slack() {
    assert_eq!(memory_map_buffer_size(0x1800), 0x1800 + 4096);
    assert_eq!(memory_map_buffer_size(0), 4096);
}

#[test]
fn only_load_segments_are_copied() {
    let segs = [
        ElfSegment { loadable: false, offset: 0x40, file_size: 0x1C0, virtual_addr: 0x200040 },
        ElfSegment { loadable: true, offset: 0, file_size: 0x1000, virtual_addr: 0x200000 },
        ElfSegment { loadable: false, offset: 0, file_size: 0, virtual_addr: 0 },
        ElfSegment { loadable: true, offset: 0x1000, file_size: 0x2345, virtual_addr: 0x201000 },
    ];
    let copies = segments_to_copy(&segs);
    assert_eq!(copies, vec![segs[1], segs[3]]);
    assert!(segments_to_copy(&segs[..1]).is_empty());
}

fn program_header(kind: u32, offset: u64, vaddr: u64, size: u64) -> Vec<u8> {
    let mut h = Vec::new();
    h.extend_from_slice(&kind.to_le_bytes());
    h.extend_from_slice(&5u32.to_le_bytes());
    h.extend_from_slice(&offset.to_le_bytes());
    h.extend_from_slice(&vaddr.to_le_bytes());
    h.extend_from_slice(&vaddr.to_le_bytes());
    h.extend_from_slice(&size.to_le_bytes());
    h.extend_from_slice(&size.to_le_bytes());
    h.extend_from_slice(&0x1000u64.to_le_bytes());
    h
}

fn kernel_image(ph_offset: u64, ph_count: u16) -> Vec<u8> {
    let mut img = vec![0u8; 64];
    img[0..4].copy_from_slice(&[0x7F, b'E', b'L', b'F']);
    img[4] = 2;
    img[5] = 1;
    img[6] = 1;
    img[16..18].copy_from_slice(&2u16.to_le_bytes());
    img[18..20].copy_from_slice(&0x3Eu16.to_le_bytes());
    img[20..24].copy_from_slice(&1u32.to_le_bytes());
    img[24..32].copy_from_slice(&0x20_1234u64.to_le_bytes());
    img[32..40].copy_from_slice(&ph_offset.to_le_bytes());
    img[52..54].copy_from_slice(&64u16.to_le_bytes());
    img[54..56].copy_from_slice(&56u16.to_le_bytes());
    img[56..58].copy_from_slice(&ph_count.to_le_bytes());
    img.extend(program_header(4, 0x200, 0x20_0200, 0x20));
    img.extend(program_header(1, 0x1000, 0x20_1000, 0x500));
    img.extend(program_header(1, 0x2000, 0x20_3000, 0x80));
    img.resize(0x2080, 0xCC);
    img
}

#[test]
fn kernel_plan_takes_load_headers_and_entry() {
    let img = kernel_image(64, 3);
    assert!(elf_image_readable(&img));
    let (segments, entry) = kernel_load_plan(&img).unwrap();
    assert_eq!(entry, 0x20_1234);
    assert_eq!(
        segments,
        vec![
            ElfSegment { loadable: true, offset: 0x1000, file_size: 0x500, virtual_addr: 0x20_1000 },
            ElfSegment { loadable: true, offset: 0x2000, file_size: 0x80, virtual_addr: 0x20_3000 },
        ]
    );
    let (none, entry) = kernel_load_plan(&kernel_image(64, 0)).unwrap();
    assert!(none.is_empty());
    assert_eq!(entry, 0x20_1234);
}

#[test]
fn kernel_plan_refuses_bad_images() {
    let mut not_elf = kernel_image(64, 3);
    not_elf[1] = b'X';
    assert!(elf_image_readable(&not_elf));
    assert_eq!(kernel_load_plan(&not_elf), None);
    let misaligned = kernel_image(68, 3);
    assert!(!elf_image_readable(&misaligned));
    assert_eq!(kernel_load_plan(&misaligned), None);
    let beyond = kernel_image(0x2060, 3);
    assert!(!elf_image_readable(&beyond));
    assert_eq!(kernel_load_plan(&beyond), None);
    assert_eq!(kernel_load_plan(&[0x7F, b'E', b'L']), None);
}

#[test]
fn new_allocator_has_nothing_free() {
    let mut a = BitmapAllocator::new();
    assert_eq!(a.free_frame_count(), 0);
    assert_eq!(a.highest_frame(), 0);
    assert!(!a.is_frame_free(0));
    assert_eq!(a.allocate_frame(), None);
}

#[test]
fn init_marks_conventional_memory_free() {
    let mut a = BitmapAllocator::new();
    let reserved = UefiMemoryDescriptor { ty: 2, ..conventional(0, 16) };
    let descs = [conventional(0x10_0000, 4), reserved, conventional(0x20_0000, 2)];
    let total = a.init(&descs);
    assert_eq!(total, 6);
    assert_eq!(a.free_frame_count(), 6);
    assert_eq!(a.highest_frame(), 0x201);
    for f in 0x100..0x104 {
        assert!(a.is_frame_free(f));
    }
    assert!(!a.is_frame_free(0x104));
    assert!(!a.is_frame_free(0));
    assert!(a.is_frame_free(0x200) && a.is_frame_free(0x201));
}

#[test]
fn frames_beyond_the_bitmap_are_not_tracked() {
    let mut a = BitmapAllocator::new();
    let start = (MAX_FRAMES as u64 - 2) * PAGE_SIZE;
    let added = a.add_region(start, 5);
    assert_eq!(added, 2);
    assert_eq!(a.free_frame_count(), 2);
    assert_eq!(a.highest_frame(), MAX_FRAMES - 1);
    assert!(!a.is_frame_free(MAX_FRAMES));
}

#[test]
fn allocation_takes_lowest_free_frame_and_never_repeats() {
    let mut a = BitmapAllocator::new();
    a.init(&[conventional(0x5000, 3), conventional(0x2000, 1)]);
    assert_eq!(a.allocate_frame(), Some(0x2000));
    assert!(!a.is_frame_free(2));
    assert_eq!(a.allocate_frame(), Some(0x5000));
    assert_eq!(a.allocate_frame(), Some(0x6000));
    assert_eq!(a.allocate_frame(), Some(0x7000));
    assert_eq!(a.free_frame_count(), 0);
    assert_eq!(a.allocate_frame(), None);
}

#[test]
fn table_entry_addresses_follow_the_index_bits() {
    let virt: u64 = (3 << 39) | (5 << 30) | (7 << 21) | (9 << 12) | 0x123;
    assert_eq!(entry_address(0x1000, virt, 0), 0x1000 + 3 * 8);
    assert_eq!(entry_address(0x1000, virt, 1), 0x1000 + 5 * 8);
    assert_eq!(entry_address(0x1000, virt, 2), 0x1000 + 7 * 8);
    assert_eq!(entry_address(0x1000, virt, 3), 0x1000 + 9 * 8);
}

#[test]
fn walk_steps_decode_entries() {
    let virt: u64 = 0x0000_7F12_3456_789A;
    assert_eq!(walk_step(virt, 0, 0x2000), WalkStep::Fault);
    assert_eq!(walk_step(virt, 0, 0x8000_0000_0000_3003), WalkStep::Next(0x3000));
    assert_eq!(walk_step(virt, 1, 0x4000_0083), WalkStep::Mapped(0x4000_0000 + (virt % 0x4000_0000)));
    assert_eq!(walk_step(virt, 2, 0x0060_0083), WalkStep::Mapped(0x0060_0000 + (virt % 0x20_0000)));
    assert_eq!(walk_step(virt, 2, 0x0060_0003), WalkStep::Next(0x0060_0000));
    assert_eq!(walk_step(virt, 3, 0x0009_1003), WalkStep::Mapped(0x0009_1000 + 0x89A));
    assert_eq!(walk_step(virt, 0, 0x83), WalkStep::Next(0));
}

#[test]
fn map_steps_refuse_missing_or_huge_entries() {
    assert_eq!(map_step(0, 0x5003), Some(0x5000));
    assert_eq!(map_step(0, 0x5000), None);
    assert_eq!(map_step(0, 0x5083), Some(0x5000));
    assert_eq!(map_step(1, 0x5083), None);
    assert_eq!(map_step(2, 0x5083), None);
    assert_eq!(map_step(2, 0x5003), Some(0x5000));
    assert_eq!(leaf_entry(0x0012_3000), 0x0012_3003);
}

fn walk(mem: &HashMap<u64, u64>, root: u64, virt: u64) -> Option<u64> {
    let mut table = root;
    for level in 0..4usize {
        let entry = *mem.get(&entry_address(table, virt, level)).unwrap_or(&0);
        match walk_step(virt, level, entry) {
            WalkStep::Fault => return None,
            WalkStep::Mapped(a) => return Some(a),
            WalkStep::Next(t) => table = t,
        }
    }
    None
}

fn map(mem: &mut HashMap<u64, u64>, root: u64, virt: u64, frame: u64) -> bool {
    let mut table = root;
    for level in 0..3usize {
        let entry = *mem.get(&entry_address(table, virt, level)).unwrap_or(&0);
        match map_step(level, entry) {
            Some(t) => table = t,
            None => return false,
        }
    }
    mem.insert(entry_address(table, virt, 3), leaf_entry(frame));
    true
}

#[test]
fn walk_finds_the_frame_just_mapped() {
    let virt: u64 = 0x0000_0040_0020_1ABC;
    let mut mem: HashMap<u64, u64> = HashMap::new();
    mem.insert(entry_address(0x1000, virt, 0), 0x2003);
    mem.insert(entry_address(0x2000, virt, 1), 0x3003);
    mem.insert(entry_address(0x3000, virt, 2), 0x4003);
    assert_eq!(walk(&mem, 0x1000, virt), None);
    assert!(map(&mut mem, 0x1000, virt, 0x0ABC_D000));
    assert_eq!(walk(&mem, 0x1000, virt), Some(0x0ABC_D000 + 0xABC));
}

#[test]
fn mapping_gives_up_under_a_huge_page() {
    let virt: u64 = 0x0000_0040_0020_1ABC;
    let mut mem: HashMap<u64, u64> = HashMap::new();
    mem.insert(entry_address(0x1000, virt, 0), 0x2003);
    mem.insert(entry_address(0x2000, virt, 1), 0x4000_0083);
    assert!(!map(&mut mem, 0x1000, virt, 0x5000));
    assert_eq!(walk(&mem, 0x1000, virt), Some(0x4000_0000 + (virt % 0x4000_0000)));
}

#[test]
fn register_writes_and_addresses() {
    assert_eq!(reg32(0x2800, 7), RegWrite { offset: 0x2800, width: 4, value: 7 });
    assert_eq!(reg(0x28, 8, 0x1234_5678_9ABC), RegWrite { offset: 0x28, width: 8, value: 0x1234_5678_9ABC });
    assert_eq!(register_address(0xFEB8_0000, 0x3818), 0xFEB8_3818);
}

#[test]
fn ecam_addresses_and_header_fields() {
    assert_eq!(config_address(0xB000_0000, 1, 2, 3), 0xB000_0000 + 0x10_0000 + 2 * 0x8000 + 3 * 0x1000);
    assert_eq!(vendor_and_device(0x10D3_8086), (0x8086, 0x10D3));
    assert_eq!(class_and_subclass(0x0108_0201), (0x01, 0x08));
    assert!(is_present(0x8086));
    assert!(!is_present(0xFFFF));
    assert!(is_e1000(0x8086, 0x10D3));
    assert!(!is_e1000(0x8086, 0x100E));
    assert!(is_nvme(0x01, 0x08));
    assert!(!is_nvme(0x01, 0x06));
    assert!(is_xhci(0x0C, 0x03, 0x30));
    assert!(!is_xhci(0x0C, 0x03, 0x20));
}

#[test]
fn base_address_registers_decode() {
    assert_eq!(bar_address(0xFEBC_000C), 0xFEBC_0000);
    assert!(bar_is_64bit(0xFEBC_0004));
    assert!(!bar_is_64bit(0xFEBC_0000));
    assert_eq!(bar_address_64(0xFEBC_0004, 0x1), 0x1_FEBC_0000);
    assert_eq!(enable_bus_master(0x0001), 0x0007);
}

#[test]
fn receive_address_pair_decodes_to_mac() {
    assert_eq!(mac_from_receive_address(0x1200_5452, 0x8000_5634), [0x52, 0x54, 0x00, 0x12, 0x34, 0x56]);
}

#[test]
fn device_classes_have_names() {
    assert_eq!(get_device_type(0x01, 0x08), "Storage: NVMe Controller");
    assert_eq!(get_device_type(0x02, 0x00), "Network: Ethernet Controller");
    assert_eq!(get_device_type(0x06, 0x00), "Bridge: Host Bridge");
    assert_eq!(get_device_type(0x0C, 0x03), "Serial Bus: USB Controller");
    assert_eq!(get_device_type(0x0C, 0x05), "Unknown Device Class");
}

#[test]
fn scancodes_map_to_actions() {
    assert_eq!(scancode_action(0x1E), KeyAction::Echo('A'));
    assert_eq!(scancode_action(0x10), KeyAction::Echo('Q'));
    assert_eq!(scancode_action(0x32), KeyAction::Echo('M'));
    assert_eq!(scancode_action(0x39), KeyAction::Echo(' '));
    assert_eq!(scancode_action(0x1C), KeyAction::Enter);
    assert_eq!(scancode_action(0x9E), KeyAction::Ignore);
    assert_eq!(scancode_action(0x02), KeyAction::Ignore);
}

#[test]
fn apic_programming_values() {
    assert!(apic_routing_enabled(0xFEE0_0000, 0xFEC0_0000));
    assert!(!apic_routing_enabled(0, 0xFEC0_0000));
    assert!(!apic_routing_enabled(0xFEE0_0000, 0));
    assert_eq!(spurious_vector(0x0000_000F), 0x1FF);
    assert_eq!(keyboard_redirection(), [(0x12, 33), (0x13, 0)]);
    assert_eq!(end_of_interrupt_address(0xFEE0_0000), Some(0xFEE0_00B0));
    assert_eq!(end_of_interrupt_address(0), None);
}

#[test]
fn syscall_setup_values() {
    assert_eq!(star_value(0x08, 0x1B), 0x0008_0008_0000_0000);
    assert_eq!(star_value(0x08, 0x23), 0x0010_0008_0000_0000);
    assert_eq!(enable_syscall_extensions(0xD00), 0xD01);
}

#[test]
fn syscalls_decode_by_number() {
    assert_eq!(decode_syscall(1, 0x4000, 12, 0x00FF_00FF), SyscallRequest::Print { ptr: 0x4000, len: 12, color: 0x00FF_00FF });
    assert_eq!(decode_syscall(2, 100, 200, 50), SyscallRequest::CreateCanvas { x: 100, y: 200, size: 50 });
    assert_eq!(decode_syscall(3, 0x9000, 0, 0), SyscallRequest::BlitCanvas { canvas: 0x9000 });
    assert_eq!(decode_syscall(4, 7, 0, 0), SyscallRequest::ReadSector { lba: 7 });
    assert_eq!(decode_syscall(5, 0x5000, 3, 0), SyscallRequest::SendPacket { ptr: 0x5000, len: 3 });
    assert_eq!(decode_syscall(6, 1, 2, 3), SyscallRequest::Unknown);
    assert_eq!(decode_syscall(0, 1, 2, 3), SyscallRequest::Unknown);
}

#[test]
fn application_processor_startup_data() {
    let t = trampoline_image();
    assert_eq!(t.len(), 161);
    assert_eq!(t[0], 0xFA);
    assert_eq!(&t[t.len() - 3..], &[0xF4, 0xEB, 0xFD]);
    assert_eq!(ap_gdt(), [0, 0x00CF_9A00_0000_FFFF, 0x00CF_9200_0000_FFFF, 0x00AF_9A00_0000_FFFF]);
    assert_eq!(ap_gdt_pointer(), (31, 0x8120));
    assert_eq!(ap_stack_top(0x10_0000), 0x10_0000 + 4 * 16384);
    assert_eq!(cr0_without_write_protect(0x8001_0033), 0x8000_0033);
    assert_eq!(directory_entry(0x7000), 0x7003);
    assert!(needs_low_identity_map(0x3003));
    assert!(!needs_low_identity_map(0x83));
    assert_eq!(low_identity_entry(), 0x83);
    assert_eq!(INIT_IPI, 0x000C_4500);
    assert_eq!(STARTUP_IPI, 0x000C_4608);
}

#[test]
fn audio_ring_setup_writes() {
    let mut hda = IntelHda::new(0xFEBF_0000);
    assert_eq!(hda.register_address(0x08), 0xFEBF_0008);
    let w = hda.ring_setup(0x1_2345_6000, 0x7000);
    assert_eq!(hda.corb_ptr, 0x1_2345_6000);
    assert_eq!(hda.rirb_ptr, 0x7000);
    assert_eq!(
        w,
        vec![
            RegWrite { offset: 0x4C, width: 1, value: 0 },
            RegWrite { offset: 0x5C, width: 1, value: 0 },
            RegWrite { offset: 0x40, width: 4, value: 0x2345_6000 },
            RegWrite { offset: 0x44, width: 4, value: 1 },
            RegWrite { offset: 0x50, width: 4, value: 0x7000 },
            RegWrite { offset: 0x54, width: 4, value: 0 },
            RegWrite { offset: 0x4E, width: 1, value: 2 },
            RegWrite { offset: 0x5E, width: 1, value: 2 },
            RegWrite { offset: 0x4A, width: 2, value: 0x8000 },
        ]
    );
    assert_eq!(
        hda.ring_start(),
        vec![
            RegWrite { offset: 0x4A, width: 2, value: 0 },
            RegWrite { offset: 0x48, width: 2, value: 0 },
            RegWrite { offset: 0x58, width: 2, value: 0x8000 },
            RegWrite { offset: 0x4C, width: 1, value: 2 },
            RegWrite { offset: 0x5C, width: 1, value: 2 },
        ]
    );
    assert!(IntelHda::controller_awake(1));
    assert!(!IntelHda::controller_awake(0));
    assert!(IntelHda::codec_present(0x0001));
    assert!(!IntelHda::codec_present(0));
}

#[test]
fn init_fits_checks_region_bounds() {
    let a = BitmapAllocator::new();
    assert!(a.init_fits(&[conventional(0x10_0000, 4), conventional(0, 1)]));
    assert!(!a.init_fits(&[conventional(0x1000, u64::MAX)]));
    assert!(!a.init_fits(&[conventional(0, 4), conventional(0x1000, u64::MAX)]));
    let reserved = UefiMemoryDescriptor { ty: 0, ..conventional(0x1000, u64::MAX) };
    assert!(a.init_fits(&[reserved]));
    assert!(a.init_fits(&[]));
}

#[test]
fn madt_walk_check() {
    let local = vec![0u8, 8, 0, 0, 1, 0, 0, 0];
    let good = madt_with_entries(&[local.clone(), local.clone()]);
    assert!(madt_walk_ok(&good));
    let stuck = madt_with_entries(&[vec![0u8, 0, 0, 0, 0, 0, 0, 0]]);
    assert!(!madt_walk_ok(&stuck));
    let mut truncated = madt_with_entries(&[local]);
    truncated.truncate(0x2C + 4);
    assert!(!madt_walk_ok(&truncated));
    assert!(!madt_walk_ok(&good[..0x2B]));
}

fn pci_function(vendor_id: u16, device_id: u16, class: (u8, u8, u8), bar0: u32, bar1: u32) -> PciFunction {
    PciFunction { vendor_id, device_id, class_code: class.0, subclass: class.1, prog_if: class.2, bar0, bar1 }
}

#[test]
fn discovery_keeps_the_last_controller_of_each_kind() {
    let none = Discovered { e1000_bar0: None, nvme_bar0: None, xhci_bar0: None };
    assert_eq!(discover(&[]), none);
    let functions = [
        pci_function(0x8086, 0x10D3, (0x02, 0x00, 0x00), 0xFEB8_0000, 0),
        pci_function(0x1B36, 0x0010, (0x01, 0x08, 0x02), 0xFEA0_0004, 0x0000_0001),
        pci_function(0x1234, 0x1111, (0x03, 0x00, 0x00), 0xFD00_0008, 0),
        pci_function(0x1B36, 0x000D, (0x0C, 0x03, 0x30), 0xFEB9_100C, 0),
        pci_function(0x1B36, 0x0010, (0x01, 0x08, 0x02), 0xFEC0_0000, 0x7777),
        pci_function(0x8086, 0x10D3, (0x02, 0x00, 0x00), 0xFEBC_0007, 0),
    ];
    let found = discover(&functions);
    assert_eq!(found.e1000_bar0, Some(0xFEBC_0000));
    assert_eq!(found.nvme_bar0, Some(0xFEC0_0000));
    assert_eq!(found.xhci_bar0, Some(0xFEB9_1000));
    assert_eq!(discover(&functions[..2]).nvme_bar0, Some(0x1_FEA0_0000));
    let no_prog_if = [pci_function(0x1B36, 0x000D, (0x0C, 0x03, 0x20), 0xFEB9_1000, 0)];
    assert_eq!(discover(&no_prog_if), none);
}

#[test]
fn polling_gives_up_after_the_limit() {
    assert_eq!(next_wait(0, 3), Some(1));
    assert_eq!(next_wait(2, 3), Some(3));
    assert_eq!(next_wait(3, 3), None);
    assert_eq!(next_wait(0, 0), None);
    assert_eq!(next_wait(u32::MAX - 1, u32::MAX), Some(u32::MAX));
    let mut waited = 0;
    let mut rounds = 0;
    while let Some(n) = next_wait(waited, 10) {
        waited = n;
        rounds += 1;
    }
    assert_eq!(rounds, 10);
}

#[test]
fn entry_bits_decode() {
    assert_eq!(entry_frame(0x8000_0000_0010_1FFF), 0x0000_0000_0010_1000);
    assert_eq!(entry_frame(0xFFFF_FFFF_FFFF_FFFF), 0x000F_FFFF_FFFF_F000);
}

#[test]
fn kernel_plan_reads_an_image_at_any_address() {
    let img = kernel_image(64, 3);
    let expected = kernel_load_plan(&img).unwrap();
    for shift in 1..8 {
        let mut shifted = vec![0u8; shift];
        shifted.extend_from_slice(&img);
        assert_eq!(kernel_load_plan(&shifted[shift..]), Some(expected.clone()));
    }
}

#[test]
fn kernel_plan_reads_a_32_bit_image() {
    let mut img = vec![0u8; 52];
    img[0..4].copy_from_slice(&[0x7F, b'E', b'L', b'F']);
    img[4] = 1;
    img[24..28].copy_from_slice(&0x10_0040u32.to_le_bytes());
    img[28..32].copy_from_slice(&52u32.to_le_bytes());
    img[42..44].copy_from_slice(&32u16.to_le_bytes());
    img[44..46].copy_from_slice(&2u16.to_le_bytes());
    for (kind, offset, vaddr, size) in [(1u32, 0x100u32, 0x10_0000u32, 0x40u32), (6, 0x34, 0x10_0034, 0x40)] {
        for field in [kind, offset, vaddr, vaddr, size, size, 5, 0x1000] {
            img.extend_from_slice(&field.to_le_bytes());
        }
    }
    img.resize(0x200, 0);
    let (segments, entry) = kernel_load_plan(&img).unwrap();
    assert_eq!(entry, 0x10_0040);
    assert_eq!(
        segments,
        vec![ElfSegment { loadable: true, offset: 0x100, file_size: 0x40, virtual_addr: 0x10_0000 }]
    );
    let mut no_table = img.clone();
    no_table[28..32].copy_from_slice(&0u32.to_le_bytes());
    assert_eq!(kernel_load_plan(&no_table), Some((vec![], 0x10_0040)));
}

#[test]
fn request_bytes_are_read_as_text() {
    assert_eq!(text_of(b"HELLO"), Some("HELLO"));
    assert_eq!(text_of("caf\u{e9}".as_bytes()), Some("caf\u{e9}"));
    assert_eq!(text_of(&[0x66, 0xFF, 0x6F]), None);
    assert_eq!(text_of(&[0xC3]), None);
    assert_eq!(text_of(&[]), Some(""));
    assert_eq!(print_text(b"OK\n", 0x10B981), ("OK\n", 0x10B981));
    assert_eq!(print_text(&[0x80], 0x10B981), (PRINT_ERROR, ERROR_COLOR));
    assert_eq!(PRINT_ERROR, "\n> SYS: SYSCALL STRING UTF8 ERROR!\n");
}

#[test]
fn init_counts_each_free_frame_once() {
    let mut a = BitmapAllocator::new();
    let regions = [
        conventional(0x3000, 2),
        UefiMemoryDescriptor { ty: 4, pad: 0, physical_start: 0x10000, virtual_start: 0, number_of_pages: 8, attribute: 0 },
        conventional(0x8000, 3),
    ];
    assert_eq!(a.init(&regions), 5);
    let free: Vec<usize> = (0..MAX_FRAMES).filter(|&f| a.is_frame_free(f)).collect();
    assert_eq!(free, vec![3, 4, 8, 9, 10]);
    assert_eq!(a.free_frame_count(), free.len());
    assert_eq!(a.highest_frame(), 10);
    assert!(a.is_frame_free(a.highest_frame()));
    assert_eq!(a.allocate_frame(), Some(0x3000));
    let free_after = (0..MAX_FRAMES).filter(|&f| a.is_frame_free(f)).count();
    assert_eq!(a.free_frame_count(), free_after);
}

#[test]
fn overlapping_regions_are_counted_twice() {
    let mut a = BitmapAllocator::new();
    assert_eq!(a.init(&[conventional(0x3000, 2), conventional(0x4000, 2)]), 4);
    assert_eq!(a.free_frame_count(), 4);
    assert_eq!((0..MAX_FRAMES).filter(|&f| a.is_frame_free(f)).count(), 3);
}

#[test]
fn audio_reset_wait() {
    assert_eq!(hda_reset_step(0, 1), HdaReset::Awake);
    assert_eq!(hda_reset_step(HDA_RESET_LIMIT, 0x101), HdaReset::Awake);
    assert_eq!(hda_reset_step(0, 0), HdaReset::Wait(1));
    assert_eq!(hda_reset_step(HDA_RESET_LIMIT - 1, 0), HdaReset::Wait(HDA_RESET_LIMIT));
    assert_eq!(hda_reset_step(HDA_RESET_LIMIT, 0x100), HdaReset::TimedOut);
}

#[test]
fn low_mapping_steps() {
    assert_eq!(low_map_step(0, 0, false), LowMapStep::InstallTable);
    assert_eq!(low_map_step(0, 0x0000_0000_0020_3003, false), LowMapStep::Follow(0x20_3000));
    assert_eq!(low_map_step(0, 0x0000_0000_0020_3002, true), LowMapStep::Follow(0x20_3000));
    assert_eq!(low_map_step(1, 0x8000_0000_0040_5023, false), LowMapStep::MapLow(0x40_5000));
    assert_eq!(low_map_step(1, 0x83, false), LowMapStep::Done);
    assert_eq!(low_map_step(1, 0x82, false), LowMapStep::InstallTable);
}
