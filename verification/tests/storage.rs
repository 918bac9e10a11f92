use edgecore_kernel::fat32::{Fat32BootSector, Fat32DirEntry, Fat32Volume};
use edgecore_kernel::mmio::RegWrite;
use edgecore_kernel::nvme::{
    controller_present, controller_ready, disable_config, identify_strings, printable_bytes, Nvme, NvmeCmd,
    NvmeCompletion, ReadSubmission, nvme_startup_step, NvmeSeen, NvmeStartup, NvmeStep, NVME_WAIT_LIMIT,
};

fn boot_sector_bytes() -> Vec<u8> {
    let mut b = vec![0u8; 512];
    b[0..3].copy_from_slice(&[0xEB, 0x58, 0x90]);
    b[3..11].copy_from_slice(b"mkfs.fat");
    b[11..13].copy_from_slice(&512u16.to_le_bytes());
    b[13] = 1;
    b[14..16].copy_from_slice(&32u16.to_le_bytes());
    b[16] = 2;
    b[21] = 0xF8;
    b[24..26].copy_from_slice(&32u16.to_le_bytes());
    b[26..28].copy_from_slice(&8u16.to_le_bytes());
    b[32..36].copy_from_slice(&131072u32.to_le_bytes());
    b[36..40].copy_from_slice(&1009u32.to_le_bytes());
    b[44..48].copy_from_slice(&2u32.to_le_bytes());
    b[48..50].copy_from_slice(&1u16.to_le_bytes());
    b[50..52].copy_from_slice(&6u16.to_le_bytes());
    b[64] = 0x80;
    b[66] = 0x29;
    b[67..71].copy_from_slice(&0x1234_ABCDu32.to_le_bytes());
    b[71..82].copy_from_slice(b"NO NAME    ");
    b[82..90].copy_from_slice(b"FAT32   ");
    b[510] = 0x55;
    b[511] = 0xAA;
    b
}

#[test]
fn boot_sector_fields_decode() {
    let bpb = Fat32BootSector::from_bytes(&boot_sector_bytes()).unwrap();
    assert_eq!(bpb.jmp_boot, [0xEB, 0x58, 0x90]);
    assert_eq!(&bpb.oem_name, b"mkfs.fat");
    assert_eq!(bpb.bytes_per_sector, 512);
    assert_eq!(bpb.sectors_per_cluster, 1);
    assert_eq!(bpb.reserved_sector_count, 32);
    assert_eq!(bpb.num_fats, 2);
    assert_eq!(bpb.media, 0xF8);
    assert_eq!(bpb.sectors_per_track, 32);
    assert_eq!(bpb.num_heads, 8);
    assert_eq!(bpb.total_sectors_32, 131072);
    assert_eq!(bpb.fat_size_32, 1009);
    assert_eq!(bpb.root_cluster, 2);
    assert_eq!(bpb.fs_info, 1);
    assert_eq!(bpb.backup_boot_sector, 6);
    assert_eq!(bpb.drive_number, 0x80);
    assert_eq!(bpb.boot_signature, 0x29);
    assert_eq!(bpb.volume_id, 0x1234_ABCD);
    assert_eq!(&bpb.volume_label, b"NO NAME    ");
    assert_eq!(&bpb.fs_type, b"FAT32   ");
}

#[test]
fn short_boot_sector_is_rejected() {
    let b = boot_sector_bytes();
    assert!(Fat32BootSector::from_bytes(&b[..89]).is_none());
    assert!(Fat32BootSector::from_bytes(&b[..90]).is_some());
}

#[test]
fn directory_entry_decodes() {
    let mut e = [0u8; 32];
    e[0..11].copy_from_slice(b"PAYLOAD TXT");
    e[11] = 0x20;
    e[20..22].copy_from_slice(&0x0001u16.to_le_bytes());
    e[26..28].copy_from_slice(&0x0203u16.to_le_bytes());
    e[28..32].copy_from_slice(&69u32.to_le_bytes());
    let d = Fat32DirEntry::from_bytes(&e).unwrap();
    assert_eq!(&d.name, b"PAYLOAD TXT");
    assert_eq!(d.attr, 0x20);
    assert_eq!(d.fst_clus_hi, 1);
    assert_eq!(d.fst_clus_lo, 0x0203);
    assert_eq!(d.file_size, 69);
    assert!(Fat32DirEntry::from_bytes(&e[..31]).is_none());
}

#[test]
fn volume_geometry_and_cluster_sectors() {
    let bpb = Fat32BootSector::from_bytes(&boot_sector_bytes()).unwrap();
    let v = Fat32Volume::new(&bpb);
    assert_eq!(v.fat_start_sector, 32);
    assert_eq!(v.first_data_sector, 32 + 2 * 1009);
    assert_eq!(v.sectors_per_cluster, 1);
    assert_eq!(v.root_cluster, 2);
    assert_eq!(v.cluster_to_lba(2), 2050);
    assert_eq!(v.cluster_to_lba(3), 2051);
    assert_eq!(v.cluster_to_lba(0), 0);
    assert_eq!(v.cluster_to_lba(1), 0);
}

#[test]
fn clusters_are_contiguous() {
    let v = Fat32Volume { first_data_sector: 1000, sectors_per_cluster: 8, root_cluster: 2, fat_start_sector: 32 };
    assert_eq!(v.cluster_to_lba(2), 1000);
    for c in 2..100u32 {
        assert_eq!(v.cluster_to_lba(c + 1), v.cluster_to_lba(c) + 8);
    }
}

#[test]
fn commands_encode_little_endian() {
    let mut n = Nvme::new(0xFE00_0000);
    n.init_queues(0x1000, 0x2000, 0x3000, 0x4000);
    let c = n.create_io_cq_cmd();
    assert_eq!(c, NvmeCmd { cdw0: 0x0001_0005, nsid: 0, reserved: 0, mptr: 0, prp1: 0x4000, prp2: 0, cdw10: 0x000F_0001, cdw11: 1, cdw12: 0, cdw13: 0, cdw14: 0, cdw15: 0 });
    let bytes = c.to_bytes();
    assert_eq!(bytes.len(), 64);
    assert_eq!(&bytes[0..4], &[0x05, 0x00, 0x01, 0x00]);
    assert_eq!(&bytes[24..32], &[0x00, 0x40, 0, 0, 0, 0, 0, 0]);
    assert_eq!(&bytes[40..48], &[0x01, 0x00, 0x0F, 0x00, 0x01, 0, 0, 0]);
    assert!(bytes[48..].iter().all(|&b| b == 0));
    let s = n.create_io_sq_cmd();
    assert_eq!((s.cdw0, s.prp1, s.cdw10, s.cdw11), (0x0002_0001, 0x3000, 0x000F_0001, 0x0001_0001));
    let i = n.identify_cmd(0x9000);
    assert_eq!((i.cdw0, i.nsid, i.prp1, i.cdw10, i.cdw11), (0x00AA_0006, 0, 0x9000, 1, 0));
}

#[test]
fn admin_queue_setup_writes() {
    let mut n = Nvme::new(0xFE00_0000);
    assert_eq!(n.register_address(0x1C), 0xFE00_001C);
    let w = n.init_queues(0x1000, 0x2000, 0x3000, 0x4000);
    assert_eq!(
        w,
        vec![
            RegWrite { offset: 0x24, width: 4, value: 0x000F_000F },
            RegWrite { offset: 0x28, width: 8, value: 0x1000 },
            RegWrite { offset: 0x30, width: 8, value: 0x2000 },
            RegWrite { offset: 0x14, width: 4, value: 0x0046_0001 },
        ]
    );
    assert_eq!((n.asq_ptr, n.acq_ptr, n.iosq_ptr, n.iocq_ptr), (0x1000, 0x2000, 0x3000, 0x4000));
}

#[test]
fn controller_status_bits() {
    assert!(!controller_present(0xFFFF_FFFF));
    assert!(controller_present(0));
    assert!(controller_ready(1));
    assert!(!controller_ready(0xFFFF_FFFE));
    assert_eq!(disable_config(0x0046_0001), 0x0046_0000);
}

#[test]
fn completion_entries_decode() {
    let b = [1u8, 0, 0, 0, 0, 0, 0, 0, 3, 0, 1, 0, 7, 0, 0x01, 0x00];
    let c = NvmeCompletion::from_bytes(&b);
    assert_eq!(c, NvmeCompletion { cdw0: 1, reserved: 0, sqhead: 3, sqid: 1, cid: 7, status: 1 });
    assert!(c.is_posted());
    let z = NvmeCompletion::from_bytes(&[0u8; 16]);
    assert!(!z.is_posted());
}

#[test]
fn reads_cycle_the_io_queues() {
    let mut n = Nvme::new(0xFE00_0000);
    n.init_queues(0x1000, 0x2000, 0x3000, 0x4000);
    let r = n.submit_read(0x1_0000_0005, 0x8000);
    assert_eq!(
        r,
        ReadSubmission {
            slot: 0,
            cmd: NvmeCmd { cdw0: 2, nsid: 1, reserved: 0, mptr: 0, prp1: 0x8000, prp2: 0, cdw10: 5, cdw11: 1, cdw12: 0, cdw13: 0, cdw14: 0, cdw15: 0 },
            sq_tail: 1,
            cq_slot: 0,
        }
    );
    assert_eq!(n.complete_read(), 1);
    for k in 1..16u32 {
        let r = n.submit_read(k as u64, 0x8000);
        assert_eq!(r.slot, k as usize);
        assert_eq!(r.cmd.cdw0, 2 | (k << 16));
        assert_eq!(r.sq_tail, (k + 1) % 16);
        assert_eq!(r.cq_slot, k as usize);
        assert_eq!(n.complete_read(), (k + 1) % 16);
    }
    assert_eq!(n.iosq_tail, 0);
    assert_eq!(n.iocq_head, 0);
}

#[test]
fn identify_strings_keep_printable_bytes() {
    let mut data = vec![0u8; 4096];
    data[4..24].copy_from_slice(b"EDGEC0RE-1          ");
    data[24..64].copy_from_slice(b"QEMU NVMe Ctrl                          ");
    data[10] = 0x07;
    let (model, serial) = identify_strings(&data);
    assert_eq!(model, b"QEMU NVMe Ctrl                          ".to_vec());
    assert_eq!(serial, b"EDGEC0E-1          ".to_vec());
    assert_eq!(printable_bytes(&[0x1F, 0x20, 0x7E, 0x7F, 0x41], 0, 5), vec![0x20, 0x7E, 0x41]);
    assert!(printable_bytes(&[1, 2, 3], 1, 0).is_empty());
}

#[test]
fn drive_start_up_runs_in_order() {
    let mut state = NvmeStartup::Probe;
    let mut actions = Vec::new();
    let seen = [
        NvmeSeen::Status(1),
        NvmeSeen::Status(1),
        NvmeSeen::Status(0),
        NvmeSeen::Status(0),
        NvmeSeen::Status(1),
        NvmeSeen::Posted(false),
        NvmeSeen::Posted(true),
        NvmeSeen::Posted(true),
        NvmeSeen::Status(1),
    ];
    for s in seen {
        let (next, step) = nvme_startup_step(state, s);
        state = next;
        actions.push(step);
    }
    assert_eq!(
        actions,
        vec![
            NvmeStep::Disable,
            NvmeStep::PollStatus,
            NvmeStep::SetUpQueues,
            NvmeStep::PollStatus,
            NvmeStep::CreateCq,
            NvmeStep::PollCompletion(0),
            NvmeStep::CreateSq,
            NvmeStep::Finish,
            NvmeStep::Stop,
        ]
    );
    assert_eq!(state, NvmeStartup::Ready);
}

#[test]
fn drive_start_up_stops_when_absent_or_stuck() {
    assert_eq!(
        nvme_startup_step(NvmeStartup::Probe, NvmeSeen::Status(0xFFFF_FFFF)),
        (NvmeStartup::Stopped, NvmeStep::Stop)
    );
    assert_eq!(
        nvme_startup_step(NvmeStartup::Disabling { waited: NVME_WAIT_LIMIT }, NvmeSeen::Status(1)),
        (NvmeStartup::Stopped, NvmeStep::Stop)
    );
    assert_eq!(
        nvme_startup_step(NvmeStartup::Enabling { waited: NVME_WAIT_LIMIT - 1 }, NvmeSeen::Status(0)),
        (NvmeStartup::Enabling { waited: NVME_WAIT_LIMIT }, NvmeStep::PollStatus)
    );
    assert_eq!(
        nvme_startup_step(NvmeStartup::Enabling { waited: NVME_WAIT_LIMIT }, NvmeSeen::Status(0)),
        (NvmeStartup::Stopped, NvmeStep::Stop)
    );
    assert_eq!(
        nvme_startup_step(NvmeStartup::CreatingCq { waited: NVME_WAIT_LIMIT }, NvmeSeen::Posted(false)),
        (NvmeStartup::CreatingSq { waited: 0 }, NvmeStep::CreateSq)
    );
    assert_eq!(
        nvme_startup_step(NvmeStartup::CreatingSq { waited: 3 }, NvmeSeen::Posted(false)),
        (NvmeStartup::CreatingSq { waited: 4 }, NvmeStep::PollCompletion(1))
    );
    assert_eq!(
        nvme_startup_step(NvmeStartup::Probe, NvmeSeen::Posted(true)),
        (NvmeStartup::Stopped, NvmeStep::Stop)
    );
    assert_eq!(
        nvme_startup_step(NvmeStartup::Stopped, NvmeSeen::Status(0)),
        (NvmeStartup::Stopped, NvmeStep::Stop)
    );
}
