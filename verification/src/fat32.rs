//! FAT32: the on-disk boot sector and directory entries, and the volume
//! geometry that maps clusters to sectors.
use vstd::prelude::*;
use crate::wire::{le16, le32, read_le16, read_le32};

verus! {

/// The FAT32 boot sector (BIOS parameter block and extended fields), fields
/// decoded from their little-endian on-disk layout.
#[derive(Clone, Copy, Debug)]
pub struct Fat32BootSector {
    pub jmp_boot: [u8; 3],
    pub oem_name: [u8; 8],
    pub bytes_per_sector: u16,
    pub sectors_per_cluster: u8,
    pub reserved_sector_count: u16,
    pub num_fats: u8,
    pub root_entry_count: u16,
    pub total_sectors_16: u16,
    pub media: u8,
    pub fat_size_16: u16,
    pub sectors_per_track: u16,
    pub num_heads: u16,
    pub hidden_sectors: u32,
    pub total_sectors_32: u32,
    pub fat_size_32: u32,
    pub ext_flags: u16,
    pub fs_version: u16,
    pub root_cluster: u32,
    pub fs_info: u16,
    pub backup_boot_sector: u16,
    pub reserved_0: [u8; 12],
    pub drive_number: u8,
    pub reserved_1: u8,
    pub boot_signature: u8,
    pub volume_id: u32,
    pub volume_label: [u8; 11],
    pub fs_type: [u8; 8],
}
/// A 32-byte FAT directory entry, fields decoded from little-endian.
#[derive(Clone, Copy, Debug)]
pub struct Fat32DirEntry {
    pub name: [u8; 11],
    pub attr: u8,
    pub nt_res: u8,
    pub crt_time_tenth: u8,
    pub crt_time: u16,
    pub crt_date: u16,
    pub lst_acc_date: u16,
    pub fst_clus_hi: u16,
    pub wrt_time: u16,
    pub wrt_date: u16,
    pub fst_clus_lo: u16,
    pub file_size: u32,
}

impl Fat32BootSector {
    /// Decodes a boot sector from the first 90 bytes of `b`; `None` when `b` is
    /// shorter.
    pub fn from_bytes(b: &[u8]) -> (r: Option<Self>)
        ensures
            match r {
                Some(h) => {
                    &&& b@.len() >= 90
                    &&& h.jmp_boot@ == b@.subrange(0, 3)
                    &&& h.oem_name@ == b@.subrange(3, 11)
                    &&& h.bytes_per_sector == le16(b@, 11)
                    &&& h.sectors_per_cluster == b@[13]
                    &&& h.reserved_sector_count == le16(b@, 14)
                    &&& h.num_fats == b@[16]
                    &&& h.root_entry_count == le16(b@, 17)
                    &&& h.total_sectors_16 == le16(b@, 19)
                    &&& h.media == b@[21]
                    &&& h.fat_size_16 == le16(b@, 22)
                    &&& h.sectors_per_track == le16(b@, 24)
                    &&& h.num_heads == le16(b@, 26)
                    &&& h.hidden_sectors == le32(b@, 28)
                    &&& h.total_sectors_32 == le32(b@, 32)
                    &&& h.fat_size_32 == le32(b@, 36)
                    &&& h.ext_flags == le16(b@, 40)
                    &&& h.fs_version == le16(b@, 42)
                    &&& h.root_cluster == le32(b@, 44)
                    &&& h.fs_info == le16(b@, 48)
                    &&& h.backup_boot_sector == le16(b@, 50)
                    &&& h.reserved_0@ == b@.subrange(52, 64)
                    &&& h.drive_number == b@[64]
                    &&& h.reserved_1 == b@[65]
                    &&& h.boot_signature == b@[66]
                    &&& h.volume_id == le32(b@, 67)
                    &&& h.volume_label@ == b@.subrange(71, 82)
                    &&& h.fs_type@ == b@.subrange(82, 90)
                },
                None => b@.len() < 90,
            },
    {
        if b.len() < 90 {
            return None;
        }
        let h = Fat32BootSector {
                jmp_boot: [b[0], b[1], b[2]],
                oem_name: [b[3], b[4], b[5], b[6], b[7], b[8], b[9], b[10]],
                bytes_per_sector: read_le16(b, 11),
                sectors_per_cluster: b[13],
                reserved_sector_count: read_le16(b, 14),
                num_fats: b[16],
                root_entry_count: read_le16(b, 17),
                total_sectors_16: read_le16(b, 19),
                media: b[21],
                fat_size_16: read_le16(b, 22),
                sectors_per_track: read_le16(b, 24),
                num_heads: read_le16(b, 26),
                hidden_sectors: read_le32(b, 28),
                total_sectors_32: read_le32(b, 32),
                fat_size_32: read_le32(b, 36),
                ext_flags: read_le16(b, 40),
                fs_version: read_le16(b, 42),
                root_cluster: read_le32(b, 44),
                fs_info: read_le16(b, 48),
                backup_boot_sector: read_le16(b, 50),
                reserved_0: [b[52], b[53], b[54], b[55], b[56], b[57], b[58], b[59], b[60], b[61], b[62], b[63]],
                drive_number: b[64],
                reserved_1: b[65],
                boot_signature: b[66],
                volume_id: read_le32(b, 67),
                volume_label: [b[71], b[72], b[73], b[74], b[75], b[76], b[77], b[78], b[79], b[80], b[81]],
                fs_type: [b[82], b[83], b[84], b[85], b[86], b[87], b[88], b[89]],
        };
        assert(h.jmp_boot@ =~= b@.subrange(0, 3));
        assert(h.oem_name@ =~= b@.subrange(3, 11));
        assert(h.reserved_0@ =~= b@.subrange(52, 64));
        assert(h.volume_label@ =~= b@.subrange(71, 82));
        assert(h.fs_type@ =~= b@.subrange(82, 90));
        Some(h)
    }
}

impl Fat32DirEntry {
    /// Decodes a directory entry from the first 32 bytes of `b`; `None` when `b` is
    /// shorter.
    pub fn from_bytes(b: &[u8]) -> (r: Option<Self>)
        ensures
            match r {
                Some(h) => {
                    &&& b@.len() >= 32
                    &&& h.name@ == b@.subrange(0, 11)
                    &&& h.attr == b@[11]
                    &&& h.nt_res == b@[12]
                    &&& h.crt_time_tenth == b@[13]
                    &&& h.crt_time == le16(b@, 14)
                    &&& h.crt_date == le16(b@, 16)
                    &&& h.lst_acc_date == le16(b@, 18)
                    &&& h.fst_clus_hi == le16(b@, 20)
                    &&& h.wrt_time == le16(b@, 22)
                    &&& h.wrt_date == le16(b@, 24)
                    &&& h.fst_clus_lo == le16(b@, 26)
                    &&& h.file_size == le32(b@, 28)
                },
                None => b@.len() < 32,
            },
    {
        if b.len() < 32 {
            return None;
        }
        let h = Fat32DirEntry {
                name: [b[0], b[1], b[2], b[3], b[4], b[5], b[6], b[7], b[8], b[9], b[10]],
                attr: b[11],
                nt_res: b[12],
                crt_time_tenth: b[13],
                crt_time: read_le16(b, 14),
                crt_date: read_le16(b, 16),
                lst_acc_date: read_le16(b, 18),
                fst_clus_hi: read_le16(b, 20),
                wrt_time: read_le16(b, 22),
                wrt_date: read_le16(b, 24),
                fst_clus_lo: read_le16(b, 26),
                file_size: read_le32(b, 28),
        };
        assert(h.name@ =~= b@.subrange(0, 11));
        Some(h)
    }
}

/// The cached geometry of a FAT32 volume.
#[derive(Clone, Copy, Debug)]
pub struct Fat32Volume {
    pub first_data_sector: u32,
    pub sectors_per_cluster: u32,
    pub root_cluster: u32,
    pub fat_start_sector: u32,
}

/// The first sector of `cluster` on volume `v`: data clusters are numbered
/// from 2 and laid out back to back from the first data sector; the reserved
/// clusters 0 and 1 map to 0.
pub open spec fn cluster_lba(v: Fat32Volume, cluster: int) -> int {
    if cluster < 2 {
        0
    } else {
        v.first_data_sector + (cluster - 2) * v.sectors_per_cluster
    }
}

/// Data clusters are contiguous: each starts right where the one before it
/// ends, and cluster 2 starts the data region.
pub proof fn lemma_clusters_contiguous(v: Fat32Volume, cluster: int)
    requires
        cluster >= 2,
    ensures
        cluster_lba(v, cluster + 1) == cluster_lba(v, cluster) + v.sectors_per_cluster,
        cluster_lba(v, 2) == v.first_data_sector,
{
    assert((cluster + 1 - 2) * v.sectors_per_cluster == (cluster - 2) * v.sectors_per_cluster
        + v.sectors_per_cluster) by (nonlinear_arith);
}

impl Fat32Volume {
    /// Takes the geometry from a boot sector: the FAT starts after the
    /// reserved sectors, and the data region after all copies of the FAT.
    pub fn new(bpb: &Fat32BootSector) -> (r: Self)
        requires
            bpb.reserved_sector_count + bpb.num_fats * bpb.fat_size_32 <= u32::MAX,
        ensures
            r.fat_start_sector == bpb.reserved_sector_count,
            r.first_data_sector == bpb.reserved_sector_count + bpb.num_fats * bpb.fat_size_32,
            r.sectors_per_cluster == bpb.sectors_per_cluster,
            r.root_cluster == bpb.root_cluster,
    {
        let fat_start_sector = bpb.reserved_sector_count as u32;
        proof {
            assert(bpb.num_fats * bpb.fat_size_32 <= bpb.reserved_sector_count + bpb.num_fats * bpb.fat_size_32);
        }
        let first_data_sector = fat_start_sector + (bpb.num_fats as u32 * bpb.fat_size_32);
        Fat32Volume {
            first_data_sector,
            sectors_per_cluster: bpb.sectors_per_cluster as u32,
            root_cluster: bpb.root_cluster,
            fat_start_sector,
        }
    }

    /// The logical block address of the first sector of `cluster`; the
    /// reserved clusters 0 and 1 map to 0.
    pub fn cluster_to_lba(&self, cluster: u32) -> (r: u64)
        requires
            cluster >= 2 ==> self.first_data_sector + (cluster - 2) * self.sectors_per_cluster <= u32::MAX,
        ensures
            r == cluster_lba(*self, cluster as int),
    {
        if cluster < 2 {
            return 0;
        }
        proof {
            assert(0 <= (cluster - 2) * self.sectors_per_cluster) by (nonlinear_arith)
                requires
                    cluster >= 2,
            ;
        }
        (self.first_data_sector + ((cluster - 2) * self.sectors_per_cluster)) as u64
    }
}

} // verus!
