//! What the bootloader hands the kernel, and the ACPI tables the kernel reads
//! at boot.
use vstd::prelude::*;
use vstd::utf8::{decode_utf8, valid_utf8};
use crate::wire::{le32, read_le32};

verus! {

/// The boot information block the bootloader passes to the kernel.
#[derive(Clone, Copy, Debug)]
pub struct BootInfo {
    pub framebuffer_base: u64,
    pub framebuffer_size: usize,
    pub width: usize,
    pub height: usize,
    pub stride: usize,
    pub memory_map_size: usize,
    pub acpi2_rsdp_addr: u64,
    pub memory_map_addr: u64,
    pub memory_map_desc_size: usize,
}


/// The text `bytes` hold, when they are valid UTF-8.
///
/// Trusted: calls `core::str::from_utf8`, which the standard library
/// documents as returning `Ok` exactly when the bytes are valid UTF-8, with a
/// string slice over those same bytes; the contract states that with vstd's
/// definitions of UTF-8 validity and decoding.
#[verifier::external_body]
pub(crate) fn utf8_text(bytes: &[u8]) -> (r: Option<&str>)
    ensures
        r is Some <==> valid_utf8(bytes@),
        match r {
            Some(t) => t@ == decode_utf8(bytes@),
            None => true,
        },
{
    core::str::from_utf8(bytes).ok()
}

/// Whether the kernel accepts the RSDP at boot: its 8-byte signature must be
/// text (valid UTF-8); the tables are only walked then.
pub fn rsdp_signature_ok(signature: &[u8; 8]) -> (r: bool)
    ensures
        r == valid_utf8(signature@),
{
    utf8_text(signature).is_some()
}

/// Number of 8-byte table pointers in an XSDT of `xsdt_length` bytes (after
/// its 36-byte header).
pub fn xsdt_entry_count(xsdt_length: u32) -> (r: u32)
    requires
        xsdt_length >= 36,
    ensures
        r == (xsdt_length - 36) / 8,
{
    (xsdt_length - 36) / 8
}

/// The ACPI tables the kernel looks for.
#[derive(Clone, Copy, Debug, PartialEq, Eq)]
pub enum AcpiTable {
    /// "MCFG": the PCIe ECAM base.
    Mcfg,
    /// "APIC": the MADT, with the interrupt controllers.
    Madt,
    /// Any other table.
    Other,
}

/// Which table a 4-byte signature names.
pub open spec fn table_kind(sig: Seq<u8>) -> AcpiTable {
    if sig == seq![0x4Du8, 0x43, 0x46, 0x47] {
        AcpiTable::Mcfg
    } else if sig == seq![0x41u8, 0x50, 0x49, 0x43] {
        AcpiTable::Madt
    } else {
        AcpiTable::Other
    }
}

/// Tables are told apart by their ASCII signature: "MCFG" is the PCIe
/// configuration table, "APIC" the MADT, anything else neither.
pub proof fn lemma_table_signatures(sig: Seq<u8>)
    ensures
        table_kind(sig) == AcpiTable::Mcfg <==> sig == seq!['M' as u8, 'C' as u8, 'F' as u8, 'G' as u8],
        table_kind(sig) == AcpiTable::Madt <==> sig == seq!['A' as u8, 'P' as u8, 'I' as u8, 'C' as u8],
{
    assert(seq!['M' as u8, 'C' as u8, 'F' as u8, 'G' as u8] =~= seq![0x4Du8, 0x43, 0x46, 0x47]);
    assert(seq!['A' as u8, 'P' as u8, 'I' as u8, 'C' as u8] =~= seq![0x41u8, 0x50, 0x49, 0x43]);
    assert(seq![0x4Du8, 0x43, 0x46, 0x47] != seq![0x41u8, 0x50, 0x49, 0x43]) by {
        assert(seq![0x4Du8, 0x43, 0x46, 0x47][0] != seq![0x41u8, 0x50, 0x49, 0x43][0]);
    }
}

/// Classifies a table by its signature (see `table_kind`).
pub fn acpi_table_kind(sig: &[u8; 4]) -> (r: AcpiTable)
    ensures
        r == table_kind(sig@),
{
    if sig[0] == 0x4D && sig[1] == 0x43 && sig[2] == 0x46 && sig[3] == 0x47 {
        assert(sig@ =~= seq![0x4Du8, 0x43, 0x46, 0x47]);
        AcpiTable::Mcfg
    } else if sig[0] == 0x41 && sig[1] == 0x50 && sig[2] == 0x49 && sig[3] == 0x43 {
        assert(sig@ =~= seq![0x41u8, 0x50, 0x49, 0x43]);
        AcpiTable::Madt
    } else {
        assert(sig@ != seq![0x4Du8, 0x43, 0x46, 0x47]) by {
            if sig@ == seq![0x4Du8, 0x43, 0x46, 0x47] {
                assert(sig@[0] == 0x4D && sig@[1] == 0x43 && sig@[2] == 0x46 && sig@[3] == 0x47);
            }
        }
        assert(sig@ != seq![0x41u8, 0x50, 0x49, 0x43]) by {
            if sig@ == seq![0x41u8, 0x50, 0x49, 0x43] {
                assert(sig@[0] == 0x41 && sig@[1] == 0x50 && sig@[2] == 0x49 && sig@[3] == 0x43);
            }
        }
        AcpiTable::Other
    }
}

/// Whether the walk over the MADT's interrupt-controller entries from `off`
/// ends: every entry it reaches lies in `t`, has a non-zero length, and the
/// next offset fits in 32 bits.
pub open spec fn madt_walk_ends(t: Seq<u8>, off: int, len: int) -> bool
    decreases if off < len { len - off } else { 0 },
{
    if off >= len {
        true
    } else if off < 0 || off + 8 > t.len() || t[off + 1] == 0 || off + t[off + 1] > u32::MAX {
        false
    } else {
        madt_walk_ends(t, off + t[off + 1], len)
    }
}

/// The I/O APIC address the walk from `off` leaves: that of the last entry of
/// type 1, else `io`.
pub open spec fn madt_ioapic(t: Seq<u8>, off: int, len: int, io: int) -> int
    decreases if off < len { len - off } else { 0 },
{
    if off >= len || off < 0 || off + 1 >= t.len() || t[off + 1] == 0 {
        io
    } else {
        madt_ioapic(t, off + t[off + 1], len, if t[off] == 1 { le32(t, off + 4) } else { io })
    }
}

/// Whether the walk over the MADT's entries from `off` (stopping at `len`,
/// at an entry it cannot read or at one of length 0) reaches an entry at `p`.
pub open spec fn madt_entry_at(t: Seq<u8>, off: int, len: int, p: int) -> bool
    decreases if off < len { len - off } else { 0 },
{
    if off >= len || off < 0 || off + 1 >= t.len() || t[off + 1] == 0 {
        false
    } else {
        p == off || madt_entry_at(t, off + t[off + 1], len, p)
    }
}

proof fn lemma_madt_entries_after(t: Seq<u8>, off: int, len: int, p: int)
    requires
        madt_entry_at(t, off, len, p),
    ensures
        off <= p,
    decreases if off < len { len - off } else { 0 },
{
    if p != off {
        lemma_madt_entries_after(t, off + t[off + 1], len, p);
    }
}

/// The I/O APIC address the walk from `off` leaves is the 32-bit address
/// field of the last entry it reaches whose type byte is 1, or `io` when it
/// reaches none; entries of other types never change it.
pub proof fn lemma_madt_ioapic_is_last_io_apic(t: Seq<u8>, off: int, len: int, io: int)
    ensures
        (forall|p: int| #[trigger] madt_entry_at(t, off, len, p) ==> t[p] != 1) ==> madt_ioapic(t, off, len, io)
            == io,
        forall|p: int|
            #[trigger] madt_entry_at(t, off, len, p) && t[p] == 1 && (forall|q: int|
                #[trigger] madt_entry_at(t, off, len, q) && q > p ==> t[q] != 1) ==> madt_ioapic(t, off, len, io)
                == le32(t, p + 4),
    decreases if off < len { len - off } else { 0 },
{
    if !(off >= len || off < 0 || off + 1 >= t.len() || t[off + 1] == 0) {
        let next = off + t[off + 1];
        let io2 = if t[off] == 1 { le32(t, off + 4) } else { io };
        lemma_madt_ioapic_is_last_io_apic(t, next, len, io);
        lemma_madt_ioapic_is_last_io_apic(t, next, len, io2);
        assert forall|p: int| #[trigger] madt_entry_at(t, next, len, p) implies madt_entry_at(t, off, len, p) by {}
        if forall|p: int| #[trigger] madt_entry_at(t, off, len, p) ==> t[p] != 1 {
            assert(madt_entry_at(t, off, len, off));
        }
        assert forall|p: int|
            #[trigger] madt_entry_at(t, off, len, p) && t[p] == 1 && (forall|q: int|
                #[trigger] madt_entry_at(t, off, len, q) && q > p ==> t[q] != 1) implies madt_ioapic(t, off, len, io)
            == le32(t, p + 4) by {
            if p == off {
                assert forall|q: int| #[trigger] madt_entry_at(t, next, len, q) implies t[q] != 1 by {
                    lemma_madt_entries_after(t, next, len, q);
                    assert(madt_entry_at(t, off, len, q));
                }
            } else {
                assert(madt_entry_at(t, next, len, p));
                assert forall|q: int| #[trigger] madt_entry_at(t, next, len, q) && q > p implies t[q] != 1 by {
                    assert(madt_entry_at(t, off, len, q));
                }
            }
        }
    }
}

/// Whether `parse_madt` can read `table`: it holds the MADT header and every
/// entry the walk reaches (see `madt_walk_ends`).
pub fn madt_walk_ok(table: &[u8]) -> (r: bool)
    ensures
        r == (table@.len() >= 0x2C && madt_walk_ends(table@, 0x2C, le32(table@, 4))),
{
    let n = table.len();
    if n < 0x2C {
        return false;
    }
    let madt_length = read_le32(table, 4);
    let mut offset: u32 = 0x2C;
    while offset < madt_length
        invariant
            n == table@.len(),
            madt_length == le32(table@, 4),
            madt_walk_ends(table@, 0x2C, madt_length as int) == madt_walk_ends(
                table@,
                offset as int,
                madt_length as int,
            ),
        decreases if offset < madt_length { madt_length - offset } else { 0 },
    {
        if n < 8 || offset as usize > n - 8 {
            return false;
        }
        let entry_len = table[offset as usize + 1];
        if entry_len == 0 || offset > 0xFFFF_FFFF - entry_len as u32 {
            return false;
        }
        offset = offset + entry_len as u32;
    }
    true
}

/// The interrupt controllers the MADT names.
#[derive(Clone, Copy, Debug, PartialEq, Eq)]
pub struct MadtInfo {
    pub local_apic_base: u64,
    pub ioapic_base: u64,
}

/// Reads the MADT in `table` (its first bytes, plus enough after the length
/// its header gives to read every entry): the local APIC address at offset
/// 0x24, and the address of the last I/O APIC entry (type 1) found walking
/// the entries from offset 0x2C, or 0 when there is none.
pub fn parse_madt(table: &[u8]) -> (r: MadtInfo)
    requires
        table@.len() >= 0x2C,
        madt_walk_ends(table@, 0x2C, le32(table@, 4)),
    ensures
        r.local_apic_base == le32(table@, 0x24),
        r.ioapic_base == madt_ioapic(table@, 0x2C, le32(table@, 4), 0),
{
    let local_apic_base = read_le32(table, 0x24) as u64;
    let madt_length = read_le32(table, 4);
    let mut ioapic_base: u64 = 0;
    let mut offset: u32 = 0x2C;
    while offset < madt_length
        invariant
            madt_length == le32(table@, 4),
            madt_walk_ends(table@, offset as int, madt_length as int),
            madt_ioapic(table@, 0x2C, madt_length as int, 0) == madt_ioapic(
                table@,
                offset as int,
                madt_length as int,
                ioapic_base as int,
            ),
        decreases if offset < madt_length { madt_length - offset } else { 0 },
    {
        let entry_type = table[offset as usize];
        let entry_len = table[offset as usize + 1];
        if entry_type == 1 {
            ioapic_base = read_le32(table, offset as usize + 4) as u64;
        }
        offset = offset + entry_len as u32;
    }
    MadtInfo { local_apic_base, ioapic_base }
}

} // verus!
