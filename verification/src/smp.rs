//! Application-processor start-up: the real-mode trampoline image, its GDT
//! and configuration block, and the identity mapping it needs.
use vstd::prelude::*;

verus! {

/// Physical address the trampoline is copied to (start-up vector 0x08).
pub const TRAMPOLINE_ADDR: u64 = 0x8000;

/// Size of one application-processor stack.
pub const AP_STACK_SIZE: u64 = 16384;

/// Number of application-processor stacks.
pub const AP_STACKS: u64 = 4;

/// Interrupt-command value broadcasting INIT to all other processors.
pub const INIT_IPI: u32 = 0x000C_4500;

/// Interrupt-command value broadcasting the start-up IPI for vector 0x08.
pub const STARTUP_IPI: u32 = 0x000C_4608;

/// The 161-byte real-mode trampoline the application processors start in:
/// it loads the GDT at 0x8100, enters protected mode, enables PAE, loads the
/// page tables from 0x8500, enables long mode and paging, takes a stack slot
/// by atomically incrementing the counter at 0x8600, and calls the entry at
/// 0x8610 with the stack top from 0x8608.
pub open spec fn trampoline() -> Seq<u8> {
    seq![
        0xFAu8, 0x0F, 0x09, 0x31, 0xC0, 0x8E, 0xD8, 0x8E, 0xC0, 0x8E, 0xD0, 0x0F,
        0x01, 0x16, 0x00, 0x81, 0x0F, 0x20, 0xC0, 0x66, 0x83, 0xC8, 0x01, 0x0F,
        0x22, 0xC0, 0x66, 0xEA, 0x22, 0x80, 0x00, 0x00, 0x08, 0x00, 0xB8, 0x10,
        0x00, 0x00, 0x00, 0x8E, 0xD8, 0x8E, 0xC0, 0x8E, 0xD0, 0x8E, 0xE0, 0x8E,
        0xE8, 0x0F, 0x20, 0xE0, 0x83, 0xC8, 0x20, 0x0F, 0x22, 0xE0, 0xA1, 0x00,
        0x85, 0x00, 0x00, 0x0F, 0x22, 0xD8, 0xB9, 0x80, 0x00, 0x00, 0xC0, 0x0F,
        0x32, 0x0D, 0x00, 0x01, 0x00, 0x00, 0x0F, 0x30, 0x0F, 0x20, 0xC0, 0x0D,
        0x00, 0x00, 0x00, 0x80, 0x0F, 0x22, 0xC0, 0xEA, 0x62, 0x80, 0x00, 0x00,
        0x18, 0x00, 0xB8, 0x10, 0x00, 0x00, 0x00, 0x8E, 0xD8, 0x8E, 0xC0, 0x8E,
        0xD0, 0x8E, 0xE0, 0x8E, 0xE8, 0xB8, 0x00, 0x00, 0x00, 0x00, 0xF0, 0x0F,
        0xC1, 0x04, 0x25, 0x00, 0x86, 0x00, 0x00, 0xC1, 0xE0, 0x0E, 0x48, 0x8B,
        0x1C, 0x25, 0x08, 0x86, 0x00, 0x00, 0x48, 0x29, 0xC3, 0x48, 0x89, 0xDC,
        0x48, 0x31, 0xED, 0x48, 0x8B, 0x04, 0x25, 0x10, 0x86, 0x00, 0x00, 0xFF,
        0xD0, 0xFA, 0xF4, 0xEB, 0xFD
    ]
}

/// The trampoline image (see `trampoline`).
pub fn trampoline_image() -> (r: Vec<u8>)
    ensures
        r@ == trampoline(),
        r@.len() == 161,
{
    let r: Vec<u8> = vec![
        0xFA, 0x0F, 0x09, 0x31, 0xC0, 0x8E, 0xD8, 0x8E, 0xC0, 0x8E, 0xD0, 0x0F,
        0x01, 0x16, 0x00, 0x81, 0x0F, 0x20, 0xC0, 0x66, 0x83, 0xC8, 0x01, 0x0F,
        0x22, 0xC0, 0x66, 0xEA, 0x22, 0x80, 0x00, 0x00, 0x08, 0x00, 0xB8, 0x10,
        0x00, 0x00, 0x00, 0x8E, 0xD8, 0x8E, 0xC0, 0x8E, 0xD0, 0x8E, 0xE0, 0x8E,
        0xE8, 0x0F, 0x20, 0xE0, 0x83, 0xC8, 0x20, 0x0F, 0x22, 0xE0, 0xA1, 0x00,
        0x85, 0x00, 0x00, 0x0F, 0x22, 0xD8, 0xB9, 0x80, 0x00, 0x00, 0xC0, 0x0F,
        0x32, 0x0D, 0x00, 0x01, 0x00, 0x00, 0x0F, 0x30, 0x0F, 0x20, 0xC0, 0x0D,
        0x00, 0x00, 0x00, 0x80, 0x0F, 0x22, 0xC0, 0xEA, 0x62, 0x80, 0x00, 0x00,
        0x18, 0x00, 0xB8, 0x10, 0x00, 0x00, 0x00, 0x8E, 0xD8, 0x8E, 0xC0, 0x8E,
        0xD0, 0x8E, 0xE0, 0x8E, 0xE8, 0xB8, 0x00, 0x00, 0x00, 0x00, 0xF0, 0x0F,
        0xC1, 0x04, 0x25, 0x00, 0x86, 0x00, 0x00, 0xC1, 0xE0, 0x0E, 0x48, 0x8B,
        0x1C, 0x25, 0x08, 0x86, 0x00, 0x00, 0x48, 0x29, 0xC3, 0x48, 0x89, 0xDC,
        0x48, 0x31, 0xED, 0x48, 0x8B, 0x04, 0x25, 0x10, 0x86, 0x00, 0x00, 0xFF,
        0xD0, 0xFA, 0xF4, 0xEB, 0xFD
    ];
    assert(r@ =~= trampoline());
    r
}

/// The GDT the trampoline loads: null, 32-bit code, data, 64-bit code.
pub fn ap_gdt() -> (r: [u64; 4])
    ensures
        r@ == seq![0u64, 0x00CF_9A00_0000_FFFF, 0x00CF_9200_0000_FFFF, 0x00AF_9A00_0000_FFFF],
{
    let r: [u64; 4] = [0, 0x00CF_9A00_0000_FFFF, 0x00CF_9200_0000_FFFF, 0x00AF_9A00_0000_FFFF];
    assert(r@ =~= seq![0u64, 0x00CF_9A00_0000_FFFF, 0x00CF_9200_0000_FFFF, 0x00AF_9A00_0000_FFFF]);
    r
}

/// The GDT register image at 0x8100: limit 31 (four entries), base 0x8120.
pub fn ap_gdt_pointer() -> (r: (u16, u32))
    ensures
        r == (31u16, 0x8120u32),
{
    (31, 0x8120)
}

/// The top of the application-processor stacks (they grow down from it, one
/// 16 KiB slot per processor).
pub fn ap_stack_top(stacks_base: u64) -> (r: u64)
    requires
        stacks_base + AP_STACK_SIZE * AP_STACKS <= u64::MAX,
    ensures
        r == stacks_base + AP_STACK_SIZE * AP_STACKS,
{
    stacks_base + AP_STACK_SIZE * AP_STACKS
}

/// CR0 with the write-protect bit (16) cleared.
pub fn cr0_without_write_protect(cr0: u64) -> (r: u64)
    ensures
        r == cr0 & 0xFFFF_FFFF_FFFE_FFFF,
{
    cr0 & 0xFFFF_FFFF_FFFE_FFFF
}

/// The page-directory entry that points at the table at `phys`: present and
/// writable.
pub fn directory_entry(phys: u64) -> (r: u64)
    ensures
        r == phys | 0b11,
{
    phys | 0b11
}

/// Whether a page-directory-pointer entry still needs the low 2 MiB mapped
/// (it does not map a 1 GiB page itself).
pub fn needs_low_identity_map(pdpte: u64) -> (r: bool)
    ensures
        r == (pdpte & 0x80 == 0),
{
    pdpte & 0x80 == 0
}

/// The page-directory entry mapping physical 0..2 MiB: present, writable,
/// 2 MiB page.
pub fn low_identity_entry() -> (r: u64)
    ensures
        r == 0x83,
{
    0x83
}


/// What the start-up does with the first entry of the PML4 (`level` 0) or of
/// the page-directory-pointer table (`level` 1) on the way to mapping the
/// low 2 MiB the trampoline runs in.
#[derive(Clone, Copy, Debug, PartialEq, Eq)]
pub enum LowMapStep {
    /// The entry is missing: install the kernel's own next-level table there
    /// and read the entry again.
    InstallTable,
    /// Go on with the page-directory-pointer table at this address.
    Follow(u64),
    /// Write the low identity entry into the page directory at this address.
    MapLow(u64),
    /// The entry maps a 1 GiB page: the low memory is mapped already.
    Done,
}

/// The step for `entry` at `level`: a missing entry gets a table installed,
/// unless one was installed already (`installed`), after which the entry is
/// taken as read; at level 0 the walk follows the entry; at level 1 it maps
/// the low 2 MiB in the directory the entry points to, unless the entry maps a
/// 1 GiB page.
pub open spec fn low_map_spec(level: u8, entry: u64, installed: bool) -> LowMapStep {
    if !installed && entry & 1 == 0 {
        LowMapStep::InstallTable
    } else if level == 0 {
        LowMapStep::Follow(entry & 0x000F_FFFF_FFFF_F000)
    } else if entry & 0x80 == 0 {
        LowMapStep::MapLow(entry & 0x000F_FFFF_FFFF_F000)
    } else {
        LowMapStep::Done
    }
}

/// Decides the step for one entry of the low mapping (see `low_map_spec`).
pub fn low_map_step(level: u8, entry: u64, installed: bool) -> (r: LowMapStep)
    ensures
        r == low_map_spec(level, entry, installed),
{
    if !installed && entry & 1 == 0 {
        LowMapStep::InstallTable
    } else if level == 0 {
        LowMapStep::Follow(entry & 0x000F_FFFF_FFFF_F000)
    } else if needs_low_identity_map(entry) {
        LowMapStep::MapLow(entry & 0x000F_FFFF_FFFF_F000)
    } else {
        LowMapStep::Done
    }
}

} // verus!
