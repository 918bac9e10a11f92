//! x86-64 four-level page tables: entry decoding and the steps of a
//! page-table walk and of installing a 4 KiB mapping.
use vstd::prelude::*;

verus! {

/// Bits 12..52 of an entry: the physical address it points to.
pub const ADDR_MASK: u64 = 0x000F_FFFF_FFFF_F000;

/// Present bit.
pub const PRESENT: u64 = 1;

/// Page-size bit: the entry maps a 1 GiB (level 1) or 2 MiB (level 2) page.
pub const HUGE: u64 = 0x80;

/// The index into the level-`level` table (0 = PML4) that `virt` selects:
/// nine bits starting at bit 39, 30, 21 or 12.
pub open spec fn table_index(virt: u64, level: int) -> int {
    (virt as int / pow2_shift(level)) % 512
}

/// 2 to the power of the index shift of a level.
pub open spec fn pow2_shift(level: int) -> int {
    if level == 0 {
        0x80_0000_0000
    } else if level == 1 {
        0x4000_0000
    } else if level == 2 {
        0x20_0000
    } else {
        0x1000
    }
}

/// The address of the entry for `virt` in the level-`level` table at `table`.
pub fn entry_address(table: u64, virt: u64, level: usize) -> (r: u64)
    requires
        level < 4,
        table + 511 * 8 <= u64::MAX,
    ensures
        r == table + table_index(virt, level as int) * 8,
{
    let shift: u64 = if level == 0 {
        39
    } else if level == 1 {
        30
    } else if level == 2 {
        21
    } else {
        12
    };
    let index = (virt >> shift) & 0x1FF;
    assert((virt >> 39u64) & 0x1FF == (virt / 0x80_0000_0000) % 512 && (virt >> 30u64) & 0x1FF == (
    virt / 0x4000_0000) % 512 && (virt >> 21u64) & 0x1FF == (virt / 0x20_0000) % 512 && (virt >> 12u64)
        & 0x1FF == (virt / 0x1000) % 512) by (bit_vector);
    table + index * 8
}

/// The physical address an entry (or CR3) points to: bits 12 to 51.
pub fn entry_frame(entry: u64) -> (r: u64)
    ensures
        r == entry & ADDR_MASK,
{
    entry & ADDR_MASK
}

/// One step of a page-table walk.
#[derive(Clone, Copy, Debug, PartialEq, Eq)]
pub enum WalkStep {
    /// The entry is not present: the address is not mapped.
    Fault,
    /// Continue with the next-level table at this address.
    Next(u64),
    /// The walk ends at this physical address.
    Mapped(u64),
}

/// What the walk does with `entry`, read from the level-`level` table for
/// `virt`: a missing entry faults; a huge-page entry at level 1 or 2, or any
/// entry at level 3, ends the walk at the page's address plus the offset of
/// `virt` within the page; otherwise the walk continues at the table the
/// entry points to.
pub open spec fn walk_spec(virt: u64, level: int, entry: u64) -> WalkStep {
    let addr = entry & ADDR_MASK;
    if entry & PRESENT == 0 {
        WalkStep::Fault
    } else if level == 1 && entry & HUGE != 0 {
        WalkStep::Mapped((addr + virt % 0x4000_0000) as u64)
    } else if level == 2 && entry & HUGE != 0 {
        WalkStep::Mapped((addr + virt % 0x20_0000) as u64)
    } else if level == 3 {
        WalkStep::Mapped((addr + virt % 0x1000) as u64)
    } else {
        WalkStep::Next(addr)
    }
}

/// Decides one step of the page-table walk (see `walk_spec`); a walk ends
/// by its fourth step at the latest.
pub fn walk_step(virt: u64, level: usize, entry: u64) -> (r: WalkStep)
    requires
        level < 4,
    ensures
        r == walk_spec(virt, level as int, entry),
        level == 3 ==> !(r is Next),
{
    if entry & PRESENT == 0 {
        return WalkStep::Fault;
    }
    let addr = entry & ADDR_MASK;
    assert(addr <= ADDR_MASK && virt & 0x3FFF_FFFF == virt % 0x4000_0000 && virt & 0x1F_FFFF == virt
        % 0x20_0000 && virt & 0xFFF == virt % 0x1000) by (bit_vector)
        requires
            addr == entry & ADDR_MASK,
    ;
    if (level == 1 || level == 2) && (entry & HUGE) != 0 {
        let offset_mask: u64 = if level == 1 { 0x3FFF_FFFF } else { 0x1F_FFFF };
        return WalkStep::Mapped(addr + (virt & offset_mask));
    }
    if level == 3 {
        return WalkStep::Mapped(addr + (virt & 0xFFF));
    }
    WalkStep::Next(addr)
}

/// The table the installation of a 4 KiB mapping continues with after reading
/// `entry` at level `level` (0 to 2), or `None` when it must give up: the
/// entry is missing, or (at levels 1 and 2) it maps a huge page.
pub open spec fn map_spec(level: int, entry: u64) -> Option<u64> {
    if entry & PRESENT == 0 || (level >= 1 && entry & HUGE != 0) {
        None
    } else {
        Some(entry & ADDR_MASK)
    }
}

/// Decides one step of installing a 4 KiB mapping (see `map_spec`).
pub fn map_step(level: usize, entry: u64) -> (r: Option<u64>)
    requires
        level < 3,
    ensures
        r == map_spec(level as int, entry),
{
    if entry & PRESENT == 0 {
        return None;
    }
    if level >= 1 && (entry & HUGE) != 0 {
        return None;
    }
    Some(entry & ADDR_MASK)
}

/// The page-table entry that maps a 4 KiB page onto `phys_frame`: present and
/// writable.
pub open spec fn leaf_spec(phys_frame: u64) -> u64 {
    phys_frame | 0b11
}

/// Builds the leaf entry for `phys_frame` (see `leaf_spec`).
pub fn leaf_entry(phys_frame: u64) -> (r: u64)
    ensures
        r == leaf_spec(phys_frame),
{
    phys_frame | 0b11
}

/// The address of the entry for `virt` in the level-`level` table at `table`
/// (as `entry_address` computes it).
pub open spec fn entry_at(table: u64, virt: u64, level: int) -> u64 {
    (table + table_index(virt, level) * 8) as u64
}

/// The physical address the walk from the level-`level` table at `table`
/// resolves `virt` to, with `mem` giving the entry stored at each physical
/// address; `None` when it faults.
pub open spec fn walk_from(mem: Map<u64, u64>, table: u64, virt: u64, level: nat) -> Option<u64>
    decreases 4 - level,
{
    if level >= 4 {
        None
    } else {
        match walk_spec(virt, level as int, mem[entry_at(table, virt, level as int)]) {
            WalkStep::Fault => None,
            WalkStep::Mapped(a) => Some(a),
            WalkStep::Next(t) => walk_from(mem, t, virt, level + 1),
        }
    }
}

/// The address of the level-3 entry that installing a 4 KiB mapping of `virt`
/// writes, walking down from the PML4 at `root`; `None` when the installation
/// gives up (see `map_spec`).
pub open spec fn map_target(mem: Map<u64, u64>, root: u64, virt: u64) -> Option<u64> {
    match map_spec(0, mem[entry_at(root, virt, 0)]) {
        None => None,
        Some(t1) => match map_spec(1, mem[entry_at(t1, virt, 1)]) {
            None => None,
            Some(t2) => match map_spec(2, mem[entry_at(t2, virt, 2)]) {
                None => None,
                Some(t3) => Some(entry_at(t3, virt, 3)),
            },
        },
    }
}

/// The addresses of the three upper-level entries the installation reads
/// (when it gets that far).
pub open spec fn map_path(mem: Map<u64, u64>, root: u64, virt: u64) -> Set<u64> {
    let a0 = entry_at(root, virt, 0);
    match map_spec(0, mem[a0]) {
        None => set![a0],
        Some(t1) => {
            let a1 = entry_at(t1, virt, 1);
            match map_spec(1, mem[a1]) {
                None => set![a0, a1],
                Some(t2) => set![a0, a1, entry_at(t2, virt, 2)],
            }
        },
    }
}

/// The entries after installing a 4 KiB mapping of `virt` onto `frame`: the
/// level-3 entry the installation reaches gets the leaf entry for `frame`;
/// when the installation gives up, nothing changes.
pub open spec fn mapped(mem: Map<u64, u64>, root: u64, virt: u64, frame: u64) -> Map<u64, u64> {
    match map_target(mem, root, virt) {
        Some(a) => mem.insert(a, leaf_spec(frame)),
        None => mem,
    }
}

/// Installing a 4 KiB mapping of `virt` onto the page-aligned `frame`: when
/// the installation gives up, no entry changes; otherwise only the level-3
/// entry it reaches changes, and walking the tables for `virt` afterwards
/// gives `frame` plus the offset of `virt` within its page, provided that
/// entry is not one of the upper-level entries read on the way down.
pub proof fn lemma_walk_after_map(mem: Map<u64, u64>, root: u64, virt: u64, frame: u64)
    requires
        map_target(mem, root, virt) is Some ==> !map_path(mem, root, virt).contains(
            map_target(mem, root, virt)->0,
        ),
        frame % 0x1000 == 0,
        frame <= ADDR_MASK,
    ensures
        map_target(mem, root, virt) is None ==> mapped(mem, root, virt, frame) == mem,
        map_target(mem, root, virt) matches Some(t) ==> mapped(mem, root, virt, frame)[t] == leaf_spec(
            frame,
        ) && forall|a: u64| a != t ==> #[trigger] mapped(mem, root, virt, frame)[a] == mem[a],
        map_target(mem, root, virt) is Some ==> walk_from(mapped(mem, root, virt, frame), root, virt, 0)
            == Some((frame + virt % 0x1000) as u64),
{
    if map_target(mem, root, virt) is Some {
        let a = map_target(mem, root, virt)->0;
        let m2 = mem.insert(a, leaf_spec(frame));
        let a0 = entry_at(root, virt, 0);
        let t1 = map_spec(0, mem[a0])->0;
        let a1 = entry_at(t1, virt, 1);
        let t2 = map_spec(1, mem[a1])->0;
        let a2 = entry_at(t2, virt, 2);
        let t3 = map_spec(2, mem[a2])->0;
        assert(a == entry_at(t3, virt, 3));
        assert(map_path(mem, root, virt).contains(a0));
        assert(map_path(mem, root, virt).contains(a1));
        assert(map_path(mem, root, virt).contains(a2));
        assert(m2[a0] == mem[a0] && m2[a1] == mem[a1] && m2[a2] == mem[a2] && m2[a] == leaf_spec(frame));
        let e0 = mem[a0];
        let e1 = mem[a1];
        let e2 = mem[a2];
        let leaf = leaf_spec(frame);
        assert(e0 & PRESENT != 0 && walk_spec(virt, 0, e0) == WalkStep::Next(t1));
        assert(e1 & PRESENT != 0 && e1 & HUGE == 0 && walk_spec(virt, 1, e1) == WalkStep::Next(t2));
        assert(e2 & PRESENT != 0 && e2 & HUGE == 0 && walk_spec(virt, 2, e2) == WalkStep::Next(t3));
        assert(leaf & PRESENT != 0 && leaf & ADDR_MASK == frame) by (bit_vector)
            requires
                leaf == frame | 3,
                frame % 0x1000 == 0,
                frame <= 0x000F_FFFF_FFFF_F000u64,
        ;
        assert(walk_spec(virt, 3, leaf) == WalkStep::Mapped((frame + virt % 0x1000) as u64));
        assert(walk_from(m2, t3, virt, 3) == Some((frame + virt % 0x1000) as u64));
        assert(walk_from(m2, t2, virt, 2) == walk_from(m2, t3, virt, 3));
        assert(walk_from(m2, t1, virt, 1) == walk_from(m2, t2, virt, 2));
        assert(walk_from(m2, root, virt, 0) == walk_from(m2, t1, virt, 1));
    }
}

} // verus!
