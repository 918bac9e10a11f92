//! Register writes that a driver issues to a memory-mapped device, described
//! as data so that the order and values can be stated and checked.
use vstd::prelude::*;

verus! {

/// One write of `value` to the device register at byte `offset` from the
/// device's base, `width` bytes wide (1, 2, 4 or 8).
#[derive(Clone, Copy, Debug, PartialEq, Eq)]
pub struct RegWrite {
    pub offset: u64,
    pub width: u8,
    pub value: u64,
}

/// A 32-bit register write.
pub open spec fn w32(offset: u64, value: u32) -> RegWrite {
    RegWrite { offset, width: 4, value: value as u64 }
}

/// Builds a 32-bit register write.
pub fn reg32(offset: u64, value: u32) -> (r: RegWrite)
    ensures
        r == w32(offset, value),
{
    RegWrite { offset, width: 4, value: value as u64 }
}

/// Builds a register write of `width` bytes.
pub fn reg(offset: u64, width: u8, value: u64) -> (r: RegWrite)
    ensures
        r == (RegWrite { offset, width, value }),
{
    RegWrite { offset, width, value }
}

/// The absolute address of the register at `offset` of a device whose
/// registers start at `base`.
pub fn register_address(base: u64, offset: u64) -> (r: u64)
    requires
        base + offset <= u64::MAX,
    ensures
        r == base + offset,
{
    base + offset
}

/// The count of polling rounds after one more, or `None` once `limit` rounds
/// have passed.
pub open spec fn wait_spec(waited: u32, limit: u32) -> Option<u32> {
    if waited < limit { Some((waited + 1) as u32) } else { None }
}

/// One more round of polling a device register: the count of rounds so far
/// grows by one, or polling gives up once `limit` rounds have passed.
pub fn next_wait(waited: u32, limit: u32) -> (r: Option<u32>)
    ensures
        r == wait_spec(waited, limit),
{
    if waited < limit {
        Some(waited + 1)
    } else {
        None
    }
}

} // verus!
