//! Intel High Definition Audio controller: reset handshake and the CORB/RIRB
//! command-ring setup.
use vstd::prelude::*;
use crate::mmio::{RegWrite, next_wait, reg, w32, wait_spec};

verus! {

/// The HDA driver state: register base and the two DMA rings.
pub struct IntelHda {
    bar0: u64,
    pub corb_ptr: u64,
    pub rirb_ptr: u64,
}

/// An 8-bit register write.
pub open spec fn w8(offset: u64, value: u8) -> RegWrite {
    RegWrite { offset, width: 1, value: value as u64 }
}

/// A 16-bit register write.
pub open spec fn w16(offset: u64, value: u16) -> RegWrite {
    RegWrite { offset, width: 2, value: value as u64 }
}


/// The writes that stop both rings, program their base addresses (low and
/// high halves), select 256-entry rings and reset the CORB read pointer.
pub open spec fn ring_setup_spec(corb: u64, rirb: u64) -> Seq<RegWrite> {
    seq![
        w8(0x4C, 0),
        w8(0x5C, 0),
        w32(0x40, (corb % 0x1_0000_0000) as u32),
        w32(0x44, (corb / 0x1_0000_0000) as u32),
        w32(0x50, (rirb % 0x1_0000_0000) as u32),
        w32(0x54, (rirb / 0x1_0000_0000) as u32),
        w8(0x4E, 0x02),
        w8(0x5E, 0x02),
        w16(0x4A, 0x8000),
    ]
}

/// The writes, after the reset settles, that clear the CORB read-pointer
/// reset, clear the CORB write pointer, reset the RIRB write pointer and
/// start both rings.
pub open spec fn ring_start_spec() -> Seq<RegWrite> {
    seq![w16(0x4A, 0), w16(0x48, 0), w16(0x58, 0x8000), w8(0x4C, 0x02), w8(0x5C, 0x02)]
}

impl IntelHda {
    /// The register base.
    pub closed spec fn base(&self) -> u64 {
        self.bar0
    }

    /// The command outbound ring's address.
    pub closed spec fn corb(&self) -> u64 {
        self.corb_ptr
    }

    /// The response inbound ring's address.
    pub closed spec fn rirb(&self) -> u64 {
        self.rirb_ptr
    }

    /// A driver for the controller whose registers start at `bar0`.
    pub fn new(bar0: u64) -> (r: Self)
        ensures
            r.base() == bar0 && r.corb() == 0 && r.rirb() == 0,
    {
        IntelHda { bar0, corb_ptr: 0, rirb_ptr: 0 }
    }

    /// The absolute address of the register at `offset`.
    pub fn register_address(&self, offset: u64) -> (r: u64)
        requires
            self.base() + offset <= u64::MAX,
        ensures
            r == self.base() + offset,
    {
        self.bar0 + offset
    }

    /// Whether the global control register shows the controller out of reset.
    pub fn controller_awake(gctl: u32) -> (r: bool)
        ensures
            r == (gctl & 1 != 0),
    {
        gctl & 1 != 0
    }

    /// Whether the state-change status register shows a codec on the link.
    pub fn codec_present(statests: u16) -> (r: bool)
        ensures
            r == (statests != 0),
    {
        statests != 0
    }

    /// Records the rings at `corb` and `rirb` and returns the first part of
    /// their setup (see `ring_setup_spec`).
    pub fn ring_setup(&mut self, corb: u64, rirb: u64) -> (writes: Vec<RegWrite>)
        ensures
            final(self).base() == old(self).base(),
            final(self).corb() == corb && final(self).rirb() == rirb,
            writes@ == ring_setup_spec(corb, rirb),
    {
        self.corb_ptr = corb;
        self.rirb_ptr = rirb;
        assert(corb & 0xFFFF_FFFF == corb % 0x1_0000_0000 && corb >> 32 == corb / 0x1_0000_0000)
            by (bit_vector);
        assert(rirb & 0xFFFF_FFFF == rirb % 0x1_0000_0000 && rirb >> 32 == rirb / 0x1_0000_0000)
            by (bit_vector);
        let mut w: Vec<RegWrite> = Vec::new();
        w.push(reg(0x4C, 1, 0));
        w.push(reg(0x5C, 1, 0));
        w.push(reg(0x40, 4, ((corb & 0xFFFF_FFFF) as u32) as u64));
        w.push(reg(0x44, 4, ((corb >> 32) as u32) as u64));
        w.push(reg(0x50, 4, ((rirb & 0xFFFF_FFFF) as u32) as u64));
        w.push(reg(0x54, 4, ((rirb >> 32) as u32) as u64));
        w.push(reg(0x4E, 1, 0x02));
        w.push(reg(0x5E, 1, 0x02));
        w.push(reg(0x4A, 2, 0x8000));
        assert(w@ =~= ring_setup_spec(corb, rirb));
        w
    }

    /// The rest of the ring setup (see `ring_start_spec`).
    pub fn ring_start(&self) -> (writes: Vec<RegWrite>)
        ensures
            writes@ == ring_start_spec(),
    {
        let mut w: Vec<RegWrite> = Vec::new();
        w.push(reg(0x4A, 2, 0));
        w.push(reg(0x48, 2, 0));
        w.push(reg(0x58, 2, 0x8000));
        w.push(reg(0x4C, 1, 0x02));
        w.push(reg(0x5C, 1, 0x02));
        assert(w@ =~= ring_start_spec());
        w
    }
}


/// Rounds the driver polls for the controller to leave reset.
pub const HDA_RESET_LIMIT: u32 = 10_000_000;

/// What the driver does after reading the global control register while it
/// waits for the controller to leave reset.
#[derive(Clone, Copy, Debug, PartialEq, Eq)]
pub enum HdaReset {
    /// The controller is awake: go on with the rings.
    Awake,
    /// Wait one more round; this many rounds have passed.
    Wait(u32),
    /// The controller stayed in reset: report it and stop.
    TimedOut,
}

/// The reset wait's decision after `waited` rounds, reading `gctl`.
pub open spec fn hda_reset_spec(waited: u32, gctl: u32) -> HdaReset {
    if gctl & 1 != 0 {
        HdaReset::Awake
    } else {
        match wait_spec(waited, HDA_RESET_LIMIT) {
            Some(n) => HdaReset::Wait(n),
            None => HdaReset::TimedOut,
        }
    }
}

/// Decides the next move of the reset wait (see `hda_reset_spec`).
pub fn hda_reset_step(waited: u32, gctl: u32) -> (r: HdaReset)
    ensures
        r == hda_reset_spec(waited, gctl),
{
    if IntelHda::controller_awake(gctl) {
        HdaReset::Awake
    } else {
        match next_wait(waited, HDA_RESET_LIMIT) {
            Some(n) => HdaReset::Wait(n),
            None => HdaReset::TimedOut,
        }
    }
}

} // verus!
