//! NVMe controller: the admin and I/O queue bookkeeping, the submission
//! commands the driver builds, completion decoding, and the identify data.
use vstd::prelude::*;
use crate::mmio::{RegWrite, next_wait, reg, wait_spec};
use crate::wire::{le16, le32, le64_bytes, le32_bytes, push_le32, push_le64, read_le16, read_le32};

verus! {

/// Entries per queue.
pub const QUEUE_ENTRIES: u32 = 16;

/// A 64-byte submission-queue entry.
#[derive(Clone, Copy, Debug, PartialEq, Eq)]
pub struct NvmeCmd {
    pub cdw0: u32,
    pub nsid: u32,
    pub reserved: u64,
    pub mptr: u64,
    pub prp1: u64,
    pub prp2: u64,
    pub cdw10: u32,
    pub cdw11: u32,
    pub cdw12: u32,
    pub cdw13: u32,
    pub cdw14: u32,
    pub cdw15: u32,
}

/// A 16-byte completion-queue entry.
#[derive(Clone, Copy, Debug, PartialEq, Eq)]
pub struct NvmeCompletion {
    pub cdw0: u32,
    pub reserved: u32,
    pub sqhead: u16,
    pub sqid: u16,
    pub cid: u16,
    pub status: u16,
}

/// The 64 little-endian bytes of a submission entry.
pub open spec fn cmd_bytes(c: NvmeCmd) -> Seq<u8> {
    le32_bytes(c.cdw0 as int) + le32_bytes(c.nsid as int) + le64_bytes(c.reserved as int) + le64_bytes(
        c.mptr as int,
    ) + le64_bytes(c.prp1 as int) + le64_bytes(c.prp2 as int) + le32_bytes(c.cdw10 as int)
        + le32_bytes(c.cdw11 as int) + le32_bytes(c.cdw12 as int) + le32_bytes(c.cdw13 as int)
        + le32_bytes(c.cdw14 as int) + le32_bytes(c.cdw15 as int)
}

/// A command with the given opcode-and-id dword, namespace, data pointer and
/// command dwords 10 and 11; every other field zero.
pub open spec fn command(cdw0: u32, nsid: u32, prp1: u64, cdw10: u32, cdw11: u32) -> NvmeCmd {
    NvmeCmd {
        cdw0,
        nsid,
        reserved: 0,
        mptr: 0,
        prp1,
        prp2: 0,
        cdw10,
        cdw11,
        cdw12: 0,
        cdw13: 0,
        cdw14: 0,
        cdw15: 0,
    }
}

fn make_command(cdw0: u32, nsid: u32, prp1: u64, cdw10: u32, cdw11: u32) -> (r: NvmeCmd)
    ensures
        r == command(cdw0, nsid, prp1, cdw10, cdw11),
{
    NvmeCmd {
        cdw0,
        nsid,
        reserved: 0,
        mptr: 0,
        prp1,
        prp2: 0,
        cdw10,
        cdw11,
        cdw12: 0,
        cdw13: 0,
        cdw14: 0,
        cdw15: 0,
    }
}

impl NvmeCmd {
    /// Encodes the entry as its 64 little-endian bytes.
    pub fn to_bytes(&self) -> (r: Vec<u8>)
        ensures
            r@ == cmd_bytes(*self),
    {
        let mut v: Vec<u8> = Vec::new();
        push_le32(&mut v, self.cdw0);
        push_le32(&mut v, self.nsid);
        push_le64(&mut v, self.reserved);
        push_le64(&mut v, self.mptr);
        push_le64(&mut v, self.prp1);
        push_le64(&mut v, self.prp2);
        push_le32(&mut v, self.cdw10);
        push_le32(&mut v, self.cdw11);
        push_le32(&mut v, self.cdw12);
        push_le32(&mut v, self.cdw13);
        push_le32(&mut v, self.cdw14);
        push_le32(&mut v, self.cdw15);
        v
    }
}

impl NvmeCompletion {
    /// Decodes a completion entry from its 16 little-endian bytes.
    pub fn from_bytes(b: &[u8]) -> (r: Self)
        requires
            b@.len() >= 16,
        ensures
            r.cdw0 == le32(b@, 0),
            r.reserved == le32(b@, 4),
            r.sqhead == le16(b@, 8),
            r.sqid == le16(b@, 10),
            r.cid == le16(b@, 12),
            r.status == le16(b@, 14),
    {
        NvmeCompletion {
            cdw0: read_le32(b, 0),
            reserved: read_le32(b, 4),
            sqhead: read_le16(b, 8),
            sqid: read_le16(b, 10),
            cid: read_le16(b, 12),
            status: read_le16(b, 14),
        }
    }

    /// Whether the controller has posted this entry (phase bit set).
    pub fn is_posted(&self) -> (r: bool)
        ensures
            r == (self.status & 1 != 0),
    {
        self.status & 1 != 0
    }
}

/// Whether a status register value shows a controller at all (an absent one
/// reads all ones).
pub fn controller_present(csts: u32) -> (r: bool)
    ensures
        r == (csts != 0xFFFF_FFFF),
{
    csts != 0xFFFF_FFFF
}

/// Whether the controller status register shows the controller ready.
pub fn controller_ready(csts: u32) -> (r: bool)
    ensures
        r == (csts & 1 != 0),
{
    csts & 1 != 0
}

/// The controller configuration with the enable bit cleared.
pub fn disable_config(cc: u32) -> (r: u32)
    ensures
        r == cc & 0xFFFF_FFFE,
{
    cc & 0xFFFF_FFFE
}

/// The command that creates I/O completion queue 1 (16 entries) at `iocq`.
pub open spec fn create_io_cq_command(iocq: u64) -> NvmeCmd {
    command(0x0001_0005, 0, iocq, 0x000F_0001, 1)
}

/// The command that creates I/O submission queue 1 (16 entries) at `iosq`,
/// bound to completion queue 1.
pub open spec fn create_io_sq_command(iosq: u64) -> NvmeCmd {
    command(0x0002_0001, 0, iosq, 0x000F_0001, 0x0001_0001)
}

/// The identify-controller command returning its data to `data`.
pub open spec fn identify_command(data: u64) -> NvmeCmd {
    command(0x00AA_0006, 0, data, 1, 0)
}

/// The command that reads logical block `lba` of namespace 1 into `data`,
/// with command id `cid`.
pub open spec fn read_command(cid: u32, lba: u64, data: u64) -> NvmeCmd {
    command(
        (2 + cid * 0x10000) as u32,
        1,
        data,
        (lba % 0x1_0000_0000) as u32,
        (lba / 0x1_0000_0000) as u32,
    )
}

/// The identify data's printable bytes (32 to 126) of `data[start..start + len]`,
/// in order.
pub open spec fn printable(data: Seq<u8>, start: int, len: int) -> Seq<u8>
    decreases len,
{
    if len <= 0 {
        Seq::empty()
    } else {
        let b = data[start + len - 1];
        printable(data, start, len - 1) + if 32 <= b <= 126 {
            seq![b]
        } else {
            Seq::empty()
        }
    }
}

/// Keeps the printable bytes of `data[start..start + len]` (see `printable`).
pub fn printable_bytes(data: &[u8], start: usize, len: usize) -> (r: Vec<u8>)
    requires
        start + len <= data@.len(),
    ensures
        r@ == printable(data@, start as int, len as int),
        forall|i: int| 0 <= i < r@.len() ==> 32 <= #[trigger] r@[i] <= 126,
{
    let mut out: Vec<u8> = Vec::new();
    let _n = data.len();
    let mut i: usize = 0;
    while i < len
        invariant
            i <= len,
            data@.len() <= usize::MAX,
            start + len <= data@.len(),
            out@ == printable(data@, start as int, i as int),
            forall|k: int| 0 <= k < out@.len() ==> 32 <= #[trigger] out@[k] <= 126,
        decreases len - i,
    {
        let b = data[start + i];
        if b >= 32 && b <= 126 {
            out.push(b);
        }
        i = i + 1;
    }
    out
}

/// The model number (bytes 24..64) and serial number (bytes 4..24) of
/// identify-controller data, each without its non-printable bytes.
pub fn identify_strings(data: &[u8]) -> (r: (Vec<u8>, Vec<u8>))
    requires
        data@.len() >= 64,
    ensures
        r.0@ == printable(data@, 24, 40),
        r.1@ == printable(data@, 4, 20),
{
    (printable_bytes(data, 24, 40), printable_bytes(data, 4, 20))
}

/// The NVMe driver state: register base, queue addresses and the I/O queue
/// cursors.
pub struct Nvme {
    bar0: u64,
    pub asq_ptr: u64,
    pub acq_ptr: u64,
    pub iosq_ptr: u64,
    pub iocq_ptr: u64,
    pub iosq_tail: u32,
    pub iocq_head: u32,
}

/// Where the driver submitted a read.
#[derive(Clone, Copy, Debug, PartialEq, Eq)]
pub struct ReadSubmission {
    /// Submission-queue slot of the command; the driver also clears the
    /// completion entry of this index before ringing the doorbell.
    pub slot: usize,
    /// The command to write into the slot.
    pub cmd: NvmeCmd,
    /// The value for the I/O submission-queue tail doorbell (offset 0x1008).
    pub sq_tail: u32,
    /// The completion-queue slot to wait on.
    pub cq_slot: usize,
}

impl Nvme {
    /// The register base.
    pub closed spec fn base(&self) -> u64 {
        self.bar0
    }

    /// The admin submission queue's address.
    pub closed spec fn asq(&self) -> u64 {
        self.asq_ptr
    }

    /// The admin completion queue's address.
    pub closed spec fn acq(&self) -> u64 {
        self.acq_ptr
    }

    /// The I/O submission queue's address.
    pub closed spec fn iosq(&self) -> u64 {
        self.iosq_ptr
    }

    /// The I/O completion queue's address.
    pub closed spec fn iocq(&self) -> u64 {
        self.iocq_ptr
    }

    /// The I/O submission-queue tail.
    pub closed spec fn sq_tail(&self) -> u32 {
        self.iosq_tail
    }

    /// The I/O completion-queue head.
    pub closed spec fn cq_head(&self) -> u32 {
        self.iocq_head
    }

    /// A driver for the controller whose registers start at `bar0`, with no
    /// queues yet.
    pub fn new(bar0: u64) -> (r: Self)
        ensures
            r.base() == bar0,
            r.asq() == 0 && r.acq() == 0 && r.iosq() == 0 && r.iocq() == 0,
            r.sq_tail() == 0 && r.cq_head() == 0,
    {
        Nvme { bar0, asq_ptr: 0, acq_ptr: 0, iosq_ptr: 0, iocq_ptr: 0, iosq_tail: 0, iocq_head: 0 }
    }

    /// The absolute address of the register at `offset`.
    pub fn register_address(&self, offset: u64) -> (r: u64)
        requires
            self.base() + offset <= u64::MAX,
        ensures
            r == self.base() + offset,
    {
        self.bar0 + offset
    }

    /// Records the four queues and returns the register writes that set up the
    /// admin queues and enable the controller: admin queue attributes (16
    /// entries each), admin submission and completion queue bases, and the
    /// configuration (enable, 64-byte submission and 16-byte completion
    /// entries).
    pub fn init_queues(&mut self, asq: u64, acq: u64, iosq: u64, iocq: u64) -> (writes: Vec<RegWrite>)
        ensures
            final(self).base() == old(self).base(),
            final(self).asq() == asq && final(self).acq() == acq,
            final(self).iosq() == iosq && final(self).iocq() == iocq,
            final(self).sq_tail() == old(self).sq_tail() && final(self).cq_head() == old(self).cq_head(),
            writes@ == seq![
                RegWrite { offset: 0x24, width: 4, value: 0x000F_000F },
                RegWrite { offset: 0x28, width: 8, value: asq },
                RegWrite { offset: 0x30, width: 8, value: acq },
                RegWrite { offset: 0x14, width: 4, value: 0x0046_0001 },
            ],
    {
        self.asq_ptr = asq;
        self.acq_ptr = acq;
        self.iosq_ptr = iosq;
        self.iocq_ptr = iocq;
        let n: u32 = QUEUE_ENTRIES - 1;
        let aqa: u32 = (n << 16) | n;
        let cc: u32 = (1u32 << 0) | (6u32 << 16) | (4u32 << 20);
        assert(aqa == 0x000F_000F && cc == 0x0046_0001) by (bit_vector)
            requires
                n == 15,
                aqa == (n << 16) | n,
                cc == (1u32 << 0) | (6u32 << 16) | (4u32 << 20),
        ;
        let mut w: Vec<RegWrite> = Vec::new();
        w.push(reg(0x24, 4, aqa as u64));
        w.push(reg(0x28, 8, asq));
        w.push(reg(0x30, 8, acq));
        w.push(reg(0x14, 4, cc as u64));
        assert(w@ =~= seq![
            RegWrite { offset: 0x24, width: 4, value: 0x000F_000F },
            RegWrite { offset: 0x28, width: 8, value: asq },
            RegWrite { offset: 0x30, width: 8, value: acq },
            RegWrite { offset: 0x14, width: 4, value: 0x0046_0001 },
        ]);
        w
    }

    /// The admin command that creates the I/O completion queue.
    pub fn create_io_cq_cmd(&self) -> (r: NvmeCmd)
        ensures
            r == create_io_cq_command(self.iocq()),
    {
        make_command(0x0001_0005, 0, self.iocq_ptr, 0x000F_0001, 1)
    }

    /// The admin command that creates the I/O submission queue.
    pub fn create_io_sq_cmd(&self) -> (r: NvmeCmd)
        ensures
            r == create_io_sq_command(self.iosq()),
    {
        make_command(0x0002_0001, 0, self.iosq_ptr, 0x000F_0001, 0x0001_0001)
    }

    /// The admin identify-controller command writing to `data_ptr`.
    pub fn identify_cmd(&self, data_ptr: u64) -> (r: NvmeCmd)
        ensures
            r == identify_command(data_ptr),
    {
        make_command(0x00AA_0006, 0, data_ptr, 1, 0)
    }

    /// Submits a read of logical block `lba` into `data_ptr` at the I/O
    /// submission tail (the slot number doubles as the command id), advancing
    /// the tail around the ring of 16; returns where to write the command,
    /// the new tail for the doorbell, and the completion slot to wait on.
    pub fn submit_read(&mut self, lba: u64, data_ptr: u64) -> (r: ReadSubmission)
        requires
            old(self).sq_tail() < QUEUE_ENTRIES,
            old(self).cq_head() < QUEUE_ENTRIES,
        ensures
            r.slot == old(self).sq_tail(),
            r.cmd == read_command(old(self).sq_tail() as u32, lba, data_ptr),
            final(self).sq_tail() == (old(self).sq_tail() + 1) % 16,
            r.sq_tail == final(self).sq_tail(),
            r.cq_slot == old(self).cq_head(),
            final(self).cq_head() == old(self).cq_head(),
            final(self).base() == old(self).base(),
            final(self).asq() == old(self).asq() && final(self).acq() == old(self).acq(),
            final(self).iosq() == old(self).iosq() && final(self).iocq() == old(self).iocq(),
    {
        let cmd_idx = self.iosq_tail as usize;
        let cdw10 = (lba & 0xFFFF_FFFF) as u32;
        let cdw11 = (lba >> 32) as u32;
        assert(lba & 0xFFFF_FFFF == lba % 0x1_0000_0000 && lba >> 32 == lba / 0x1_0000_0000) by (bit_vector);
        let cid = cmd_idx as u32;
        assert(0x02 | (cid << 16) == 2 + cid * 0x10000) by (bit_vector)
            requires
                cid < 16,
        ;
        let cmd = make_command(0x02 | (cid << 16), 1, data_ptr, cdw10, cdw11);
        self.iosq_tail = (self.iosq_tail + 1) % QUEUE_ENTRIES;
        ReadSubmission {
            slot: cmd_idx,
            cmd,
            sq_tail: self.iosq_tail,
            cq_slot: self.iocq_head as usize,
        }
    }

    /// Acknowledges the completion at the head of the I/O completion queue,
    /// advancing the head around the ring of 16; returns the new head for the
    /// completion doorbell (offset 0x100C).
    pub fn complete_read(&mut self) -> (head: u32)
        requires
            old(self).cq_head() < QUEUE_ENTRIES,
        ensures
            final(self).cq_head() == (old(self).cq_head() + 1) % 16,
            head == final(self).cq_head(),
            final(self).sq_tail() == old(self).sq_tail(),
            final(self).base() == old(self).base(),
            final(self).asq() == old(self).asq() && final(self).acq() == old(self).acq(),
            final(self).iosq() == old(self).iosq() && final(self).iocq() == old(self).iocq(),
    {
        self.iocq_head = (self.iocq_head + 1) % QUEUE_ENTRIES;
        self.iocq_head
    }
}


/// Rounds the driver polls the status register or a completion before it
/// gives up on it.
pub const NVME_WAIT_LIMIT: u32 = 10_000_000;

/// Where the start-up of the drive stands; `waited` counts the polling rounds
/// of the current wait.
#[derive(Clone, Copy, Debug, PartialEq, Eq)]
pub enum NvmeStartup {
    /// Nothing decided yet.
    Probe,
    /// Disabled; waiting for the ready bit to clear.
    Disabling { waited: u32 },
    /// Admin queues set up and enabled; waiting for the ready bit to set.
    Enabling { waited: u32 },
    /// Waiting for the completion of the create-completion-queue command.
    CreatingCq { waited: u32 },
    /// Waiting for the completion of the create-submission-queue command.
    CreatingSq { waited: u32 },
    /// The drive is ready.
    Ready,
    /// Start-up has ended without a drive.
    Stopped,
}

/// What the driver has seen since its last action: the controller status
/// register, or whether the completion it waits for is posted.
#[derive(Clone, Copy, Debug, PartialEq, Eq)]
pub enum NvmeSeen {
    Status(u32),
    Posted(bool),
}

/// What the driver does next.
#[derive(Clone, Copy, Debug, PartialEq, Eq)]
pub enum NvmeStep {
    /// Clear the enable bit of the configuration, then read the status.
    Disable,
    /// Wait one round, then read the status again.
    PollStatus,
    /// Set up and enable the admin queues (see `init_queues`), then read the
    /// status.
    SetUpQueues,
    /// Submit the create-completion-queue command in admin slot 0, then look
    /// at its completion.
    CreateCq,
    /// Wait one round, then look again at the completion in this admin slot.
    PollCompletion(u32),
    /// Acknowledge the first completion, submit the create-submission-queue
    /// command in admin slot 1, then look at its completion.
    CreateSq,
    /// Acknowledge the second completion and announce the drive.
    Finish,
    /// Do nothing more.
    Stop,
}

/// One step of the start-up: from where it stands and what the driver saw,
/// where it goes and what the driver does. An absent controller stops it; a
/// ready bit that does not clear, or does not set, within the limit stops it
/// too; a command completion that does not come within the limit is not
/// waited for any longer. An observation of the wrong kind stops it.
pub open spec fn nvme_startup_spec(s: NvmeStartup, seen: NvmeSeen) -> (NvmeStartup, NvmeStep) {
    match (s, seen) {
        (NvmeStartup::Probe, NvmeSeen::Status(csts)) => if csts != 0xFFFF_FFFF {
            (NvmeStartup::Disabling { waited: 0 }, NvmeStep::Disable)
        } else {
            (NvmeStartup::Stopped, NvmeStep::Stop)
        },
        (NvmeStartup::Disabling { waited }, NvmeSeen::Status(csts)) => if csts & 1 == 0 {
            (NvmeStartup::Enabling { waited: 0 }, NvmeStep::SetUpQueues)
        } else {
            match wait_spec(waited, NVME_WAIT_LIMIT) {
                Some(n) => (NvmeStartup::Disabling { waited: n }, NvmeStep::PollStatus),
                None => (NvmeStartup::Stopped, NvmeStep::Stop),
            }
        },
        (NvmeStartup::Enabling { waited }, NvmeSeen::Status(csts)) => if csts & 1 != 0 {
            (NvmeStartup::CreatingCq { waited: 0 }, NvmeStep::CreateCq)
        } else {
            match wait_spec(waited, NVME_WAIT_LIMIT) {
                Some(n) => (NvmeStartup::Enabling { waited: n }, NvmeStep::PollStatus),
                None => (NvmeStartup::Stopped, NvmeStep::Stop),
            }
        },
        (NvmeStartup::CreatingCq { waited }, NvmeSeen::Posted(posted)) => match (
            posted,
            wait_spec(waited, NVME_WAIT_LIMIT),
        ) {
            (false, Some(n)) => (NvmeStartup::CreatingCq { waited: n }, NvmeStep::PollCompletion(0)),
            _ => (NvmeStartup::CreatingSq { waited: 0 }, NvmeStep::CreateSq),
        },
        (NvmeStartup::CreatingSq { waited }, NvmeSeen::Posted(posted)) => match (
            posted,
            wait_spec(waited, NVME_WAIT_LIMIT),
        ) {
            (false, Some(n)) => (NvmeStartup::CreatingSq { waited: n }, NvmeStep::PollCompletion(1)),
            _ => (NvmeStartup::Ready, NvmeStep::Finish),
        },
        (NvmeStartup::Ready, _) => (NvmeStartup::Ready, NvmeStep::Stop),
        _ => (NvmeStartup::Stopped, NvmeStep::Stop),
    }
}

/// Takes one step of the drive's start-up (see `nvme_startup_spec`).
pub fn nvme_startup_step(s: NvmeStartup, seen: NvmeSeen) -> (r: (NvmeStartup, NvmeStep))
    ensures
        r == nvme_startup_spec(s, seen),
{
    match (s, seen) {
        (NvmeStartup::Probe, NvmeSeen::Status(csts)) => if controller_present(csts) {
            (NvmeStartup::Disabling { waited: 0 }, NvmeStep::Disable)
        } else {
            (NvmeStartup::Stopped, NvmeStep::Stop)
        },
        (NvmeStartup::Disabling { waited }, NvmeSeen::Status(csts)) => if !controller_ready(csts) {
            (NvmeStartup::Enabling { waited: 0 }, NvmeStep::SetUpQueues)
        } else {
            match next_wait(waited, NVME_WAIT_LIMIT) {
                Some(n) => (NvmeStartup::Disabling { waited: n }, NvmeStep::PollStatus),
                None => (NvmeStartup::Stopped, NvmeStep::Stop),
            }
        },
        (NvmeStartup::Enabling { waited }, NvmeSeen::Status(csts)) => if controller_ready(csts) {
            (NvmeStartup::CreatingCq { waited: 0 }, NvmeStep::CreateCq)
        } else {
            match next_wait(waited, NVME_WAIT_LIMIT) {
                Some(n) => (NvmeStartup::Enabling { waited: n }, NvmeStep::PollStatus),
                None => (NvmeStartup::Stopped, NvmeStep::Stop),
            }
        },
        (NvmeStartup::CreatingCq { waited }, NvmeSeen::Posted(posted)) => match (
            posted,
            next_wait(waited, NVME_WAIT_LIMIT),
        ) {
            (false, Some(n)) => (NvmeStartup::CreatingCq { waited: n }, NvmeStep::PollCompletion(0)),
            _ => (NvmeStartup::CreatingSq { waited: 0 }, NvmeStep::CreateSq),
        },
        (NvmeStartup::CreatingSq { waited }, NvmeSeen::Posted(posted)) => match (
            posted,
            next_wait(waited, NVME_WAIT_LIMIT),
        ) {
            (false, Some(n)) => (NvmeStartup::CreatingSq { waited: n }, NvmeStep::PollCompletion(1)),
            _ => (NvmeStartup::Ready, NvmeStep::Finish),
        },
        (NvmeStartup::Ready, _) => (NvmeStartup::Ready, NvmeStep::Stop),
        _ => (NvmeStartup::Stopped, NvmeStep::Stop),
    }
}

/// The number of polling rounds the start-up has spent in its current wait
/// (0 outside a wait).
pub open spec fn nvme_waited(s: NvmeStartup) -> int {
    match s {
        NvmeStartup::Disabling { waited } => waited as int,
        NvmeStartup::Enabling { waited } => waited as int,
        NvmeStartup::CreatingCq { waited } => waited as int,
        NvmeStartup::CreatingSq { waited } => waited as int,
        _ => 0,
    }
}

/// Whether two start-up states are in the same phase.
pub open spec fn same_phase(a: NvmeStartup, b: NvmeStartup) -> bool {
    ||| a is Probe && b is Probe
    ||| a is Disabling && b is Disabling
    ||| a is Enabling && b is Enabling
    ||| a is CreatingCq && b is CreatingCq
    ||| a is CreatingSq && b is CreatingSq
    ||| a is Ready && b is Ready
    ||| a is Stopped && b is Stopped
}

/// Every wait of the start-up ends: a step that stays in a waiting phase
/// counts one more round, and no wait counts past the limit. The drive is
/// announced ready only after both queue-creation commands, and once start-up
/// has ended it stays ended.
pub proof fn lemma_nvme_startup(s: NvmeStartup, seen: NvmeSeen)
    requires
        nvme_waited(s) <= NVME_WAIT_LIMIT,
    ensures
        nvme_waited(nvme_startup_spec(s, seen).0) <= NVME_WAIT_LIMIT,
        same_phase(s, nvme_startup_spec(s, seen).0) && !(s is Ready) && !(s is Stopped) ==> nvme_waited(
            nvme_startup_spec(s, seen).0,
        ) == nvme_waited(s) + 1,
        nvme_startup_spec(s, seen).1 == NvmeStep::Finish ==> s is CreatingSq && nvme_startup_spec(
            s,
            seen,
        ).0 is Ready,
        s is Ready ==> nvme_startup_spec(s, seen) == (NvmeStartup::Ready, NvmeStep::Stop),
        s is Stopped ==> nvme_startup_spec(s, seen) == (NvmeStartup::Stopped, NvmeStep::Stop),
{
}

} // verus!
