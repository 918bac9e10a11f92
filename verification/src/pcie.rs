//! PCIe enhanced configuration space (ECAM): device addressing, header
//! decoding, base address registers and device classes.
use vstd::prelude::*;
use crate::e1000::receive_address_spec;

verus! {

/// The configuration-space address of (`bus`, `device`, `function`) below the
/// ECAM base.
pub open spec fn ecam_address(base: int, bus: int, device: int, function: int) -> int {
    base + bus * 0x100000 + device * 0x8000 + function * 0x1000
}

/// ECAM gives every (bus, device, function) its own 4 KiB window: the offset
/// from the base is a multiple of 4 KiB, and it reads back as the bus (bits
/// 20..28), the device (bits 15..20) and the function (bits 12..15).
pub proof fn lemma_ecam_windows(base: int, bus: int, device: int, function: int)
    requires
        0 <= bus < 256,
        0 <= device < 32,
        0 <= function < 8,
    ensures
        ({
            let off = ecam_address(base, bus, device, function) - base;
            &&& off % 0x1000 == 0
            &&& off / 0x100000 == bus
            &&& (off / 0x8000) % 32 == device
            &&& (off / 0x1000) % 8 == function
            &&& 0 <= off < 0x1000_0000
        }),
{
    let off = ecam_address(base, bus, device, function) - base;
    assert(off == bus * 0x100000 + device * 0x8000 + function * 0x1000);
    assert(off % 0x1000 == 0 && off / 0x100000 == bus && (off / 0x8000) % 32 == device && (off / 0x1000) % 8
        == function && 0 <= off < 0x1000_0000) by (nonlinear_arith)
        requires
            off == bus * 0x100000 + device * 0x8000 + function * 0x1000,
            0 <= bus < 256,
            0 <= device < 32,
            0 <= function < 8,
    ;
}

/// The configuration-space address of a function (see `ecam_address`).
pub fn config_address(base: u64, bus: u64, device: u64, function: u64) -> (r: u64)
    requires
        bus < 256,
        device < 32,
        function < 8,
        base + 255 * 0x100000 + 31 * 0x8000 + 7 * 0x1000 <= u64::MAX,
    ensures
        r == ecam_address(base as int, bus as int, device as int, function as int),
{
    assert((bus << 20) == bus * 0x100000 && (device << 15) == device * 0x8000 && (function << 12)
        == function * 0x1000) by (bit_vector)
        requires
            bus < 256,
            device < 32,
            function < 8,
    ;
    base + (bus << 20) + (device << 15) + (function << 12)
}

/// Splits the first configuration dword into (vendor id, device id).
pub fn vendor_and_device(dword: u32) -> (r: (u16, u16))
    ensures
        r.0 == dword % 0x10000,
        r.1 == dword / 0x10000,
{
    assert((dword & 0xFFFF) == dword % 0x10000 && (dword >> 16) == dword / 0x10000) by (bit_vector);
    ((dword & 0xFFFF) as u16, (dword >> 16) as u16)
}

/// Splits the class dword (offset 0x08) into (class code, subclass).
pub fn class_and_subclass(class_info: u32) -> (r: (u8, u8))
    ensures
        r.0 == class_info / 0x1000000,
        r.1 == (class_info / 0x10000) % 0x100,
{
    assert(((class_info >> 24) & 0xFF) == class_info / 0x1000000 && ((class_info >> 16) & 0xFF) == (
    class_info / 0x10000) % 0x100) by (bit_vector);
    (((class_info >> 24) & 0xFF) as u8, ((class_info >> 16) & 0xFF) as u8)
}

/// Whether a function slot is populated (its vendor id is not all ones).
pub fn is_present(vendor_id: u16) -> (r: bool)
    ensures
        r == (vendor_id != 0xFFFF),
{
    vendor_id != 0xFFFF
}

/// Whether the ids are those of the Intel 82574L gigabit controller the E1000
/// driver handles.
pub fn is_e1000(vendor_id: u16, device_id: u16) -> (r: bool)
    ensures
        r == (vendor_id == 0x8086 && device_id == 0x10D3),
{
    vendor_id == 0x8086 && device_id == 0x10D3
}

/// Whether the class is an NVMe storage controller.
pub fn is_nvme(class_code: u8, subclass: u8) -> (r: bool)
    ensures
        r == (class_code == 0x01 && subclass == 0x08),
{
    class_code == 0x01 && subclass == 0x08
}

/// Whether the class is an xHCI USB host controller.
pub fn is_xhci(class_code: u8, subclass: u8, prog_if: u8) -> (r: bool)
    ensures
        r == (class_code == 0x0C && subclass == 0x03 && prog_if == 0x30),
{
    class_code == 0x0C && subclass == 0x03 && prog_if == 0x30
}

/// The memory address held in a 32-bit base address register: the low four
/// flag bits cleared.
pub fn bar_address(bar: u32) -> (r: u32)
    ensures
        r == bar - bar % 16,
{
    assert(bar & 0xFFFF_FFF0 == bar - bar % 16) by (bit_vector);
    bar & 0xFFFF_FFF0
}

/// Whether a memory base address register is 64 bits wide (type field 2).
pub fn bar_is_64bit(bar: u32) -> (r: bool)
    ensures
        r == ((bar / 2) % 4 == 2),
{
    assert(((bar >> 1) & 0x03) == (bar / 2) % 4) by (bit_vector);
    ((bar >> 1) & 0x03) == 2
}

/// The memory address held in a 64-bit base address register pair: the upper
/// register above the flag-cleared lower one.
pub fn bar_address_64(bar_low: u32, bar_high: u32) -> (r: u64)
    ensures
        r == bar_high * 0x1_0000_0000 + (bar_low - bar_low % 16),
{
    let lo = bar_low & 0xFFFF_FFF0;
    assert(lo == bar_low - bar_low % 16) by (bit_vector)
        requires
            lo == bar_low & 0xFFFF_FFF0,
    ;
    let hi = bar_high as u64;
    let lo64 = lo as u64;
    assert((hi << 32) | lo64 == hi * 0x1_0000_0000 + lo64) by (bit_vector)
        requires
            hi < 0x1_0000_0000,
            lo64 < 0x1_0000_0000,
    ;
    (hi << 32) | lo64
}

/// The command register with memory-space decoding and bus mastering enabled.
pub fn enable_bus_master(cmd: u16) -> (r: u16)
    ensures
        r == cmd | 0x06,
{
    cmd | 0x06
}

/// The MAC address an E1000 receive-address register pair holds: RAL's four
/// bytes then RAH's low two, little-endian.
pub open spec fn mac_of_receive_address(ral: u32, rah: u32) -> Seq<u8> {
    seq![
        (ral % 256) as u8,
        ((ral / 256) % 256) as u8,
        ((ral / 65536) % 256) as u8,
        ((ral / 16777216) % 256) as u8,
        (rah % 256) as u8,
        ((rah / 256) % 256) as u8,
    ]
}

/// Reading back the receive-address pair the driver programs for a MAC gives
/// that MAC again.
pub proof fn lemma_receive_address_roundtrip(mac: Seq<u8>)
    requires
        mac.len() == 6,
    ensures
        mac_of_receive_address(receive_address_spec(mac).0, receive_address_spec(mac).1) == mac,
{
    let (ral, rah) = receive_address_spec(mac);
    let (m0, m1, m2, m3, m4, m5) = (mac[0] as int, mac[1] as int, mac[2] as int, mac[3] as int, mac[4] as int, mac[5] as int);
    assert(ral == m0 + m1 * 256 + m2 * 65536 + m3 * 16777216);
    assert(rah == m4 + m5 * 256 + 0x8000_0000);
    assert(ral % 256 == m0 && (ral / 256) % 256 == m1 && (ral / 65536) % 256 == m2 && (ral / 16777216) % 256 == m3)
        by (nonlinear_arith)
        requires
            ral == m0 + m1 * 256 + m2 * 65536 + m3 * 16777216,
            0 <= m0 < 256,
            0 <= m1 < 256,
            0 <= m2 < 256,
            0 <= m3 < 256,
    ;
    assert(rah % 256 == m4 && (rah / 256) % 256 == m5) by (nonlinear_arith)
        requires
            rah == m4 + m5 * 256 + 0x8000_0000,
            0 <= m4 < 256,
            0 <= m5 < 256,
    ;
    assert(mac_of_receive_address(ral, rah) =~= mac);
}

/// The MAC address held in an E1000 receive-address register pair (see
/// `mac_of_receive_address`).
pub fn mac_from_receive_address(ral: u32, rah: u32) -> (r: [u8; 6])
    ensures
        r@ == mac_of_receive_address(ral, rah),
{
    assert((ral & 0xFF) == ral % 256 && ((ral >> 8) & 0xFF) == (ral / 256) % 256 && ((ral >> 16)
        & 0xFF) == (ral / 65536) % 256 && ((ral >> 24) & 0xFF) == (ral / 16777216) % 256 && (rah & 0xFF)
        == rah % 256 && ((rah >> 8) & 0xFF) == (rah / 256) % 256) by (bit_vector);
    let r = [
        (ral & 0xFF) as u8,
        ((ral >> 8) & 0xFF) as u8,
        ((ral >> 16) & 0xFF) as u8,
        ((ral >> 24) & 0xFF) as u8,
        (rah & 0xFF) as u8,
        ((rah >> 8) & 0xFF) as u8,
    ];
    assert(r@ =~= seq![
        (ral % 256) as u8,
        ((ral / 256) % 256) as u8,
        ((ral / 65536) % 256) as u8,
        ((ral / 16777216) % 256) as u8,
        (rah % 256) as u8,
        ((rah / 256) % 256) as u8,
    ]);
    r
}

/// The human-readable name of a (class, subclass) pair.
pub open spec fn device_type_name(class: u8, subclass: u8) -> Seq<char> {
    match (class, subclass) {
        (0x01, 0x01) => "Storage: IDE Controller"@,
        (0x01, 0x06) => "Storage: SATA Controller"@,
        (0x01, 0x08) => "Storage: NVMe Controller"@,
        (0x02, 0x00) => "Network: Ethernet Controller"@,
        (0x03, 0x00) => "Display: VGA Compatible Controller"@,
        (0x04, 0x03) => "Multimedia: High Definition Audio"@,
        (0x06, 0x00) => "Bridge: Host Bridge"@,
        (0x06, 0x01) => "Bridge: ISA Bridge"@,
        (0x06, 0x04) => "Bridge: PCI-to-PCI Bridge"@,
        (0x0C, 0x03) => "Serial Bus: USB Controller"@,
        _ => "Unknown Device Class"@,
    }
}

/// The human-readable name of a device class (see `device_type_name`).
pub fn get_device_type(class: u8, subclass: u8) -> (r: &'static str)
    ensures
        r@ == device_type_name(class, subclass),
{
    match (class, subclass) {
        (0x01, 0x01) => "Storage: IDE Controller",
        (0x01, 0x06) => "Storage: SATA Controller",
        (0x01, 0x08) => "Storage: NVMe Controller",
        (0x02, 0x00) => "Network: Ethernet Controller",
        (0x03, 0x00) => "Display: VGA Compatible Controller",
        (0x04, 0x03) => "Multimedia: High Definition Audio",
        (0x06, 0x00) => "Bridge: Host Bridge",
        (0x06, 0x01) => "Bridge: ISA Bridge",
        (0x06, 0x04) => "Bridge: PCI-to-PCI Bridge",
        (0x0C, 0x03) => "Serial Bus: USB Controller",
        _ => "Unknown Device Class",
    }
}

/// What the scan reads of one present function: its ids, its class codes and
/// its first two base address registers.
#[derive(Clone, Copy, Debug, PartialEq, Eq)]
pub struct PciFunction {
    pub vendor_id: u16,
    pub device_id: u16,
    pub class_code: u8,
    pub subclass: u8,
    pub prog_if: u8,
    pub bar0: u32,
    pub bar1: u32,
}

/// The controllers a scan found: for each kind, the registers of the last
/// function of that kind.
#[derive(Clone, Copy, Debug, PartialEq, Eq)]
pub struct Discovered {
    pub e1000_bar0: Option<u64>,
    pub nvme_bar0: Option<u64>,
    pub xhci_bar0: Option<u64>,
}

/// The address of the memory the first base address register of `f` maps: a
/// 64-bit register pair where the type field says so, else the 32-bit one.
pub open spec fn bar0_address(f: PciFunction) -> u64 {
    if (f.bar0 / 2) % 4 == 2 {
        (f.bar1 * 0x1_0000_0000 + (f.bar0 - f.bar0 % 16)) as u64
    } else {
        (f.bar0 - f.bar0 % 16) as u64
    }
}

/// What a scan of the functions `fs`, in order, finds: the E1000 by its ids,
/// the NVMe controller by its class (with a 32- or 64-bit register), the xHCI
/// controller by its class and interface; a later match replaces an earlier.
pub open spec fn discovered(fs: Seq<PciFunction>) -> Discovered
    decreases fs.len(),
{
    if fs.len() == 0 {
        Discovered { e1000_bar0: None, nvme_bar0: None, xhci_bar0: None }
    } else {
        let d = discovered(fs.drop_last());
        let f = fs.last();
        Discovered {
            e1000_bar0: if f.vendor_id == 0x8086 && f.device_id == 0x10D3 {
                Some((f.bar0 - f.bar0 % 16) as u64)
            } else {
                d.e1000_bar0
            },
            nvme_bar0: if f.class_code == 0x01 && f.subclass == 0x08 {
                Some(bar0_address(f))
            } else {
                d.nvme_bar0
            },
            xhci_bar0: if f.class_code == 0x0C && f.subclass == 0x03 && f.prog_if == 0x30 {
                Some((f.bar0 - f.bar0 % 16) as u64)
            } else {
                d.xhci_bar0
            },
        }
    }
}

/// Goes through the functions a scan read, in order, and keeps the controllers
/// it looks for (see `discovered`).
pub fn discover(functions: &[PciFunction]) -> (r: Discovered)
    ensures
        r == discovered(functions@),
{
    let mut found = Discovered { e1000_bar0: None, nvme_bar0: None, xhci_bar0: None };
    let mut k: usize = 0;
    while k < functions.len()
        invariant
            k <= functions@.len(),
            found == discovered(functions@.take(k as int)),
        decreases functions@.len() - k,
    {
        let f = functions[k];
        proof {
            assert(functions@.take(k + 1).drop_last() =~= functions@.take(k as int));
            assert(functions@.take(k + 1).last() == f);
        }
        if is_e1000(f.vendor_id, f.device_id) {
            found.e1000_bar0 = Some(bar_address(f.bar0) as u64);
        }
        if is_nvme(f.class_code, f.subclass) {
            let address = if bar_is_64bit(f.bar0) {
                bar_address_64(f.bar0, f.bar1)
            } else {
                bar_address(f.bar0) as u64
            };
            found.nvme_bar0 = Some(address);
        }
        if is_xhci(f.class_code, f.subclass, f.prog_if) {
            found.xhci_bar0 = Some(bar_address(f.bar0) as u64);
        }
        k = k + 1;
    }
    assert(functions@.take(functions@.len() as int) =~= functions@);
    found
}

/// Whether `f` is the Intel 82574L gigabit controller (vendor 0x8086,
/// device 0x10D3).
pub open spec fn is_e1000_function(f: PciFunction) -> bool {
    f.vendor_id == 0x8086 && f.device_id == 0x10D3
}

/// Whether `f` is an NVMe controller (class 0x01, subclass 0x08).
pub open spec fn is_nvme_function(f: PciFunction) -> bool {
    f.class_code == 0x01 && f.subclass == 0x08
}

/// Whether `f` is an xHCI controller (class 0x0C, subclass 0x03, interface
/// 0x30).
pub open spec fn is_xhci_function(f: PciFunction) -> bool {
    f.class_code == 0x0C && f.subclass == 0x03 && f.prog_if == 0x30
}

/// The kinds of controller the scan looks for.
#[derive(Clone, Copy, Debug, PartialEq, Eq)]
pub enum ControllerKind {
    E1000,
    Nvme,
    Xhci,
}

/// Whether `f` is a controller of kind `k`.
pub open spec fn of_kind(k: ControllerKind, f: PciFunction) -> bool {
    match k {
        ControllerKind::E1000 => is_e1000_function(f),
        ControllerKind::Nvme => is_nvme_function(f),
        ControllerKind::Xhci => is_xhci_function(f),
    }
}

/// Whether `i` is the last function of `fs` of kind `k`.
pub open spec fn last_of(fs: Seq<PciFunction>, k: ControllerKind, i: int) -> bool {
    &&& 0 <= i < fs.len()
    &&& of_kind(k, fs[i])
    &&& forall|j: int| i < j < fs.len() ==> !of_kind(k, #[trigger] fs[j])
}

/// Whether some function of `fs` is of kind `k`.
pub open spec fn any_of(fs: Seq<PciFunction>, k: ControllerKind) -> bool {
    exists|i: int| 0 <= i < fs.len() && of_kind(k, #[trigger] fs[i])
}

proof fn lemma_last_of_prefix(fs: Seq<PciFunction>, kind: ControllerKind, i: int)
    requires
        fs.len() > 0,
        last_of(fs, kind, i),
        !of_kind(kind, fs.last()),
    ensures
        last_of(fs.drop_last(), kind, i),
{
    assert(i != fs.len() - 1);
    assert forall|j: int| i < j < fs.drop_last().len() implies !of_kind(kind, #[trigger] fs.drop_last()[j]) by {
        assert(fs.drop_last()[j] == fs[j]);
    }
}

proof fn lemma_any_of_prefix(fs: Seq<PciFunction>, kind: ControllerKind)
    requires
        fs.len() > 0,
    ensures
        any_of(fs, kind) == (any_of(fs.drop_last(), kind) || of_kind(kind, fs.last())),
{
    let p = fs.drop_last();
    if any_of(fs, kind) && !of_kind(kind, fs.last()) {
        let w = choose|i: int| 0 <= i < fs.len() && of_kind(kind, #[trigger] fs[i]);
        assert(p[w] == fs[w]);
    }
    if any_of(p, kind) {
        let w = choose|i: int| 0 <= i < p.len() && of_kind(kind, #[trigger] p[i]);
        assert(p[w] == fs[w]);
    }
    if of_kind(kind, fs.last()) {
        assert(of_kind(kind, fs[fs.len() - 1]));
    }
}

/// The scan's E1000 slot is filled exactly when some function is the E1000,
/// and then holds the flag-cleared first base address register of the last
/// one; no other function touches it.
pub proof fn lemma_discovered_e1000(fs: Seq<PciFunction>)
    ensures
        discovered(fs).e1000_bar0 is Some <==> any_of(fs, ControllerKind::E1000),
        forall|i: int| #[trigger] last_of(fs, ControllerKind::E1000, i) ==> discovered(fs).e1000_bar0
            == Some((fs[i].bar0 - fs[i].bar0 % 16) as u64),
    decreases fs.len(),
{
    let kind = ControllerKind::E1000;
    if fs.len() > 0 {
        lemma_discovered_e1000(fs.drop_last());
        lemma_any_of_prefix(fs, kind);
        assert forall|i: int| #[trigger] last_of(fs, kind, i) implies discovered(fs).e1000_bar0 == Some(
            (fs[i].bar0 - fs[i].bar0 % 16) as u64,
        ) by {
            if of_kind(kind, fs.last()) {
                assert(i == fs.len() - 1);
            } else {
                lemma_last_of_prefix(fs, kind, i);
                assert(fs.drop_last()[i] == fs[i]);
            }
        }
    } else {
        assert(!any_of(fs, kind));
    }
}

/// The scan's NVMe slot is filled exactly when some function is an NVMe
/// controller, and then holds the address of the last one: its low 32 bits
/// are the flag-cleared first base address register, its high 32 bits the
/// second register when the first is of the 64-bit type, else 0.
pub proof fn lemma_discovered_nvme(fs: Seq<PciFunction>)
    ensures
        discovered(fs).nvme_bar0 is Some <==> any_of(fs, ControllerKind::Nvme),
        forall|i: int| #[trigger] last_of(fs, ControllerKind::Nvme, i) ==> ({
            let a = discovered(fs).nvme_bar0->0;
            &&& a % 0x1_0000_0000 == fs[i].bar0 - fs[i].bar0 % 16
            &&& a / 0x1_0000_0000 == if (fs[i].bar0 / 2) % 4 == 2 { fs[i].bar1 as int } else { 0 }
        }),
    decreases fs.len(),
{
    let kind = ControllerKind::Nvme;
    if fs.len() > 0 {
        lemma_discovered_nvme(fs.drop_last());
        lemma_any_of_prefix(fs, kind);
        let f = fs.last();
        if of_kind(kind, f) {
            let lo = f.bar0 - f.bar0 % 16;
            assert(0 <= lo < 0x1_0000_0000);
            if (f.bar0 / 2) % 4 == 2 {
                let hi = f.bar1 as int;
                assert(hi * 0x1_0000_0000 + lo <= u64::MAX) by (nonlinear_arith)
                    requires
                        0 <= hi < 0x1_0000_0000,
                        0 <= lo < 0x1_0000_0000,
                ;
                assert((hi * 0x1_0000_0000 + lo) % 0x1_0000_0000 == lo && (hi * 0x1_0000_0000 + lo)
                    / 0x1_0000_0000 == hi) by (nonlinear_arith)
                    requires
                        0 <= lo < 0x1_0000_0000,
                        hi >= 0,
                ;
            }
        }
        assert forall|i: int| #[trigger] last_of(fs, kind, i) implies ({
            let a = discovered(fs).nvme_bar0->0;
            &&& a % 0x1_0000_0000 == fs[i].bar0 - fs[i].bar0 % 16
            &&& a / 0x1_0000_0000 == if (fs[i].bar0 / 2) % 4 == 2 { fs[i].bar1 as int } else { 0 }
        }) by {
            if of_kind(kind, fs.last()) {
                assert(i == fs.len() - 1);
            } else {
                lemma_last_of_prefix(fs, kind, i);
                assert(fs.drop_last()[i] == fs[i]);
            }
        }
    } else {
        assert(!any_of(fs, kind));
    }
}

/// The scan's xHCI slot is filled exactly when some function is an xHCI
/// controller, and then holds the flag-cleared first base address register of
/// the last one.
pub proof fn lemma_discovered_xhci(fs: Seq<PciFunction>)
    ensures
        discovered(fs).xhci_bar0 is Some <==> any_of(fs, ControllerKind::Xhci),
        forall|i: int| #[trigger] last_of(fs, ControllerKind::Xhci, i) ==> discovered(fs).xhci_bar0
            == Some((fs[i].bar0 - fs[i].bar0 % 16) as u64),
    decreases fs.len(),
{
    let kind = ControllerKind::Xhci;
    if fs.len() > 0 {
        lemma_discovered_xhci(fs.drop_last());
        lemma_any_of_prefix(fs, kind);
        assert forall|i: int| #[trigger] last_of(fs, kind, i) implies discovered(fs).xhci_bar0 == Some(
            (fs[i].bar0 - fs[i].bar0 % 16) as u64,
        ) by {
            if of_kind(kind, fs.last()) {
                assert(i == fs.len() - 1);
            } else {
                lemma_last_of_prefix(fs, kind, i);
                assert(fs.drop_last()[i] == fs[i]);
            }
        }
    } else {
        assert(!any_of(fs, kind));
    }
}

} // verus!
