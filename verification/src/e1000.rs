//! E1000 gigabit NIC: the ARP cache, the descriptor-ring bookkeeping and the
//! Ethernet frames that the driver builds and parses.
use vstd::prelude::*;
use crate::mmio::{RegWrite, reg32, w32};
use crate::net::{our_ip, our_mac, zeros};
use crate::wire::{be16, le16, le32, le64, le16_bytes, le64_bytes, lemma_le16_roundtrip, lemma_le64_roundtrip, push_all, push_le16, push_le64, read_be16, read_le16, read_le64};

verus! {

/// Number of entries of the ARP cache.
pub const ARP_CACHE_SIZE: usize = 16;

/// One slot of the ARP cache.
#[derive(Clone, Copy, Debug)]
pub struct ArpEntry {
    pub ip: [u8; 4],
    pub mac: [u8; 6],
    pub active: bool,
}

/// Whether slot `e` is an active entry for `ip`.
pub open spec fn entry_matches(e: ArpEntry, ip: Seq<u8>) -> bool {
    e.active && e.ip@ == ip
}

/// Whether some active entry of `s` is for `ip`.
pub open spec fn arp_contains(s: Seq<ArpEntry>, ip: Seq<u8>) -> bool {
    exists|i: int| 0 <= i < s.len() && entry_matches(#[trigger] s[i], ip)
}

/// The index of the first active entry of `s` for `ip`.
pub open spec fn arp_first_match(s: Seq<ArpEntry>, ip: Seq<u8>) -> int
    recommends
        arp_contains(s, ip),
{
    choose|i: int|
        0 <= i < s.len() && entry_matches(#[trigger] s[i], ip) && forall|j: int|
            0 <= j < i ==> !entry_matches(#[trigger] s[j], ip)
}

/// What a lookup of `ip` in the slots `s` answers: the MAC of the first active
/// entry for `ip`, if any.
pub open spec fn arp_lookup(s: Seq<ArpEntry>, ip: Seq<u8>) -> Option<Seq<u8>> {
    if arp_contains(s, ip) {
        Some(s[arp_first_match(s, ip)].mac@)
    } else {
        None
    }
}

/// Whether some slot of `s` is inactive.
pub open spec fn arp_has_free_slot(s: Seq<ArpEntry>) -> bool {
    exists|i: int| 0 <= i < s.len() && !(#[trigger] s[i]).active
}

/// The index of the first inactive slot of `s`.
pub open spec fn arp_first_free(s: Seq<ArpEntry>) -> int
    recommends
        arp_has_free_slot(s),
{
    choose|i: int|
        0 <= i < s.len() && !(#[trigger] s[i]).active && forall|j: int|
            0 <= j < i ==> (#[trigger] s[j]).active
}

/// The slots after inserting `ip -> mac`: the first active entry for `ip` gets
/// the new MAC; failing that the first inactive slot becomes an active entry
/// for `ip`; failing that (the cache is full) nothing changes.
pub open spec fn arp_insert(s: Seq<ArpEntry>, ip: Seq<u8>, mac: Seq<u8>) -> Seq<ArpEntry> {
    if arp_contains(s, ip) {
        let i = arp_first_match(s, ip);
        s.update(i, ArpEntry { ip: s[i].ip, mac: arr6(mac), active: true })
    } else if arp_has_free_slot(s) {
        let i = arp_first_free(s);
        s.update(i, ArpEntry { ip: arr4(ip), mac: arr6(mac), active: true })
    } else {
        s
    }
}

/// The 4-byte array whose view is `s`.
pub open spec fn arr4(s: Seq<u8>) -> [u8; 4] {
    choose|a: [u8; 4]| a@ == s
}

/// The 6-byte array whose view is `s`.
pub open spec fn arr6(s: Seq<u8>) -> [u8; 6] {
    choose|a: [u8; 6]| a@ == s
}


/// No two active entries of `s` are for the same IP.
pub open spec fn arp_unique(s: Seq<ArpEntry>) -> bool {
    forall|i: int, j: int|
        0 <= i < s.len() && 0 <= j < s.len() && i != j && (#[trigger] s[i]).active
            && (#[trigger] s[j]).active ==> s[i].ip@ != s[j].ip@
}

proof fn lemma_arr_views(ip: Seq<u8>, mac: Seq<u8>)
    requires
        ip.len() == 4,
        mac.len() == 6,
    ensures
        arr4(ip)@ == ip,
        arr6(mac)@ == mac,
{
    let a: [u8; 4] = [ip[0], ip[1], ip[2], ip[3]];
    assert(a@ =~= ip);
    let m: [u8; 6] = [mac[0], mac[1], mac[2], mac[3], mac[4], mac[5]];
    assert(m@ =~= mac);
}

proof fn lemma_first_match_exists(s: Seq<ArpEntry>, ip: Seq<u8>, n: int)
    requires
        0 <= n <= s.len(),
        exists|i: int| 0 <= i < n && entry_matches(#[trigger] s[i], ip),
    ensures
        exists|i: int|
            0 <= i < n && entry_matches(#[trigger] s[i], ip) && forall|j: int|
                0 <= j < i ==> !entry_matches(#[trigger] s[j], ip),
    decreases n,
{
    if exists|i: int| 0 <= i < n - 1 && entry_matches(#[trigger] s[i], ip) {
        lemma_first_match_exists(s, ip, n - 1);
    } else {
        assert(entry_matches(s[n - 1], ip));
    }
}

proof fn lemma_first_free_exists(s: Seq<ArpEntry>, n: int)
    requires
        0 <= n <= s.len(),
        exists|i: int| 0 <= i < n && !(#[trigger] s[i]).active,
    ensures
        exists|i: int|
            0 <= i < n && !(#[trigger] s[i]).active && forall|j: int|
                0 <= j < i ==> (#[trigger] s[j]).active,
    decreases n,
{
    if exists|i: int| 0 <= i < n - 1 && !(#[trigger] s[i]).active {
        lemma_first_free_exists(s, n - 1);
    } else {
        assert(!s[n - 1].active);
    }
}

/// The first active entry for `ip`, when there is one, is well defined.
proof fn lemma_first_match(s: Seq<ArpEntry>, ip: Seq<u8>)
    requires
        arp_contains(s, ip),
    ensures
        0 <= arp_first_match(s, ip) < s.len(),
        entry_matches(s[arp_first_match(s, ip)], ip),
        forall|j: int| 0 <= j < arp_first_match(s, ip) ==> !entry_matches(#[trigger] s[j], ip),
{
    lemma_first_match_exists(s, ip, s.len() as int);
}

/// The first inactive slot, when there is one, is well defined.
proof fn lemma_first_free(s: Seq<ArpEntry>)
    requires
        arp_has_free_slot(s),
    ensures
        0 <= arp_first_free(s) < s.len(),
        !s[arp_first_free(s)].active,
        forall|j: int| 0 <= j < arp_first_free(s) ==> (#[trigger] s[j]).active,
{
    lemma_first_free_exists(s, s.len() as int);
}

proof fn lemma_first_match_is(s: Seq<ArpEntry>, ip: Seq<u8>, k: int)
    requires
        0 <= k < s.len(),
        entry_matches(s[k], ip),
        forall|j: int| 0 <= j < k ==> !entry_matches(#[trigger] s[j], ip),
    ensures
        arp_contains(s, ip),
        arp_first_match(s, ip) == k,
        arp_lookup(s, ip) == Some(s[k].mac@),
{
    let f = arp_first_match(s, ip);
    if f < k {
        assert(!entry_matches(s[f], ip));
    }
    if f > k {
        assert(entry_matches(s[k], ip));
    }
}

/// What a lookup returns right after an insert: the MAC just inserted, unless
/// the IP was absent and the cache was full, in which case the lookup finds
/// nothing.
pub proof fn lemma_lookup_after_insert(s: Seq<ArpEntry>, ip: Seq<u8>, mac: Seq<u8>)
    requires
        ip.len() == 4,
        mac.len() == 6,
    ensures
        arp_contains(s, ip) || arp_has_free_slot(s) ==> arp_lookup(arp_insert(s, ip, mac), ip)
            == Some(mac),
        !arp_contains(s, ip) && !arp_has_free_slot(s) ==> arp_lookup(arp_insert(s, ip, mac), ip)
            is None,
{
    lemma_arr_views(ip, mac);
    let t = arp_insert(s, ip, mac);
    if arp_contains(s, ip) {
        lemma_first_match(s, ip);
        let k = arp_first_match(s, ip);
        assert forall|j: int| 0 <= j < k implies !entry_matches(#[trigger] t[j], ip) by {
            assert(t[j] == s[j]);
        }
        lemma_first_match_is(t, ip, k);
    } else if arp_has_free_slot(s) {
        lemma_first_free(s);
        let k = arp_first_free(s);
        assert forall|j: int| 0 <= j < k implies !entry_matches(#[trigger] t[j], ip) by {
            assert(t[j] == s[j]);
            assert(!entry_matches(s[j], ip));
        }
        lemma_first_match_is(t, ip, k);
    }
}

/// Inserting a binding for one IP leaves the lookup of every other IP as it was.
pub proof fn lemma_insert_keeps_others(s: Seq<ArpEntry>, ip: Seq<u8>, mac: Seq<u8>, other: Seq<u8>)
    requires
        ip.len() == 4,
        mac.len() == 6,
        other != ip,
    ensures
        arp_lookup(arp_insert(s, ip, mac), other) == arp_lookup(s, other),
{
    lemma_arr_views(ip, mac);
    let t = arp_insert(s, ip, mac);
    if arp_contains(s, ip) {
        lemma_first_match(s, ip);
    } else if arp_has_free_slot(s) {
        lemma_first_free(s);
    }
    assert(t.len() == s.len());
    let changed: int = if arp_contains(s, ip) {
        arp_first_match(s, ip)
    } else if arp_has_free_slot(s) {
        arp_first_free(s)
    } else {
        -1
    };
    assert forall|j: int| 0 <= j < s.len() implies entry_matches(#[trigger] t[j], other)
        == entry_matches(s[j], other) by {
        if j != changed {
            assert(t[j] == s[j]);
        } else {
            if arp_contains(s, ip) {
                assert(t[j].ip@ == s[j].ip@);
            }
        }
    }
    if arp_contains(s, other) {
        lemma_first_match(s, other);
        let k = arp_first_match(s, other);
        assert(entry_matches(t[k], other));
        assert forall|j: int| 0 <= j < k implies !entry_matches(#[trigger] t[j], other) by {
            assert(!entry_matches(s[j], other));
        }
        lemma_first_match_is(t, other, k);
        assert(t[k].mac@ == s[k].mac@ || k == changed);
        if k == changed {
            if arp_contains(s, ip) {
                assert(s[k].ip@ == ip);
            } else {
                assert(!s[k].active);
            }
        }
    } else {
        if arp_contains(t, other) {
            let w = choose|i: int| 0 <= i < t.len() && entry_matches(#[trigger] t[i], other);
            assert(entry_matches(s[w], other));
        }
    }
}

/// Inserting never creates two active entries for one IP.
pub proof fn lemma_insert_keeps_unique(s: Seq<ArpEntry>, ip: Seq<u8>, mac: Seq<u8>)
    requires
        ip.len() == 4,
        mac.len() == 6,
        arp_unique(s),
    ensures
        arp_unique(arp_insert(s, ip, mac)),
{
    lemma_arr_views(ip, mac);
    let t = arp_insert(s, ip, mac);
    if arp_contains(s, ip) {
        lemma_first_match(s, ip);
        let k = arp_first_match(s, ip);
        assert forall|i: int, j: int|
            0 <= i < t.len() && 0 <= j < t.len() && i != j && (#[trigger] t[i]).active
                && (#[trigger] t[j]).active implies t[i].ip@ != t[j].ip@ by {
            assert(t[i].ip == s[i].ip && t[j].ip == s[j].ip);
            if i != k { assert(t[i] == s[i]); }
            if j != k { assert(t[j] == s[j]); }
        }
    } else if arp_has_free_slot(s) {
        lemma_first_free(s);
        let k = arp_first_free(s);
        assert forall|i: int, j: int|
            0 <= i < t.len() && 0 <= j < t.len() && i != j && (#[trigger] t[i]).active
                && (#[trigger] t[j]).active implies t[i].ip@ != t[j].ip@ by {
            if i != k { assert(t[i] == s[i]); }
            if j != k { assert(t[j] == s[j]); }
            if i == k {
                assert(!entry_matches(s[j], ip));
            }
            if j == k {
                assert(!entry_matches(s[i], ip));
            }
        }
    }
}

/// Number of active entries of `s`.
pub open spec fn arp_active_count(s: Seq<ArpEntry>) -> nat
    decreases s.len(),
{
    if s.len() == 0 {
        0
    } else {
        arp_active_count(s.drop_last()) + if s.last().active { 1nat } else { 0nat }
    }
}

/// The bindings that the slots `s` answer lookups with: each IP that has an
/// active entry, mapped to the MAC that a lookup of it returns.
pub open spec fn arp_map(s: Seq<ArpEntry>) -> Map<Seq<u8>, Seq<u8>> {
    Map::new(|ip: Seq<u8>| arp_contains(s, ip), |ip: Seq<u8>| arp_lookup(s, ip).unwrap())
}

proof fn lemma_count_update(s: Seq<ArpEntry>, i: int, e: ArpEntry)
    requires
        0 <= i < s.len(),
    ensures
        arp_active_count(s.update(i, e)) == arp_active_count(s) - (if s[i].active { 1int } else {
            0int
        }) + (if e.active { 1int } else { 0int }),
    decreases s.len(),
{
    let t = s.update(i, e);
    if i == s.len() - 1 {
        assert(t.drop_last() =~= s.drop_last());
    } else {
        assert(t.drop_last() =~= s.drop_last().update(i, e));
        lemma_count_update(s.drop_last(), i, e);
    }
}

/// The active entries never outnumber the slots, and they fill every slot
/// exactly when no slot is free.
pub proof fn lemma_active_count_bound(s: Seq<ArpEntry>)
    ensures
        arp_active_count(s) <= s.len(),
        arp_active_count(s) < s.len() <==> arp_has_free_slot(s),
    decreases s.len(),
{
    if s.len() > 0 {
        let p = s.drop_last();
        lemma_active_count_bound(p);
        if arp_has_free_slot(p) {
            let w = choose|i: int| 0 <= i < p.len() && !(#[trigger] p[i]).active;
            assert(!s[w].active);
        }
        if !s.last().active {
            assert(!s[s.len() - 1].active);
        }
        if arp_has_free_slot(s) {
            let w = choose|i: int| 0 <= i < s.len() && !(#[trigger] s[i]).active;
            if w < p.len() {
                assert(!p[w].active);
            }
        }
    }
}

/// An insert seen as a map of bindings: where the IP is present or a slot is
/// free, the bindings become the old ones with `ip -> mac` put in, and the
/// number of active entries grows by one exactly when the IP was absent. Where
/// every slot is active and none is for `ip`, nothing changes.
pub proof fn lemma_insert_as_map(s: Seq<ArpEntry>, ip: Seq<u8>, mac: Seq<u8>)
    requires
        ip.len() == 4,
        mac.len() == 6,
    ensures
        arp_contains(s, ip) || arp_has_free_slot(s) ==> arp_map(arp_insert(s, ip, mac))
            == arp_map(s).insert(ip, mac),
        arp_contains(s, ip) ==> arp_active_count(arp_insert(s, ip, mac)) == arp_active_count(s),
        !arp_contains(s, ip) && arp_has_free_slot(s) ==> arp_active_count(arp_insert(s, ip, mac))
            == arp_active_count(s) + 1,
        arp_active_count(s) == s.len() && !arp_contains(s, ip) ==> arp_insert(s, ip, mac) == s,
        arp_active_count(arp_insert(s, ip, mac)) <= s.len(),
{
    let t = arp_insert(s, ip, mac);
    lemma_active_count_bound(s);
    if arp_contains(s, ip) {
        lemma_first_match(s, ip);
        let k = arp_first_match(s, ip);
        lemma_count_update(s, k, ArpEntry { ip: s[k].ip, mac: arr6(mac), active: true });
    } else if arp_has_free_slot(s) {
        lemma_first_free(s);
        let k = arp_first_free(s);
        lemma_count_update(s, k, ArpEntry { ip: arr4(ip), mac: arr6(mac), active: true });
    }
    lemma_active_count_bound(t);
    if arp_contains(s, ip) || arp_has_free_slot(s) {
        lemma_lookup_after_insert(s, ip, mac);
        assert forall|q: Seq<u8>| q != ip implies #[trigger] arp_lookup(t, q) == arp_lookup(s, q) by {
            lemma_insert_keeps_others(s, ip, mac, q);
        }
        assert forall|q: Seq<u8>| #[trigger] arp_contains(t, q) == arp_map(s).insert(ip, mac).dom().contains(q) by {
            if q != ip {
                assert(arp_lookup(t, q) == arp_lookup(s, q));
            } else {
                assert(arp_lookup(t, q) is Some);
            }
        }
        assert(arp_map(t) =~= arp_map(s).insert(ip, mac)) by {
            assert forall|q: Seq<u8>| #[trigger] arp_map(t).dom().contains(q) implies arp_map(t)[q]
                == arp_map(s).insert(ip, mac)[q] by {
                if q != ip {
                    assert(arp_lookup(t, q) == arp_lookup(s, q));
                }
            }
        }
    }
}

fn ip_eq(a: &[u8; 4], b: &[u8; 4]) -> (r: bool)
    ensures
        r == (a@ == b@),
{
    let r = a[0] == b[0] && a[1] == b[1] && a[2] == b[2] && a[3] == b[3];
    if r {
        assert(a@ =~= b@);
    }
    r
}

/// A fixed-size cache of IPv4-to-MAC bindings.
pub struct ArpCache {
    entries: Vec<ArpEntry>,
}

impl View for ArpCache {
    type V = Seq<ArpEntry>;

    closed spec fn view(&self) -> Seq<ArpEntry> {
        self.entries@
    }
}

impl ArpCache {
    /// Well-formedness: the cache has its full number of slots.
    pub open spec fn wf(&self) -> bool {
        self@.len() == ARP_CACHE_SIZE
    }

    /// An empty cache: every slot inactive.
    pub fn new() -> (r: Self)
        ensures
            r.wf(),
            r@.len() == ARP_CACHE_SIZE,
            forall|i: int| 0 <= i < ARP_CACHE_SIZE ==> !(#[trigger] r@[i]).active,
    {
        let mut entries: Vec<ArpEntry> = Vec::new();
        let mut k: usize = 0;
        while k < ARP_CACHE_SIZE
            invariant
                k <= ARP_CACHE_SIZE,
                entries@.len() == k,
                forall|i: int| 0 <= i < k ==> !(#[trigger] entries@[i]).active,
            decreases ARP_CACHE_SIZE - k,
        {
            entries.push(ArpEntry { ip: [0u8; 4], mac: [0u8; 6], active: false });
            k = k + 1;
        }
        ArpCache { entries }
    }

    /// Records that `ip` is at `mac` (see `arp_insert`).
    pub fn insert(&mut self, ip: [u8; 4], mac: [u8; 6])
        requires
            old(self).wf(),
        ensures
            final(self).wf(),
            final(self)@ == arp_insert(old(self)@, ip@, mac@),
    {
        let ghost s = self.entries@;
        let mut k: usize = 0;
        while k < self.entries.len()
            invariant
                self.entries@ == s,
                s == old(self)@,
                s.len() == ARP_CACHE_SIZE,
                k <= s.len(),
                forall|j: int| 0 <= j < k ==> !entry_matches(#[trigger] s[j], ip@),
            decreases s.len() - k,
        {
            let e = self.entries[k];
            if e.active && ip_eq(&e.ip, &ip) {
                proof {
                    assert(arp_contains(s, ip@));
                    let f = arp_first_match(s, ip@);
                    assert(f == k as int) by {
                        if f < k {
                            assert(!entry_matches(s[f], ip@));
                        }
                        if f > k {
                            assert(entry_matches(s[k as int], ip@));
                        }
                    }
                    assert(mac@ == arr6(mac@)@);
                    assert(arr6(mac@) == mac) by {
                        assert(arr6(mac@)@ =~= mac@);
                    }
                }
                self.entries.set(k, ArpEntry { ip: e.ip, mac: mac, active: true });
                return;
            }
            k = k + 1;
        }
        assert(!arp_contains(s, ip@));
        let mut k: usize = 0;
        while k < self.entries.len()
            invariant
                self.entries@ == s,
                s == old(self)@,
                s.len() == ARP_CACHE_SIZE,
                k <= s.len(),
                !arp_contains(s, ip@),
                forall|j: int| 0 <= j < k ==> (#[trigger] s[j]).active,
            decreases s.len() - k,
        {
            if !self.entries[k].active {
                proof {
                    assert(arp_has_free_slot(s));
                    let f = arp_first_free(s);
                    assert(f == k as int) by {
                        if f < k {
                            assert(s[f].active);
                        }
                        if f > k {
                            assert(!s[k as int].active);
                        }
                    }
                    assert(arr6(mac@) == mac) by {
                        assert(arr6(mac@)@ =~= mac@);
                    }
                    assert(arr4(ip@) == ip) by {
                        assert(arr4(ip@)@ =~= ip@);
                    }
                }
                self.entries.set(k, ArpEntry { ip: ip, mac: mac, active: true });
                return;
            }
            k = k + 1;
        }
        assert(!arp_has_free_slot(s));
    }

    /// The MAC recorded for `ip` (see `arp_lookup`).
    pub fn lookup(&self, ip: &[u8; 4]) -> (r: Option<[u8; 6]>)
        requires
            self.wf(),
        ensures
            match r {
                Some(m) => arp_lookup(self@, ip@) == Some(m@),
                None => arp_lookup(self@, ip@) is None,
            },
    {
        let ghost s = self.entries@;
        let mut k: usize = 0;
        while k < self.entries.len()
            invariant
                self.entries@ == s,
                k <= s.len(),
                forall|j: int| 0 <= j < k ==> !entry_matches(#[trigger] s[j], ip@),
            decreases s.len() - k,
        {
            let e = self.entries[k];
            if e.active && ip_eq(&e.ip, ip) {
                proof {
                    assert(arp_contains(s, ip@));
                    let f = arp_first_match(s, ip@);
                    assert(f == k as int) by {
                        if f < k {
                            assert(!entry_matches(s[f], ip@));
                        }
                        if f > k {
                            assert(entry_matches(s[k as int], ip@));
                        }
                    }
                }
                return Some(e.mac);
            }
            k = k + 1;
        }
        None
    }
}


/// Number of receive descriptors.
pub const RX_RING_SIZE: usize = 32;

/// Number of transmit descriptors.
pub const TX_RING_SIZE: usize = 8;

/// Size of one descriptor in bytes.
pub const DESCRIPTOR_SIZE: u64 = 16;

/// Transmit command: end of packet, insert FCS, report status.
pub const TX_CMD: u8 = 0b1011;

/// A legacy receive descriptor.
#[derive(Clone, Copy, Debug, PartialEq, Eq)]
pub struct RxDescriptor {
    pub buffer_address: u64,
    pub length: u16,
    pub checksum: u16,
    pub status: u8,
    pub errors: u8,
    pub special: u16,
}

/// A legacy transmit descriptor.
#[derive(Clone, Copy, Debug, PartialEq, Eq)]
pub struct TxDescriptor {
    pub buffer_address: u64,
    pub length: u16,
    pub cso: u8,
    pub cmd: u8,
    pub status: u8,
    pub css: u8,
    pub special: u16,
}

/// The receive descriptor held in the 16 little-endian bytes at the start of
/// `b`: buffer address, length, checksum, status, errors, special.
pub open spec fn rx_decode(b: Seq<u8>) -> RxDescriptor {
    RxDescriptor {
        buffer_address: le64(b, 0) as u64,
        length: le16(b, 8) as u16,
        checksum: le16(b, 10) as u16,
        status: b[12],
        errors: b[13],
        special: le16(b, 14) as u16,
    }
}

/// The 16 little-endian bytes of a receive descriptor.
pub open spec fn rx_encode(d: RxDescriptor) -> Seq<u8> {
    le64_bytes(d.buffer_address as int) + le16_bytes(d.length as int) + le16_bytes(d.checksum as int)
        + seq![d.status, d.errors] + le16_bytes(d.special as int)
}

/// The transmit descriptor held in the 16 little-endian bytes at the start of
/// `b`: buffer address, length, CSO, command, status, CSS, special.
pub open spec fn tx_decode(b: Seq<u8>) -> TxDescriptor {
    TxDescriptor {
        buffer_address: le64(b, 0) as u64,
        length: le16(b, 8) as u16,
        cso: b[10],
        cmd: b[11],
        status: b[12],
        css: b[13],
        special: le16(b, 14) as u16,
    }
}

/// The 16 little-endian bytes of a transmit descriptor.
pub open spec fn tx_encode(d: TxDescriptor) -> Seq<u8> {
    le64_bytes(d.buffer_address as int) + le16_bytes(d.length as int) + seq![d.cso, d.cmd, d.status, d.css]
        + le16_bytes(d.special as int)
}

/// Decoding the bytes a receive descriptor is written as gives the descriptor
/// back.
pub proof fn lemma_rx_descriptor_roundtrip(d: RxDescriptor)
    ensures
        rx_encode(d).len() == 16,
        rx_decode(rx_encode(d)) == d,
{
    let b = rx_encode(d);
    lemma_le64_roundtrip(d.buffer_address as int);
    lemma_le16_roundtrip(d.length as int);
    lemma_le16_roundtrip(d.checksum as int);
    lemma_le16_roundtrip(d.special as int);
    let a = le64_bytes(d.buffer_address as int);
    assert(le64(b, 0) == le64(a, 0)) by {
        assert(forall|k: int| 0 <= k < 8 ==> b[k] == a[k]);
    }
    assert(le16(b, 8) == le16(le16_bytes(d.length as int), 0));
    assert(le16(b, 10) == le16(le16_bytes(d.checksum as int), 0));
    assert(le16(b, 14) == le16(le16_bytes(d.special as int), 0));
}

/// Decoding the bytes a transmit descriptor is written as gives the
/// descriptor back.
pub proof fn lemma_tx_descriptor_roundtrip(d: TxDescriptor)
    ensures
        tx_encode(d).len() == 16,
        tx_decode(tx_encode(d)) == d,
{
    let b = tx_encode(d);
    lemma_le64_roundtrip(d.buffer_address as int);
    lemma_le16_roundtrip(d.length as int);
    lemma_le16_roundtrip(d.special as int);
    let a = le64_bytes(d.buffer_address as int);
    assert(le64(b, 0) == le64(a, 0)) by {
        assert(forall|k: int| 0 <= k < 8 ==> b[k] == a[k]);
    }
    assert(le16(b, 8) == le16(le16_bytes(d.length as int), 0));
    assert(le16(b, 14) == le16(le16_bytes(d.special as int), 0));
}

impl RxDescriptor {
    /// Decodes a receive descriptor from its 16 little-endian bytes.
    pub fn from_bytes(b: &[u8]) -> (r: Self)
        requires
            b@.len() >= 16,
        ensures
            r == rx_decode(b@),
    {
        RxDescriptor {
            buffer_address: read_le64(b, 0),
            length: read_le16(b, 8),
            checksum: read_le16(b, 10),
            status: b[12],
            errors: b[13],
            special: read_le16(b, 14),
        }
    }

    /// Encodes the descriptor as its 16 little-endian bytes.
    pub fn to_bytes(&self) -> (r: Vec<u8>)
        ensures
            r@ == rx_encode(*self),
    {
        let mut v: Vec<u8> = Vec::new();
        push_le64(&mut v, self.buffer_address);
        push_le16(&mut v, self.length);
        push_le16(&mut v, self.checksum);
        v.push(self.status);
        v.push(self.errors);
        push_le16(&mut v, self.special);
        v
    }

    /// Whether the hardware has filled this descriptor (descriptor-done bit).
    pub fn is_done(&self) -> (r: bool)
        ensures
            r == (self.status & 1 != 0),
    {
        self.status & 1 != 0
    }
}

impl TxDescriptor {
    /// Decodes a transmit descriptor from its 16 little-endian bytes.
    pub fn from_bytes(b: &[u8]) -> (r: Self)
        requires
            b@.len() >= 16,
        ensures
            r == tx_decode(b@),
    {
        TxDescriptor {
            buffer_address: read_le64(b, 0),
            length: read_le16(b, 8),
            cso: b[10],
            cmd: b[11],
            status: b[12],
            css: b[13],
            special: read_le16(b, 14),
        }
    }

    /// Encodes the descriptor as its 16 little-endian bytes.
    pub fn to_bytes(&self) -> (r: Vec<u8>)
        ensures
            r@ == tx_encode(*self),
    {
        let mut v: Vec<u8> = Vec::new();
        push_le64(&mut v, self.buffer_address);
        push_le16(&mut v, self.length);
        v.push(self.cso);
        v.push(self.cmd);
        v.push(self.status);
        v.push(self.css);
        push_le16(&mut v, self.special);
        v
    }

    /// Hands the frame at `buffer_address` of `length` bytes to the hardware:
    /// sets address, length and the transmit command, leaving the other fields.
    pub fn transmit(&mut self, buffer_address: u64, length: u16)
        ensures
            *final(self) == (TxDescriptor { buffer_address, length, cmd: TX_CMD, ..*old(self) }),
    {
        self.buffer_address = buffer_address;
        self.length = length;
        self.cmd = TX_CMD;
    }
}

/// The broadcast ARP request asking who has `target_ip`, sent from `mac`
/// (10.0.2.15), padded to the 60-byte minimum frame.
pub open spec fn arp_request_frame(mac: Seq<u8>, target_ip: Seq<u8>) -> Seq<u8> {
    seq![0xFFu8, 0xFF, 0xFF, 0xFF, 0xFF, 0xFF] + mac + seq![
        0x08u8,
        0x06,
        0x00,
        0x01,
        0x08,
        0x00,
        0x06,
        0x04,
        0x00,
        0x01,
    ] + mac + our_ip() + zeros(6) + target_ip + zeros(18)
}

/// The ARP reply telling `sender` that 10.0.2.15 is at `mac`, padded to 60
/// bytes.
pub open spec fn arp_reply_frame(mac: Seq<u8>, sender_mac: Seq<u8>, sender_ip: Seq<u8>) -> Seq<u8> {
    sender_mac + mac + seq![0x08u8, 0x06, 0x00, 0x01, 0x08, 0x00, 0x06, 0x04, 0x00, 0x02] + mac
        + our_ip() + sender_mac + sender_ip + zeros(18)
}

/// Both ARP frames are Ethernet ARP packets for IPv4: ethertype 0x0806,
/// hardware type 1 (Ethernet), protocol type 0x0800 (IPv4), address lengths 6
/// and 4; they share that header, and differ in the opcode: 1 for the request,
/// 2 for the reply. The reply goes to the asker's MAC from ours, names us
/// (our MAC, 10.0.2.15) as sender and the asker as target; the request is
/// broadcast from our MAC, asks for `target_ip` and names us as sender.
pub proof fn lemma_arp_frames(mac: Seq<u8>, sender_mac: Seq<u8>, sender_ip: Seq<u8>, target_ip: Seq<u8>)
    requires
        mac.len() == 6,
        sender_mac.len() == 6,
        sender_ip.len() == 4,
        target_ip.len() == 4,
    ensures
        ({
            let f = arp_reply_frame(mac, sender_mac, sender_ip);
            &&& f.len() == 60
            &&& is_ethernet_ipv4_arp(f)
            &&& f[18] == 6 && f[19] == 4
            &&& be16(f, 20) == 2
            &&& f.subrange(0, 6) == sender_mac && f.subrange(6, 12) == mac
            &&& f.subrange(22, 28) == mac && f.subrange(28, 32) == seq![10u8, 0, 2, 15]
            &&& f.subrange(32, 38) == sender_mac && f.subrange(38, 42) == sender_ip
        }),
        ({
            let q = arp_request_frame(mac, target_ip);
            &&& q.len() == 60
            &&& is_ethernet_ipv4_arp(q)
            &&& q[18] == 6 && q[19] == 4
            &&& be16(q, 20) == 1
            &&& q.subrange(0, 6) == seq![0xFFu8, 0xFF, 0xFF, 0xFF, 0xFF, 0xFF] && q.subrange(6, 12) == mac
            &&& q.subrange(22, 28) == mac && q.subrange(28, 32) == seq![10u8, 0, 2, 15]
            &&& q.subrange(38, 42) == target_ip
        }),
        arp_reply_frame(mac, sender_mac, sender_ip).subrange(12, 20) == arp_request_frame(mac, target_ip).subrange(12, 20),
{
    let f = arp_reply_frame(mac, sender_mac, sender_ip);
    let q = arp_request_frame(mac, target_ip);
    assert(f.subrange(0, 6) =~= sender_mac);
    assert(f.subrange(6, 12) =~= mac);
    assert(f.subrange(22, 28) =~= mac);
    assert(f.subrange(28, 32) =~= seq![10u8, 0, 2, 15]);
    assert(f.subrange(32, 38) =~= sender_mac);
    assert(f.subrange(38, 42) =~= sender_ip);
    assert(q.subrange(0, 6) =~= seq![0xFFu8, 0xFF, 0xFF, 0xFF, 0xFF, 0xFF]);
    assert(q.subrange(6, 12) =~= mac);
    assert(q.subrange(22, 28) =~= mac);
    assert(q.subrange(28, 32) =~= seq![10u8, 0, 2, 15]);
    assert(q.subrange(38, 42) =~= target_ip);
    assert(f.subrange(12, 20) =~= q.subrange(12, 20));
}

/// The UDP broadcast from 10.0.2.15:6666 to 255.255.255.255:6667 announcing
/// "QOREOS NODE ONLINE".
pub open spec fn udp_broadcast_frame() -> Seq<u8> {
    seq![0xFFu8, 0xFF, 0xFF, 0xFF, 0xFF, 0xFF] + our_mac() + seq![0x08u8, 0x00] + seq![
        0x45u8,
        0x00,
        0x00,
        0x3A,
        0x00,
        0x00,
        0x40,
        0x00,
        0x40,
        0x11,
        0x00,
        0x00,
    ] + our_ip() + seq![255u8, 255, 255, 255] + seq![
        0x1Au8,
        0x0A,
        0x1A,
        0x0B,
        0x00,
        0x26,
        0x00,
        0x00,
    ] + seq![
        0x51u8,
        0x4F,
        0x52,
        0x45,
        0x4F,
        0x53,
        0x20,
        0x4E,
        0x4F,
        0x44,
        0x45,
        0x20,
        0x4F,
        0x4E,
        0x4C,
        0x49,
        0x4E,
        0x45,
    ]
}

fn push_zeros(v: &mut Vec<u8>, n: usize)
    ensures
        final(v)@ == old(v)@ + zeros(n as nat),
{
    let mut k: usize = 0;
    while k < n
        invariant
            k <= n,
            v@ == old(v)@ + zeros(k as nat),
        decreases n - k,
    {
        v.push(0);
        k = k + 1;
        assert(v@ =~= old(v)@ + zeros(k as nat));
    }
}


/// Whether a received frame is long enough for every field the driver reads:
/// the ethertype, and for ARP the hardware/protocol types and opcode, and for
/// Ethernet/IPv4 ARP the addresses.
pub open spec fn rx_frame_readable(p: Seq<u8>) -> bool {
    &&& p.len() >= 14
    &&& be16(p, 12) == 0x0806 ==> p.len() >= 22
    &&& be16(p, 12) == 0x0806 && be16(p, 14) == 1 && be16(p, 16) == 0x0800 ==> p.len() >= 42
}

/// Checks `rx_frame_readable`.
pub fn rx_frame_complete(packet: &[u8]) -> (r: bool)
    ensures
        r == rx_frame_readable(packet@),
{
    if packet.len() < 14 {
        return false;
    }
    if read_be16(packet, 12) != 0x0806 {
        return true;
    }
    if packet.len() < 22 {
        return false;
    }
    if read_be16(packet, 14) == 1 && read_be16(packet, 16) == 0x0800 {
        packet.len() >= 42
    } else {
        true
    }
}

/// The ethertype of a received frame.
pub fn frame_ethertype(packet: &[u8]) -> (r: u16)
    requires
        packet@.len() >= 14,
    ensures
        r == be16(packet@, 12),
{
    read_be16(packet, 12)
}

/// What the driver found in a received frame.
#[derive(Debug)]
pub enum RxFrame {
    /// An Ethernet/IPv4 ARP request for `target_ip`; `reply` is the frame to
    /// transmit when the request is for us.
    ArpRequest { target_ip: [u8; 4], reply: Option<Vec<u8>> },
    /// An Ethernet/IPv4 ARP packet other than a request.
    ArpOther,
    /// An ARP packet for another hardware or protocol type.
    ArpIgnored,
    /// An IPv4 packet, for the protocol analyzer.
    Ipv4,
    /// Any other ethertype.
    Other,
}

/// Whether a readable frame is an ARP packet for Ethernet/IPv4.
pub open spec fn is_ethernet_ipv4_arp(p: Seq<u8>) -> bool {
    be16(p, 12) == 0x0806 && be16(p, 14) == 1 && be16(p, 16) == 0x0800
}

/// The receive-address register pair (RAL, RAH) for a MAC: the six bytes
/// little-endian, and the address-valid bit 31 of RAH set.
pub open spec fn receive_address_spec(mac: Seq<u8>) -> (u32, u32) {
    (
        (mac[0] + mac[1] * 256 + mac[2] * 65536 + mac[3] * 16777216) as u32,
        (mac[4] + mac[5] * 256 + 0x8000_0000) as u32,
    )
}

/// The E1000 driver state.
pub struct E1000 {
    bar0_address: u64,
    rx_ring_ptr: u64,
    current_rx_bucket: usize,
    pub tx_ring_ptr: u64,
    pub current_tx_bucket: usize,
    pub mac_address: [u8; 6],
}

impl E1000 {
    /// The register base address.
    pub closed spec fn bar0(&self) -> u64 {
        self.bar0_address
    }

    /// The receive ring's address.
    pub closed spec fn rx_ring(&self) -> u64 {
        self.rx_ring_ptr
    }

    /// The receive descriptor the driver looks at next.
    pub closed spec fn rx_bucket(&self) -> usize {
        self.current_rx_bucket
    }

    /// The transmit ring's address.
    pub closed spec fn tx_ring(&self) -> u64 {
        self.tx_ring_ptr
    }

    /// The transmit descriptor the driver fills next.
    pub closed spec fn tx_bucket(&self) -> usize {
        self.current_tx_bucket
    }

    /// The card's MAC address.
    pub closed spec fn mac(&self) -> Seq<u8> {
        self.mac_address@
    }

    /// Whether two driver states agree on everything but the ring cursors.
    pub closed spec fn same_config(&self, other: &E1000) -> bool {
        &&& self.bar0_address == other.bar0_address
        &&& self.rx_ring_ptr == other.rx_ring_ptr
        &&& self.tx_ring_ptr == other.tx_ring_ptr
        &&& self.mac_address == other.mac_address
    }

    /// Well-formedness: both ring cursors lie within their rings.
    pub closed spec fn wf(&self) -> bool {
        &&& self.rx_bucket() < RX_RING_SIZE
        &&& self.current_tx_bucket < TX_RING_SIZE
    }

    /// A driver for the card whose registers start at `bar0`, with the QEMU
    /// default MAC 52:54:00:12:34:56 and no rings yet.
    pub fn new(bar0: u64) -> (r: Self)
        ensures
            r.wf(),
            r.bar0() == bar0,
            r.rx_ring() == 0,
            r.rx_bucket() == 0,
            r.tx_ring() == 0,
            r.tx_bucket() == 0,
            r.mac() == our_mac(),
    {
        let mac: [u8; 6] = [0x52, 0x54, 0x00, 0x12, 0x34, 0x56];
        assert(mac@ =~= our_mac());
        E1000 {
            bar0_address: bar0,
            rx_ring_ptr: 0,
            current_rx_bucket: 0,
            tx_ring_ptr: 0,
            current_tx_bucket: 0,
            mac_address: mac,
        }
    }

    /// The absolute address of the register at `offset`.
    pub fn register_address(&self, offset: u64) -> (r: u64)
        requires
            self.bar0() + offset <= u64::MAX,
        ensures
            r == self.bar0() + offset,
    {
        self.bar0_address + offset
    }

    /// The device-control value with the set-link-up bit set.
    pub fn link_up(ctrl: u32) -> (r: u32)
        ensures
            r == ctrl | 0x40,
    {
        ctrl | 0x40
    }

    /// The receive-address pair (RAL, RAH) that filters for `mac`, with the
    /// address-valid bit set.
    pub fn receive_address(mac: [u8; 6]) -> (r: (u32, u32))
        ensures
            r == receive_address_spec(mac@),
    {
        let m0 = mac[0] as u32;
        let m1 = mac[1] as u32;
        let m2 = mac[2] as u32;
        let m3 = mac[3] as u32;
        let m4 = mac[4] as u32;
        let m5 = mac[5] as u32;
        assert(m0 | (m1 << 8) | (m2 << 16) | (m3 << 24) == m0 + m1 * 256 + m2 * 65536 + m3 * 16777216)
            by (bit_vector)
            requires
                m0 < 256,
                m1 < 256,
                m2 < 256,
                m3 < 256,
        ;
        assert(m4 | (m5 << 8) | (1u32 << 31) == m4 + m5 * 256 + 0x8000_0000) by (bit_vector)
            requires
                m4 < 256,
                m5 < 256,
        ;
        (m0 | (m1 << 8) | (m2 << 16) | (m3 << 24), m4 | (m5 << 8) | (1u32 << 31))
    }

    /// Records the receive ring at `ring_ptr` and returns the register writes
    /// that hand it to the card: base (low 32 bits), length of the 32
    /// descriptors, head 0, tail 31, the receive address of our MAC, and the
    /// receive control (enable, unicast and multicast promiscuous, broadcast
    /// accept, strip CRC).
    pub fn init_rx_ring(&mut self, ring_ptr: u64) -> (writes: Vec<RegWrite>)
        requires
            old(self).wf(),
        ensures
            final(self).wf(),
            final(self).rx_ring() == ring_ptr,
            final(self).rx_bucket() == old(self).rx_bucket(),
            final(self).bar0() == old(self).bar0(),
            final(self).tx_ring() == old(self).tx_ring(),
            final(self).tx_bucket() == old(self).tx_bucket(),
            final(self).mac() == old(self).mac(),
            writes@ == seq![
                w32(0x2800, (ring_ptr % 0x1_0000_0000) as u32),
                w32(0x2808, 512),
                w32(0x2810, 0),
                w32(0x2818, 31),
                w32(0x5400, receive_address_spec(old(self).mac()).0),
                w32(0x5404, receive_address_spec(old(self).mac()).1),
                w32(0x0100, 0x801A),
            ],
    {
        self.rx_ring_ptr = ring_ptr;
        let (ral, rah) = Self::receive_address(self.mac_address);
        assert((ring_ptr & 0xFFFF_FFFF) == ring_ptr % 0x1_0000_0000 && (1u32 << 1) | (1u32 << 3) | (1u32 << 4) | (
        1u32 << 15) == 0x801A) by (bit_vector);
        let mut w: Vec<RegWrite> = Vec::new();
        w.push(reg32(0x2800, (ring_ptr & 0xFFFF_FFFF) as u32));
        w.push(reg32(0x2808, (RX_RING_SIZE * 16) as u32));
        w.push(reg32(0x2810, 0));
        w.push(reg32(0x2818, (RX_RING_SIZE - 1) as u32));
        w.push(reg32(0x5400, ral));
        w.push(reg32(0x5404, rah));
        w.push(reg32(0x0100, (1u32 << 1) | (1u32 << 3) | (1u32 << 4) | (1u32 << 15)));
        assert(w@ =~= seq![
            w32(0x2800, (ring_ptr % 0x1_0000_0000) as u32),
            w32(0x2808, 512),
            w32(0x2810, 0),
            w32(0x2818, 31),
            w32(0x5400, ral),
            w32(0x5404, rah),
            w32(0x0100, 0x801A),
        ]);
        w
    }

    /// Records the transmit ring at `ring_ptr` and returns the register writes
    /// that hand it to the card: base (low 32 bits), length of the 8
    /// descriptors, head 0, tail 0, and the transmit control (enable, pad
    /// short packets).
    pub fn init_tx_ring(&mut self, ring_ptr: u64) -> (writes: Vec<RegWrite>)
        requires
            old(self).wf(),
        ensures
            final(self).wf(),
            final(self).tx_ring() == ring_ptr,
            final(self).tx_bucket() == old(self).tx_bucket(),
            final(self).rx_ring() == old(self).rx_ring(),
            final(self).rx_bucket() == old(self).rx_bucket(),
            final(self).bar0() == old(self).bar0(),
            final(self).mac() == old(self).mac(),
            writes@ == seq![
                w32(0x3800, (ring_ptr % 0x1_0000_0000) as u32),
                w32(0x3808, 128),
                w32(0x3810, 0),
                w32(0x3818, 0),
                w32(0x0400, 0x0A),
            ],
    {
        self.tx_ring_ptr = ring_ptr;
        assert((ring_ptr & 0xFFFF_FFFF) == ring_ptr % 0x1_0000_0000 && (1u32 << 1) | (1u32 << 3) == 0x0A)
            by (bit_vector);
        let mut w: Vec<RegWrite> = Vec::new();
        w.push(reg32(0x3800, (ring_ptr & 0xFFFF_FFFF) as u32));
        w.push(reg32(0x3808, (TX_RING_SIZE * 16) as u32));
        w.push(reg32(0x3810, 0));
        w.push(reg32(0x3818, 0));
        w.push(reg32(0x0400, (1u32 << 1) | (1u32 << 3)));
        assert(w@ =~= seq![
            w32(0x3800, (ring_ptr % 0x1_0000_0000) as u32),
            w32(0x3808, 128),
            w32(0x3810, 0),
            w32(0x3818, 0),
            w32(0x0400, 0x0A),
        ]);
        w
    }

    /// The address of the receive descriptor the driver looks at next.
    pub fn rx_descriptor_address(&self) -> (r: u64)
        requires
            self.wf(),
            self.rx_ring() + RX_RING_SIZE * DESCRIPTOR_SIZE <= u64::MAX,
        ensures
            r == self.rx_ring() + self.rx_bucket() * DESCRIPTOR_SIZE,
    {
        self.rx_ring_ptr + (self.current_rx_bucket as u64 * DESCRIPTOR_SIZE)
    }

    /// Claims the next transmit descriptor: returns its address and the new
    /// tail value to write to the transmit-tail register, advancing the
    /// transmit cursor around the ring of 8.
    pub fn next_tx_descriptor(&mut self) -> (r: (u64, u32))
        requires
            old(self).wf(),
            old(self).tx_ring() + TX_RING_SIZE * DESCRIPTOR_SIZE <= u64::MAX,
        ensures
            final(self).wf(),
            r.0 == old(self).tx_ring() + old(self).tx_bucket() * DESCRIPTOR_SIZE,
            final(self).tx_bucket() == (old(self).tx_bucket() + 1) % (TX_RING_SIZE as int),
            r.1 == final(self).tx_bucket(),
            final(self).same_config(old(self)),
            final(self).rx_bucket() == old(self).rx_bucket(),
    {
        let addr = self.tx_ring_ptr + (self.current_tx_bucket as u64 * DESCRIPTOR_SIZE);
        self.current_tx_bucket = (self.current_tx_bucket + 1) % TX_RING_SIZE;
        (addr, self.current_tx_bucket as u32)
    }

    /// The broadcast ARP request for `target_ip` (see `arp_request_frame`).
    pub fn arp_request(&self, target_ip: [u8; 4]) -> (frame: Vec<u8>)
        ensures
            frame@ == arp_request_frame(self.mac(), target_ip@),
            frame@.len() == 60,
    {
        let mut f: Vec<u8> = Vec::new();
        let bcast: [u8; 6] = [0xFF, 0xFF, 0xFF, 0xFF, 0xFF, 0xFF];
        push_all(&mut f, &bcast);
        push_all(&mut f, &self.mac_address);
        let hdr: [u8; 10] = [0x08, 0x06, 0x00, 0x01, 0x08, 0x00, 0x06, 0x04, 0x00, 0x01];
        push_all(&mut f, &hdr);
        push_all(&mut f, &self.mac_address);
        let ip: [u8; 4] = [10, 0, 2, 15];
        push_all(&mut f, &ip);
        push_zeros(&mut f, 6);
        push_all(&mut f, &target_ip);
        push_zeros(&mut f, 18);
        assert(bcast@ =~= seq![0xFFu8, 0xFF, 0xFF, 0xFF, 0xFF, 0xFF]);
        assert(hdr@ =~= seq![0x08u8, 0x06, 0x00, 0x01, 0x08, 0x00, 0x06, 0x04, 0x00, 0x01]);
        assert(ip@ =~= our_ip());
        assert(f@ =~= arp_request_frame(self.mac_address@, target_ip@));
        f
    }

    /// The ARP request that announces us to the QEMU router, 10.0.2.2.
    pub fn qemu_router_handshake(&self) -> (frame: Vec<u8>)
        ensures
            frame@ == arp_request_frame(self.mac(), seq![10u8, 0, 2, 2]),
    {
        let gw: [u8; 4] = [10, 0, 2, 2];
        assert(gw@ =~= seq![10u8, 0, 2, 2]);
        self.arp_request(gw)
    }

    /// The ARP reply to `sender` (see `arp_reply_frame`).
    pub fn arp_reply(&self, sender_mac: [u8; 6], sender_ip: [u8; 4]) -> (frame: Vec<u8>)
        ensures
            frame@ == arp_reply_frame(self.mac(), sender_mac@, sender_ip@),
            frame@.len() == 60,
    {
        let mut f: Vec<u8> = Vec::new();
        push_all(&mut f, &sender_mac);
        push_all(&mut f, &self.mac_address);
        let hdr: [u8; 10] = [0x08, 0x06, 0x00, 0x01, 0x08, 0x00, 0x06, 0x04, 0x00, 0x02];
        push_all(&mut f, &hdr);
        push_all(&mut f, &self.mac_address);
        let ip: [u8; 4] = [10, 0, 2, 15];
        push_all(&mut f, &ip);
        push_all(&mut f, &sender_mac);
        push_all(&mut f, &sender_ip);
        push_zeros(&mut f, 18);
        assert(hdr@ =~= seq![0x08u8, 0x06, 0x00, 0x01, 0x08, 0x00, 0x06, 0x04, 0x00, 0x02]);
        assert(ip@ =~= our_ip());
        assert(f@ =~= arp_reply_frame(self.mac_address@, sender_mac@, sender_ip@));
        f
    }

    /// The UDP broadcast frame (see `udp_broadcast_frame`).
    pub fn udp_broadcast(&self) -> (frame: Vec<u8>)
        ensures
            frame@ == udp_broadcast_frame(),
            frame@.len() == 60,
    {
        let f: Vec<u8> = vec![
            0xFF, 0xFF, 0xFF, 0xFF, 0xFF, 0xFF, 0x52, 0x54, 0x00, 0x12, 0x34, 0x56, 0x08, 0x00,
            0x45, 0x00, 0x00, 0x3A, 0x00, 0x00, 0x40, 0x00, 0x40, 0x11, 0x00, 0x00, 10, 0, 2, 15,
            255, 255, 255, 255, 0x1A, 0x0A, 0x1A, 0x0B, 0x00, 0x26, 0x00, 0x00, 0x51, 0x4F, 0x52,
            0x45, 0x4F, 0x53, 0x20, 0x4E, 0x4F, 0x44, 0x45, 0x20, 0x4F, 0x4E, 0x4C, 0x49, 0x4E,
            0x45,
        ];
        assert(f@ =~= udp_broadcast_frame());
        f
    }

    /// Handles the received frame `packet` from the current receive descriptor:
    /// an Ethernet/IPv4 ARP packet records its sender in `arp`, and a request
    /// for 10.0.2.15 yields the reply to transmit. Advances the receive cursor
    /// around the ring of 32 and returns, with what was found, the value to
    /// write to the receive-tail register (the descriptor just handled).
    pub fn poll(&mut self, arp: &mut ArpCache, packet: &[u8]) -> (r: (RxFrame, u32))
        requires
            old(self).wf(),
            old(arp).wf(),
            rx_frame_readable(packet@),
        ensures
            final(self).wf(),
            final(arp).wf(),
            final(self).same_config(old(self)),
            final(self).tx_bucket() == old(self).tx_bucket(),
            final(self).rx_bucket() == (old(self).rx_bucket() + 1) % (RX_RING_SIZE as int),
            r.1 == old(self).rx_bucket(),
            is_ethernet_ipv4_arp(packet@) ==> final(arp)@ == arp_insert(
                old(arp)@,
                packet@.subrange(28, 32),
                packet@.subrange(22, 28),
            ),
            !is_ethernet_ipv4_arp(packet@) ==> final(arp)@ == old(arp)@,
            match r.0 {
                RxFrame::ArpRequest { target_ip, reply } => {
                    &&& is_ethernet_ipv4_arp(packet@)
                    &&& be16(packet@, 20) == 1
                    &&& target_ip@ == packet@.subrange(38, 42)
                    &&& match reply {
                        Some(f) => target_ip@ == our_ip() && f@ == arp_reply_frame(
                            old(self).mac(),
                            packet@.subrange(22, 28),
                            packet@.subrange(28, 32),
                        ),
                        None => target_ip@ != our_ip(),
                    }
                },
                RxFrame::ArpOther => is_ethernet_ipv4_arp(packet@) && be16(packet@, 20) != 1,
                RxFrame::ArpIgnored => be16(packet@, 12) == 0x0806 && !is_ethernet_ipv4_arp(packet@),
                RxFrame::Ipv4 => be16(packet@, 12) == 0x0800,
                RxFrame::Other => be16(packet@, 12) != 0x0806 && be16(packet@, 12) != 0x0800,
            },
    {
        let ethertype = read_be16(packet, 12);
        let found = if ethertype == 0x0806 {
            let hardware_type = read_be16(packet, 14);
            let protocol_type = read_be16(packet, 16);
            let opcode = read_be16(packet, 20);
            if hardware_type == 1 && protocol_type == 0x0800 {
                let sender_mac: [u8; 6] = [
                    packet[22],
                    packet[23],
                    packet[24],
                    packet[25],
                    packet[26],
                    packet[27],
                ];
                let sender_ip: [u8; 4] = [packet[28], packet[29], packet[30], packet[31]];
                let target_ip: [u8; 4] = [packet[38], packet[39], packet[40], packet[41]];
                assert(sender_mac@ =~= packet@.subrange(22, 28));
                assert(sender_ip@ =~= packet@.subrange(28, 32));
                assert(target_ip@ =~= packet@.subrange(38, 42));
                arp.insert(sender_ip, sender_mac);
                if opcode == 1 {
                    if target_ip[0] == 10 && target_ip[1] == 0 && target_ip[2] == 2 && target_ip[3]
                        == 15 {
                        assert(target_ip@ =~= our_ip());
                        RxFrame::ArpRequest { target_ip, reply: Some(self.arp_reply(sender_mac, sender_ip)) }
                    } else {
                        assert(target_ip@ != our_ip()) by {
                            if target_ip@ == our_ip() {
                                assert(target_ip@[0] == 10 && target_ip@[1] == 0 && target_ip@[2] == 2
                                    && target_ip@[3] == 15);
                            }
                        }
                        RxFrame::ArpRequest { target_ip, reply: None }
                    }
                } else {
                    RxFrame::ArpOther
                }
            } else {
                RxFrame::ArpIgnored
            }
        } else if ethertype == 0x0800 {
            RxFrame::Ipv4
        } else {
            RxFrame::Other
        };
        let old_bucket = self.current_rx_bucket;
        self.current_rx_bucket = (self.current_rx_bucket + 1) % RX_RING_SIZE;
        (found, old_bucket as u32)
    }
}

} // verus!
