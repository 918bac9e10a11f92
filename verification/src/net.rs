//! The IPv4/TCP protocol analyzer: header parsing, the handshake and HTTP
//! decisions, and the frames the kernel answers with.
use vstd::prelude::*;
use vstd::string::is_ascii;
use vstd::string::is_ascii_spec_bytes;
use crate::e1000::{ArpCache, arp_lookup};
use crate::wire::{be16, be16_bytes, be32, be32_bytes, push_all, push_be16, push_be32, read_be16, read_be32};

verus! {

/// The kernel's own MAC address.
pub open spec fn our_mac() -> Seq<u8> {
    seq![0x52u8, 0x54, 0x00, 0x12, 0x34, 0x56]
}

/// The kernel's own IPv4 address, 10.0.2.15.
pub open spec fn our_ip() -> Seq<u8> {
    seq![10u8, 0, 2, 15]
}

/// `n` zero bytes.
pub open spec fn zeros(n: nat) -> Seq<u8> {
    Seq::new(n, |i: int| 0u8)
}

/// The TCP bytes after the window field: checksum and urgent pointer (zero),
/// then either the MSS option (for a 24-byte header) or zero padding.
pub open spec fn tcp_tail(tcp_hl: u8) -> Seq<u8> {
    if tcp_hl == 24 {
        seq![0u8, 0, 0, 0, 0x02, 0x04] + be16_bytes(1460)
    } else {
        zeros((tcp_hl - 16) as nat)
    }
}

/// The Ethernet + IPv4 + TCP frame the kernel sends from port 80: IP checksum
/// and TCP checksum still zero.
pub open spec fn tcp_frame(
    target_mac: Seq<u8>,
    target_ip: Seq<u8>,
    target_port: u16,
    seq: u32,
    ack: u32,
    flags: u8,
    tcp_hl: u8,
) -> Seq<u8> {
    target_mac + our_mac() + seq![0x08u8, 0x00, 0x45, 0x00] + be16_bytes(20 + tcp_hl) + seq![
        0u8,
        0,
        0x40,
        0x00,
        64,
        6,
        0,
        0,
    ] + our_ip() + target_ip + be16_bytes(80) + be16_bytes(target_port as int) + be32_bytes(
        seq as int,
    ) + be32_bytes(ack as int) + seq![(tcp_hl / 4) << 4u8, flags]
        + be16_bytes(0xFAF0) + tcp_tail(tcp_hl)
}


proof fn lemma_be16_bytes(v: int)
    requires
        0 <= v < 0x10000,
    ensures
        be16(be16_bytes(v), 0) == v,
        be16_bytes(v).len() == 2,
{
    let b = be16_bytes(v);
    assert(((v / 256) % 256) * 256 + v % 256 == v) by (nonlinear_arith)
        requires
            0 <= v < 0x10000,
    ;
    assert(b[0] == (v / 256) % 256 && b[1] == v % 256);
}

proof fn lemma_be32_bytes(v: int)
    requires
        0 <= v < 0x1_0000_0000,
    ensures
        be32(be32_bytes(v), 0) == v,
        be32_bytes(v).len() == 4,
{
    let b = be32_bytes(v);
    assert(((v / 16777216) % 256) * 16777216 + ((v / 65536) % 256) * 65536 + ((v / 256) % 256) * 256 + v
        % 256 == v) by (nonlinear_arith)
        requires
            0 <= v < 0x1_0000_0000,
    ;
    assert(b[0] == (v / 16777216) % 256 && b[1] == (v / 65536) % 256 && b[2] == (v / 256) % 256 && b[3] == v
        % 256);
}

/// Where the fields of a TCP frame sent from port 80 sit: the Ethernet
/// addresses and type (IPv4), the IPv4 version/header length, total length,
/// time to live, protocol (TCP) and addresses, then the TCP ports, sequence
/// and acknowledgement numbers, header length and flags; the frame is the
/// 34 header bytes before TCP plus the TCP header.
pub proof fn lemma_tcp_frame_fields(
    target_mac: Seq<u8>,
    target_ip: Seq<u8>,
    target_port: u16,
    seq: u32,
    ack: u32,
    flags: u8,
    tcp_hl: u8,
)
    requires
        target_mac.len() == 6,
        target_ip.len() == 4,
        tcp_hl == 20 || tcp_hl == 24,
    ensures
        ({
            let f = tcp_frame(target_mac, target_ip, target_port, seq, ack, flags, tcp_hl);
            &&& f.len() == 34 + tcp_hl
            &&& f.subrange(0, 6) == target_mac
            &&& f.subrange(6, 12) == our_mac()
            &&& be16(f, 12) == 0x0800
            &&& f[14] == 0x45
            &&& be16(f, 16) == 20 + tcp_hl
            &&& f[22] == 64
            &&& f[23] == 6
            &&& f.subrange(26, 30) == our_ip()
            &&& f.subrange(30, 34) == target_ip
            &&& be16(f, 34) == 80
            &&& be16(f, 36) == target_port
            &&& be32(f, 38) == seq
            &&& be32(f, 42) == ack
            &&& f[46] / 16 == tcp_hl / 4
            &&& f[47] == flags
        }),
{
    let f = tcp_frame(target_mac, target_ip, target_port, seq, ack, flags, tcp_hl);
    let t = be16_bytes(20 + tcp_hl);
    let sp = be16_bytes(80);
    let dp = be16_bytes(target_port as int);
    let sq = be32_bytes(seq as int);
    let ak = be32_bytes(ack as int);
    let hf = seq![(tcp_hl / 4) << 4u8, flags];
    lemma_be16_bytes(20 + tcp_hl);
    lemma_be16_bytes(80);
    lemma_be16_bytes(target_port as int);
    lemma_be32_bytes(seq as int);
    lemma_be32_bytes(ack as int);
    assert(tcp_tail(tcp_hl).len() == tcp_hl - 16) by {
        if tcp_hl == 24 {
            lemma_be16_bytes(1460);
        }
    }
    assert(f.subrange(0, 6) =~= target_mac);
    assert(f.subrange(6, 12) =~= our_mac());
    assert(f.subrange(12, 16) =~= seq![0x08u8, 0x00, 0x45, 0x00]);
    assert(f.subrange(16, 18) =~= t);
    assert(f.subrange(18, 26) =~= seq![0u8, 0, 0x40, 0x00, 64, 6, 0, 0]);
    assert(f.subrange(26, 30) =~= our_ip());
    assert(f.subrange(30, 34) =~= target_ip);
    assert(f.subrange(34, 36) =~= sp);
    assert(f.subrange(36, 38) =~= dp);
    assert(f.subrange(38, 42) =~= sq);
    assert(f.subrange(42, 46) =~= ak);
    assert(f.subrange(46, 48) =~= hf);
    assert(f[12] == 8 && f[13] == 0 && f[14] == 0x45);
    assert(f[16] == t[0] && f[17] == t[1]);
    assert(f[22] == 64 && f[23] == 6);
    assert(f[34] == sp[0] && f[35] == sp[1]);
    assert(f[36] == dp[0] && f[37] == dp[1]);
    assert(f[38] == sq[0] && f[39] == sq[1] && f[40] == sq[2] && f[41] == sq[3]);
    assert(f[42] == ak[0] && f[43] == ak[1] && f[44] == ak[2] && f[45] == ak[3]);
    assert(f[46] == hf[0] && f[47] == flags);
    let q = tcp_hl / 4;
    assert(((q << 4u8) as u8) / 16 == q) by (bit_vector)
        requires
            q == 5 || q == 6,
    ;
}

/// Filling in the checksums changes only the two checksum fields (bytes
/// 24..26 and 50..52) and keeps the length.
pub proof fn lemma_with_checksums_keeps_fields(frame: Seq<u8>)
    requires
        52 <= frame.len(),
    ensures
        with_checksums(frame).len() == frame.len(),
        forall|i: int|
            0 <= i < frame.len() && i != 24 && i != 25 && i != 50 && i != 51 ==> #[trigger] with_checksums(frame)[i]
                == frame[i],
{
}

/// Builds the base TCP frame (see `tcp_frame`) with both checksums zero.
pub fn craft_base_tcp_frame(
    target_mac: [u8; 6],
    target_ip: [u8; 4],
    target_port: u16,
    seq: u32,
    ack: u32,
    flags: u8,
    tcp_hl: u8,
) -> (frame: Vec<u8>)
    requires
        tcp_hl >= 16,
    ensures
        frame@ == tcp_frame(target_mac@, target_ip@, target_port, seq, ack, flags, tcp_hl),
        frame@.len() == 34 + tcp_hl,
{
    let mut frame: Vec<u8> = Vec::new();
    push_all(&mut frame, &target_mac);
    let my_mac: [u8; 6] = [0x52, 0x54, 0x00, 0x12, 0x34, 0x56];
    push_all(&mut frame, &my_mac);
    let a: [u8; 4] = [0x08, 0x00, 0x45, 0x00];
    push_all(&mut frame, &a);
    push_be16(&mut frame, 20u16 + tcp_hl as u16);
    let b: [u8; 8] = [0, 0, 0x40, 0x00, 64, 6, 0, 0];
    push_all(&mut frame, &b);
    let my_ip: [u8; 4] = [10, 0, 2, 15];
    push_all(&mut frame, &my_ip);
    push_all(&mut frame, &target_ip);
    push_be16(&mut frame, 80);
    push_be16(&mut frame, target_port);
    push_be32(&mut frame, seq);
    push_be32(&mut frame, ack);
    let off: u8 = (tcp_hl / 4) << 4;
    frame.push(off);
    frame.push(flags);
    push_be16(&mut frame, 0xFAF0);
    let ghost head = frame@;
    if tcp_hl == 24 {
        let t: [u8; 6] = [0, 0, 0, 0, 0x02, 0x04];
        push_all(&mut frame, &t);
        push_be16(&mut frame, 1460);
    } else {
        let mut k: u8 = 16;
        while k < tcp_hl
            invariant
                16 <= k <= tcp_hl,
                frame@ == head + zeros((k - 16) as nat),
            decreases tcp_hl - k,
        {
            frame.push(0);
            k = k + 1;
            assert(frame@ =~= head + zeros((k - 16) as nat));
        }
    }
    proof {
        assert(my_mac@ =~= our_mac());
        assert(my_ip@ =~= our_ip());
        assert(a@ =~= seq![0x08u8, 0x00, 0x45, 0x00]);
        assert(b@ =~= seq![0u8, 0, 0x40, 0x00, 64, 6, 0, 0]);
    }
    assert(frame@ =~= tcp_frame(target_mac@, target_ip@, target_port, seq, ack, flags, tcp_hl));
    frame
}


/// The 16-bit word that starts at `i` within a range ending at `end`: a lone
/// final byte counts as the high half of a word.
pub open spec fn word_at(s: Seq<u8>, i: int, end: int) -> int {
    if i + 1 < end {
        be16(s, i)
    } else {
        s[i] * 256
    }
}

/// The sum of the 16-bit words of `s[start..end]` (see `word_at`).
pub open spec fn word_sum(s: Seq<u8>, start: int, end: int) -> int
    decreases end - start + 1,
{
    if end <= start {
        0
    } else {
        word_at(s, start, end) + word_sum(s, start + 2, end)
    }
}

/// Folds the carries of a ones'-complement sum back into 16 bits.
pub open spec fn fold16(x: int) -> int
    decreases x,
{
    if x < 65536 {
        x
    } else {
        fold16(x % 65536 + x / 65536)
    }
}

/// The IPv4 header checksum of a frame (header at bytes 14..34).
pub open spec fn ip_checksum(frame: Seq<u8>) -> int {
    65535 - fold16(word_sum(frame, 14, 34))
}

/// The TCP checksum of a frame: pseudo-header (addresses, protocol 6, TCP
/// length) plus the TCP segment from byte 34 on.
pub open spec fn tcp_checksum(frame: Seq<u8>) -> int {
    65535 - fold16(word_sum(frame, 26, 34) + 6 + (frame.len() - 34) + word_sum(frame, 34, frame.len() as int))
}

/// The ones'-complement TCP sum before folding, as the kernel accumulates it
/// in a 32-bit register over the frame with both checksum fields cleared.
pub open spec fn tcp_sum(frame: Seq<u8>) -> int {
    let z = clear_checksums(frame);
    word_sum(z, 26, 34) + 6 + (frame.len() - 34) + word_sum(z, 34, frame.len() as int)
}

/// Whether the checksums of `frame` can be computed: it holds the Ethernet,
/// IPv4 and TCP headers, and the TCP sum fits the 32-bit accumulator.
pub open spec fn checksums_fit(frame: Seq<u8>) -> bool {
    52 <= frame.len() && tcp_sum(frame) <= u32::MAX
}

/// A frame with both checksum fields cleared.
pub open spec fn clear_checksums(frame: Seq<u8>) -> Seq<u8> {
    frame.update(24, 0).update(25, 0).update(50, 0).update(51, 0)
}

/// A frame with both checksum fields filled in: the IP checksum at bytes
/// 24..26 and the TCP checksum at bytes 50..52, each computed over the frame
/// with both fields cleared.
pub open spec fn with_checksums(frame: Seq<u8>) -> Seq<u8> {
    let z = clear_checksums(frame);
    let ip = be16_bytes(ip_checksum(z));
    let tcp = be16_bytes(tcp_checksum(z));
    z.update(24, ip[0]).update(25, ip[1]).update(50, tcp[0]).update(51, tcp[1])
}

proof fn lemma_word_sum_bound(s: Seq<u8>, a: int, b: int)
    requires
        a <= b,
    ensures
        0 <= word_sum(s, a, b) <= 32768 * (b - a + 1),
    decreases b - a,
{
    if a < b {
        if a + 1 < b {
            lemma_word_sum_bound(s, a + 2, b);
        } else {
            assert(word_sum(s, a + 2, b) == 0);
        }
    }
}

proof fn lemma_word_sum_same(s1: Seq<u8>, s2: Seq<u8>, a: int, b: int)
    requires
        0 <= a,
        b <= s1.len(),
        b <= s2.len(),
        forall|i: int| a <= i < b ==> s1[i] == s2[i],
    ensures
        word_sum(s1, a, b) == word_sum(s2, a, b),
    decreases b - a + 1,
{
    if a < b {
        lemma_word_sum_same(s1, s2, a + 2, b);
    }
}

proof fn lemma_fold16_step(x: int)
    requires
        x >= 65536,
    ensures
        0 <= x % 65536 + x / 65536 < x,
{
    assert(0 <= x % 65536 + x / 65536 < x) by (nonlinear_arith)
        requires
            x >= 65536,
    ;
}

proof fn lemma_fold16_range(x: int)
    requires
        x >= 0,
    ensures
        0 <= fold16(x) < 65536,
    decreases x,
{
    if x >= 65536 {
        lemma_fold16_step(x);
        lemma_fold16_range(x % 65536 + x / 65536);
    }
}

/// Whether the IPv4 header of a frame carries a valid checksum: its words sum
/// to all ones in ones'-complement arithmetic.
pub open spec fn ip_header_valid(frame: Seq<u8>) -> bool {
    fold16(word_sum(frame, 14, 34)) == 65535
}

/// Whether the TCP segment of a frame carries a valid checksum (pseudo-header
/// included).
pub open spec fn tcp_segment_valid(frame: Seq<u8>) -> bool {
    fold16(word_sum(frame, 26, 34) + 6 + (frame.len() - 34) + word_sum(frame, 34, frame.len() as int))
        == 65535
}

proof fn lemma_fold16_facts(x: int)
    requires
        x >= 0,
    ensures
        0 <= fold16(x) <= x,
        fold16(x) < 65536,
        fold16(x) % 65535 == x % 65535,
        x > 0 ==> fold16(x) > 0,
    decreases x,
{
    if x >= 65536 {
        let y = x % 65536 + x / 65536;
        lemma_fold16_step(x);
        lemma_fold16_facts(y);
        assert(y % 65535 == x % 65535 && y > 0) by (nonlinear_arith)
            requires
                x >= 65536,
                y == x % 65536 + x / 65536,
        ;
    }
}

proof fn lemma_complement_verifies(x: int)
    requires
        x >= 0,
    ensures
        fold16(x + (65535 - fold16(x))) == 65535,
{
    lemma_fold16_facts(x);
    let y = x + (65535 - fold16(x));
    lemma_fold16_facts(y);
    assert(y % 65535 == 0) by (nonlinear_arith)
        requires
            y == x + (65535 - fold16(x)),
            fold16(x) % 65535 == x % 65535,
    ;
    assert(fold16(y) == 65535) by (nonlinear_arith)
        requires
            fold16(y) % 65535 == 0,
            0 < fold16(y) < 65536,
    ;
}

proof fn lemma_word_sum_update(s: Seq<u8>, a: int, b: int, k: int, hi: u8, lo: u8)
    requires
        0 <= a <= k,
        k + 1 < b <= s.len(),
        (k - a) % 2 == 0,
    ensures
        word_sum(s.update(k, hi).update(k + 1, lo), a, b) == word_sum(s, a, b) - be16(s, k) + hi
            * 256 + lo,
    decreases b - a + 1,
{
    let t = s.update(k, hi).update(k + 1, lo);
    if a == k {
        lemma_word_sum_same(t, s, a + 2, b);
    } else {
        lemma_word_sum_update(s, a + 2, b, k, hi, lo);
        assert(word_at(t, a, b) == word_at(s, a, b));
    }
}

/// A frame passed through `recalculate_checksums` carries a valid IPv4 header
/// checksum and a valid TCP checksum.
pub proof fn lemma_checksums_verify(frame: Seq<u8>)
    requires
        52 <= frame.len(),
    ensures
        ip_header_valid(with_checksums(frame)),
        tcp_segment_valid(with_checksums(frame)),
{
    let z = clear_checksums(frame);
    let len = frame.len() as int;
    lemma_word_sum_bound(z, 14, 34);
    lemma_word_sum_bound(z, 26, 34);
    lemma_word_sum_bound(z, 34, len);
    let ip = ip_checksum(z);
    let tcp = tcp_checksum(z);
    lemma_fold16_facts(word_sum(z, 14, 34));
    lemma_fold16_facts(word_sum(z, 26, 34) + 6 + (len - 34) + word_sum(z, 34, len));
    let ipb = be16_bytes(ip);
    let tcpb = be16_bytes(tcp);
    assert(ipb[0] * 256 + ipb[1] == ip);
    assert(tcpb[0] * 256 + tcpb[1] == tcp);
    let z1 = z.update(24, ipb[0]).update(25, ipb[1]);
    let w = z1.update(50, tcpb[0]).update(51, tcpb[1]);
    assert(w == with_checksums(frame));
    lemma_word_sum_update(z, 14, 34, 24, ipb[0], ipb[1]);
    lemma_word_sum_same(w, z1, 14, 34);
    assert(be16(z, 24) == 0);
    lemma_complement_verifies(word_sum(z, 14, 34));
    lemma_word_sum_same(w, z, 26, 34);
    lemma_word_sum_same(z1, z, 34, len);
    lemma_word_sum_update(z1, 34, len, 50, tcpb[0], tcpb[1]);
    assert(be16(z1, 50) == 0);
    lemma_complement_verifies(word_sum(z, 26, 34) + 6 + (len - 34) + word_sum(z, 34, len));
}

/// One word of `s[i..end]` as the loop reads it (see `word_at`).
fn read_word(s: &[u8], i: usize, end: usize) -> (r: u32)
    requires
        i < end <= s@.len(),
    ensures
        r == word_at(s@, i as int, end as int),
        r <= 65535,
{
    if end - i >= 2 {
        read_be16(s, i) as u32
    } else {
        let byte = s[i] as u32;
        assert(byte << 8 == byte * 256) by (bit_vector)
            requires
                byte < 256,
        ;
        byte << 8
    }
}

proof fn lemma_word_sum_step(s: Seq<u8>, i: int, end: int)
    requires
        i < end,
    ensures
        word_sum(s, i, end) == word_at(s, i, end) + word_sum(s, if end - i >= 2 { i + 2 } else { end }, end),
{
    if end - i < 2 {
        assert(word_sum(s, i + 2, end) == 0);
        assert(word_sum(s, end, end) == 0);
    }
}

/// Sums the words of `frame[start..end]` into `acc`.
fn add_words(frame: &[u8], start: usize, end: usize, acc: u32) -> (r: u32)
    requires
        start <= end <= frame@.len(),
        acc + word_sum(frame@, start as int, end as int) <= u32::MAX,
    ensures
        r == acc + word_sum(frame@, start as int, end as int),
{
    let mut sum = acc;
    let mut i = start;
    while i < end
        invariant
            start <= i <= end,
            end <= frame@.len(),
            sum + word_sum(frame@, i as int, end as int) == acc + word_sum(frame@, start as int, end as int),
            acc + word_sum(frame@, start as int, end as int) <= u32::MAX,
        decreases end - i,
    {
        let w = read_word(frame, i, end);
        let next = if end - i >= 2 { i + 2 } else { end };
        proof {
            lemma_word_sum_step(frame@, i as int, end as int);
            lemma_word_sum_bound(frame@, next as int, end as int);
        }
        sum = sum + w;
        i = next;
    }
    sum
}

/// `acc` plus the words of `frame[start..end]`, or `None` when that exceeds
/// `u32::MAX`.
fn add_words_capped(frame: &[u8], start: usize, end: usize, acc: u64) -> (r: Option<u64>)
    requires
        start <= end <= frame@.len(),
        acc <= u32::MAX,
    ensures
        match r {
            Some(v) => v == acc + word_sum(frame@, start as int, end as int) && v <= u32::MAX,
            None => acc + word_sum(frame@, start as int, end as int) > u32::MAX,
        },
{
    let mut sum = acc;
    let mut i = start;
    while i < end
        invariant
            start <= i <= end,
            end <= frame@.len(),
            sum <= u32::MAX,
            sum + word_sum(frame@, i as int, end as int) == acc + word_sum(frame@, start as int, end as int),
        decreases end - i,
    {
        let w = read_word(frame, i, end);
        let next = if end - i >= 2 { i + 2 } else { end };
        proof {
            lemma_word_sum_step(frame@, i as int, end as int);
            lemma_word_sum_bound(frame@, next as int, end as int);
        }
        sum = sum + w as u64;
        i = next;
        if sum > 0xFFFF_FFFF {
            return None;
        }
    }
    Some(sum)
}

/// The one's complement of a folded 16-bit sum, and its two bytes.
proof fn lemma_complement16(fold: u32, f: u16)
    by (bit_vector)
    requires
        fold < 65536,
        f == !(fold as u16),
    ensures
        f == 65535 - fold,
        (f >> 8) == f / 256,
        (f & 0xFF) == f % 256,
{
}

/// Folds the carries of `x` back into 16 bits.
fn fold_carries(x: u32) -> (r: u32)
    ensures
        r == fold16(x as int),
        r < 65536,
{
    let mut c = x;
    while (c >> 16) > 0
        invariant
            fold16(c as int) == fold16(x as int),
        decreases c,
    {
        assert(c >> 16 == c / 65536 && c & 0xFFFF == c % 65536 && ((c >> 16) > 0 ==> c >= 65536))
            by (bit_vector);
        proof {
            lemma_fold16_step(c as int);
        }
        c = (c & 0xFFFF) + (c >> 16);
    }
    assert((c >> 16) == 0 ==> c < 65536) by (bit_vector);
    c
}

/// Clears both checksum fields and fills in the IPv4 header checksum and the
/// TCP checksum (see `with_checksums`). The body length argument is not used:
/// the TCP length comes from the frame's own length.
pub fn recalculate_checksums(frame: &mut Vec<u8>, body_len: usize)
    requires
        checksums_fit(old(frame)@),
    ensures
        final(frame)@ == with_checksums(old(frame)@),
{
    let ghost z = clear_checksums(old(frame)@);
    let len = frame.len();
    frame.set(24, 0);
    frame.set(25, 0);
    frame.set(50, 0);
    frame.set(51, 0);
    assert(frame@ =~= z);
    proof {
        lemma_word_sum_bound(frame@, 14, 34);
        lemma_word_sum_bound(frame@, 26, 34);
        lemma_word_sum_bound(frame@, 34, len as int);
    }
    let ip_chk = add_words(frame.as_slice(), 14, 34, 0);
    let ip_fold = fold_carries(ip_chk);
    let final_ip: u16 = !(ip_fold as u16);
    proof {
        lemma_complement16(ip_fold, final_ip);
    }
    let ip_hi = (final_ip >> 8) as u8;
    let ip_lo = (final_ip & 0xFF) as u8;
    frame.set(24, ip_hi);
    frame.set(25, ip_lo);
    proof {
        lemma_word_sum_same(frame@, z, 26, 34);
        lemma_word_sum_same(frame@, z, 34, len as int);
    }
    let pseudo = add_words(frame.as_slice(), 26, 34, 6);
    let tcp_chk = add_words(frame.as_slice(), 34, len, pseudo + (len - 34) as u32);
    let tcp_fold = fold_carries(tcp_chk);
    let final_tcp: u16 = !(tcp_fold as u16);
    proof {
        lemma_complement16(tcp_fold, final_tcp);
    }
    let tcp_hi = (final_tcp >> 8) as u8;
    let tcp_lo = (final_tcp & 0xFF) as u8;
    frame.set(50, tcp_hi);
    frame.set(51, tcp_lo);
    assert(frame@ =~= with_checksums(old(frame)@));
}


/// Every frame of 52 to 65535 bytes (any frame a transmit descriptor's
/// 16-bit length can carry) has checksums that fit the 32-bit accumulator.
pub proof fn lemma_checksums_fit(frame: Seq<u8>)
    requires
        52 <= frame.len() <= 65535,
    ensures
        checksums_fit(frame),
{
    let z = clear_checksums(frame);
    lemma_word_sum_bound(z, 26, 34);
    lemma_word_sum_bound(z, 34, frame.len() as int);
}

/// Whether `recalculate_checksums` can be applied to `frame` (see
/// `checksums_fit`).
pub fn checksums_computable(frame: &[u8]) -> (r: bool)
    ensures
        r == checksums_fit(frame@),
{
    let len = frame.len();
    if len < 52 {
        return false;
    }
    let ghost z = clear_checksums(frame@);
    if len - 34 > 0xFFFF_FFF9 {
        proof {
            lemma_word_sum_bound(z, 26, 34);
            lemma_word_sum_bound(z, 34, len as int);
        }
        return false;
    }
    let mut cleared: Vec<u8> = Vec::new();
    push_all(&mut cleared, frame);
    cleared.set(24, 0);
    cleared.set(25, 0);
    cleared.set(50, 0);
    cleared.set(51, 0);
    assert(cleared@ =~= z);
    proof {
        lemma_word_sum_bound(z, 26, 34);
        lemma_word_sum_bound(z, 34, len as int);
    }
    match add_words_capped(cleared.as_slice(), 26, 34, 6 + (len - 34) as u64) {
        None => false,
        Some(head) => match add_words_capped(cleared.as_slice(), 34, len, head) {
            None => false,
            Some(_) => true,
        },
    }
}

/// The bytes of an ASCII character sequence.
pub open spec fn ascii(s: Seq<char>) -> Seq<u8> {
    Seq::new(s.len(), |i: int| s[i] as u8)
}

/// Appends the bytes of an ASCII string.
fn push_ascii(v: &mut Vec<u8>, s: &str)
    requires
        is_ascii(s),
    ensures
        final(v)@ == old(v)@ + ascii(s@),
{
    let b = s.as_bytes();
    proof {
        is_ascii_spec_bytes(s);
        assert(b@ =~= ascii(s@));
    }
    push_all(v, b);
}

/// The decimal digits of `n`, most significant first.
pub open spec fn decimal(n: nat) -> Seq<u8>
    decreases n,
{
    if n < 10 {
        seq![(48 + n) as u8]
    } else {
        decimal(n / 10).push((48 + n % 10) as u8)
    }
}

/// The decimal digits of `n`, most significant first (see `decimal`).
pub fn decimal_bytes(n: usize) -> (r: Vec<u8>)
    ensures
        r@ == decimal(n as nat),
    decreases n,
{
    if n < 10 {
        let mut v: Vec<u8> = Vec::new();
        v.push(48 + n as u8);
        assert(v@ =~= decimal(n as nat));
        v
    } else {
        let mut v = decimal_bytes(n / 10);
        v.push(48 + (n % 10) as u8);
        v
    }
}

/// The number a string of decimal digits reads as, most significant first.
pub open spec fn digits_value(s: Seq<u8>) -> int
    decreases s.len(),
{
    if s.len() == 0 {
        0
    } else {
        digits_value(s.drop_last()) * 10 + (s.last() - 48)
    }
}

/// 10 to the power `k`.
pub open spec fn pow10(k: nat) -> int
    decreases k,
{
    if k == 0 { 1 } else { 10 * pow10((k - 1) as nat) }
}

/// `decimal(n)` is the base-10 representation of `n`: ASCII digits that read
/// back as `n`, with no leading zero, as many as `n` has decimal digits.
pub proof fn lemma_decimal_is_base_ten(n: nat)
    ensures
        decimal(n).len() >= 1,
        forall|i: int| 0 <= i < decimal(n).len() ==> 48 <= #[trigger] decimal(n)[i] <= 57,
        digits_value(decimal(n)) == n,
        decimal(n).len() == 1 || decimal(n)[0] != 48,
        n < pow10(decimal(n).len()),
        decimal(n).len() == 1 || pow10((decimal(n).len() - 1) as nat) <= n,
    decreases n,
{
    if n >= 10 {
        let m = n / 10;
        lemma_decimal_is_base_ten(m);
        let d = decimal(m);
        let s = decimal(n);
        assert(s == d.push((48 + n % 10) as u8));
        assert(s.drop_last() =~= d);
        assert(n == m * 10 + n % 10);
        assert(s[0] == d[0]);
        assert forall|i: int| 0 <= i < s.len() implies 48 <= #[trigger] s[i] <= 57 by {
            if i < d.len() {
                assert(s[i] == d[i]);
            }
        }
        let k = d.len();
        assert(pow10(k + 1) == 10 * pow10(k));
        assert(s.len() == k + 1);
        assert(n < 10 * pow10(k)) by (nonlinear_arith)
            requires
                m < pow10(k),
                n == m * 10 + n % 10,
                n % 10 < 10,
        ;
        assert(s.last() == (48 + n % 10) as u8);
        if k == 1 {
            reveal_with_fuel(pow10, 2);
        } else {
            assert(pow10(k) == 10 * pow10((k - 1) as nat));
            assert(10 * pow10((k - 1) as nat) <= n) by (nonlinear_arith)
                requires
                    pow10((k - 1) as nat) <= m,
                    n == m * 10 + n % 10,
                    n % 10 >= 0,
            ;
        }
    } else {
        reveal_with_fuel(pow10, 2);
        let s = decimal(n);
        assert(s.drop_last() =~= Seq::<u8>::empty());
        assert(digits_value(s.drop_last()) == 0);
        assert(s.last() == (48 + n) as u8);
    }
}

/// The text served when no payload has been loaded.
pub open spec fn missing_payload() -> Seq<u8> {
    ascii("ERROR: NO PAYLOAD FOUND IN RING-0 MEMORY"@)
}

/// The HTTP response the kernel serves for `content`.
pub open spec fn http_body(content: Seq<u8>) -> Seq<u8> {
    ascii("HTTP/1.1 200 OK\r\nContent-Type: text/plain\r\nContent-Length: "@) + decimal(
        content.len(),
    ) + ascii("\r\nConnection: close\r\n\r\n"@) + content
}

/// An HTTP response body is the status line and headers, then the content:
/// it starts with the 59 bytes of the status line, the content type and the
/// "Content-Length: " label, followed by decimal digits that read back as the
/// content's length, then CRLF, the connection header and a blank line (23
/// bytes), and ends with the content itself.
pub proof fn lemma_http_body(content: Seq<u8>)
    ensures
        ({
            let b = http_body(content);
            let k = b.len() - content.len() - 23;
            &&& 59 < k
            &&& b.subrange(0, 59) == ascii("HTTP/1.1 200 OK\r\nContent-Type: text/plain\r\nContent-Length: "@)
            &&& digits_value(b.subrange(59, k)) == content.len()
            &&& forall|i: int| 59 <= i < k ==> 48 <= #[trigger] b[i] <= 57
            &&& b.subrange(k, k + 23) == ascii("\r\nConnection: close\r\n\r\n"@)
            &&& b.subrange(b.len() - content.len(), b.len() as int) == content
        }),
{
    reveal_strlit("HTTP/1.1 200 OK\r\nContent-Type: text/plain\r\nContent-Length: ");
    reveal_strlit("\r\nConnection: close\r\n\r\n");
    let head = ascii("HTTP/1.1 200 OK\r\nContent-Type: text/plain\r\nContent-Length: "@);
    let mid = ascii("\r\nConnection: close\r\n\r\n"@);
    let d = decimal(content.len());
    lemma_decimal_is_base_ten(content.len());
    let b = http_body(content);
    assert(head.len() == 59);
    assert(mid.len() == 23);
    let k = b.len() - content.len() - 23;
    assert(k == 59 + d.len());
    assert(b.subrange(0, 59) =~= head);
    assert(b.subrange(59, k) =~= d);
    assert forall|i: int| 59 <= i < k implies 48 <= #[trigger] b[i] <= 57 by {
        assert(b[i] == d[i - 59]);
    }
    assert(b.subrange(k, k + 23) =~= mid);
    assert(b.subrange(b.len() - content.len(), b.len() as int) =~= content);
}

/// Builds the HTTP response body for `content` (see `http_body`).
pub fn http_response_body(content: &[u8]) -> (body: Vec<u8>)
    ensures
        body@ == http_body(content@),
{
    let mut body: Vec<u8> = Vec::new();
    let head = "HTTP/1.1 200 OK\r\nContent-Type: text/plain\r\nContent-Length: ";
    let mid = "\r\nConnection: close\r\n\r\n";
    proof {
        reveal_strlit("HTTP/1.1 200 OK\r\nContent-Type: text/plain\r\nContent-Length: ");
        reveal_strlit("\r\nConnection: close\r\n\r\n");
    }
    push_ascii(&mut body, head);
    let digits = decimal_bytes(content.len());
    push_all(&mut body, digits.as_slice());
    push_ascii(&mut body, mid);
    push_all(&mut body, content);
    body
}

/// The SYN-ACK frame answering a SYN with sequence number `client_seq`: our
/// sequence number 0xCAFEBABE, acknowledgement `client_seq + 1` (wrapping),
/// a 24-byte header carrying the MSS option, checksums filled in.
pub open spec fn syn_ack_frame(target_mac: Seq<u8>, target_ip: Seq<u8>, target_port: u16, client_seq: u32) -> Seq<u8> {
    with_checksums(
        tcp_frame(
            target_mac,
            target_ip,
            target_port,
            0xCAFEBABE,
            ((client_seq + 1) % 0x1_0000_0000) as u32,
            0x12,
            24,
        ),
    )
}

/// Builds the SYN-ACK frame (see `syn_ack_frame`) that the driver transmits.
pub fn send_tcp_syn_ack(target_mac: [u8; 6], target_ip: [u8; 4], target_port: u16, client_seq: u32) -> (frame: Vec<u8>)
    ensures
        frame@ == syn_ack_frame(target_mac@, target_ip@, target_port, client_seq),
{
    let mut frame = craft_base_tcp_frame(
        target_mac,
        target_ip,
        target_port,
        0xCAFEBABE,
        client_seq.wrapping_add(1),
        0x12,
        24,
    );
    proof {
        let z = clear_checksums(frame@);
        lemma_word_sum_bound(z, 26, 34);
        lemma_word_sum_bound(z, 34, 58);
    }
    recalculate_checksums(&mut frame, 0);
    frame
}

/// What the kernel serves: the loaded payload, or the missing-payload message
/// when there is none.
pub open spec fn served(payload: Option<&[u8]>) -> Seq<u8> {
    match payload {
        Some(p) => p@,
        None => missing_payload(),
    }
}

/// The response frame for an HTTP GET before its checksums: our sequence
/// number `my_seq`, acknowledgement `client_seq + client_data_len`
/// (wrapping), PSH|ACK, a 20-byte header, the body appended, and the IP total
/// length rewritten to `40 + body length` (truncated to 16 bits).
pub open spec fn http_base_frame(
    target_mac: Seq<u8>,
    target_ip: Seq<u8>,
    target_port: u16,
    my_seq: u32,
    client_seq: u32,
    client_data_len: u32,
    content: Seq<u8>,
) -> Seq<u8> {
    let body = http_body(content);
    let base = tcp_frame(
        target_mac,
        target_ip,
        target_port,
        my_seq,
        ((client_seq + client_data_len) % 0x1_0000_0000) as u32,
        0x18,
        20,
    ) + body;
    let total = be16_bytes(((40 + body.len()) % 65536) as int);
    base.update(16, total[0]).update(17, total[1])
}

/// The response frame for an HTTP GET: the base frame with its checksums.
pub open spec fn http_response_frame(
    target_mac: Seq<u8>,
    target_ip: Seq<u8>,
    target_port: u16,
    my_seq: u32,
    client_seq: u32,
    client_data_len: u32,
    content: Seq<u8>,
) -> Seq<u8> {
    with_checksums(
        http_base_frame(target_mac, target_ip, target_port, my_seq, client_seq, client_data_len, content),
    )
}

/// The SYN-ACK answers the SYN: it goes to the client's MAC and IP from ours,
/// from port 80 to the client's port, carries our sequence number
/// 0xCAFEBABE, acknowledges `client_seq + 1` (wrapping), has exactly the SYN
/// and ACK flags set, and both its IPv4 header and TCP checksums verify.
pub proof fn lemma_syn_ack_answers(target_mac: Seq<u8>, target_ip: Seq<u8>, target_port: u16, client_seq: u32)
    requires
        target_mac.len() == 6,
        target_ip.len() == 4,
    ensures
        ({
            let f = syn_ack_frame(target_mac, target_ip, target_port, client_seq);
            &&& f.len() == 58
            &&& f.subrange(0, 6) == target_mac
            &&& f.subrange(6, 12) == our_mac()
            &&& be16(f, 12) == 0x0800
            &&& f[23] == 6
            &&& f.subrange(26, 30) == our_ip()
            &&& f.subrange(30, 34) == target_ip
            &&& be16(f, 34) == 80
            &&& be16(f, 36) == target_port
            &&& be32(f, 38) == 0xCAFEBABE
            &&& be32(f, 42) == (client_seq + 1) % 0x1_0000_0000
            &&& f[47] == 0x12
            &&& ip_header_valid(f)
            &&& tcp_segment_valid(f)
        }),
{
    let ack = ((client_seq + 1) % 0x1_0000_0000) as u32;
    let t = tcp_frame(target_mac, target_ip, target_port, 0xCAFEBABE, ack, 0x12, 24);
    let f = syn_ack_frame(target_mac, target_ip, target_port, client_seq);
    lemma_tcp_frame_fields(target_mac, target_ip, target_port, 0xCAFEBABE, ack, 0x12, 24);
    lemma_with_checksums_keeps_fields(t);
    lemma_checksums_verify(t);
    assert(f.subrange(0, 6) =~= t.subrange(0, 6));
    assert(f.subrange(6, 12) =~= t.subrange(6, 12));
    assert(f.subrange(26, 30) =~= t.subrange(26, 30));
    assert(f.subrange(30, 34) =~= t.subrange(30, 34));
    assert(f[12] == t[12] && f[13] == t[13] && f[23] == t[23] && f[47] == t[47]);
    assert(f[34] == t[34] && f[35] == t[35] && f[36] == t[36] && f[37] == t[37]);
    assert(f[38] == t[38] && f[39] == t[39] && f[40] == t[40] && f[41] == t[41]);
    assert(f[42] == t[42] && f[43] == t[43] && f[44] == t[44] && f[45] == t[45]);
}

/// The response to an HTTP GET: it goes to the client's MAC and IP from
/// ours, from port 80 to the client's port, carries `my_seq`, acknowledges
/// the client's data (`client_seq + client_data_len`, wrapping) with the PSH
/// and ACK flags, its IPv4 total length counts the 40 header bytes and the
/// body (modulo 2^16), the TCP payload from byte 54 on is the HTTP body for
/// `content`, and both checksums verify.
pub proof fn lemma_http_response_frame(
    target_mac: Seq<u8>,
    target_ip: Seq<u8>,
    target_port: u16,
    my_seq: u32,
    client_seq: u32,
    client_data_len: u32,
    content: Seq<u8>,
)
    requires
        target_mac.len() == 6,
        target_ip.len() == 4,
    ensures
        ({
            let f = http_response_frame(target_mac, target_ip, target_port, my_seq, client_seq, client_data_len, content);
            &&& f.len() == 54 + http_body(content).len()
            &&& f.subrange(0, 6) == target_mac
            &&& f.subrange(6, 12) == our_mac()
            &&& be16(f, 12) == 0x0800
            &&& be16(f, 16) == (40 + http_body(content).len()) % 65536
            &&& f[23] == 6
            &&& f.subrange(26, 30) == our_ip()
            &&& f.subrange(30, 34) == target_ip
            &&& be16(f, 34) == 80
            &&& be16(f, 36) == target_port
            &&& be32(f, 38) == my_seq
            &&& be32(f, 42) == (client_seq + client_data_len) % 0x1_0000_0000
            &&& f[47] == 0x18
            &&& f.subrange(54, f.len() as int) == http_body(content)
            &&& ip_header_valid(f)
            &&& tcp_segment_valid(f)
        }),
{
    let body = http_body(content);
    let ack = ((client_seq + client_data_len) % 0x1_0000_0000) as u32;
    let t = tcp_frame(target_mac, target_ip, target_port, my_seq, ack, 0x18, 20);
    let total = be16_bytes(((40 + body.len()) % 65536) as int);
    let g = http_base_frame(target_mac, target_ip, target_port, my_seq, client_seq, client_data_len, content);
    let f = http_response_frame(target_mac, target_ip, target_port, my_seq, client_seq, client_data_len, content);
    lemma_tcp_frame_fields(target_mac, target_ip, target_port, my_seq, ack, 0x18, 20);
    lemma_be16_bytes(((40 + body.len()) % 65536) as int);
    assert(g == (t + body).update(16, total[0]).update(17, total[1]));
    assert(g.len() == 54 + body.len());
    assert forall|i: int| 0 <= i < 54 && i != 16 && i != 17 implies #[trigger] g[i] == t[i] by {}
    assert(g.subrange(54, g.len() as int) =~= body);
    lemma_with_checksums_keeps_fields(g);
    lemma_checksums_verify(g);
    assert(f.subrange(0, 6) =~= t.subrange(0, 6));
    assert(f.subrange(6, 12) =~= t.subrange(6, 12));
    assert(f.subrange(26, 30) =~= t.subrange(26, 30));
    assert(f.subrange(30, 34) =~= t.subrange(30, 34));
    assert(f.subrange(54, f.len() as int) =~= g.subrange(54, g.len() as int));
    assert(f[12] == t[12] && f[13] == t[13] && f[23] == t[23] && f[47] == t[47]);
    assert(f[16] == total[0] && f[17] == total[1]);
    assert(f[34] == t[34] && f[35] == t[35] && f[36] == t[36] && f[37] == t[37]);
    assert(f[38] == t[38] && f[39] == t[39] && f[40] == t[40] && f[41] == t[41]);
    assert(f[42] == t[42] && f[43] == t[43] && f[44] == t[44] && f[45] == t[45]);
}

fn served_bytes<'a>(payload: Option<&'a [u8]>) -> (r: &'a [u8])
    ensures
        r@ == served(payload),
{
    let missing = "ERROR: NO PAYLOAD FOUND IN RING-0 MEMORY";
    proof {
        reveal_strlit("ERROR: NO PAYLOAD FOUND IN RING-0 MEMORY");
        is_ascii_spec_bytes(missing);
    }
    match payload {
        Some(p) => p,
        None => {
            let m = missing.as_bytes();
            assert(m@ =~= missing_payload());
            m
        },
    }
}

#[verifier::rlimit(50)]
fn http_response_base(
    target_mac: [u8; 6],
    target_ip: [u8; 4],
    target_port: u16,
    my_seq: u32,
    client_seq: u32,
    client_data_len: u32,
    content: &[u8],
) -> (frame: Vec<u8>)
    ensures
        frame@ == http_base_frame(
            target_mac@,
            target_ip@,
            target_port,
            my_seq,
            client_seq,
            client_data_len,
            content@,
        ),
{
    let body = http_response_body(content);
    let ack_num = client_seq.wrapping_add(client_data_len);
    let mut frame = craft_base_tcp_frame(target_mac, target_ip, target_port, my_seq, ack_num, 0x18, 20);
    push_all(&mut frame, body.as_slice());
    let blen = body.len();
    let total_len = ((blen % 65536 + 40) % 65536) as u16;
    assert(total_len == (40 + body@.len()) % 65536) by (nonlinear_arith)
        requires
            total_len == (blen % 65536 + 40) % 65536,
            blen == body@.len(),
    ;
    assert((total_len >> 8) == total_len / 256 && (total_len & 0xFF) == total_len % 256) by (bit_vector);
    frame.set(16, (total_len >> 8) as u8);
    frame.set(17, (total_len & 0xFF) as u8);
    frame
}

/// Builds the frame answering an HTTP GET (see `http_response_frame`),
/// serving `payload`, or the missing-payload message when there is none.
pub fn send_http_response(
    target_mac: [u8; 6],
    target_ip: [u8; 4],
    target_port: u16,
    my_seq: u32,
    client_seq: u32,
    client_data_len: u32,
    payload: Option<&[u8]>,
) -> (frame: Vec<u8>)
    requires
        checksums_fit(
            http_base_frame(
                target_mac@,
                target_ip@,
                target_port,
                my_seq,
                client_seq,
                client_data_len,
                served(payload),
            ),
        ),
    ensures
        frame@ == http_response_frame(
            target_mac@,
            target_ip@,
            target_port,
            my_seq,
            client_seq,
            client_data_len,
            served(payload),
        ),
{
    let content = served_bytes(payload);
    let mut frame = http_response_base(
        target_mac,
        target_ip,
        target_port,
        my_seq,
        client_seq,
        client_data_len,
        content,
    );
    let body_len = if frame.len() >= 54 { frame.len() - 54 } else { 0 };
    recalculate_checksums(&mut frame, body_len);
    frame
}

/// Builds the frame answering an HTTP GET when its checksums can be computed
/// (see `checksums_fit`), and `None` otherwise.
pub fn try_send_http_response(
    target_mac: [u8; 6],
    target_ip: [u8; 4],
    target_port: u16,
    my_seq: u32,
    client_seq: u32,
    client_data_len: u32,
    payload: Option<&[u8]>,
) -> (r: Option<Vec<u8>>)
    ensures
        match r {
            Some(frame) => frame@ == http_response_frame(
                target_mac@,
                target_ip@,
                target_port,
                my_seq,
                client_seq,
                client_data_len,
                served(payload),
            ),
            None => !checksums_fit(
                http_base_frame(
                    target_mac@,
                    target_ip@,
                    target_port,
                    my_seq,
                    client_seq,
                    client_data_len,
                    served(payload),
                ),
            ),
        },
{
    let content = served_bytes(payload);
    let mut frame = http_response_base(
        target_mac,
        target_ip,
        target_port,
        my_seq,
        client_seq,
        client_data_len,
        content,
    );
    if !checksums_computable(frame.as_slice()) {
        return None;
    }
    let body_len = if frame.len() >= 54 { frame.len() - 54 } else { 0 };
    recalculate_checksums(&mut frame, body_len);
    Some(frame)
}


/// An Ethernet header, fields decoded from network byte order.
#[derive(Clone, Copy, Debug)]
pub struct EthernetHeader {
    pub dest_mac: [u8; 6],
    pub src_mac: [u8; 6],
    pub ethertype: u16,
}

/// An IPv4 header (without options), fields decoded from network byte order.
#[derive(Clone, Copy, Debug)]
pub struct Ipv4Header {
    pub version_ihl: u8,
    pub dscp_ecn: u8,
    pub total_length: u16,
    pub identification: u16,
    pub flags_fragment_offset: u16,
    pub ttl: u8,
    pub protocol: u8,
    pub header_checksum: u16,
    pub src_ip: [u8; 4],
    pub dest_ip: [u8; 4],
}

/// A TCP header (without options), fields decoded from network byte order.
#[derive(Clone, Copy, Debug)]
pub struct TcpHeader {
    pub src_port: u16,
    pub dest_port: u16,
    pub seq_num: u32,
    pub ack_num: u32,
    pub data_offset_flags: u16,
    pub window_size: u16,
    pub checksum: u16,
    pub urgent_ptr: u16,
}

fn read_array6(s: &[u8], i: usize) -> (r: [u8; 6])
    requires
        i + 6 <= s@.len(),
    ensures
        r@ == s@.subrange(i as int, i + 6),
{
    let r = [s[i], s[i + 1], s[i + 2], s[i + 3], s[i + 4], s[i + 5]];
    assert(r@ =~= s@.subrange(i as int, i + 6));
    r
}

fn read_array4(s: &[u8], i: usize) -> (r: [u8; 4])
    requires
        i + 4 <= s@.len(),
    ensures
        r@ == s@.subrange(i as int, i + 4),
{
    let r = [s[i], s[i + 1], s[i + 2], s[i + 3]];
    assert(r@ =~= s@.subrange(i as int, i + 4));
    r
}

impl EthernetHeader {
    /// Decodes the Ethernet header at the start of `packet`; `None` when the
    /// packet is shorter than 14 bytes.
    pub fn parse(packet: &[u8]) -> (r: Option<Self>)
        ensures
            match r {
                Some(h) => {
                    &&& packet@.len() >= 14
                    &&& h.dest_mac@ == packet@.subrange(0, 6)
                    &&& h.src_mac@ == packet@.subrange(6, 12)
                    &&& h.ethertype == be16(packet@, 12)
                },
                None => packet@.len() < 14,
            },
    {
        if packet.len() < 14 {
            return None;
        }
        Some(
            EthernetHeader {
                dest_mac: read_array6(packet, 0),
                src_mac: read_array6(packet, 6),
                ethertype: read_be16(packet, 12),
            },
        )
    }
}

impl Ipv4Header {
    /// Decodes the IPv4 header at `offset`; `None` when fewer than 20 bytes
    /// remain there.
    pub fn parse(packet: &[u8], offset: usize) -> (r: Option<Self>)
        requires
            offset <= packet@.len(),
        ensures
            match r {
                Some(h) => {
                    &&& offset + 20 <= packet@.len()
                    &&& h.version_ihl == packet@[offset as int]
                    &&& h.dscp_ecn == packet@[offset + 1]
                    &&& h.total_length == be16(packet@, offset + 2)
                    &&& h.identification == be16(packet@, offset + 4)
                    &&& h.flags_fragment_offset == be16(packet@, offset + 6)
                    &&& h.ttl == packet@[offset + 8]
                    &&& h.protocol == packet@[offset + 9]
                    &&& h.header_checksum == be16(packet@, offset + 10)
                    &&& h.src_ip@ == packet@.subrange(offset + 12, offset + 16)
                    &&& h.dest_ip@ == packet@.subrange(offset + 16, offset + 20)
                },
                None => offset + 20 > packet@.len(),
            },
    {
        if packet.len() - offset < 20 {
            return None;
        }
        Some(
            Ipv4Header {
                version_ihl: packet[offset],
                dscp_ecn: packet[offset + 1],
                total_length: read_be16(packet, offset + 2),
                identification: read_be16(packet, offset + 4),
                flags_fragment_offset: read_be16(packet, offset + 6),
                ttl: packet[offset + 8],
                protocol: packet[offset + 9],
                header_checksum: read_be16(packet, offset + 10),
                src_ip: read_array4(packet, offset + 12),
                dest_ip: read_array4(packet, offset + 16),
            },
        )
    }
}

impl TcpHeader {
    /// Decodes the TCP header at `offset`; `None` when fewer than 20 bytes
    /// remain there.
    pub fn parse(packet: &[u8], offset: usize) -> (r: Option<Self>)
        requires
            offset <= packet@.len(),
        ensures
            match r {
                Some(h) => {
                    &&& offset + 20 <= packet@.len()
                    &&& h.src_port == be16(packet@, offset as int)
                    &&& h.dest_port == be16(packet@, offset + 2)
                    &&& h.seq_num == be32(packet@, offset + 4)
                    &&& h.ack_num == be32(packet@, offset + 8)
                    &&& h.data_offset_flags == be16(packet@, offset + 12)
                    &&& h.window_size == be16(packet@, offset + 14)
                    &&& h.checksum == be16(packet@, offset + 16)
                    &&& h.urgent_ptr == be16(packet@, offset + 18)
                },
                None => offset + 20 > packet@.len(),
            },
    {
        if packet.len() - offset < 20 {
            return None;
        }
        Some(
            TcpHeader {
                src_port: read_be16(packet, offset),
                dest_port: read_be16(packet, offset + 2),
                seq_num: read_be32(packet, offset + 4),
                ack_num: read_be32(packet, offset + 8),
                data_offset_flags: read_be16(packet, offset + 12),
                window_size: read_be16(packet, offset + 14),
                checksum: read_be16(packet, offset + 16),
                urgent_ptr: read_be16(packet, offset + 18),
            },
        )
    }
}

/// What the protocol analyzer does with an incoming frame.
#[derive(Clone, Copy, Debug)]
pub enum NetAction {
    /// Nothing to answer.
    Ignore,
    /// A SYN to port 80: answer with a SYN-ACK.
    SynAck { target_mac: [u8; 6], target_ip: [u8; 4], src_port: u16, dest_port: u16, client_seq: u32 },
    /// An HTTP GET to port 80: answer with the payload.
    HttpGet {
        target_mac: [u8; 6],
        target_ip: [u8; 4],
        target_port: u16,
        my_seq: u32,
        client_seq: u32,
        data_len: u32,
    },
}

/// Byte offset of the TCP header: after the Ethernet header and the IPv4
/// header of the length its IHL field gives.
pub open spec fn tcp_offset(p: Seq<u8>) -> int {
    14 + (p[14] & 0x0F) * 4
}

/// The TCP data-offset-and-flags word.
pub open spec fn tcp_doff_flags(p: Seq<u8>) -> u16 {
    be16(p, tcp_offset(p) + 12) as u16
}

/// The TCP header length in bytes.
pub open spec fn tcp_header_len(p: Seq<u8>) -> int {
    ((tcp_doff_flags(p) >> 12) & 0x0F) * 4
}

/// Whether the frame is an IPv4 TCP segment addressed to us with a complete
/// TCP header.
pub open spec fn is_tcp_to_us(p: Seq<u8>) -> bool {
    &&& p.len() >= 34
    &&& be16(p, 12) == 0x0800
    &&& p.subrange(30, 34) == our_ip()
    &&& p[23] == 6
    &&& p.len() >= tcp_offset(p) + 20
}

/// Whether the frame is a TCP segment to our port 80 with SYN set.
pub open spec fn is_syn_to_http(p: Seq<u8>) -> bool {
    &&& is_tcp_to_us(p)
    &&& be16(p, tcp_offset(p) + 2) == 80
    &&& tcp_doff_flags(p) & 0x02 != 0
}

/// Length of the TCP data the IPv4 total-length field announces.
pub open spec fn tcp_data_len(p: Seq<u8>) -> int {
    be16(p, 16) - (p[14] & 0x0F) * 4 - tcp_header_len(p)
}

/// Whether the frame is a segment to our port 80, SYN clear and PSH set,
/// whose data is present in the frame, non-empty and starts with "GET".
pub open spec fn is_http_get(p: Seq<u8>) -> bool {
    let data = tcp_offset(p) + tcp_header_len(p);
    &&& is_tcp_to_us(p)
    &&& be16(p, tcp_offset(p) + 2) == 80
    &&& tcp_doff_flags(p) & 0x02 == 0
    &&& tcp_doff_flags(p) & 0x08 != 0
    &&& tcp_data_len(p) > 0
    &&& p.len() >= data + tcp_data_len(p)
    &&& tcp_data_len(p) >= 3
    &&& p.subrange(data, data + 3) == seq![0x47u8, 0x45, 0x54]
}

/// A TCP segment to port 80 of ours as `tcp_frame` lays it out (with a
/// 20-byte TCP header), carrying `data`, its IPv4 total length counting the
/// data.
pub open spec fn segment_to_us(seq: u32, ack: u32, flags: u8, data: Seq<u8>) -> Seq<u8> {
    let t = tcp_frame(our_mac(), our_ip(), 80, seq, ack, flags, 20) + data;
    let total = be16_bytes(40 + data.len() as int);
    t.update(16, total[0]).update(17, total[1])
}

/// The analyzer reads back what the frame builder writes: on a segment to
/// our port 80, the TCP header starts at byte 34 and is 20 bytes long, the
/// source port, sequence and acknowledgement numbers are the ones written,
/// the data length is that of the data carried; the segment is taken as a SYN
/// exactly when the SYN flag is set, and as an HTTP GET exactly when SYN is
/// clear, PSH is set and the data starts with "GET".
pub proof fn lemma_analyzer_reads_segments(seq: u32, ack: u32, flags: u8, data: Seq<u8>)
    requires
        3 <= data.len() <= 65495,
    ensures
        ({
            let p = segment_to_us(seq, ack, flags, data);
            &&& is_tcp_to_us(p)
            &&& tcp_offset(p) == 34
            &&& tcp_header_len(p) == 20
            &&& be16(p, tcp_offset(p)) == 80
            &&& be32(p, tcp_offset(p) + 4) == seq
            &&& be32(p, tcp_offset(p) + 8) == ack
            &&& tcp_data_len(p) == data.len()
            &&& (is_syn_to_http(p) <==> flags & 0x02 != 0)
            &&& (is_http_get(p) <==> flags & 0x02 == 0 && flags & 0x08 != 0 && data.subrange(0, 3) == seq![
                'G' as u8,
                'E' as u8,
                'T' as u8,
            ])
        }),
{
    let t = tcp_frame(our_mac(), our_ip(), 80, seq, ack, flags, 20);
    lemma_tcp_frame_fields(our_mac(), our_ip(), 80, seq, ack, flags, 20);
    let total = be16_bytes(40 + data.len() as int);
    lemma_be16_bytes(40 + data.len() as int);
    let p = segment_to_us(seq, ack, flags, data);
    assert(p.len() == 54 + data.len());
    assert forall|i: int| 0 <= i < 54 && i != 16 && i != 17 implies #[trigger] p[i] == t[i] by {}
    assert(p.subrange(30, 34) =~= t.subrange(30, 34));
    assert(p[14] == 0x45 && p[12] == t[12] && p[13] == t[13] && p[23] == 6);
    assert(0x45u8 & 0x0F == 5) by (bit_vector);
    assert(tcp_offset(p) == 34);
    assert(p[34] == t[34] && p[35] == t[35] && p[36] == t[36] && p[37] == t[37]);
    assert(p[38] == t[38] && p[39] == t[39] && p[40] == t[40] && p[41] == t[41]);
    assert(p[42] == t[42] && p[43] == t[43] && p[44] == t[44] && p[45] == t[45]);
    assert(p[46] == t[46] && p[47] == flags);
    assert(p[16] == total[0] && p[17] == total[1]);
    let h = p[46];
    assert(h / 16 == 5);
    let w = tcp_doff_flags(p);
    assert(w == h * 256 + flags);
    assert(((w >> 12) & 0x0F) == 5 && (w & 0x02 == flags & 0x02) && (w & 0x08 == flags & 0x08)) by (bit_vector)
        requires
            w == h * 256 + flags,
            h / 16 == 5,
    ;
    assert(p.subrange(54, 57) =~= data.subrange(0, 3));
    assert(seq!['G' as u8, 'E' as u8, 'T' as u8] =~= seq![0x47u8, 0x45, 0x54]);
}

/// The MAC the kernel answers `ip` at: the cached one, else broadcast.
pub open spec fn resolve_mac(arp: Seq<crate::e1000::ArpEntry>, ip: Seq<u8>) -> Seq<u8> {
    match arp_lookup(arp, ip) {
        Some(m) => m,
        None => seq![0xFFu8, 0xFF, 0xFF, 0xFF, 0xFF, 0xFF],
    }
}

/// Decides how to answer an incoming frame: a SYN to port 80 gets a SYN-ACK,
/// a GET to port 80 gets the HTTP response, everything else is ignored.
pub fn handle_incoming_packet(packet: &[u8], arp: &ArpCache) -> (r: NetAction)
    requires
        arp.wf(),
    ensures
        match r {
            NetAction::Ignore => !is_syn_to_http(packet@) && !is_http_get(packet@),
            NetAction::SynAck { target_mac, target_ip, src_port, dest_port, client_seq } => {
                &&& is_syn_to_http(packet@)
                &&& target_mac@ == resolve_mac(arp@, packet@.subrange(26, 30))
                &&& target_ip@ == packet@.subrange(26, 30)
                &&& src_port == be16(packet@, tcp_offset(packet@))
                &&& dest_port == 80
                &&& client_seq == be32(packet@, tcp_offset(packet@) + 4)
            },
            NetAction::HttpGet { target_mac, target_ip, target_port, my_seq, client_seq, data_len } => {
                &&& is_http_get(packet@)
                &&& target_mac@ == resolve_mac(arp@, packet@.subrange(26, 30))
                &&& target_ip@ == packet@.subrange(26, 30)
                &&& target_port == be16(packet@, tcp_offset(packet@))
                &&& my_seq == be32(packet@, tcp_offset(packet@) + 8)
                &&& client_seq == be32(packet@, tcp_offset(packet@) + 4)
                &&& data_len == tcp_data_len(packet@)
            },
        },
{
    let eth = match EthernetHeader::parse(packet) {
        Some(h) => h,
        None => return NetAction::Ignore,
    };
    if eth.ethertype != 0x0800 {
        return NetAction::Ignore;
    }
    let ip_offset: usize = 14;
    let ip = match Ipv4Header::parse(packet, ip_offset) {
        Some(h) => h,
        None => return NetAction::Ignore,
    };
    if !(ip.dest_ip[0] == 10 && ip.dest_ip[1] == 0 && ip.dest_ip[2] == 2 && ip.dest_ip[3] == 15) {
        assert(packet@.subrange(30, 34) != our_ip()) by {
            if packet@.subrange(30, 34) == our_ip() {
                assert(ip.dest_ip@[0] == packet@.subrange(30, 34)[0]);
                assert(ip.dest_ip@[1] == packet@.subrange(30, 34)[1]);
                assert(ip.dest_ip@[2] == packet@.subrange(30, 34)[2]);
                assert(ip.dest_ip@[3] == packet@.subrange(30, 34)[3]);
            }
        }
        return NetAction::Ignore;
    }
    assert(packet@.subrange(30, 34) =~= our_ip());
    if ip.protocol != 0x06 {
        return NetAction::Ignore;
    }
    let vi = ip.version_ihl;
    assert(vi & 0x0F <= 15) by (bit_vector);
    let ihl: u8 = (vi & 0x0F) * 4;
    let tcp_off: usize = ip_offset + ihl as usize;
    if packet.len() < tcp_off || packet.len() - tcp_off < 20 {
        return NetAction::Ignore;
    }
    let tcp = match TcpHeader::parse(packet, tcp_off) {
        Some(h) => h,
        None => return NetAction::Ignore,
    };
    let doff_flags = tcp.data_offset_flags;
    assert((doff_flags >> 12) & 0x0F <= 15) by (bit_vector);
    let tcp_header_len: u16 = ((doff_flags >> 12) & 0x0F) * 4;
    let flags = doff_flags & 0x01FF;
    assert((flags & 0x02 != 0) == (doff_flags & 0x02 != 0) && (flags & 0x08 != 0) == (doff_flags & 0x08 != 0)) by (bit_vector)
        requires
            flags == doff_flags & 0x01FF,
    ;
    let is_syn = (flags & 0x02) != 0;
    let is_psh = (flags & 0x08) != 0;
    if tcp.dest_port != 80 {
        return NetAction::Ignore;
    }
    if is_syn {
        let target_mac = match arp.lookup(&ip.src_ip) {
            Some(mac) => mac,
            None => [0xFFu8; 6],
        };
        assert(target_mac@ =~= resolve_mac(arp@, packet@.subrange(26, 30)));
        return NetAction::SynAck {
            target_mac,
            target_ip: ip.src_ip,
            src_port: tcp.src_port,
            dest_port: tcp.dest_port,
            client_seq: tcp.seq_num,
        };
    }
    if !is_psh {
        return NetAction::Ignore;
    }
    let data_offset: usize = tcp_off + tcp_header_len as usize;
    let total_ip_len = ip.total_length as usize;
    if total_ip_len < ihl as usize + tcp_header_len as usize {
        return NetAction::Ignore;
    }
    let data_len: usize = total_ip_len - ihl as usize - tcp_header_len as usize;
    if data_len == 0 || packet.len() < data_offset || packet.len() - data_offset < data_len {
        return NetAction::Ignore;
    }
    if data_len >= 3 && packet[data_offset] == 0x47 && packet[data_offset + 1] == 0x45
        && packet[data_offset + 2] == 0x54 {
        assert(packet@.subrange(data_offset as int, data_offset + 3) =~= seq![0x47u8, 0x45, 0x54]);
        let target_mac = match arp.lookup(&ip.src_ip) {
            Some(mac) => mac,
            None => [0xFFu8; 6],
        };
        assert(target_mac@ =~= resolve_mac(arp@, packet@.subrange(26, 30)));
        return NetAction::HttpGet {
            target_mac,
            target_ip: ip.src_ip,
            target_port: tcp.src_port,
            my_seq: tcp.ack_num,
            client_seq: tcp.seq_num,
            data_len: data_len as u32,
        };
    }
    assert(!is_http_get(packet@)) by {
        if is_http_get(packet@) {
            let d = data_offset as int;
            assert(packet@.subrange(d, d + 3)[0] == packet@[d]);
            assert(packet@.subrange(d, d + 3)[1] == packet@[d + 1]);
            assert(packet@.subrange(d, d + 3)[2] == packet@[d + 2]);
        }
    }
    NetAction::Ignore
}

} // verus!
