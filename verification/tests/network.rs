use edgecore_kernel::e1000::{frame_ethertype, rx_frame_complete, ArpCache, RxDescriptor, RxFrame, TxDescriptor, E1000, TX_CMD};
use edgecore_kernel::mmio::RegWrite;
use edgecore_kernel::net::{
    checksums_computable, craft_base_tcp_frame, decimal_bytes, handle_incoming_packet, http_response_body,
    recalculate_checksums, send_http_response, send_tcp_syn_ack, try_send_http_response, EthernetHeader,
    Ipv4Header, NetAction, TcpHeader,
};
use edgecore_kernel::wire::{
    push_all, push_be16, push_be32, push_le16, push_le32, push_le64, read_be16, read_be32, read_le16, read_le32,
    read_le64,
};

const OUR_MAC: [u8; 6] = [0x52, 0x54, 0x00, 0x12, 0x34, 0x56];
const OUR_IP: [u8; 4] = [10, 0, 2, 15];
const PEER_MAC: [u8; 6] = [0x52, 0x55, 0x0A, 0x00, 0x02, 0x02];
const PEER_IP: [u8; 4] = [10, 0, 2, 2];

fn ones_complement_sum(start: u64, words: &[u8]) -> u64 {
    let mut sum: u64 = start;
    let mut i = 0;
    while i < words.len() {
        let hi = words[i] as u64;
        let lo = if i + 1 < words.len() { words[i + 1] as u64 } else { 0 };
        sum += (hi << 8) | lo;
        i += 2;
    }
    while sum >> 16 != 0 {
        sum = (sum & 0xFFFF) + (sum >> 16);
    }
    sum
}

fn ip_header_checks(frame: &[u8]) -> bool {
    ones_complement_sum(0, &frame[14..34]) == 0xFFFF
}

fn tcp_checks(frame: &[u8]) -> bool {
    let mut pseudo = Vec::new();
    pseudo.extend_from_slice(&frame[26..34]);
    pseudo.extend_from_slice(&frame[34..]);
    ones_complement_sum(6 + (frame.len() as u64 - 34), &pseudo) == 0xFFFF
}

fn arp_packet(opcode: u16, sender_mac: [u8; 6], sender_ip: [u8; 4], target_ip: [u8; 4]) -> Vec<u8> {
    let mut p = Vec::new();
    p.extend_from_slice(&[0xFF; 6]);
    p.extend_from_slice(&sender_mac);
    p.extend_from_slice(&[0x08, 0x06, 0x00, 0x01, 0x08, 0x00, 0x06, 0x04]);
    p.extend_from_slice(&opcode.to_be_bytes());
    p.extend_from_slice(&sender_mac);
    p.extend_from_slice(&sender_ip);
    p.extend_from_slice(&[0; 6]);
    p.extend_from_slice(&target_ip);
    p.extend_from_slice(&[0; 18]);
    p
}

fn tcp_packet(dst_ip: [u8; 4], protocol: u8, src_port: u16, dst_port: u16, seq: u32, ack: u32, flags: u8, data: &[u8]) -> Vec<u8> {
    let mut p = Vec::new();
    p.extend_from_slice(&OUR_MAC);
    p.extend_from_slice(&PEER_MAC);
    p.extend_from_slice(&[0x08, 0x00]);
    p.extend_from_slice(&[0x45, 0x00]);
    p.extend_from_slice(&((40 + data.len()) as u16).to_be_bytes());
    p.extend_from_slice(&[0x12, 0x34, 0x40, 0x00, 64, protocol, 0, 0]);
    p.extend_from_slice(&PEER_IP);
    p.extend_from_slice(&dst_ip);
    p.extend_from_slice(&src_port.to_be_bytes());
    p.extend_from_slice(&dst_port.to_be_bytes());
    p.extend_from_slice(&seq.to_be_bytes());
    p.extend_from_slice(&ack.to_be_bytes());
    p.extend_from_slice(&[0x50, flags, 0xFF, 0xFF, 0, 0, 0, 0]);
    p.extend_from_slice(data);
    p
}

#[test]
fn wire_reads_and_writes() {
    let b = [0x12u8, 0x34, 0x56, 0x78, 0x9A, 0xBC, 0xDE, 0xF0];
    assert_eq!(read_be16(&b, 0), 0x1234);
    assert_eq!(read_be32(&b, 2), 0x5678_9ABC);
    assert_eq!(read_le16(&b, 0), 0x3412);
    assert_eq!(read_le32(&b, 4), 0xF0DE_BC9A);
    assert_eq!(read_le64(&b, 0), 0xF0DE_BC9A_7856_3412);
    let mut v = vec![1u8];
    push_be16(&mut v, 0xABCD);
    push_be32(&mut v, 0x0102_0304);
    push_le16(&mut v, 0xABCD);
    push_le32(&mut v, 0x0102_0304);
    push_le64(&mut v, 0x0102_0304_0506_0708);
    push_all(&mut v, &[9, 9]);
    assert_eq!(
        v,
        vec![1, 0xAB, 0xCD, 1, 2, 3, 4, 0xCD, 0xAB, 4, 3, 2, 1, 8, 7, 6, 5, 4, 3, 2, 1, 9, 9]
    );
}

#[test]
fn arp_lookup_after_insert() {
    let mut c = ArpCache::new();
    assert_eq!(c.lookup(&PEER_IP), None);
    c.insert(PEER_IP, PEER_MAC);
    assert_eq!(c.lookup(&PEER_IP), Some(PEER_MAC));
    c.insert(PEER_IP, [1, 2, 3, 4, 5, 6]);
    assert_eq!(c.lookup(&PEER_IP), Some([1, 2, 3, 4, 5, 6]));
}

#[test]
fn arp_insert_keeps_other_entries() {
    let mut c = ArpCache::new();
    c.insert([10, 0, 2, 3], [3; 6]);
    c.insert(PEER_IP, PEER_MAC);
    c.insert([10, 0, 2, 4], [4; 6]);
    assert_eq!(c.lookup(&[10, 0, 2, 3]), Some([3; 6]));
    assert_eq!(c.lookup(&PEER_IP), Some(PEER_MAC));
    assert_eq!(c.lookup(&[10, 0, 2, 4]), Some([4; 6]));
    assert_eq!(c.lookup(&[10, 0, 2, 5]), None);
}

#[test]
fn arp_cache_full_ignores_new_addresses() {
    let mut c = ArpCache::new();
    for i in 0..16u8 {
        c.insert([192, 168, 0, i], [i; 6]);
    }
    c.insert([192, 168, 0, 99], [99; 6]);
    assert_eq!(c.lookup(&[192, 168, 0, 99]), None);
    for i in 0..16u8 {
        assert_eq!(c.lookup(&[192, 168, 0, i]), Some([i; 6]));
    }
    c.insert([192, 168, 0, 7], [70; 6]);
    assert_eq!(c.lookup(&[192, 168, 0, 7]), Some([70; 6]));
}

#[test]
fn descriptors_round_trip() {
    let rx = RxDescriptor { buffer_address: 0x0123_4567_89AB_CDEF, length: 0x05EA, checksum: 0xBEEF, status: 3, errors: 0x80, special: 0x1234 };
    let bytes = rx.to_bytes();
    assert_eq!(bytes.len(), 16);
    assert_eq!(&bytes[0..8], &[0xEF, 0xCD, 0xAB, 0x89, 0x67, 0x45, 0x23, 0x01]);
    assert_eq!(&bytes[8..16], &[0xEA, 0x05, 0xEF, 0xBE, 3, 0x80, 0x34, 0x12]);
    assert_eq!(RxDescriptor::from_bytes(&bytes), rx);
    assert!(rx.is_done());
    let tx = TxDescriptor { buffer_address: 0xFFFF_0000_1111_2222, length: 60, cso: 1, cmd: 2, status: 3, css: 4, special: 0xA55A };
    let bytes = tx.to_bytes();
    assert_eq!(&bytes[8..16], &[60, 0, 1, 2, 3, 4, 0x5A, 0xA5]);
    assert_eq!(TxDescriptor::from_bytes(&bytes), tx);
}

#[test]
fn transmit_fills_address_length_and_command() {
    let mut tx = TxDescriptor { buffer_address: 0, length: 0, cso: 9, cmd: 0, status: 1, css: 8, special: 7 };
    tx.transmit(0x4000, 60);
    assert_eq!(tx, TxDescriptor { buffer_address: 0x4000, length: 60, cso: 9, cmd: TX_CMD, status: 1, css: 8, special: 7 });
    assert_eq!(TX_CMD, 0b1011);
    let rx = RxDescriptor { buffer_address: 0, length: 0, checksum: 0, status: 0, errors: 0, special: 0 };
    assert!(!rx.is_done());
}

#[test]
fn nic_setup_writes() {
    let mut nic = E1000::new(0xFEB8_0000);
    assert_eq!(nic.register_address(0x3818), 0xFEB8_3818);
    assert_eq!(E1000::link_up(0x0000_0001), 0x41);
    assert_eq!(E1000::receive_address(OUR_MAC), (0x1200_5452, 0x8000_5634));
    let w = nic.init_rx_ring(0x1_0000_2000);
    assert_eq!(
        w,
        vec![
            RegWrite { offset: 0x2800, width: 4, value: 0x2000 },
            RegWrite { offset: 0x2808, width: 4, value: 512 },
            RegWrite { offset: 0x2810, width: 4, value: 0 },
            RegWrite { offset: 0x2818, width: 4, value: 31 },
            RegWrite { offset: 0x5400, width: 4, value: 0x1200_5452 },
            RegWrite { offset: 0x5404, width: 4, value: 0x8000_5634 },
            RegWrite { offset: 0x0100, width: 4, value: 0x801A },
        ]
    );
    let w = nic.init_tx_ring(0x3000);
    assert_eq!(
        w,
        vec![
            RegWrite { offset: 0x3800, width: 4, value: 0x3000 },
            RegWrite { offset: 0x3808, width: 4, value: 128 },
            RegWrite { offset: 0x3810, width: 4, value: 0 },
            RegWrite { offset: 0x3818, width: 4, value: 0 },
            RegWrite { offset: 0x0400, width: 4, value: 0x0A },
        ]
    );
    assert_eq!(nic.rx_descriptor_address(), 0x1_0000_2000);
    assert_eq!(nic.tx_ring_ptr, 0x3000);
}

#[test]
fn transmit_cursor_cycles_the_ring() {
    let mut nic = E1000::new(0xFEB8_0000);
    nic.init_tx_ring(0x3000);
    for k in 0..8u64 {
        let (addr, tail) = nic.next_tx_descriptor();
        assert_eq!(addr, 0x3000 + k * 16);
        assert_eq!(tail as u64, (k + 1) % 8);
    }
    assert_eq!(nic.next_tx_descriptor(), (0x3000, 1));
}

#[test]
fn arp_frames() {
    let nic = E1000::new(0);
    let f = nic.arp_request([10, 0, 2, 99]);
    assert_eq!(f.len(), 60);
    assert_eq!(&f[0..6], &[0xFF; 6]);
    assert_eq!(&f[6..12], &OUR_MAC);
    assert_eq!(&f[12..22], &[0x08, 0x06, 0x00, 0x01, 0x08, 0x00, 0x06, 0x04, 0x00, 0x01]);
    assert_eq!(&f[22..28], &OUR_MAC);
    assert_eq!(&f[28..32], &OUR_IP);
    assert_eq!(&f[32..38], &[0; 6]);
    assert_eq!(&f[38..42], &[10, 0, 2, 99]);
    assert!(f[42..].iter().all(|&b| b == 0));
    let g = nic.qemu_router_handshake();
    assert_eq!(&g[38..42], &PEER_IP);
    assert_eq!(&g[..38], &f[..38]);
    let r = nic.arp_reply(PEER_MAC, PEER_IP);
    assert_eq!(r.len(), 60);
    assert_eq!(&r[0..6], &PEER_MAC);
    assert_eq!(&r[6..12], &OUR_MAC);
    assert_eq!(&r[20..22], &[0x00, 0x02]);
    assert_eq!(&r[22..28], &OUR_MAC);
    assert_eq!(&r[28..32], &OUR_IP);
    assert_eq!(&r[32..38], &PEER_MAC);
    assert_eq!(&r[38..42], &PEER_IP);
}

#[test]
fn udp_announcement_frame() {
    let f = E1000::new(0).udp_broadcast();
    assert_eq!(f.len(), 60);
    assert_eq!(&f[23..24], &[0x11]);
    assert_eq!(&f[30..34], &[255, 255, 255, 255]);
    assert_eq!(read_be16(&f, 34), 6666);
    assert_eq!(read_be16(&f, 36), 6667);
    assert_eq!(&f[42..], b"QOREOS NODE ONLINE");
}

#[test]
fn frame_completeness() {
    let ipv4 = tcp_packet(OUR_IP, 6, 1, 80, 0, 0, 0x02, &[]);
    assert!(!rx_frame_complete(&ipv4[..13]));
    assert!(rx_frame_complete(&ipv4[..14]));
    assert_eq!(frame_ethertype(&ipv4), 0x0800);
    let arp = arp_packet(1, PEER_MAC, PEER_IP, OUR_IP);
    assert!(!rx_frame_complete(&arp[..21]));
    assert!(!rx_frame_complete(&arp[..41]));
    assert!(rx_frame_complete(&arp[..42]));
    let mut other_arp = arp.clone();
    other_arp[15] = 6;
    assert!(rx_frame_complete(&other_arp[..22]));
}

#[test]
fn poll_answers_arp_requests_for_us() {
    let mut nic = E1000::new(0);
    nic.init_rx_ring(0x2000);
    let mut cache = ArpCache::new();
    let req = arp_packet(1, PEER_MAC, PEER_IP, OUR_IP);
    let (found, tail) = nic.poll(&mut cache, &req);
    assert_eq!(tail, 0);
    match found {
        RxFrame::ArpRequest { target_ip, reply } => {
            assert_eq!(target_ip, OUR_IP);
            assert_eq!(reply, Some(nic.arp_reply(PEER_MAC, PEER_IP)));
        },
        other => panic!("unexpected {:?}", other),
    }
    assert_eq!(cache.lookup(&PEER_IP), Some(PEER_MAC));
    assert_eq!(nic.rx_descriptor_address(), 0x2000 + 16);
}

#[test]
fn poll_records_but_does_not_answer_other_arp() {
    let mut nic = E1000::new(0);
    let mut cache = ArpCache::new();
    let req = arp_packet(1, PEER_MAC, PEER_IP, [10, 0, 2, 3]);
    match nic.poll(&mut cache, &req).0 {
        RxFrame::ArpRequest { target_ip, reply } => {
            assert_eq!(target_ip, [10, 0, 2, 3]);
            assert!(reply.is_none());
        },
        other => panic!("unexpected {:?}", other),
    }
    let reply = arp_packet(2, [7; 6], [10, 0, 2, 7], OUR_IP);
    assert!(matches!(nic.poll(&mut cache, &reply).0, RxFrame::ArpOther));
    assert_eq!(cache.lookup(&[10, 0, 2, 7]), Some([7; 6]));
    let mut token_ring = arp_packet(1, [8; 6], [10, 0, 2, 8], OUR_IP);
    token_ring[15] = 6;
    assert!(matches!(nic.poll(&mut cache, &token_ring).0, RxFrame::ArpIgnored));
    assert_eq!(cache.lookup(&[10, 0, 2, 8]), None);
}

#[test]
fn poll_classifies_other_frames_and_wraps() {
    let mut nic = E1000::new(0);
    let mut cache = ArpCache::new();
    let ipv4 = tcp_packet(OUR_IP, 6, 1, 80, 0, 0, 0x02, &[]);
    let mut ipv6 = ipv4.clone();
    ipv6[12] = 0x86;
    ipv6[13] = 0xDD;
    for k in 0..32u32 {
        let (found, tail) = nic.poll(&mut cache, &ipv4);
        assert!(matches!(found, RxFrame::Ipv4));
        assert_eq!(tail, k);
    }
    let (found, tail) = nic.poll(&mut cache, &ipv6);
    assert!(matches!(found, RxFrame::Other));
    assert_eq!(tail, 0);
    assert_eq!(cache.lookup(&PEER_IP), None);
}

#[test]
fn base_tcp_frame_layout() {
    let f = craft_base_tcp_frame(PEER_MAC, PEER_IP, 5555, 0x0102_0304, 0x0A0B_0C0D, 0x12, 24);
    assert_eq!(f.len(), 58);
    assert_eq!(&f[0..6], &PEER_MAC);
    assert_eq!(&f[6..12], &OUR_MAC);
    assert_eq!(&f[12..18], &[0x08, 0x00, 0x45, 0x00, 0x00, 44]);
    assert_eq!(&f[18..26], &[0, 0, 0x40, 0x00, 64, 6, 0, 0]);
    assert_eq!(&f[26..30], &OUR_IP);
    assert_eq!(&f[30..34], &PEER_IP);
    assert_eq!(&f[34..38], &[0x00, 0x50, 0x15, 0xB3]);
    assert_eq!(&f[38..46], &[1, 2, 3, 4, 0x0A, 0x0B, 0x0C, 0x0D]);
    assert_eq!(&f[46..50], &[0x60, 0x12, 0xFA, 0xF0]);
    assert_eq!(&f[50..58], &[0, 0, 0, 0, 0x02, 0x04, 0x05, 0xB4]);
    let g = craft_base_tcp_frame(PEER_MAC, PEER_IP, 5555, 1, 2, 0x18, 20);
    assert_eq!(g.len(), 54);
    assert_eq!(g[46], 0x50);
    assert_eq!(&g[50..54], &[0, 0, 0, 0]);
}

#[test]
fn recalculated_checksums_verify() {
    let mut f = craft_base_tcp_frame(PEER_MAC, PEER_IP, 40000, 7, 9, 0x10, 20);
    f.extend_from_slice(b"odd");
    f[24] = 0xAB;
    f[51] = 0xCD;
    recalculate_checksums(&mut f, 3);
    assert!(ip_header_checks(&f));
    assert!(tcp_checks(&f));
}

#[test]
fn syn_ack_answers_a_syn() {
    let f = send_tcp_syn_ack(PEER_MAC, PEER_IP, 5555, 1000);
    assert_eq!(f.len(), 58);
    assert_eq!(read_be32(&f, 38), 0xCAFE_BABE);
    assert_eq!(read_be32(&f, 42), 1001);
    assert_eq!(f[47], 0x12);
    assert!(ip_header_checks(&f));
    assert!(tcp_checks(&f));
    let w = send_tcp_syn_ack(PEER_MAC, PEER_IP, 5555, 0xFFFF_FFFF);
    assert_eq!(read_be32(&w, 42), 0);
}

#[test]
fn decimal_and_http_body() {
    assert_eq!(decimal_bytes(0), b"0".to_vec());
    assert_eq!(decimal_bytes(7), b"7".to_vec());
    assert_eq!(decimal_bytes(1234), b"1234".to_vec());
    assert_eq!(
        http_response_body(b"HELLO"),
        b"HTTP/1.1 200 OK\r\nContent-Type: text/plain\r\nContent-Length: 5\r\nConnection: close\r\n\r\nHELLO".to_vec()
    );
}

#[test]
fn http_response_frame_serves_the_payload() {
    let f = send_http_response(PEER_MAC, PEER_IP, 5555, 0x1111, 0x2222, 18, Some(&b"HELLO"[..]));
    let body = http_response_body(b"HELLO");
    assert_eq!(f.len(), 54 + body.len());
    assert_eq!(&f[54..], &body[..]);
    assert_eq!(read_be16(&f, 16) as usize, 40 + body.len());
    assert_eq!(read_be32(&f, 38), 0x1111);
    assert_eq!(read_be32(&f, 42), 0x2222 + 18);
    assert_eq!(f[47], 0x18);
    assert!(ip_header_checks(&f));
    assert!(tcp_checks(&f));
}

#[test]
fn http_response_without_payload_serves_the_error_text() {
    let f = send_http_response(PEER_MAC, PEER_IP, 5555, 1, 0xFFFF_FFFF, 2, None);
    let body = http_response_body(b"ERROR: NO PAYLOAD FOUND IN RING-0 MEMORY");
    assert_eq!(&f[54..], &body[..]);
    assert_eq!(read_be32(&f, 42), 1);
    assert!(ip_header_checks(&f));
    assert!(tcp_checks(&f));
}

#[test]
fn header_parsers() {
    let p = tcp_packet(OUR_IP, 6, 5555, 80, 1000, 77, 0x02, &[]);
    let eth = EthernetHeader::parse(&p).unwrap();
    assert_eq!(eth.dest_mac, OUR_MAC);
    assert_eq!(eth.src_mac, PEER_MAC);
    assert_eq!(eth.ethertype, 0x0800);
    let ip = Ipv4Header::parse(&p, 14).unwrap();
    assert_eq!((ip.version_ihl, ip.total_length, ip.identification, ip.ttl, ip.protocol), (0x45, 40, 0x1234, 64, 6));
    assert_eq!((ip.src_ip, ip.dest_ip), (PEER_IP, OUR_IP));
    let tcp = TcpHeader::parse(&p, 34).unwrap();
    assert_eq!((tcp.src_port, tcp.dest_port, tcp.seq_num, tcp.ack_num), (5555, 80, 1000, 77));
    assert_eq!((tcp.data_offset_flags, tcp.window_size), (0x5002, 0xFFFF));
    assert!(EthernetHeader::parse(&p[..13]).is_none());
    assert!(Ipv4Header::parse(&p[..33], 14).is_none());
    assert!(TcpHeader::parse(&p[..53], 34).is_none());
}

#[test]
fn syn_to_port_80_is_answered() {
    let p = tcp_packet(OUR_IP, 6, 5555, 80, 1000, 0, 0x02, &[]);
    let empty = ArpCache::new();
    match handle_incoming_packet(&p, &empty) {
        NetAction::SynAck { target_mac, target_ip, src_port, dest_port, client_seq } => {
            assert_eq!(target_mac, [0xFF; 6]);
            assert_eq!(target_ip, PEER_IP);
            assert_eq!((src_port, dest_port, client_seq), (5555, 80, 1000));
        },
        other => panic!("unexpected {:?}", other),
    }
    let mut known = ArpCache::new();
    known.insert(PEER_IP, PEER_MAC);
    match handle_incoming_packet(&p, &known) {
        NetAction::SynAck { target_mac, .. } => assert_eq!(target_mac, PEER_MAC),
        other => panic!("unexpected {:?}", other),
    }
}

#[test]
fn get_request_is_answered() {
    let data = b"GET / HTTP/1.1\r\n\r\n";
    let p = tcp_packet(OUR_IP, 6, 5555, 80, 1001, 0xCAFE_BABF, 0x18, data);
    match handle_incoming_packet(&p, &ArpCache::new()) {
        NetAction::HttpGet { target_mac, target_ip, target_port, my_seq, client_seq, data_len } => {
            assert_eq!(target_mac, [0xFF; 6]);
            assert_eq!(target_ip, PEER_IP);
            assert_eq!((target_port, my_seq, client_seq, data_len), (5555, 0xCAFE_BABF, 1001, 18));
        },
        other => panic!("unexpected {:?}", other),
    }
}

#[test]
fn other_traffic_is_ignored() {
    let arp = ArpCache::new();
    let ignored = |p: &[u8]| matches!(handle_incoming_packet(p, &arp), NetAction::Ignore);
    assert!(ignored(&tcp_packet([10, 0, 2, 16], 6, 5555, 80, 1, 0, 0x02, &[])));
    assert!(ignored(&tcp_packet(OUR_IP, 6, 5555, 81, 1, 0, 0x02, &[])));
    assert!(ignored(&tcp_packet(OUR_IP, 17, 5555, 80, 1, 0, 0x02, &[])));
    assert!(ignored(&tcp_packet(OUR_IP, 6, 5555, 80, 1, 0, 0x18, b"POST /")));
    assert!(ignored(&tcp_packet(OUR_IP, 6, 5555, 80, 1, 0, 0x18, &[])));
    assert!(ignored(&tcp_packet(OUR_IP, 6, 5555, 80, 1, 0, 0x10, b"GET /")));
    assert!(ignored(&tcp_packet(OUR_IP, 6, 5555, 80, 1, 0, 0x18, b"GE")));
    let full = tcp_packet(OUR_IP, 6, 5555, 80, 1, 0, 0x02, &[]);
    assert!(ignored(&full[..40]));
    assert!(ignored(&full[..10]));
    let arp_frame = arp_packet(1, PEER_MAC, PEER_IP, OUR_IP);
    assert!(ignored(&arp_frame));
}

#[test]
fn checksum_accumulator_limits() {
    let f = craft_base_tcp_frame(PEER_MAC, PEER_IP, 5555, 1, 2, 0x18, 20);
    assert!(checksums_computable(&f));
    assert!(!checksums_computable(&f[..51]));
    let mut big = f.clone();
    big.extend(std::iter::repeat(0xFF).take(140_000));
    assert!(!checksums_computable(&big));
    let mut zeros = f.clone();
    zeros.extend(std::iter::repeat(0).take(140_000));
    assert!(checksums_computable(&zeros));
    recalculate_checksums(&mut zeros, 140_000);
    assert!(ip_header_checks(&zeros));
    assert!(tcp_checks(&zeros));
}

#[test]
fn http_response_is_refused_only_when_checksums_overflow() {
    let small = try_send_http_response(PEER_MAC, PEER_IP, 5555, 0x1111, 0x2222, 18, Some(&b"HELLO"[..]));
    assert_eq!(small, Some(send_http_response(PEER_MAC, PEER_IP, 5555, 0x1111, 0x2222, 18, Some(&b"HELLO"[..]))));
    let huge = vec![0xFFu8; 200_000];
    assert_eq!(try_send_http_response(PEER_MAC, PEER_IP, 5555, 1, 2, 3, Some(&huge[..])), None);
    let zeros = vec![0u8; 70_000];
    let f = try_send_http_response(PEER_MAC, PEER_IP, 5555, 1, 2, 3, Some(&zeros[..])).unwrap();
    let body_len = f.len() - 54;
    assert_eq!(read_be16(&f, 16) as usize, (40 + body_len) % 65536);
    assert!(ip_header_checks(&f));
    assert!(tcp_checks(&f));
}

#[test]
fn arp_updates_take_no_new_slot() {
    let mut c = ArpCache::new();
    c.insert([10, 0, 0, 1], [1; 6]);
    c.insert([10, 0, 0, 1], [2; 6]);
    for i in 2..17u8 {
        c.insert([10, 0, 0, i], [i; 6]);
    }
    assert_eq!(c.lookup(&[10, 0, 0, 1]), Some([2; 6]));
    for i in 2..17u8 {
        assert_eq!(c.lookup(&[10, 0, 0, i]), Some([i; 6]));
    }
    c.insert([10, 0, 0, 17], [17; 6]);
    assert_eq!(c.lookup(&[10, 0, 0, 17]), None);
    assert_eq!(c.lookup(&[10, 0, 0, 1]), Some([2; 6]));
}
