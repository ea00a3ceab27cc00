use lanscope::common::{EventKind, FlowStats};
use lanscope::datapath::{
    accumulate_flags, emitted_event, plan_frame, plan_ipv4, udp_discovery_kind, update_flow, COPY_LEN,
};

fn ipv4_udp_frame(src_port: u16, dst_port: u16, payload: &[u8]) -> Vec<u8> {
    let mut f = vec![0u8; 14];
    f[6..12].copy_from_slice(&[0xb8, 0x27, 0xeb, 1, 2, 3]);
    f[12] = 0x08;
    f[13] = 0x00;
    let total = (20 + 8 + payload.len()) as u16;
    let mut ip = vec![0x45, 0, (total >> 8) as u8, total as u8, 0, 0, 0, 0, 64, 17, 0, 0];
    ip.extend_from_slice(&[10, 0, 0, 66]);
    ip.extend_from_slice(&[224, 0, 0, 251]);
    f.extend_from_slice(&ip);
    f.extend_from_slice(&src_port.to_be_bytes());
    f.extend_from_slice(&dst_port.to_be_bytes());
    f.extend_from_slice(&[0, 0, 0, 0]);
    f.extend_from_slice(payload);
    f
}

#[test]
fn udp_ports_pick_the_protocol() {
    assert_eq!(udp_discovery_kind(68, 67), Some(EventKind::Dhcp));
    assert_eq!(udp_discovery_kind(5353, 5353), Some(EventKind::Mdns));
    assert_eq!(udp_discovery_kind(40000, 1900), Some(EventKind::Ssdp));
    assert_eq!(udp_discovery_kind(40000, 443), None);
}

#[test]
fn flags_are_counted() {
    let mut s = FlowStats::default();
    accumulate_flags(&mut s, 0x02 | 0x10);
    accumulate_flags(&mut s, 0x01 | 0x04);
    assert_eq!((s.syn, s.fin, s.rst, s.ack), (1, 1, 1, 1));
}

#[test]
fn flow_counters_fold_packets() {
    let first = update_flow(None, 60, 0x02, 1000);
    assert_eq!(first.packets, 1);
    assert_eq!(first.bytes, 60);
    assert_eq!((first.first_seen_ns, first.last_seen_ns), (1000, 1000));
    assert_eq!((first.min_len, first.max_len), (60, 60));
    assert_eq!(first.syn, 1);
    let second = update_flow(Some(first), 1500, 0x10, 2000);
    assert_eq!(second.packets, 2);
    assert_eq!(second.bytes, 1560);
    assert_eq!((second.first_seen_ns, second.last_seen_ns), (1000, 2000));
    assert_eq!((second.min_len, second.max_len), (60, 1500));
    assert_eq!((second.syn, second.ack), (1, 1));
    let big = update_flow(Some(second), 100_000, 0, 3000);
    assert_eq!(big.max_len, u16::MAX);
}

#[test]
fn flow_counters_wrap() {
    let s = FlowStats { packets: u64::MAX, bytes: u64::MAX, ..FlowStats::default() };
    let next = update_flow(Some(s), 10, 0, 1);
    assert_eq!(next.packets, 0);
    assert_eq!(next.bytes, 9);
}

#[test]
fn mdns_frame_plan() {
    let frame = ipv4_udp_frame(5353, 5353, b"hello");
    let plan = plan_frame(&frame).unwrap();
    assert_eq!(plan.src_mac, [0xb8, 0x27, 0xeb, 1, 2, 3]);
    assert!(!plan.arp);
    let d = plan.discovery.unwrap();
    assert_eq!(d.kind, EventKind::Mdns);
    assert_eq!(d.src_ip, 0x0a00_0042);
    assert_eq!(d.payload_off, 14 + 20 + 8);
    assert_eq!(d.copy_len, 5);
    let u = plan.flow.unwrap();
    assert_eq!(u.key.src_ip, 0x0a00_0042);
    assert_eq!(u.key.dst_ip, 0xe000_00fb);
    assert_eq!((u.key.src_port, u.key.dst_port, u.key.protocol), (5353, 5353, 17));
    assert_eq!(u.pkt_len, 33);
}

#[test]
fn arp_and_short_frames() {
    let mut arp = vec![0u8; 42];
    arp[12] = 0x08;
    arp[13] = 0x06;
    let plan = plan_frame(&arp).unwrap();
    assert!(plan.arp);
    assert!(plan.flow.is_none());
    assert!(plan_frame(&[0u8; 13]).is_none());
}

#[test]
fn bad_ihl_is_dropped_but_source_still_announced() {
    let mut frame = ipv4_udp_frame(5353, 5353, b"x");
    frame[14] = 0x44;
    let plan = plan_frame(&frame).unwrap();
    assert!(plan.flow.is_none());
    assert!(plan.discovery.is_none());
}

#[test]
fn emitted_event_copies_the_payload() {
    let frame = ipv4_udp_frame(5353, 5353, b"hello");
    let ev = emitted_event(&frame, EventKind::Mdns, [1, 2, 3, 4, 5, 6], 0x0a00_0042, Some(42));
    assert_eq!(ev.kind(), EventKind::Mdns);
    assert_eq!(ev.src_mac, [1, 2, 3, 4, 5, 6]);
    assert_eq!(ev.src_ip, 0x0a00_0042);
    assert_eq!(ev.payload(), b"hello");
    let arp = emitted_event(&frame, EventKind::Arp, [1, 2, 3, 4, 5, 6], 0, None);
    assert_eq!(arp.payload_len, 0);
    let past = emitted_event(&frame, EventKind::Ssdp, [1, 2, 3, 4, 5, 6], 0, Some(frame.len()));
    assert_eq!(past.payload_len, 0);
}

#[test]
fn emitted_event_payload_is_capped() {
    let frame = ipv4_udp_frame(1900, 1900, &[7u8; 400]);
    let ev = emitted_event(&frame, EventKind::Ssdp, [1, 2, 3, 4, 5, 6], 0x0a00_0042, Some(42));
    assert_eq!(ev.payload_len as usize, COPY_LEN);
    assert!(ev.payload().iter().all(|b| *b == 7));
}

#[test]
fn ipv4_header_rules() {
    let f = ipv4_udp_frame(40000, 443, b"x");
    let (disc, upd) = plan_ipv4(&f).unwrap();
    assert!(disc.is_none());
    assert_eq!(upd.key.src_port, 40000);
    assert_eq!(upd.key.dst_port, 443);
    assert_eq!(upd.key.protocol, 17);
    assert_eq!(upd.pkt_len, 29);
    let mut short_ihl = f.clone();
    short_ihl[14] = 0x44;
    assert!(plan_ipv4(&short_ihl).is_none());
    assert!(plan_ipv4(&f[..33]).is_none());
    let mut icmp = f.clone();
    icmp[23] = 1;
    let (disc, upd) = plan_ipv4(&icmp).unwrap();
    assert!(disc.is_none());
    assert_eq!((upd.key.src_port, upd.key.dst_port, upd.tcp_flags), (0, 0, 0));
}
