//! The packet-path decisions of the in-kernel capture program: what a frame
//! is, which flow it counts toward, which discovery event it raises, and how
//! a packet folds into a flow's counters.
//!
//! The data path itself (map lookups, ring-buffer reservation) runs in the
//! kernel; the decisions it makes on each frame's bytes are stated and proved
//! here. Counters wrap on overflow, as the data path is built without
//! overflow checks.

use vstd::prelude::*;

use crate::capture::{event, payload_area};
use crate::common::{event_kind_code, Event, EventKind, FlowKey, FlowStats, MacAddr};
use crate::text::sub_bytes;

verus! {

pub const ETH_HDR_LEN: usize = 14;

pub const ETH_P_IP: u16 = 0x0800;

pub const ETH_P_ARP: u16 = 0x0806;

pub const IPPROTO_TCP: u8 = 6;

pub const IPPROTO_UDP: u8 = 17;

/// Max bytes of L4 payload copied into a discovery event.
pub const COPY_LEN: usize = 256;

/// The discovery protocol a UDP port pair carries, if any.
pub open spec fn discovery_kind(src: u16, dst: u16) -> Option<EventKind> {
    if src == 67 || dst == 67 || src == 68 || dst == 68 {
        Some(EventKind::Dhcp)
    } else if src == 5353 || dst == 5353 {
        Some(EventKind::Mdns)
    } else if src == 1900 || dst == 1900 {
        Some(EventKind::Ssdp)
    } else {
        None
    }
}

/// Map UDP ports to a discovery [`EventKind`], if any.
pub fn udp_discovery_kind(src: u16, dst: u16) -> (r: Option<EventKind>)
    ensures
        r == discovery_kind(src, dst),
{
    if src == 67 || dst == 67 || src == 68 || dst == 68 {
        Some(EventKind::Dhcp)
    } else if src == 5353 || dst == 5353 {
        Some(EventKind::Mdns)
    } else if src == 1900 || dst == 1900 {
        Some(EventKind::Ssdp)
    } else {
        None
    }
}

pub open spec fn inc32(x: u32) -> u32 {
    if x == u32::MAX {
        0
    } else {
        (x + 1) as u32
    }
}

pub open spec fn add64(x: u64, y: u64) -> u64 {
    if x + y > u64::MAX {
        (x + y - u64::MAX - 1) as u64
    } else {
        (x + y) as u64
    }
}

/// Counters after one packet's TCP flags: SYN (0x02), FIN (0x01), RST (0x04)
/// and ACK (0x10) each count once when set.
pub open spec fn with_flags(s: FlowStats, flags: u8) -> FlowStats {
    FlowStats {
        syn: if flags & 0x02 != 0 {
            inc32(s.syn)
        } else {
            s.syn
        },
        fin: if flags & 0x01 != 0 {
            inc32(s.fin)
        } else {
            s.fin
        },
        rst: if flags & 0x04 != 0 {
            inc32(s.rst)
        } else {
            s.rst
        },
        ack: if flags & 0x10 != 0 {
            inc32(s.ack)
        } else {
            s.ack
        },
        ..s
    }
}

/// Count the TCP control flags of one packet.
pub fn accumulate_flags(stats: &mut FlowStats, tcp_flags: u8)
    ensures
        *final(stats) == with_flags(*old(stats), tcp_flags),
{
    if tcp_flags & 0x02 != 0 {
        stats.syn = stats.syn.wrapping_add(1);
    }
    if tcp_flags & 0x01 != 0 {
        stats.fin = stats.fin.wrapping_add(1);
    }
    if tcp_flags & 0x04 != 0 {
        stats.rst = stats.rst.wrapping_add(1);
    }
    if tcp_flags & 0x10 != 0 {
        stats.ack = stats.ack.wrapping_add(1);
    }
}

/// A packet length as recorded for min/max: capped at `u16::MAX`.
pub open spec fn len16(pkt_len: u64) -> u16 {
    if pkt_len > u16::MAX {
        u16::MAX
    } else {
        pkt_len as u16
    }
}

/// A flow's counters after one more packet of `pkt_len` bytes at `now`: a
/// new flow starts at this packet; an existing one counts it, moves its last
/// sighting, and widens its length range.
pub open spec fn packet_folded(prev: Option<FlowStats>, pkt_len: u64, tcp_flags: u8, now: u64) -> FlowStats {
    let l = len16(pkt_len);
    match prev {
        Some(s) => with_flags(
            FlowStats {
                packets: add64(s.packets, 1),
                bytes: add64(s.bytes, pkt_len),
                last_seen_ns: now,
                min_len: if l < s.min_len {
                    l
                } else {
                    s.min_len
                },
                max_len: if l > s.max_len {
                    l
                } else {
                    s.max_len
                },
                ..s
            },
            tcp_flags,
        ),
        None => with_flags(
            FlowStats {
                packets: 1,
                bytes: pkt_len,
                first_seen_ns: now,
                last_seen_ns: now,
                syn: 0,
                fin: 0,
                rst: 0,
                ack: 0,
                min_len: l,
                max_len: l,
            },
            tcp_flags,
        ),
    }
}

/// Fold one packet into a flow's counters.
pub fn update_flow(prev: Option<FlowStats>, pkt_len: u64, tcp_flags: u8, now: u64) -> (r: FlowStats)
    ensures
        r == packet_folded(prev, pkt_len, tcp_flags, now),
{
    let l: u16 = if pkt_len > u16::MAX as u64 {
        u16::MAX
    } else {
        pkt_len as u16
    };
    match prev {
        Some(s) => {
            let mut stats = s;
            stats.packets = stats.packets.wrapping_add(1);
            stats.bytes = stats.bytes.wrapping_add(pkt_len);
            stats.last_seen_ns = now;
            if l < stats.min_len {
                stats.min_len = l;
            }
            if l > stats.max_len {
                stats.max_len = l;
            }
            accumulate_flags(&mut stats, tcp_flags);
            stats
        },
        None => {
            let mut stats = FlowStats {
                packets: 1,
                bytes: pkt_len,
                first_seen_ns: now,
                last_seen_ns: now,
                syn: 0,
                fin: 0,
                rst: 0,
                ack: 0,
                min_len: l,
                max_len: l,
            };
            accumulate_flags(&mut stats, tcp_flags);
            stats
        },
    }
}

/// The first packet of a flow is counted once with its own length as both
/// bounds; a later packet never narrows the length range.
pub proof fn law_flow_length_range_widens(prev: FlowStats, pkt_len: u64, tcp_flags: u8, now: u64)
    ensures
        ({
            let n = packet_folded(Some(prev), pkt_len, tcp_flags, now);
            &&& n.min_len <= prev.min_len
            &&& n.max_len >= prev.max_len
            &&& n.min_len <= len16(pkt_len) <= n.max_len
            &&& n.first_seen_ns == prev.first_seen_ns
            &&& n.last_seen_ns == now
        }),
        ({
            let f = packet_folded(None, pkt_len, tcp_flags, now);
            &&& f.packets == 1
            &&& f.min_len == len16(pkt_len) == f.max_len
            &&& f.first_seen_ns == now == f.last_seen_ns
        }),
{
}

/// The count of a control flag after one packet: one more (wrapping at
/// 2^32) when the packet carries the flag.
pub open spec fn flag_count_after(count: u32, flags: u8, bit: u8) -> int {
    if flags & bit != 0 {
        (count as int + 1) % 0x1_0000_0000
    } else {
        count as int
    }
}

/// What one packet adds to a flow's counters: one packet and its length in
/// bytes (wrapping at 2^64, after an empty flow for the first packet), one
/// SYN (`0x02`), FIN (`0x01`), RST (`0x04`) or ACK (`0x10`) for each of those
/// flags it carries, and its length, capped at 65535, into the length
/// range.
pub proof fn law_packet_counted(prev: Option<FlowStats>, pkt_len: u64, tcp_flags: u8, now: u64)
    ensures
        ({
            let n = packet_folded(prev, pkt_len, tcp_flags, now);
            let l: int = if pkt_len > 65535 {
                65535
            } else {
                pkt_len as int
            };
            &&& prev matches Some(s) ==> {
                &&& n.packets as int == (s.packets as int + 1) % 0x1_0000_0000_0000_0000
                &&& n.bytes as int == (s.bytes as int + pkt_len as int) % 0x1_0000_0000_0000_0000
                &&& n.syn as int == flag_count_after(s.syn, tcp_flags, 0x02)
                &&& n.fin as int == flag_count_after(s.fin, tcp_flags, 0x01)
                &&& n.rst as int == flag_count_after(s.rst, tcp_flags, 0x04)
                &&& n.ack as int == flag_count_after(s.ack, tcp_flags, 0x10)
                &&& n.min_len as int == (if l < s.min_len { l } else { s.min_len as int })
                &&& n.max_len as int == (if l > s.max_len { l } else { s.max_len as int })
            }
            &&& prev is None ==> {
                &&& n.packets == 1
                &&& n.bytes == pkt_len
                &&& n.syn as int == flag_count_after(0, tcp_flags, 0x02)
                &&& n.fin as int == flag_count_after(0, tcp_flags, 0x01)
                &&& n.rst as int == flag_count_after(0, tcp_flags, 0x04)
                &&& n.ack as int == flag_count_after(0, tcp_flags, 0x10)
                &&& n.min_len as int == l
                &&& n.max_len as int == l
            }
        }),
{
}

/// A discovery event to raise: its kind, source address, and the slice of
/// the frame to copy (offset and length).
#[derive(Clone, Copy, PartialEq, Eq, Debug, Structural)]
pub struct DiscoveryCopy {
    pub kind: EventKind,
    pub src_ip: u32,
    pub payload_off: usize,
    pub copy_len: usize,
}

/// One packet's contribution to the flow table.
#[derive(Clone, Copy, PartialEq, Eq, Debug)]
pub struct FlowUpdate {
    pub key: FlowKey,
    pub pkt_len: u64,
    pub tcp_flags: u8,
}

/// What the data path does with one frame.
#[derive(Clone, Copy, PartialEq, Eq, Debug)]
pub struct FramePlan {
    /// Ethernet source address (announced the first time it is seen).
    pub src_mac: MacAddr,
    /// The frame is ARP: raise an ARP event.
    pub arp: bool,
    /// A UDP discovery event to raise, before the flow is counted.
    pub discovery: Option<DiscoveryCopy>,
    /// The IPv4 flow the frame counts toward.
    pub flow: Option<FlowUpdate>,
}

pub open spec fn be16(f: Seq<u8>, i: int) -> u16 {
    (f[i] as int * 256 + f[i + 1] as int) as u16
}

pub open spec fn be32(f: Seq<u8>, i: int) -> u32 {
    (f[i] as int * 16777216 + f[i + 1] as int * 65536 + f[i + 2] as int * 256 + f[i
        + 3] as int) as u32
}

pub open spec fn spec_mac_at(f: Seq<u8>, i: int) -> MacAddr {
    [f[i], f[i + 1], f[i + 2], f[i + 3], f[i + 4], f[i + 5]]
}

/// Bytes of payload copied for a discovery event starting at `off`.
pub open spec fn copy_len_at(len: int, off: int) -> int {
    if len > off {
        if len - off > COPY_LEN {
            COPY_LEN as int
        } else {
            len - off
        }
    } else {
        0
    }
}

/// The IPv4 part of a frame's handling: `None` when the IPv4 header is cut
/// short or its header length is under 20 bytes. Ports and flags are read
/// from the transport header when it is all present (16 bytes for TCP, 8 for
/// UDP), and are zero otherwise.
pub open spec fn ipv4_plan(f: Seq<u8>) -> Option<(Option<DiscoveryCopy>, FlowUpdate)> {
    if f.len() < 15 {
        None
    } else {
        let ihl = (f[14] % 16) as int * 4;
        if ihl < 20 || f.len() < 34 {
            None
        } else {
            let total_len = be16(f, 16) as u64;
            let proto = f[23];
            let src_ip = be32(f, 26);
            let dst_ip = be32(f, 30);
            let l4 = ETH_HDR_LEN + ihl;
            let tcp_ok = proto == IPPROTO_TCP && l4 + 16 <= f.len();
            let udp_ok = proto == IPPROTO_UDP && l4 + 8 <= f.len();
            let sp: u16 = if tcp_ok || udp_ok {
                be16(f, l4)
            } else {
                0
            };
            let dp: u16 = if tcp_ok || udp_ok {
                be16(f, l4 + 2)
            } else {
                0
            };
            let flags: u8 = if tcp_ok {
                f[l4 + 13]
            } else {
                0
            };
            let discovery = if proto == IPPROTO_UDP {
                match discovery_kind(sp, dp) {
                    Some(k) => Some(
                        DiscoveryCopy {
                            kind: k,
                            src_ip,
                            payload_off: (l4 + 8) as usize,
                            copy_len: copy_len_at(f.len() as int, l4 + 8) as usize,
                        },
                    ),
                    None => None,
                }
            } else {
                None
            };
            Some(
                (
                    discovery,
                    FlowUpdate {
                        key: FlowKey {
                            src_ip,
                            dst_ip,
                            src_port: sp,
                            dst_port: dp,
                            protocol: proto,
                            _pad: [0u8, 0u8, 0u8],
                        },
                        pkt_len: total_len,
                        tcp_flags: flags,
                    },
                ),
            )
        }
    }
}

/// How the IPv4 handling reads a frame (the IPv4 header at byte 14, its
/// header length the low four bits of byte 14 times four, the transport
/// header right after it): there is a flow exactly when the header length is
/// at least 20 and the frame holds the addresses; the flow's protocol,
/// addresses and length are the header's big-endian fields; ports come from
/// a TCP (16 bytes) or UDP (8 bytes) header that is all present, else are
/// zero; the TCP flags are byte 13 of a present TCP header, else zero; and a
/// UDP flow touching the DHCP, mDNS or SSDP port raises that discovery event
/// with the payload after the UDP header, at most `COPY_LEN` bytes of it.
pub proof fn law_ipv4_plan_reads_headers(f: Seq<u8>)
    ensures
        (ipv4_plan(f) is Some) == (f.len() >= 34 && (f[14] & 0x0f) as int * 4 >= 20),
        ipv4_plan(f) matches Some((disc, u)) ==> {
            let l4 = 14 + (f[14] & 0x0f) as int * 4;
            let tcp = f[23] == 6 && l4 + 16 <= f.len();
            let udp = f[23] == 17 && l4 + 8 <= f.len();
            let sp: int = if tcp || udp {
                f[l4] as int * 256 + f[l4 + 1] as int
            } else {
                0
            };
            let dp: int = if tcp || udp {
                f[l4 + 2] as int * 256 + f[l4 + 3] as int
            } else {
                0
            };
            &&& u.key.protocol == f[23]
            &&& u.key.src_ip as int == f[26] as int * 16777216 + f[27] as int * 65536 + f[28] as int
                * 256 + f[29] as int
            &&& u.key.dst_ip as int == f[30] as int * 16777216 + f[31] as int * 65536 + f[32] as int
                * 256 + f[33] as int
            &&& u.pkt_len as int == f[16] as int * 256 + f[17] as int
            &&& u.key.src_port as int == sp
            &&& u.key.dst_port as int == dp
            &&& u.tcp_flags == (if tcp {
                f[l4 + 13]
            } else {
                0u8
            })
            &&& (disc is Some) == (f[23] == 17 && (sp == 67 || dp == 67 || sp == 68 || dp == 68
                || sp == 5353 || dp == 5353 || sp == 1900 || dp == 1900))
            &&& disc matches Some(c) ==> {
                &&& c.kind == (if sp == 67 || dp == 67 || sp == 68 || dp == 68 {
                    EventKind::Dhcp
                } else if sp == 5353 || dp == 5353 {
                    EventKind::Mdns
                } else {
                    EventKind::Ssdp
                })
                &&& c.src_ip == u.key.src_ip
                &&& c.payload_off == l4 + 8
                &&& c.copy_len == (if f.len() <= l4 + 8 {
                    0
                } else if f.len() - (l4 + 8) > COPY_LEN {
                    COPY_LEN as int
                } else {
                    f.len() - (l4 + 8)
                })
            }
        },
{
    if f.len() >= 15 {
        let b = f[14];
        assert(b & 0x0f == b % 16) by (bit_vector);
    }
}

/// What the data path does with a frame: nothing for a frame shorter than
/// an Ethernet header; otherwise announce the source, raise an ARP event for
/// ARP, and handle IPv4 as `ipv4_plan` says.
pub open spec fn frame_plan(f: Seq<u8>) -> Option<FramePlan> {
    if f.len() < ETH_HDR_LEN {
        None
    } else {
        let ethertype = be16(f, 12);
        let ip = if ethertype == ETH_P_IP {
            ipv4_plan(f)
        } else {
            None
        };
        Some(
            FramePlan {
                src_mac: spec_mac_at(f, 6),
                arp: ethertype == ETH_P_ARP,
                discovery: match ip {
                    Some((d, _)) => d,
                    None => None,
                },
                flow: match ip {
                    Some((_, u)) => Some(u),
                    None => None,
                },
            },
        )
    }
}

/// How a frame is read: frames shorter than an Ethernet header are ignored;
/// otherwise the source MAC is bytes 6 to 11, an ethertype (bytes 12 and 13)
/// of `08 06` marks ARP, and only an ethertype of `08 00` leads to IPv4
/// handling, whose discovery event and flow the plan carries.
pub proof fn law_frame_plan_reads_ethernet(f: Seq<u8>)
    ensures
        (frame_plan(f) is Some) == (f.len() >= 14),
        frame_plan(f) matches Some(p) ==> {
            &&& p.src_mac@ == f.subrange(6, 12)
            &&& p.arp == (f[12] == 8 && f[13] == 6)
            &&& !(f[12] == 8 && f[13] == 0) ==> p.discovery is None && p.flow is None
            &&& (f[12] == 8 && f[13] == 0) ==> match ipv4_plan(f) {
                Some((d, u)) => p.discovery == d && p.flow == Some(u),
                None => p.discovery is None && p.flow is None,
            }
        },
{
    if f.len() >= 14 {
        let p = frame_plan(f).unwrap();
        assert(p.src_mac@ =~= f.subrange(6, 12));
    }
}

fn load_be16(f: &[u8], i: usize) -> (r: u16)
    requires
        i + 2 <= f@.len(),
    ensures
        r == be16(f@, i as int),
{
    let a = f[i] as u16;
    let b = f[i + 1] as u16;
    assert((a << 8) | b == a * 256 + b) by (bit_vector)
        requires
            a < 256 && b < 256,
    ;
    (a << 8) | b
}

fn load_be32(f: &[u8], i: usize) -> (r: u32)
    requires
        i + 4 <= f@.len(),
    ensures
        r == be32(f@, i as int),
{
    let a = f[i] as u32;
    let b = f[i + 1] as u32;
    let c = f[i + 2] as u32;
    let d = f[i + 3] as u32;
    assert((a << 24) | (b << 16) | (c << 8) | d == a * 16777216 + b * 65536 + c * 256 + d) by (bit_vector)
        requires
            a < 256 && b < 256 && c < 256 && d < 256,
    ;
    (a << 24) | (b << 16) | (c << 8) | d
}

/// Decide what to do with one frame.
pub fn plan_frame(frame: &[u8]) -> (r: Option<FramePlan>)
    ensures
        r == frame_plan(frame@),
{
    if frame.len() < ETH_HDR_LEN {
        return None;
    }
    let src_mac: MacAddr = [frame[6], frame[7], frame[8], frame[9], frame[10], frame[11]];
    let ethertype = load_be16(frame, 12);
    let mut plan = FramePlan { src_mac, arp: ethertype == ETH_P_ARP, discovery: None, flow: None };
    assert(src_mac == spec_mac_at(frame@, 6));
    if ethertype == ETH_P_IP {
        if let Some((d, u)) = plan_ipv4(frame) {
            plan.discovery = d;
            plan.flow = Some(u);
        }
    }
    Some(plan)
}

/// The IPv4 part of a frame's handling (the IPv4 header starts right after
/// the Ethernet header): `None` when the header is cut short or too small,
/// else the discovery copy, if any, and the flow update.
pub fn plan_ipv4(f: &[u8]) -> (r: Option<(Option<DiscoveryCopy>, FlowUpdate)>)
    ensures
        r == ipv4_plan(f@),
{
    if f.len() < 15 {
        return None;
    }
    let ihl: usize = ((f[14] % 16) as usize) * 4;
    if ihl < 20 || f.len() < 34 {
        return None;
    }
    let total_len = load_be16(f, 16) as u64;
    let proto = f[23];
    let src_ip = load_be32(f, 26);
    let dst_ip = load_be32(f, 30);
    let l4 = ETH_HDR_LEN + ihl;
    let mut sp: u16 = 0;
    let mut dp: u16 = 0;
    let mut flags: u8 = 0;
    let mut discovery: Option<DiscoveryCopy> = None;
    if proto == IPPROTO_TCP {
        if l4 + 16 <= f.len() {
            sp = load_be16(f, l4);
            dp = load_be16(f, l4 + 2);
            flags = f[l4 + 13];
        }
    } else if proto == IPPROTO_UDP {
        if l4 + 8 <= f.len() {
            sp = load_be16(f, l4);
            dp = load_be16(f, l4 + 2);
        }
        if let Some(kind) = udp_discovery_kind(sp, dp) {
            let off = l4 + 8;
            let copy_len: usize = if f.len() > off {
                if f.len() - off > COPY_LEN {
                    COPY_LEN
                } else {
                    f.len() - off
                }
            } else {
                0
            };
            discovery = Some(DiscoveryCopy { kind, src_ip, payload_off: off, copy_len });
        }
    }
    let key = FlowKey::new(src_ip, dst_ip, sp, dp, proto);
    let r = (discovery, FlowUpdate { key, pkt_len: total_len, tcp_flags: flags });
    assert(key._pad@ =~= seq![0u8, 0u8, 0u8]);
    let ghost sp_ = ipv4_plan(f@).unwrap();
    assert(r.0 == sp_.0);
    assert(r.1.pkt_len == sp_.1.pkt_len);
    assert(r.1.tcp_flags == sp_.1.tcp_flags);
    assert(key.src_port == sp_.1.key.src_port);
    assert(key.dst_port == sp_.1.key.dst_port);
    assert(key._pad == sp_.1.key._pad);
    assert(r == ipv4_plan(f@).unwrap());
    Some(r)
}

/// Bytes of payload a discovery event carries when the copy starts at
/// `off` (none without a payload offset).
pub open spec fn copied_len(len: int, off: Option<usize>) -> int {
    match off {
        Some(o) => copy_len_at(len, o as int),
        None => 0,
    }
}

/// The payload bytes a discovery event carries.
pub open spec fn copied_bytes(frame: Seq<u8>, off: Option<usize>) -> Seq<u8> {
    match off {
        Some(o) => if frame.len() > o {
            frame.subrange(o as int, o + copy_len_at(frame.len() as int, o as int))
        } else {
            seq![]
        },
        None => seq![],
    }
}

/// The event the data path emits for a frame: its kind, source MAC and
/// address, and a copy of at most `COPY_LEN` payload bytes starting at
/// `payload_off` (none without an offset, or when the frame ends there).
pub fn emitted_event(
    frame: &[u8],
    kind: EventKind,
    mac: MacAddr,
    src_ip: u32,
    payload_off: Option<usize>,
) -> (r: Event)
    ensures
        r.kind == event_kind_code(kind),
        r.src_mac == mac,
        r.src_ip == src_ip,
        r.payload_len == copied_len(frame@.len() as int, payload_off),
        r.payload@ == payload_area(copied_bytes(frame@, payload_off)),
{
    match payload_off {
        Some(off) if frame.len() > off => {
            let avail = frame.len() - off;
            let n = if avail > COPY_LEN {
                COPY_LEN
            } else {
                avail
            };
            let bytes = sub_bytes(frame, off, off + n);
            event(kind, mac, src_ip, bytes.as_slice())
        },
        _ => {
            let none: [u8; 0] = [];
            let r = event(kind, mac, src_ip, none.as_slice());
            assert(none@ =~= seq![]);
            r
        },
    }
}

} // verus!
