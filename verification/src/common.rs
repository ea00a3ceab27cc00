//! Plain-old-data types shared between the capture data path and the agent:
//! discovery events, flow keys and flow counters.

use vstd::prelude::*;

verus! {

/// Maximum bytes of packet payload carried in a single [`Event`].
pub const EVENT_PAYLOAD_LEN: usize = 512;

/// A 48-bit hardware address. `[0u8; 6]` is treated as "unknown".
pub type MacAddr = [u8; 6];

/// IPv4 address in network byte order, as seen on the wire.
pub type Ipv4Be = u32;

/// What kind of frame produced an event. On the wire it is a `u8`
/// (see [`EventKind::as_u8`] / [`EventKind::from_u8`]).
#[derive(Clone, Copy, PartialEq, Eq, Debug, Structural)]
pub enum EventKind {
    /// First time this source MAC was seen on the segment.
    NewHost,
    Arp,
    Dhcp,
    Mdns,
    Ssdp,
    /// A TLS ClientHello.
    TlsHello,
    Unknown,
}

/// The kind encoded by a wire byte.
pub open spec fn event_kind_of(v: u8) -> EventKind {
    if v == 0 {
        EventKind::NewHost
    } else if v == 1 {
        EventKind::Arp
    } else if v == 2 {
        EventKind::Dhcp
    } else if v == 3 {
        EventKind::Mdns
    } else if v == 4 {
        EventKind::Ssdp
    } else if v == 5 {
        EventKind::TlsHello
    } else {
        EventKind::Unknown
    }
}

/// The wire byte of a kind.
pub open spec fn event_kind_code(k: EventKind) -> u8 {
    match k {
        EventKind::NewHost => 0,
        EventKind::Arp => 1,
        EventKind::Dhcp => 2,
        EventKind::Mdns => 3,
        EventKind::Ssdp => 4,
        EventKind::TlsHello => 5,
        EventKind::Unknown => 255,
    }
}

impl EventKind {
    pub fn from_u8(v: u8) -> (r: Self)
        ensures
            r == event_kind_of(v),
    {
        match v {
            0 => EventKind::NewHost,
            1 => EventKind::Arp,
            2 => EventKind::Dhcp,
            3 => EventKind::Mdns,
            4 => EventKind::Ssdp,
            5 => EventKind::TlsHello,
            _ => EventKind::Unknown,
        }
    }

    /// The wire discriminant of this kind.
    pub fn as_u8(self) -> (r: u8)
        ensures
            r == event_kind_code(self),
    {
        match self {
            EventKind::NewHost => 0,
            EventKind::Arp => 1,
            EventKind::Dhcp => 2,
            EventKind::Mdns => 3,
            EventKind::Ssdp => 4,
            EventKind::TlsHello => 5,
            EventKind::Unknown => 255,
        }
    }
}

/// Decoding a kind's wire byte gives the kind back.
pub proof fn law_event_kind_code_roundtrip(k: EventKind)
    ensures
        event_kind_of(event_kind_code(k)) == k,
{
}

/// A fixed-size discovery event, as the data path hands it to the agent.
#[derive(Clone, Copy, Debug)]
pub struct Event {
    /// [`EventKind`] discriminant.
    pub kind: u8,
    pub _pad: [u8; 1],
    /// Number of valid bytes in `payload`.
    pub payload_len: u16,
    /// Source IPv4 (network order); 0 if not an IP frame (e.g. ARP-only).
    pub src_ip: u32,
    /// Source hardware address.
    pub src_mac: MacAddr,
    pub _pad2: [u8; 2],
    /// Bounded copy of the relevant packet bytes for userspace decode.
    pub payload: [u8; EVENT_PAYLOAD_LEN],
}

/// The valid prefix of an event's payload.
pub open spec fn event_payload(ev: Event) -> Seq<u8> {
    let n: int = if ev.payload_len as int <= EVENT_PAYLOAD_LEN as int {
        ev.payload_len as int
    } else {
        EVENT_PAYLOAD_LEN as int
    };
    ev.payload@.take(n)
}

impl Event {
    pub fn kind(&self) -> (r: EventKind)
        ensures
            r == event_kind_of(self.kind),
    {
        EventKind::from_u8(self.kind)
    }

    /// The valid prefix of `payload` as a slice.
    pub fn payload(&self) -> (r: &[u8])
        ensures
            r@ == event_payload(*self),
    {
        let n: usize = if (self.payload_len as usize) < EVENT_PAYLOAD_LEN {
            self.payload_len as usize
        } else {
            EVENT_PAYLOAD_LEN
        };
        let all: &[u8] = self.payload.as_slice();
        vstd::slice::slice_subrange(all, 0, n)
    }
}

impl Default for Event {
    fn default() -> (r: Self)
        ensures
            r.kind == 255,
            r._pad@ == seq![0u8],
            r.payload_len == 0,
            r.src_ip == 0,
            r.src_mac@ == seq![0u8, 0u8, 0u8, 0u8, 0u8, 0u8],
            r._pad2@ == seq![0u8, 0u8],
            forall|i: int| 0 <= i < EVENT_PAYLOAD_LEN ==> r.payload@[i] == 0,
    {
        Event {
            kind: 255,
            _pad: [0u8; 1],
            payload_len: 0,
            src_ip: 0,
            src_mac: [0u8; 6],
            _pad2: [0u8; 2],
            payload: [0u8; 512],
        }
    }
}

/// IANA L4 protocol numbers the agent distinguishes.
#[derive(Clone, Copy, PartialEq, Eq, Debug, Structural)]
pub enum Protocol {
    Icmp,
    Tcp,
    Udp,
    Other,
}

pub open spec fn protocol_of(v: u8) -> Protocol {
    if v == 1 {
        Protocol::Icmp
    } else if v == 6 {
        Protocol::Tcp
    } else if v == 17 {
        Protocol::Udp
    } else {
        Protocol::Other
    }
}

/// The IANA number of a protocol (`255` for any other).
pub open spec fn protocol_number(p: Protocol) -> u8 {
    match p {
        Protocol::Icmp => 1,
        Protocol::Tcp => 6,
        Protocol::Udp => 17,
        Protocol::Other => 255,
    }
}

/// A protocol's number maps back to the protocol.
pub proof fn law_protocol_number_roundtrip(p: Protocol)
    ensures
        protocol_of(protocol_number(p)) == p,
{
}

impl Protocol {
    /// The IANA protocol number (`255` for any other protocol).
    pub fn code(self) -> (r: u8)
        ensures
            r == protocol_number(self),
    {
        match self {
            Protocol::Icmp => 1,
            Protocol::Tcp => 6,
            Protocol::Udp => 17,
            Protocol::Other => 255,
        }
    }

    /// Map a raw IP protocol byte to a known [`Protocol`].
    pub fn from_u8(v: u8) -> (r: Self)
        ensures
            r == protocol_of(v),
    {
        match v {
            1 => Protocol::Icmp,
            6 => Protocol::Tcp,
            17 => Protocol::Udp,
            _ => Protocol::Other,
        }
    }
}

/// Unidirectional flow key (network byte order for addresses/ports).
#[derive(Clone, Copy, PartialEq, Eq, Hash, Debug)]
pub struct FlowKey {
    pub src_ip: u32,
    pub dst_ip: u32,
    pub src_port: u16,
    pub dst_port: u16,
    pub protocol: u8,
    pub _pad: [u8; 3],
}

impl FlowKey {
    pub fn new(src_ip: u32, dst_ip: u32, src_port: u16, dst_port: u16, protocol: u8) -> (r: Self)
        ensures
            r.src_ip == src_ip,
            r.dst_ip == dst_ip,
            r.src_port == src_port,
            r.dst_port == dst_port,
            r.protocol == protocol,
            r._pad@ == seq![0u8, 0u8, 0u8],
    {
        FlowKey { src_ip, dst_ip, src_port, dst_port, protocol, _pad: [0u8; 3] }
    }
}

/// Aggregate counters for a flow, accumulated by the data path.
#[derive(Clone, Copy, Default, Debug)]
pub struct FlowStats {
    pub packets: u64,
    pub bytes: u64,
    /// Monotonic nanoseconds of first/last packet in this flow.
    pub first_seen_ns: u64,
    pub last_seen_ns: u64,
    /// Counts of TCP control flags.
    pub syn: u32,
    pub fin: u32,
    pub rst: u32,
    pub ack: u32,
    /// Smallest / largest L3 packet length observed.
    pub min_len: u16,
    pub max_len: u16,
}

} // verus!
