//! Capture events and the portable (synthetic) capture source.
//!
//! The pipeline depends only on the [`CaptureEvent`]s a backend emits. The
//! portable backend replays a small set of synthetic-but-realistic discovery
//! frames so the whole pipeline can be exercised on any host.

use vstd::prelude::*;
use vstd::string::StringSliceAdditionalSpecFns;

use crate::common::{event_kind_code, Event, EventKind, FlowKey, FlowStats, EVENT_PAYLOAD_LEN};
use crate::config::{CaptureMode, Config};

verus! {

/// A unit of work produced by a backend and consumed by the pipeline.
#[derive(Clone, Debug)]
pub enum CaptureEvent {
    /// A discovery frame, decoded later.
    Discovery(Box<Event>),
    /// A periodic snapshot of the flow table (drained by the backend).
    Flows(Vec<(FlowKey, FlowStats)>),
}

/// The portable backend: a synthetic replay source.
pub struct PortableBackend {
    mode: CaptureMode,
}

impl PortableBackend {
    pub closed spec fn spec_mode(&self) -> CaptureMode {
        self.mode
    }

    pub fn new(config: &Config) -> (r: Self)
        ensures
            r.spec_mode() == config.mode,
    {
        PortableBackend { mode: config.mode }
    }

    /// The capture mode this backend was configured with.
    pub fn mode(&self) -> (r: CaptureMode)
        ensures
            r == self.spec_mode(),
    {
        self.mode
    }
}

/// An event's payload area after copying `payload` into it: its first bytes
/// (up to the area's size), zeros after.
pub open spec fn payload_area(payload: Seq<u8>) -> Seq<u8> {
    Seq::new(
        EVENT_PAYLOAD_LEN as nat,
        |i: int|
            if i < payload.len() {
                payload[i]
            } else {
                0u8
            },
    )
}

/// Build a synthetic event with a MAC and raw payload.
pub fn event(kind: EventKind, mac: [u8; 6], src_ip: u32, payload: &[u8]) -> (r: Event)
    ensures
        r.kind == event_kind_code(kind),
        r.src_mac == mac,
        r.src_ip == src_ip,
        r.payload_len == payload@.len() as u16,
        r.payload@ == payload_area(payload@),
{
    let mut ev = Event {
        kind: kind.as_u8(),
        _pad: [0u8; 1],
        payload_len: payload.len() as u16,
        src_ip,
        src_mac: mac,
        _pad2: [0u8; 2],
        payload: [0u8; 512],
    };
    let n: usize = if payload.len() < EVENT_PAYLOAD_LEN {
        payload.len()
    } else {
        EVENT_PAYLOAD_LEN
    };
    let mut i: usize = 0;
    while i < n
        invariant
            i <= n,
            n <= payload@.len(),
            n <= EVENT_PAYLOAD_LEN,
            n == payload@.len() || n == EVENT_PAYLOAD_LEN,
            ev.payload@.len() == EVENT_PAYLOAD_LEN,
            forall|j: int| 0 <= j < i ==> ev.payload@[j] == payload@[j],
            forall|j: int| i <= j < EVENT_PAYLOAD_LEN ==> ev.payload@[j] == 0,
            ev.kind == event_kind_code(kind),
            ev.src_mac == mac,
            ev.src_ip == src_ip,
            ev.payload_len == payload@.len() as u16,
        decreases n - i,
    {
        ev.payload[i] = payload[i];
        i += 1;
    }
    assert(ev.payload@ =~= payload_area(payload@));
    ev
}

/// Length-prefixed wire encoding of dotted labels (each label's byte length,
/// truncated to a byte, then its bytes), ending with a zero byte.
pub open spec fn dns_wire(labels: Seq<Seq<u8>>) -> Seq<u8>
    decreases labels.len(),
{
    if labels.len() == 0 {
        seq![0u8]
    } else {
        seq![labels[0].len() as u8] + labels[0] + dns_wire(labels.drop_first())
    }
}

/// The UTF-8 bytes of each label.
pub open spec fn label_bytes(labels: Seq<&str>) -> Seq<Seq<u8>> {
    Seq::new(labels.len(), |i: int| labels[i].spec_bytes())
}

/// The wire bytes of labels without the closing zero byte.
pub open spec fn dns_wire_prefix(labels: Seq<Seq<u8>>) -> Seq<u8>
    decreases labels.len(),
{
    if labels.len() == 0 {
        seq![]
    } else {
        seq![labels[0].len() as u8] + labels[0] + dns_wire_prefix(labels.drop_first())
    }
}

proof fn lemma_dns_wire_prefix_push(labels: Seq<Seq<u8>>, l: Seq<u8>)
    ensures
        dns_wire_prefix(labels.push(l)) == dns_wire_prefix(labels) + seq![l.len() as u8] + l,
    decreases labels.len(),
{
    if labels.len() == 0 {
        let one = labels.push(l);
        assert(one.drop_first() =~= Seq::<Seq<u8>>::empty());
        assert(one[0] == l);
        assert(dns_wire_prefix(Seq::<Seq<u8>>::empty()) == Seq::<u8>::empty());
        assert(dns_wire_prefix(one) =~= seq![l.len() as u8] + l);
    } else {
        lemma_dns_wire_prefix_push(labels.drop_first(), l);
        assert(labels.push(l).drop_first() =~= labels.drop_first().push(l));
        assert(dns_wire_prefix(labels.push(l)) =~= dns_wire_prefix(labels) + seq![l.len() as u8]
            + l);
    }
}

proof fn lemma_dns_wire_is_prefix_zero(labels: Seq<Seq<u8>>)
    ensures
        dns_wire(labels) == dns_wire_prefix(labels) + seq![0u8],
    decreases labels.len(),
{
    if labels.len() > 0 {
        lemma_dns_wire_is_prefix_zero(labels.drop_first());
        assert(dns_wire(labels) =~= dns_wire_prefix(labels) + seq![0u8]);
    }
}

fn push_bytes(v: &mut Vec<u8>, b: &[u8])
    ensures
        final(v)@ == old(v)@ + b@,
{
    let mut i: usize = 0;
    while i < b.len()
        invariant
            i <= b@.len(),
            v@ == old(v)@ + b@.take(i as int),
        decreases b.len() - i,
    {
        v.push(b[i]);
        i += 1;
        assert(b@.take(i as int) == b@.take(i - 1).push(b@[i - 1]));
    }
    assert(b@.take(b@.len() as int) == b@);
}

/// Encode dotted labels as a length-prefixed DNS name (wire format).
pub fn dns_name(labels: &[&str]) -> (r: Vec<u8>)
    ensures
        r@ == dns_wire(label_bytes(labels@)),
{
    let ghost lb = label_bytes(labels@);
    let mut v: Vec<u8> = Vec::new();
    let mut i: usize = 0;
    while i < labels.len()
        invariant
            i <= labels@.len(),
            lb == label_bytes(labels@),
            v@ == dns_wire_prefix(lb.take(i as int)),
        decreases labels.len() - i,
    {
        let l = labels[i];
        let bytes = l.as_bytes();
        v.push(bytes.len() as u8);
        push_bytes(&mut v, bytes);
        proof {
            assert(lb.take(i + 1) == lb.take(i as int).push(lb[i as int]));
            lemma_dns_wire_prefix_push(lb.take(i as int), lb[i as int]);
            assert(v@ =~= dns_wire_prefix(lb.take(i as int)) + seq![lb[i as int].len() as u8]
                + lb[i as int]);
        }
        i += 1;
    }
    v.push(0);
    proof {
        assert(lb.take(lb.len() as int) == lb);
        lemma_dns_wire_is_prefix_zero(lb);
    }
    v
}

/// A minimal mDNS packet: a 12-byte zero header, then the names
/// `_raspberrypi._tcp.local` and `livingroom-pi.local`.
pub open spec fn mdns_packet_bytes() -> Seq<u8> {
    Seq::new(12, |i: int| 0u8) + dns_wire(
        label_bytes(seq!["_raspberrypi", "_tcp", "local"]),
    ) + dns_wire(label_bytes(seq!["livingroom-pi", "local"]))
}

/// Build a minimal mDNS packet (12-byte header + two names).
pub fn mdns_packet() -> (r: Vec<u8>)
    ensures
        r@ == mdns_packet_bytes(),
{
    let mut p: Vec<u8> = Vec::new();
    let mut i: usize = 0;
    while i < 12
        invariant
            i <= 12,
            p@ == Seq::new(i as nat, |j: int| 0u8),
        decreases 12 - i,
    {
        p.push(0);
        i += 1;
        assert(p@ =~= Seq::new(i as nat, |j: int| 0u8));
    }
    let first = ["_raspberrypi", "_tcp", "local"];
    let a = dns_name(first.as_slice());
    push_bytes(&mut p, a.as_slice());
    let second = ["livingroom-pi", "local"];
    let b = dns_name(second.as_slice());
    push_bytes(&mut p, b.as_slice());
    assert(first@ =~= seq!["_raspberrypi", "_tcp", "local"]);
    assert(second@ =~= seq!["livingroom-pi", "local"]);
    p
}

/// A DHCP payload: eight zero BOOTP bytes, the magic cookie, then the
/// hostname (12), parameter request list (55) and vendor class (60) options
/// with byte-truncated lengths, and the end option.
pub open spec fn dhcp_packet_bytes(hostname: Seq<u8>, prl: Seq<u8>, vendor: Seq<u8>) -> Seq<u8> {
    Seq::new(8, |i: int| 0u8) + seq![0x63u8, 0x82u8, 0x53u8, 0x63u8] + seq![12u8, hostname.len() as u8]
        + hostname + seq![55u8, prl.len() as u8] + prl + seq![60u8, vendor.len() as u8] + vendor
        + seq![255u8]
}

/// Build a DHCP packet carrying hostname / param-request-list / vendor class.
pub fn dhcp_packet(hostname: &str, prl: &[u8], vendor: &str) -> (r: Vec<u8>)
    ensures
        r@ == dhcp_packet_bytes(hostname.spec_bytes(), prl@, vendor.spec_bytes()),
{
    let mut p: Vec<u8> = Vec::new();
    let mut i: usize = 0;
    while i < 8
        invariant
            i <= 8,
            p@ == Seq::new(i as nat, |j: int| 0u8),
        decreases 8 - i,
    {
        p.push(0);
        i += 1;
        assert(p@ =~= Seq::new(i as nat, |j: int| 0u8));
    }
    p.push(0x63);
    p.push(0x82);
    p.push(0x53);
    p.push(0x63);
    let h = hostname.as_bytes();
    p.push(12);
    p.push(h.len() as u8);
    push_bytes(&mut p, h);
    p.push(55);
    p.push(prl.len() as u8);
    push_bytes(&mut p, prl);
    let v = vendor.as_bytes();
    p.push(60);
    p.push(v.len() as u8);
    push_bytes(&mut p, v);
    p.push(255);
    assert(p@ =~= dhcp_packet_bytes(hostname.spec_bytes(), prl@, vendor.spec_bytes()));
    p
}

/// The SSDP announcement the synthetic Echo sends.
pub const ECHO_SSDP: &'static str = "NOTIFY * HTTP/1.1\r\nSERVER: Linux UPnP/1.0 AmazonEcho/1.0\r\nST: urn:schemas-upnp-org:device:basic:1\r\n\r\n";

proof fn lemma_ascii_len(s: &str, n: nat)
    requires
        s@.len() == n,
        vstd::utf8::is_ascii_chars(s@),
    ensures
        s.spec_bytes().len() == n,
{
    vstd::string::is_ascii_spec_bytes(s);
}

/// The byte lengths of the synthetic payloads.
proof fn lemma_sample_payload_lengths()
    ensures
        mdns_packet_bytes().len() == 58,
        dhcp_packet_bytes(
            "livingroom-pi".spec_bytes(),
            seq![1u8, 3, 6, 15, 26, 28, 51, 58],
            "".spec_bytes(),
        ).len() == 40,
        ECHO_SSDP.spec_bytes().len() == 101,
{
    reveal_strlit("_raspberrypi");
    reveal_strlit("_tcp");
    reveal_strlit("local");
    reveal_strlit("livingroom-pi");
    reveal_strlit("");
    reveal_strlit("NOTIFY * HTTP/1.1\r\nSERVER: Linux UPnP/1.0 AmazonEcho/1.0\r\nST: urn:schemas-upnp-org:device:basic:1\r\n\r\n");
    lemma_ascii_len("_raspberrypi", 12);
    lemma_ascii_len("_tcp", 4);
    lemma_ascii_len("local", 5);
    lemma_ascii_len("livingroom-pi", 13);
    lemma_ascii_len("", 0);
    lemma_ascii_len(ECHO_SSDP, 101);
    reveal_with_fuel(dns_wire, 4);
    let a = label_bytes(seq!["_raspberrypi", "_tcp", "local"]);
    let b = label_bytes(seq!["livingroom-pi", "local"]);
    assert(a.drop_first().drop_first().drop_first() =~= Seq::<Seq<u8>>::empty());
    assert(b.drop_first().drop_first() =~= Seq::<Seq<u8>>::empty());
    assert(dns_wire(a).len() == 25);
    assert(dns_wire(b).len() == 21);
}

/// A handful of representative discovery frames for demos and tests: a
/// Raspberry Pi (OUI b8:27:eb) announcing itself over mDNS and DHCP, and an
/// Amazon Echo (OUI 44:65:0d) advertising over SSDP.
pub fn sample_events() -> (r: Vec<Event>)
    ensures
        r@.len() == 5,
        r@[1].payload_len == 58 && r@[2].payload_len == 40 && r@[4].payload_len == 101,
        r@[0].kind == 0 && r@[0].src_mac == [0xb8u8, 0x27, 0xeb, 0x01, 0x02, 0x03]
            && r@[0].src_ip == 0x0a00_0042 && r@[0].payload_len == 0,
        r@[1].kind == 3 && r@[1].src_mac == [0xb8u8, 0x27, 0xeb, 0x01, 0x02, 0x03]
            && r@[1].src_ip == 0x0a00_0042 && r@[1].payload@ == payload_area(mdns_packet_bytes()),
        r@[2].kind == 2 && r@[2].src_mac == [0xb8u8, 0x27, 0xeb, 0x01, 0x02, 0x03]
            && r@[2].src_ip == 0x0a00_0042 && r@[2].payload@ == payload_area(
            dhcp_packet_bytes(
                "livingroom-pi".spec_bytes(),
                seq![1u8, 3, 6, 15, 26, 28, 51, 58],
                "".spec_bytes(),
            ),
        ),
        r@[3].kind == 0 && r@[3].src_mac == [0x44u8, 0x65, 0x0d, 0xaa, 0xbb, 0xcc]
            && r@[3].src_ip == 0x0a00_0050 && r@[3].payload_len == 0,
        r@[4].kind == 4 && r@[4].src_mac == [0x44u8, 0x65, 0x0d, 0xaa, 0xbb, 0xcc]
            && r@[4].src_ip == 0x0a00_0050 && r@[4].payload@ == payload_area(
            ECHO_SSDP.spec_bytes(),
        ),
{
    let pi: [u8; 6] = [0xb8, 0x27, 0xeb, 0x01, 0x02, 0x03];
    let echo: [u8; 6] = [0x44, 0x65, 0x0d, 0xaa, 0xbb, 0xcc];
    let empty: [u8; 0] = [];
    let prl: [u8; 8] = [1, 3, 6, 15, 26, 28, 51, 58];
    let mdns = mdns_packet();
    let dhcp = dhcp_packet("livingroom-pi", prl.as_slice(), "");
    let mut v: Vec<Event> = Vec::new();
    v.push(event(EventKind::NewHost, pi, 0x0a00_0042, empty.as_slice()));
    v.push(event(EventKind::Mdns, pi, 0x0a00_0042, mdns.as_slice()));
    v.push(event(EventKind::Dhcp, pi, 0x0a00_0042, dhcp.as_slice()));
    v.push(event(EventKind::NewHost, echo, 0x0a00_0050, empty.as_slice()));
    v.push(event(EventKind::Ssdp, echo, 0x0a00_0050, ECHO_SSDP.as_bytes()));
    assert(prl@ =~= seq![1u8, 3, 6, 15, 26, 28, 51, 58]);
    proof {
        lemma_sample_payload_lengths();
    }
    v
}

/// A synthetic flow snapshot: one 2-second, 42-packet, 5120-byte TCP flow
/// from 10.0.0.66 to 8.8.8.8:443.
pub fn sample_flows() -> (r: Vec<(FlowKey, FlowStats)>)
    ensures
        r@.len() == 1,
        r@[0].0.src_ip == 0x0a00_0042 && r@[0].0.dst_ip == 0x0808_0808 && r@[0].0.src_port == 51514
            && r@[0].0.dst_port == 443 && r@[0].0.protocol == 6,
        r@[0].1 == (FlowStats {
            packets: 42,
            bytes: 5120,
            first_seen_ns: 1_000_000_000,
            last_seen_ns: 3_000_000_000,
            syn: 1,
            fin: 0,
            rst: 0,
            ack: 40,
            min_len: 60,
            max_len: 1500,
        }),
{
    let key = FlowKey::new(0x0a00_0042, 0x0808_0808, 51514, 443, 6);
    let stats = FlowStats {
        packets: 42,
        bytes: 5_120,
        first_seen_ns: 1_000_000_000,
        last_seen_ns: 3_000_000_000,
        syn: 1,
        fin: 0,
        rst: 0,
        ack: 40,
        min_len: 60,
        max_len: 1500,
    };
    let mut v: Vec<(FlowKey, FlowStats)> = Vec::new();
    v.push((key, stats));
    v
}

} // verus!
