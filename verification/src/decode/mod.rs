//! Protocol decoders.
//!
//! Each decoder turns one raw event payload into zero or more typed facts
//! about a device. Decoders are pure functions of their bytes.

pub mod dhcp;
pub mod dns;
pub mod mdns;
pub mod ssdp;

use vstd::prelude::*;

use crate::common::{event_kind_of, event_payload, Event, EventKind, Ipv4Be, MacAddr};

verus! {

/// A typed fact extracted from a frame.
#[derive(Clone, PartialEq, Eq, Debug)]
pub enum Signal {
    /// Device announced/observed a hostname.
    Hostname(String),
    /// An advertised service string (mDNS service type, SSDP server, …).
    Service(String),
    /// DHCP option-55 parameter-request-list fingerprint (comma-joined codes).
    DhcpFingerprint(String),
    /// DHCP option-60 vendor class identifier.
    DhcpVendorClass(String),
    /// Presence only (ARP / first sighting).
    Seen,
}

/// The mathematical content of a [`Signal`].
pub enum SpecSignal {
    Hostname(Seq<char>),
    Service(Seq<char>),
    DhcpFingerprint(Seq<char>),
    DhcpVendorClass(Seq<char>),
    Seen,
}

impl View for Signal {
    type V = SpecSignal;

    open spec fn view(&self) -> SpecSignal {
        match self {
            Signal::Hostname(s) => SpecSignal::Hostname(s@),
            Signal::Service(s) => SpecSignal::Service(s@),
            Signal::DhcpFingerprint(s) => SpecSignal::DhcpFingerprint(s@),
            Signal::DhcpVendorClass(s) => SpecSignal::DhcpVendorClass(s@),
            Signal::Seen => SpecSignal::Seen,
        }
    }
}

/// The views of a sequence of signals.
pub open spec fn signals_view(v: Seq<Signal>) -> Seq<SpecSignal> {
    Seq::new(v.len(), |i: int| v[i]@)
}

/// Appending one signal to a vector appends its view.
pub proof fn lemma_signals_push(v: Seq<Signal>, s: Signal)
    ensures
        signals_view(v.push(s)) == signals_view(v).push(s@),
{
    assert(signals_view(v.push(s)) =~= signals_view(v).push(s@));
}

/// A [`Signal`] tagged with the device it pertains to.
#[derive(Clone, PartialEq, Eq, Debug)]
pub struct Observation {
    pub mac: MacAddr,
    pub ip: Option<Ipv4Be>,
    pub signal: Signal,
}

/// The signals a decoder yields for an event, by kind.
pub open spec fn event_signals(ev: Event) -> Seq<SpecSignal> {
    let payload = event_payload(ev);
    match event_kind_of(ev.kind) {
        EventKind::Dhcp => dhcp::dhcp_signals(payload),
        EventKind::Mdns => mdns::mdns_signals(payload),
        EventKind::Ssdp => ssdp::ssdp_signals(payload),
        _ => seq![SpecSignal::Seen],
    }
}

/// The address an event carries, if any (`0` means "not an IP frame").
pub open spec fn event_ip(ev: Event) -> Option<Ipv4Be> {
    if ev.src_ip != 0 {
        Some(ev.src_ip)
    } else {
        None
    }
}

/// Decode a single capture event into observations.
///
/// Dispatch is by [`EventKind`]; kinds without a decoder yield a bare `Seen`
/// so presence is still recorded.
pub fn decode_event(ev: &Event) -> (r: Vec<Observation>)
    ensures
        r@.len() == event_signals(*ev).len(),
        forall|i: int|
            0 <= i < r@.len() ==> {
                &&& (#[trigger] r@[i]).mac == ev.src_mac
                &&& r@[i].ip == event_ip(*ev)
                &&& r@[i].signal@ == event_signals(*ev)[i]
            },
{
    let ip: Option<Ipv4Be> = if ev.src_ip != 0 {
        Some(ev.src_ip)
    } else {
        None
    };
    let mac = ev.src_mac;
    let payload = ev.payload();
    let signals: Vec<Signal> = match ev.kind() {
        EventKind::Dhcp => dhcp::decode(payload),
        EventKind::Mdns => mdns::decode(payload),
        EventKind::Ssdp => ssdp::decode(payload),
        EventKind::Arp | EventKind::NewHost | EventKind::TlsHello | EventKind::Unknown => {
            let mut v: Vec<Signal> = Vec::new();
            v.push(Signal::Seen);
            proof {
                assert(signals_view(v@) =~= seq![SpecSignal::Seen]);
            }
            v
        },
    };
    assert(signals_view(signals@) == event_signals(*ev));
    let mut out: Vec<Observation> = Vec::new();
    let mut rest = signals;
    let ghost orig = rest@;
    let n = rest.len();
    let mut i: usize = 0;
    while i < n
        invariant
            n == orig.len(),
            i <= n,
            rest@ == orig.skip(i as int),
            out@.len() == i,
            forall|j: int|
                0 <= j < i ==> {
                    &&& (#[trigger] out@[j]).mac == mac
                    &&& out@[j].ip == ip
                    &&& out@[j].signal@ == orig[j]@
                },
        decreases n - i,
    {
        let signal = rest.remove(0);
        assert(signal == orig[i as int]);
        out.push(Observation { mac, ip, signal });
        i += 1;
        assert(rest@ =~= orig.skip(i as int));
    }
    assert(forall|j: int| 0 <= j < n ==> orig[j]@ == #[trigger] signals_view(orig)[j]);
    out
}

} // verus!
