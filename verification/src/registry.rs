//! In-memory device registry, keyed by MAC.
//!
//! The registry is the join point where per-frame observations and periodic
//! flow snapshots accumulate into a coherent [`Device`] record. It is pure
//! state and transitions; persistence and presentation live elsewhere.

use std::collections::HashMap;

use vstd::prelude::*;

use crate::common::{FlowKey, FlowStats, Ipv4Be, MacAddr};
use crate::decode::{Observation, Signal, SpecSignal};
use crate::fingerprint::oui;
use crate::netfmt::{self, ipv4_text, mac_text};
use crate::text::{first_index_of, position_of_str, vec_contains_str};
use vstd::std_specs::hash::spec_hash_map_iter;
use vstd::std_specs::iter::IteratorSpec;

verus! {

broadcast use vstd::std_specs::hash::group_hash_axioms;

/// Cap on stored service strings per device, to bound memory on chatty hosts.
pub const MAX_SERVICES: usize = 32;

/// Everything known about one device on the network.
#[derive(Clone, Debug, PartialEq)]
pub struct Device {
    /// Stable identity (formatted MAC, e.g. `b8:27:eb:01:02:03`).
    pub mac: String,
    pub vendor: Option<String>,
    pub hostname: Option<String>,
    /// Observed IPv4 addresses (dotted-quad), most recent last.
    pub ips: Vec<String>,
    /// Advertised services (mDNS service types, SSDP banners).
    pub services: Vec<String>,
    pub dhcp_fingerprint: Option<String>,
    pub dhcp_vendor_class: Option<String>,
    /// Device-type guess (set by the fingerprint engine).
    pub device_type: Option<String>,
    /// Unix seconds.
    pub first_seen: i64,
    pub last_seen: i64,
    /// Cumulative traffic attributed to this device (from flow snapshots).
    pub packets: u64,
    pub bytes: u64,
}

/// The mathematical content of a [`Device`].
pub struct DeviceView {
    pub mac: Seq<char>,
    pub vendor: Option<Seq<char>>,
    pub hostname: Option<Seq<char>>,
    pub ips: Seq<Seq<char>>,
    pub services: Seq<Seq<char>>,
    pub dhcp_fingerprint: Option<Seq<char>>,
    pub dhcp_vendor_class: Option<Seq<char>>,
    pub device_type: Option<Seq<char>>,
    pub first_seen: i64,
    pub last_seen: i64,
    pub packets: u64,
    pub bytes: u64,
}

/// The text of an optional string.
pub open spec fn opt_text(o: Option<String>) -> Option<Seq<char>> {
    match o {
        Some(s) => Some(s@),
        None => None,
    }
}

/// The texts of a vector of strings.
pub open spec fn texts(v: Seq<String>) -> Seq<Seq<char>> {
    Seq::new(v.len(), |i: int| v[i]@)
}

/// The views of a sequence of device records.
pub open spec fn device_views(v: Seq<Device>) -> Seq<DeviceView> {
    Seq::new(v.len(), |i: int| v[i]@)
}

impl View for Device {
    type V = DeviceView;

    open spec fn view(&self) -> DeviceView {
        DeviceView {
            mac: self.mac@,
            vendor: opt_text(self.vendor),
            hostname: opt_text(self.hostname),
            ips: texts(self.ips@),
            services: texts(self.services@),
            dhcp_fingerprint: opt_text(self.dhcp_fingerprint),
            dhcp_vendor_class: opt_text(self.dhcp_vendor_class),
            device_type: opt_text(self.device_type),
            first_seen: self.first_seen,
            last_seen: self.last_seen,
            packets: self.packets,
            bytes: self.bytes,
        }
    }
}

/// The record a first sighting creates.
pub open spec fn fresh_device(mac: MacAddr, now: i64) -> DeviceView {
    DeviceView {
        mac: mac_text(mac),
        vendor: match oui::oui_vendor(mac) {
            Some(v) => Some(v@),
            None => None,
        },
        hostname: None,
        ips: seq![],
        services: seq![],
        dhcp_fingerprint: None,
        dhcp_vendor_class: None,
        device_type: None,
        first_seen: now,
        last_seen: now,
        packets: 0,
        bytes: 0,
    }
}

/// The address list after observing `ip`: an address already present moves
/// to the end (most recent last), a new one is appended.
pub open spec fn ips_after(ips: Seq<Seq<char>>, ip: Seq<char>) -> Seq<Seq<char>> {
    match first_index_of(ips, ip) {
        Some(p) => ips.remove(p).push(ip),
        None => ips.push(ip),
    }
}

/// A device after folding one signal in.
pub open spec fn with_signal(d: DeviceView, s: SpecSignal) -> DeviceView {
    match s {
        SpecSignal::Hostname(h) => DeviceView { hostname: Some(h), ..d },
        SpecSignal::Service(x) => if !d.services.contains(x) && d.services.len() < MAX_SERVICES {
            DeviceView { services: d.services.push(x), ..d }
        } else {
            d
        },
        SpecSignal::DhcpFingerprint(f) => DeviceView { dhcp_fingerprint: Some(f), ..d },
        SpecSignal::DhcpVendorClass(v) => DeviceView { dhcp_vendor_class: Some(v), ..d },
        SpecSignal::Seen => d,
    }
}

/// A device after an observation at `now`: created on first sighting, then
/// marked seen, its address recorded and the signal folded in.
pub open spec fn observed(
    prev: Option<DeviceView>,
    mac: MacAddr,
    ip: Option<Ipv4Be>,
    s: SpecSignal,
    now: i64,
) -> DeviceView {
    let base = match prev {
        Some(d) => d,
        None => fresh_device(mac, now),
    };
    let seen = DeviceView { last_seen: now, ..base };
    let addressed = match ip {
        Some(a) => DeviceView { ips: ips_after(seen.ips, ipv4_text(a)), ..seen },
        None => seen,
    };
    with_signal(addressed, s)
}

/// Whether some device carries the address `ip`.
pub open spec fn has_device_with_ip(devs: Map<u64, DeviceView>, ip: Seq<char>) -> bool {
    exists|k: u64| #[trigger] devs.contains_key(k) && devs[k].ips.contains(ip)
}

/// The devices after a flow is attributed: one device carrying the flow's
/// source address is credited with its traffic (which one, when several
/// do, is left open); with no such device nothing changes.
pub open spec fn flow_applied(
    before: Map<u64, DeviceView>,
    after: Map<u64, DeviceView>,
    key: FlowKey,
    stats: FlowStats,
    now: i64,
) -> bool {
    if has_device_with_ip(before, ipv4_text(key.src_ip)) {
        exists|k: u64|
            #[trigger] before.contains_key(k) && before[k].ips.contains(ipv4_text(key.src_ip))
                && after == before.insert(k, credited(before[k], stats, now))
    } else {
        after == before
    }
}

/// A record as observations keep it: distinct services, at most
/// `MAX_SERVICES` of them, and distinct addresses.
pub open spec fn record_well_kept(d: DeviceView) -> bool {
    &&& d.services.no_duplicates()
    &&& d.services.len() <= MAX_SERVICES
    &&& d.ips.no_duplicates()
}

/// What one observation records on top of the device's previous record (a
/// new record for a first sighting): a hostname, DHCP fingerprint or DHCP
/// vendor-class signal sets that field; a service signal adds the service
/// unless the record already holds it or is full, keeping the earlier ones
/// in order; every field the signal does not concern is kept. A first
/// sighting starts from the MAC's text and OUI vendor, with no traffic.
pub proof fn law_observation_records_signal(
    prev: Option<DeviceView>,
    mac: MacAddr,
    ip: Option<Ipv4Be>,
    s: SpecSignal,
    now: i64,
)
    ensures
        ({
            let d = observed(prev, mac, ip, s, now);
            let base = match prev {
                Some(p) => p,
                None => fresh_device(mac, now),
            };
            &&& d.mac == base.mac
            &&& d.vendor == base.vendor
            &&& d.device_type == base.device_type
            &&& d.packets == base.packets
            &&& d.bytes == base.bytes
            &&& d.first_seen == base.first_seen
            &&& d.hostname == (match s {
                SpecSignal::Hostname(h) => Some(h),
                _ => base.hostname,
            })
            &&& d.dhcp_fingerprint == (match s {
                SpecSignal::DhcpFingerprint(f) => Some(f),
                _ => base.dhcp_fingerprint,
            })
            &&& d.dhcp_vendor_class == (match s {
                SpecSignal::DhcpVendorClass(v) => Some(v),
                _ => base.dhcp_vendor_class,
            })
            &&& !(s is Service) ==> d.services == base.services
            &&& s matches SpecSignal::Service(x) ==> {
                &&& d.services.take(base.services.len() as int) == base.services
                &&& d.services.len() <= base.services.len() + 1
                &&& (base.services.contains(x) || base.services.len() < MAX_SERVICES)
                    ==> d.services.contains(x)
            }
            &&& prev is None ==> {
                &&& d.mac == mac_text(mac)
                &&& d.vendor == (match oui::oui_vendor(mac) {
                    Some(v) => Some(v@),
                    None => None,
                })
                &&& d.first_seen == now
                &&& d.packets == 0
                &&& d.bytes == 0
                &&& d.device_type is None
            }
        }),
{
    let d = observed(prev, mac, ip, s, now);
    let base = match prev {
        Some(p) => p,
        None => fresh_device(mac, now),
    };
    let seen = DeviceView { last_seen: now, ..base };
    let addressed = match ip {
        Some(a) => DeviceView { ips: ips_after(seen.ips, ipv4_text(a)), ..seen },
        None => seen,
    };
    assert(addressed.services == base.services);
    if let SpecSignal::Service(x) = s {
        if !addressed.services.contains(x) && addressed.services.len() < MAX_SERVICES {
            let n = addressed.services.push(x);
            assert(n.take(base.services.len() as int) =~= base.services);
            assert(n[base.services.len() as int] == x);
        } else {
            assert(d.services.take(base.services.len() as int) =~= base.services);
        }
    }
}

/// Observing a device keeps its record well kept; the observed address ends
/// the address list (most recent last); the sighting moves `last_seen` to
/// the observation time and keeps `first_seen`.
pub proof fn law_observation_keeps_record(
    prev: Option<DeviceView>,
    mac: MacAddr,
    ip: Option<Ipv4Be>,
    s: SpecSignal,
    now: i64,
)
    requires
        prev matches Some(d) ==> record_well_kept(d),
    ensures
        record_well_kept(observed(prev, mac, ip, s, now)),
        ip matches Some(a) ==> observed(prev, mac, ip, s, now).ips.last() == ipv4_text(a),
        observed(prev, mac, ip, s, now).last_seen == now,
        prev matches Some(d) ==> observed(prev, mac, ip, s, now).first_seen == d.first_seen,
        prev is None ==> observed(prev, mac, ip, s, now).first_seen == now,
{
    let base = match prev {
        Some(d) => d,
        None => fresh_device(mac, now),
    };
    assert(record_well_kept(base));
    if let Some(a) = ip {
        let t = ipv4_text(a);
        crate::text::lemma_first_index_of_found(base.ips, t);
        match first_index_of(base.ips, t) {
            Some(p) => {
                let r = base.ips.remove(p);
                assert forall|i: int, j: int| 0 <= i < j < r.len() implies r[i] != r[j] by {
                    let ii = if i < p { i } else { i + 1 };
                    let jj = if j < p { j } else { j + 1 };
                    assert(r[i] == base.ips[ii] && r[j] == base.ips[jj]);
                }
                assert(!r.contains(t)) by {
                    if r.contains(t) {
                        let k = choose|k: int| 0 <= k < r.len() && r[k] == t;
                        let kk = if k < p { k } else { k + 1 };
                        assert(r[k] == base.ips[kk]);
                    }
                }
                assert(r.push(t).no_duplicates()) by {
                    assert forall|i: int, j: int| 0 <= i < j < r.push(t).len() implies r.push(t)[i]
                        != r.push(t)[j] by {
                        if j == r.len() {
                            assert(r.push(t)[i] == r[i]);
                        }
                    }
                }
            },
            None => {
                assert(base.ips.push(t).no_duplicates()) by {
                    assert forall|i: int, j: int| 0 <= i < j < base.ips.push(t).len() implies base.ips.push(
                        t,
                    )[i] != base.ips.push(t)[j] by {
                        if j == base.ips.len() {
                            assert(base.ips.push(t)[i] == base.ips[i]);
                        }
                    }
                }
            },
        }
    }
    if let SpecSignal::Service(x) = s {
        let sv = base.services;
        if !sv.contains(x) {
            assert(sv.push(x).no_duplicates()) by {
                assert forall|i: int, j: int| 0 <= i < j < sv.push(x).len() implies sv.push(x)[i]
                    != sv.push(x)[j] by {
                    if j == sv.len() {
                        assert(sv.push(x)[i] == sv[i]);
                    }
                }
            }
        }
    }
}

/// Loading a record under one MAC leaves every other MAC's record as it
/// was, and reading the loaded MAC back gives the record.
pub proof fn law_load_isolated(devs: Map<u64, DeviceView>, mac: MacAddr, d: DeviceView, other: MacAddr)
    ensures
        devs.insert(mac_key(mac), d).contains_key(mac_key(mac)),
        devs.insert(mac_key(mac), d)[mac_key(mac)] == d,
        other != mac ==> (devs.insert(mac_key(mac), d).contains_key(mac_key(other))
            == devs.contains_key(mac_key(other))),
        other != mac && devs.contains_key(mac_key(other)) ==> devs.insert(mac_key(mac), d)[mac_key(
            other,
        )] == devs[mac_key(other)],
{
    law_mac_key_roundtrip(mac);
    law_mac_key_roundtrip(other);
}

/// `a + b`, capped at `u64::MAX`.
pub open spec fn sat_add(a: u64, b: u64) -> u64 {
    if a + b > u64::MAX {
        u64::MAX
    } else {
        (a + b) as u64
    }
}

/// A device after a flow snapshot is attributed to it.
pub open spec fn credited(d: DeviceView, stats: FlowStats, now: i64) -> DeviceView {
    DeviceView {
        packets: sat_add(d.packets, stats.packets),
        bytes: sat_add(d.bytes, stats.bytes),
        last_seen: now,
        ..d
    }
}

impl Device {
    fn new(mac: MacAddr, now: i64) -> (r: Self)
        ensures
            r@ == fresh_device(mac, now),
    {
        let vendor = match oui::lookup(&mac) {
            Some(v) => Some(v.to_owned()),
            None => None,
        };
        let r = Device {
            mac: netfmt::fmt_mac(&mac),
            vendor,
            hostname: None,
            ips: Vec::new(),
            services: Vec::new(),
            dhcp_fingerprint: None,
            dhcp_vendor_class: None,
            device_type: None,
            first_seen: now,
            last_seen: now,
            packets: 0,
            bytes: 0,
        };
        assert(texts(r.ips@) =~= seq![]);
        assert(texts(r.services@) =~= seq![]);
        r
    }

    /// Best human label for the device: hostname → vendor → MAC.
    pub fn label(&self) -> (r: &str)
        ensures
            r@ == (match self@.hostname {
                Some(h) => h,
                None => match self@.vendor {
                    Some(v) => v,
                    None => self@.mac,
                },
            }),
    {
        match &self.hostname {
            Some(h) => h.as_str(),
            None => match &self.vendor {
                Some(v) => v.as_str(),
                None => self.mac.as_str(),
            },
        }
    }
}

/// Result of folding an observation in, so callers can react to first
/// sightings.
#[derive(Clone, Copy, PartialEq, Eq, Debug, Structural)]
pub enum Change {
    NewDevice,
    Updated,
}

/// The registry key of a MAC: its six octets as a big-endian 48-bit number.
pub open spec fn mac_key(mac: MacAddr) -> u64 {
    ((mac[0] as u64) << 40) | ((mac[1] as u64) << 32) | ((mac[2] as u64) << 24) | ((
    mac[3] as u64) << 16) | ((mac[4] as u64) << 8) | (mac[5] as u64)
}

/// The MAC a registry key stands for.
pub open spec fn key_mac(k: u64) -> MacAddr {
    [
        ((k >> 40) & 0xff) as u8,
        ((k >> 32) & 0xff) as u8,
        ((k >> 24) & 0xff) as u8,
        ((k >> 16) & 0xff) as u8,
        ((k >> 8) & 0xff) as u8,
        (k & 0xff) as u8,
    ]
}

proof fn lemma_mac_key_bytes(a: u8, b: u8, c: u8, d: u8, e: u8, f: u8)
    ensures
        ({
            let k = ((a as u64) << 40) | ((b as u64) << 32) | ((c as u64) << 24) | ((d as u64)
                << 16) | ((e as u64) << 8) | (f as u64);
            &&& ((k >> 40) & 0xff) as u8 == a
            &&& ((k >> 32) & 0xff) as u8 == b
            &&& ((k >> 24) & 0xff) as u8 == c
            &&& ((k >> 16) & 0xff) as u8 == d
            &&& ((k >> 8) & 0xff) as u8 == e
            &&& (k & 0xff) as u8 == f
            &&& k < 0x1_0000_0000_0000
        }),
{
    let k = ((a as u64) << 40) | ((b as u64) << 32) | ((c as u64) << 24) | ((d as u64) << 16) | ((
    e as u64) << 8) | (f as u64);
    assert(((k >> 40) & 0xff) as u8 == a && ((k >> 32) & 0xff) as u8 == b && ((k >> 24) & 0xff) as u8
        == c && ((k >> 16) & 0xff) as u8 == d && ((k >> 8) & 0xff) as u8 == e && (k & 0xff) as u8
        == f && k < 0x1_0000_0000_0000) by (bit_vector)
        requires
            k == ((a as u64) << 40) | ((b as u64) << 32) | ((c as u64) << 24) | ((d as u64)
                << 16) | ((e as u64) << 8) | (f as u64),
    ;
}

proof fn lemma_key_mac_key(k: u64)
    requires
        k < 0x1_0000_0000_0000,
    ensures
        mac_key(key_mac(k)) == k,
{
    let m = key_mac(k);
    assert(((((k >> 40) & 0xff) as u8 as u64) << 40) | ((((k >> 32) & 0xff) as u8 as u64) << 32)
        | ((((k >> 24) & 0xff) as u8 as u64) << 24) | ((((k >> 16) & 0xff) as u8 as u64) << 16)
        | ((((k >> 8) & 0xff) as u8 as u64) << 8) | ((k & 0xff) as u8 as u64) == k) by (bit_vector)
        requires
            k < 0x1_0000_0000_0000,
    ;
}

/// Distinct MACs have distinct keys, and a key gives its MAC back.
pub proof fn law_mac_key_roundtrip(mac: MacAddr)
    ensures
        key_mac(mac_key(mac)) == mac,
        mac_key(mac) < 0x1_0000_0000_0000,
{
    lemma_mac_key_bytes(mac[0], mac[1], mac[2], mac[3], mac[4], mac[5]);
    assert(key_mac(mac_key(mac))@ =~= mac@);
}

fn mac_to_key(mac: &MacAddr) -> (k: u64)
    ensures
        k == mac_key(*mac),
{
    ((mac[0] as u64) << 40) | ((mac[1] as u64) << 32) | ((mac[2] as u64) << 24) | ((
    mac[3] as u64) << 16) | ((mac[4] as u64) << 8) | (mac[5] as u64)
}

fn key_to_mac(k: u64) -> (m: MacAddr)
    ensures
        m == key_mac(k),
{
    [
        ((k >> 40) & 0xff) as u8,
        ((k >> 32) & 0xff) as u8,
        ((k >> 24) & 0xff) as u8,
        ((k >> 16) & 0xff) as u8,
        ((k >> 8) & 0xff) as u8,
        (k & 0xff) as u8,
    ]
}

/// The set of known devices, keyed by MAC.
pub struct DeviceRegistry {
    devices: HashMap<u64, Device>,
}

impl DeviceRegistry {
    /// The devices by MAC key, as views.
    pub closed spec fn devices(&self) -> Map<u64, DeviceView> {
        Map::new(|k: u64| self.devices@.contains_key(k), |k: u64| self.devices@[k]@)
    }

    /// Every key is the key of some MAC.
    pub closed spec fn well_formed(&self) -> bool {
        forall|k: u64| self.devices@.contains_key(k) ==> k < 0x1_0000_0000_0000
    }

    pub fn new() -> (r: Self)
        ensures
            r.devices() == Map::<u64, DeviceView>::empty(),
            r.well_formed(),
    {
        let r = DeviceRegistry { devices: HashMap::new() };
        assert(r.devices() =~= Map::<u64, DeviceView>::empty());
        r
    }

    /// Number of known devices.
    pub fn len(&self) -> (r: usize)
        ensures
            r == self.devices().len(),
            self.devices().dom().finite(),
    {
        assert(self.devices().dom() =~= self.devices@.dom());
        self.devices.len()
    }

    pub fn is_empty(&self) -> (r: bool)
        ensures
            r == (self.devices().len() == 0),
    {
        assert(self.devices().dom() =~= self.devices@.dom());
        self.devices.len() == 0
    }

    /// Seed the registry with a persisted record.
    pub fn load(&mut self, mac: MacAddr, device: Device)
        requires
            old(self).well_formed(),
        ensures
            final(self).well_formed(),
            final(self).devices() == old(self).devices().insert(mac_key(mac), device@),
    {
        proof {
            law_mac_key_roundtrip(mac);
        }
        let k = mac_to_key(&mac);
        let ghost d = device@;
        self.devices.insert(k, device);
        assert(self.devices() =~= old(self).devices().insert(mac_key(mac), d));
    }

    pub fn get(&self, mac: &MacAddr) -> (r: Option<&Device>)
        ensures
            match r {
                Some(d) => self.devices().contains_key(mac_key(*mac)) && self.devices()[mac_key(
                    *mac,
                )] == d@,
                None => !self.devices().contains_key(mac_key(*mac)),
            },
    {
        let k = mac_to_key(mac);
        self.devices.get(&k)
    }

    /// Record an inferred device type for a known device.
    pub fn set_device_type(&mut self, mac: &MacAddr, device_type: Option<String>)
        requires
            old(self).well_formed(),
        ensures
            final(self).well_formed(),
            old(self).devices().contains_key(mac_key(*mac)) ==> final(self).devices() == old(self).devices().insert(
                mac_key(*mac),
                DeviceView {
                    device_type: opt_text(device_type),
                    ..old(self).devices()[mac_key(*mac)]
                },
            ),
            !old(self).devices().contains_key(mac_key(*mac)) ==> final(self).devices() == old(self).devices(),
    {
        let k = mac_to_key(mac);
        match self.devices.remove(&k) {
            Some(mut d) => {
                let ghost before = d@;
                d.device_type = device_type;
                let ghost after = d@;
                self.devices.insert(k, d);
                assert(self.devices() =~= old(self).devices().insert(k, after));
            },
            None => {
                assert(self.devices() =~= old(self).devices());
            },
        }
    }

    /// Every known device with its MAC, in no particular order.
    pub fn iter(&self) -> (r: Vec<(MacAddr, &Device)>)
        requires
            self.well_formed(),
        ensures
            r@.len() == self.devices().len(),
            forall|i: int|
                0 <= i < r@.len() ==> self.devices().contains_key(mac_key((#[trigger] r@[i]).0))
                    && self.devices()[mac_key(r@[i].0)] == r@[i].1@,
            forall|i: int, j: int|
                0 <= i < j < r@.len() ==> (#[trigger] r@[i]).0 != (#[trigger] r@[j]).0,
            forall|m: MacAddr|
                #[trigger] self.devices().contains_key(mac_key(m)) ==> exists|i: int|
                    0 <= i < r@.len() && (#[trigger] r@[i]).0 == m,
    {
        let ghost full = spec_hash_map_iter(&self.devices).remaining();
        proof {
            broadcast use vstd::std_specs::hash::axiom_spec_hash_map_iter;
        }
        let mut out: Vec<(MacAddr, &Device)> = Vec::new();
        for item in it: self.devices.iter()
            invariant
                self.well_formed(),
                it.seq() == full,
                full == spec_hash_map_iter(&self.devices).remaining(),
                out@.len() == it.index(),
                forall|i: int|
                    0 <= i < out@.len() ==> {
                        &&& (#[trigger] out@[i]).0 == key_mac(*full[i].0)
                        &&& out@[i].1 == *full[i].1
                    },
        {
            let (k, d) = item;
            out.push((key_to_mac(*k), d));
        }
        proof {
            broadcast use vstd::std_specs::hash::axiom_spec_hash_map_iter;
            assert(full.len() == self.devices@.dom().len());
            assert(self.devices().dom() =~= self.devices@.dom());
            assert forall|i: int|
                0 <= i < out@.len() implies self.devices().contains_key(mac_key((#[trigger] out@[i]).0))
                    && self.devices()[mac_key(out@[i].0)] == out@[i].1@ by {
                let k = *full[i].0;
                assert(self.devices@.contains_key(k) && self.devices@[k] == *full[i].1);
                lemma_key_mac_key(k);
            }
            assert forall|i: int, j: int|
                0 <= i < j < out@.len() implies (#[trigger] out@[i]).0 != (#[trigger] out@[j]).0 by {
                let ki = *full[i].0;
                let kj = *full[j].0;
                assert(self.devices@.contains_key(ki) && self.devices@[ki] == *full[i].1);
                assert(self.devices@.contains_key(kj) && self.devices@[kj] == *full[j].1);
                lemma_key_mac_key(ki);
                lemma_key_mac_key(kj);
                if out@[i].0 == out@[j].0 {
                    assert(ki == kj);
                    assert(full[i] == full[j]);
                    assert(full.no_duplicates());
                }
            }
            assert forall|m: MacAddr|
                #[trigger] self.devices().contains_key(mac_key(m)) implies exists|i: int|
                    0 <= i < out@.len() && (#[trigger] out@[i]).0 == m by {
                let k = mac_key(m);
                assert(self.devices@.contains_key(k));
                assert(full.contains((&k, &self.devices@[k])));
                let i = choose|i: int| 0 <= i < full.len() && full[i] == (&k, &self.devices@[k]);
                law_mac_key_roundtrip(m);
                assert(out@[i].0 == m);
            }
        }
        out
    }

    /// Fold one observation into the registry, returning the device's MAC and
    /// whether it was newly created.
    pub fn observe(&mut self, obs: &Observation, now: i64) -> (r: (MacAddr, Change))
        requires
            old(self).well_formed(),
        ensures
            final(self).well_formed(),
            r.0 == obs.mac,
            r.1 == (if old(self).devices().contains_key(mac_key(obs.mac)) {
                Change::Updated
            } else {
                Change::NewDevice
            }),
            final(self).devices().dom().finite(),
            final(self).devices().len() == old(self).devices().len() + (if r.1 == Change::NewDevice {
                1int
            } else {
                0int
            }),
            final(self).devices() == old(self).devices().insert(
                mac_key(obs.mac),
                observed(
                    if old(self).devices().contains_key(mac_key(obs.mac)) {
                        Some(old(self).devices()[mac_key(obs.mac)])
                    } else {
                        None
                    },
                    obs.mac,
                    obs.ip,
                    obs.signal@,
                    now,
                ),
            ),
    {
        proof {
            law_mac_key_roundtrip(obs.mac);
        }
        let k = mac_to_key(&obs.mac);
        let (mut dev, change) = match self.devices.remove(&k) {
            Some(d) => (d, Change::Updated),
            None => (Device::new(obs.mac, now), Change::NewDevice),
        };
        dev.last_seen = now;
        if let Some(ip) = obs.ip {
            push_ip(&mut dev, ip);
        }
        apply_signal(&mut dev, &obs.signal);
        let ghost after = dev@;
        self.devices.insert(k, dev);
        proof {
            let prev = if old(self).devices().contains_key(k) {
                Some(old(self).devices()[k])
            } else {
                None
            };
            assert(after == observed(prev, obs.mac, obs.ip, obs.signal@, now));
            assert(self.devices() =~= old(self).devices().insert(k, after));
            assert(self.devices().dom() =~= self.devices@.dom());
            assert(old(self).devices().dom() =~= old(self).devices@.dom());
        }
        (obs.mac, change)
    }

    /// Attribute a flow snapshot's traffic to a device that carries the
    /// flow's source address (one such device, when several do).
    ///
    /// Only meaningful when the capture sees other hosts' traffic
    /// (gateway/span); in host mode this mostly attributes the host's own
    /// flows.
    pub fn apply_flow(&mut self, key: &FlowKey, stats: &FlowStats, now: i64)
        requires
            old(self).well_formed(),
        ensures
            final(self).well_formed(),
            flow_applied(old(self).devices(), final(self).devices(), *key, *stats, now),
    {
        let target = netfmt::fmt_ipv4(key.src_ip);
        let ghost ip = ipv4_text(key.src_ip);
        let mut found: Option<u64> = None;
        let ghost full = spec_hash_map_iter(&self.devices).remaining();
        proof {
            broadcast use vstd::std_specs::hash::axiom_spec_hash_map_iter;
        }
        for item in it: self.devices.iter()
            invariant
                target@ == ip,
                it.seq() == full,
                full == spec_hash_map_iter(&self.devices).remaining(),
                match found {
                    Some(k) => self.devices@.contains_key(k) && self.devices@[k]@.ips.contains(ip),
                    None => forall|i: int| 0 <= i < it.index() ==> !(*full[i].1)@.ips.contains(ip),
                },
        {
            let (k, d) = item;
            if found.is_none() && vec_contains_str(&d.ips, target.as_str()) {
                proof {
                    broadcast use vstd::std_specs::hash::axiom_spec_hash_map_iter;
                    let j = choose|j: int| 0 <= j < d.ips@.len() && #[trigger] d.ips@[j]@ == ip;
                    assert(d@.ips[j] == ip);
                }
                found = Some(*k);
            }
        }
        match found {
            Some(k) => {
                assert(old(self).devices().contains_key(k) && old(self).devices()[k].ips.contains(ip));
                let mut dev = self.devices.remove(&k).unwrap();
                dev.packets = dev.packets.saturating_add(stats.packets);
                dev.bytes = dev.bytes.saturating_add(stats.bytes);
                dev.last_seen = now;
                let ghost after = dev@;
                self.devices.insert(k, dev);
                proof {
                    assert(after == credited(old(self).devices()[k], *stats, now));
                    assert(self.devices() =~= old(self).devices().insert(k, after));
                }
            },
            None => {
                proof {
                    broadcast use vstd::std_specs::hash::axiom_spec_hash_map_iter;
                    assert forall|k: u64| #[trigger] old(self).devices().contains_key(k) implies !old(self).devices()[k].ips.contains(ipv4_text(key.src_ip)) by {
                        assert(full.contains((&k, &self.devices@[k])));
                        let i = choose|i: int| 0 <= i < full.len() && full[i] == (&k, &self.devices@[k]);
                    }
                    assert(self.devices() =~= old(self).devices());
                }
            },
        }
    }
}

#[verifier::external_type_specification]
#[verifier::external_body]
pub struct ExSystemTime(std::time::SystemTime);

#[verifier::external_type_specification]
#[verifier::external_body]
pub struct ExSystemTimeError(std::time::SystemTimeError);

/// `std::time::SystemTime::now`: the wall clock, of which nothing is stated.
#[verifier::external_body]
fn wall_clock() -> std::time::SystemTime {
    std::time::SystemTime::now()
}

/// `SystemTime::duration_since` the Unix epoch: the time elapsed since the
/// epoch, or an error for a time before it. Nothing is stated of either.
#[verifier::external_body]
fn since_unix_epoch(t: &std::time::SystemTime) -> std::result::Result<
    core::time::Duration,
    std::time::SystemTimeError,
> {
    t.duration_since(std::time::UNIX_EPOCH)
}

/// `Duration::as_secs`: the whole seconds of a duration (not modelled).
#[verifier::external_body]
fn whole_secs(d: &core::time::Duration) -> u64 {
    d.as_secs()
}

/// Current Unix time in seconds; 0 when the clock reads before the epoch.
/// The result depends on the clock, so no contract fixes it.
pub fn now_unix() -> i64 {
    let t = wall_clock();
    match since_unix_epoch(&t) {
        Ok(d) => whole_secs(&d) as i64,
        Err(_) => 0,
    }
}

/// Record an address: move it to the end if already present, else append.
fn push_ip(dev: &mut Device, ip: Ipv4Be)
    ensures
        final(dev)@ == (DeviceView { ips: ips_after(old(dev)@.ips, ipv4_text(ip)), ..old(dev)@ }),
{
    let s = netfmt::fmt_ipv4(ip);
    let ghost before = texts(dev.ips@);
    assert(dev.ips.deep_view() =~= before);
    match position_of_str(&dev.ips, s.as_str()) {
        Some(pos) => {
            let v = dev.ips.remove(pos);
            dev.ips.push(v);
            assert(texts(dev.ips@) =~= before.remove(pos as int).push(s@));
        },
        None => {
            dev.ips.push(s);
            assert(texts(dev.ips@) =~= before.push(ipv4_text(ip)));
        },
    }
}

/// Fold a signal into a device record.
fn apply_signal(dev: &mut Device, signal: &Signal)
    ensures
        final(dev)@ == with_signal(old(dev)@, signal@),
{
    match signal {
        Signal::Hostname(h) => {
            dev.hostname = Some(h.clone());
        },
        Signal::Service(s) => {
            let ghost before = texts(dev.services@);
            if !vec_contains_str(&dev.services, s.as_str()) && dev.services.len() < MAX_SERVICES {
                proof {
                    assert forall|i: int| 0 <= i < before.len() implies before[i] != s@ by {
                        assert(before[i] == dev.services@[i]@);
                    }
                    assert(!before.contains(s@));
                }
                dev.services.push(s.clone());
                assert(texts(dev.services@) =~= before.push(s@));
            } else {
                proof {
                    if dev.services.len() < MAX_SERVICES {
                        let j = choose|j: int| 0 <= j < dev.services@.len() && #[trigger] dev.services@[j]@ == s@;
                        assert(before[j] == s@);
                    }
                }
            }
        },
        Signal::DhcpFingerprint(f) => {
            dev.dhcp_fingerprint = Some(f.clone());
        },
        Signal::DhcpVendorClass(v) => {
            dev.dhcp_vendor_class = Some(v.clone());
        },
        Signal::Seen => {
        },
    }
}

} // verus!
