//! Heuristic anomaly detectors.

use std::collections::{HashMap, HashSet};

use vstd::prelude::*;

use super::Detector;
use crate::alert::{alert_views, Alert, AlertView, Severity};
use crate::common::{FlowKey, FlowStats};
use crate::netfmt::{self, ipv4_text};
use crate::registry::{Change, Device, DeviceView};
use crate::text::{dec, dec_int, push_dec, push_dec_i64, push_str};

verus! {

broadcast use vstd::std_specs::hash::group_hash_axioms;

/// The vendor text a new-device alert shows.
pub open spec fn vendor_or_unknown(d: DeviceView) -> Seq<char> {
    match d.vendor {
        Some(v) => v,
        None => "unknown vendor"@,
    }
}

/// The label a new-device alert shows: hostname, else vendor, else MAC.
pub open spec fn label_of(d: DeviceView) -> Seq<char> {
    match d.hostname {
        Some(h) => h,
        None => match d.vendor {
            Some(v) => v,
            None => d.mac,
        },
    }
}

/// Emits an alert the first time a device is seen.
pub struct NewDeviceDetector;

/// The alert a new device raises.
pub open spec fn new_device_alert(device: DeviceView, now: i64) -> AlertView {
    AlertView {
        ts: now,
        mac: Some(device.mac),
        severity: Severity::Info,
        kind: "new_device"@,
        message: "New device joined: "@ + label_of(device) + " ("@ + vendor_or_unknown(device) + ")"@,
    }
}

impl Detector for NewDeviceDetector {
    open spec fn stated(&self) -> bool {
        true
    }

    /// One alert for a new device, none for an update.
    open spec fn device_alerts(&self, device: DeviceView, change: Change, now: i64) -> Seq<AlertView> {
        if change == Change::NewDevice {
            seq![new_device_alert(device, now)]
        } else {
            seq![]
        }
    }

    /// Flows raise nothing.
    open spec fn flow_alerts(&self, key: FlowKey, stats: FlowStats, now: i64) -> Seq<AlertView> {
        seq![]
    }

    fn on_flow(&mut self, key: &FlowKey, stats: &FlowStats, now: i64) -> (r: Vec<Alert>) {
        let r: Vec<Alert> = Vec::new();
        assert(alert_views(r@) =~= seq![]);
        r
    }

    fn on_device(&mut self, device: &Device, change: Change, now: i64) -> (r: Vec<Alert>)
        ensures
            change != Change::NewDevice ==> r@.len() == 0,
            change == Change::NewDevice ==> r@.len() == 1 && ({
                let a = r@[0];
                &&& a.ts == now
                &&& a.mac matches Some(m) && m@ == device@.mac
                &&& a.severity == Severity::Info
                &&& a.kind@ == "new_device"@
                &&& a.message@ == "New device joined: "@ + label_of(device@) + " ("@
                    + vendor_or_unknown(device@) + ")"@
            }),
    {
        if change != Change::NewDevice {
            let r: Vec<Alert> = Vec::new();
            assert(alert_views(r@) =~= seq![]);
            return r;
        }
        let mut message = String::new();
        push_str(&mut message, "New device joined: ");
        push_str(&mut message, device.label());
        push_str(&mut message, " (");
        match &device.vendor {
            Some(v) => push_str(&mut message, v.as_str()),
            None => push_str(&mut message, "unknown vendor"),
        }
        push_str(&mut message, ")");
        let mut kind = String::new();
        push_str(&mut kind, "new_device");
        let mut v: Vec<Alert> = Vec::new();
        v.push(Alert::new(now, Some(device.mac.clone()), Severity::Info, kind, message));
        assert(alert_views(v@) =~= seq![new_device_alert(device@, now)]);
        v
    }
}

/// Per-source scan state within the current window.
struct ScanState {
    window_start: i64,
    ports: HashSet<u16>,
    alerted: bool,
}

/// The mathematical content of a scan state.
pub struct ScanView {
    pub window_start: i64,
    pub ports: Set<u16>,
    pub alerted: bool,
}

/// One flow's effect on a source's scan state, and whether it raises the
/// alarm: the window restarts once more than `window` seconds have passed
/// since it began, the destination port joins the window's set, and the
/// alarm is raised once per window, when the set first reaches `threshold`.
pub open spec fn scan_step(prev: Option<ScanView>, port: u16, now: i64, window: i64, threshold: nat) -> (
    ScanView,
    bool,
) {
    let s0 = match prev {
        Some(s) => s,
        None => ScanView { window_start: now, ports: Set::empty(), alerted: false },
    };
    let s1 = if now - s0.window_start > window {
        ScanView { window_start: now, ports: Set::empty(), alerted: false }
    } else {
        s0
    };
    let s2 = ScanView { ports: s1.ports.insert(port), ..s1 };
    if s2.ports.len() >= threshold && !s2.alerted {
        (ScanView { alerted: true, ..s2 }, true)
    } else {
        (s2, false)
    }
}

/// Once a window has raised the alarm, no later flow inside the same window
/// raises it again.
pub proof fn law_port_scan_alerts_once_per_window(
    prev: Option<ScanView>,
    p1: u16,
    t1: i64,
    p2: u16,
    t2: i64,
    window: i64,
    threshold: nat,
)
    requires
        scan_step(prev, p1, t1, window, threshold).1,
        t2 - scan_step(prev, p1, t1, window, threshold).0.window_start <= window,
    ensures
        !scan_step(Some(scan_step(prev, p1, t1, window, threshold).0), p2, t2, window, threshold).1,
{
}

/// A flow arriving after the window has run out starts a fresh window that
/// holds only its own port.
pub proof fn law_port_scan_window_restarts(
    s: ScanView,
    port: u16,
    now: i64,
    window: i64,
    threshold: nat,
)
    requires
        now - s.window_start > window,
    ensures
        ({
            let (n, fired) = scan_step(Some(s), port, now, window, threshold);
            &&& n.window_start == now
            &&& n.ports == Set::<u16>::empty().insert(port)
            &&& fired == (threshold <= 1)
        }),
{
    assert(Set::<u16>::empty().insert(port).len() == 1);
}

/// A flow inside the current window (no more than `window` seconds after
/// the window began) keeps the window's start, adds its port to the
/// window's ports, and raises the alarm exactly when the window has not
/// raised it yet and now holds at least `threshold` ports.
pub proof fn law_port_scan_window_holds(
    s: ScanView,
    port: u16,
    now: i64,
    window: i64,
    threshold: nat,
)
    requires
        now - s.window_start <= window,
    ensures
        ({
            let (n, fired) = scan_step(Some(s), port, now, window, threshold);
            &&& n.window_start == s.window_start
            &&& n.ports == s.ports.insert(port)
            &&& fired == (!s.alerted && s.ports.insert(port).len() >= threshold)
            &&& n.alerted == (s.alerted || fired)
        }),
{
}

/// A source's first flow opens a window at its own time holding only its
/// port, and raises the alarm only when one port already reaches the
/// threshold.
pub proof fn law_port_scan_first_flow(port: u16, now: i64, window: i64, threshold: nat)
    ensures
        ({
            let (n, fired) = scan_step(None, port, now, window, threshold);
            &&& n.window_start == now
            &&& n.ports == Set::<u16>::empty().insert(port)
            &&& fired == (threshold <= 1)
        }),
{
    assert(Set::<u16>::empty().insert(port).len() == 1);
}

/// The alert a scan raises.
pub open spec fn scan_message(src_ip: u32, ports: nat, window: i64) -> Seq<char> {
    "Possible port scan from "@ + ipv4_text(src_ip) + ": "@ + dec(ports) + " distinct ports in "@
        + dec_int(window as int) + "s"@
}

/// Flags a source IP that contacts many distinct destination ports in a
/// short window — the classic port-scan signature.
pub struct PortScanDetector {
    /// Distinct destination ports seen per source IP in the current window.
    seen: HashMap<u32, ScanState>,
    window_secs: i64,
    threshold: usize,
}

impl PortScanDetector {
    /// Scan state per source address.
    pub closed spec fn scans(&self) -> Map<u32, ScanView> {
        Map::new(
            |k: u32| self.seen@.contains_key(k),
            |k: u32|
                ScanView {
                    window_start: self.seen@[k].window_start,
                    ports: self.seen@[k].ports@,
                    alerted: self.seen@[k].alerted,
                },
        )
    }

    pub closed spec fn window(&self) -> i64 {
        self.window_secs
    }

    pub closed spec fn threshold(&self) -> nat {
        self.threshold as nat
    }
}

impl Default for PortScanDetector {
    fn default() -> (r: Self)
        ensures
            r.scans() == Map::<u32, ScanView>::empty(),
            r.window() == 10,
            r.threshold() == 20,
    {
        let r = PortScanDetector { seen: HashMap::new(), window_secs: 10, threshold: 20 };
        assert(r.scans() =~= Map::<u32, ScanView>::empty());
        r
    }
}

impl Detector for PortScanDetector {
    open spec fn stated(&self) -> bool {
        true
    }

    /// Device events raise nothing.
    open spec fn device_alerts(&self, device: DeviceView, change: Change, now: i64) -> Seq<AlertView> {
        seq![]
    }

    /// The alert a flow raises when it takes its source's distinct ports in
    /// the current window to the threshold (once per window).
    open spec fn flow_alerts(&self, key: FlowKey, stats: FlowStats, now: i64) -> Seq<AlertView> {
        let prev = if self.scans().contains_key(key.src_ip) {
            Some(self.scans()[key.src_ip])
        } else {
            None
        };
        let (next, fired) = scan_step(prev, key.dst_port, now, self.window(), self.threshold());
        if fired {
            seq![
                AlertView {
                    ts: now,
                    mac: None,
                    severity: Severity::Warning,
                    kind: "port_scan"@,
                    message: scan_message(key.src_ip, next.ports.len(), self.window()),
                },
            ]
        } else {
            seq![]
        }
    }

    fn on_device(&mut self, device: &Device, change: Change, now: i64) -> (r: Vec<Alert>) {
        let r: Vec<Alert> = Vec::new();
        assert(alert_views(r@) =~= seq![]);
        r
    }

    fn on_flow(&mut self, key: &FlowKey, _stats: &FlowStats, now: i64) -> (r: Vec<Alert>)
        ensures
            final(self).window() == old(self).window(),
            final(self).threshold() == old(self).threshold(),
            ({
                let prev = if old(self).scans().contains_key(key.src_ip) {
                    Some(old(self).scans()[key.src_ip])
                } else {
                    None
                };
                let (next, fired) = scan_step(
                    prev,
                    key.dst_port,
                    now,
                    old(self).window(),
                    old(self).threshold(),
                );
                &&& final(self).scans() == old(self).scans().insert(key.src_ip, next)
                &&& r@.len() == (if fired {
                    1int
                } else {
                    0int
                })
                &&& fired ==> {
                    let a = r@[0];
                    &&& a.ts == now
                    &&& a.mac is None
                    &&& a.severity == Severity::Warning
                    &&& a.kind@ == "port_scan"@
                    &&& a.message@ == scan_message(key.src_ip, next.ports.len(), old(self).window())
                }
            }),
    {
        let window = self.window_secs;
        let threshold = self.threshold;
        let mut state = match self.seen.remove(&key.src_ip) {
            Some(s) => s,
            None => ScanState { window_start: now, ports: HashSet::new(), alerted: false },
        };
        // Roll the window forward if it has elapsed.
        if (now as i128) - (state.window_start as i128) > (window as i128) {
            state.window_start = now;
            state.ports.clear();
            state.alerted = false;
        }
        state.ports.insert(key.dst_port);
        let count = state.ports.len();
        let mut out: Vec<Alert> = Vec::new();
        if count >= threshold && !state.alerted {
            state.alerted = true;
            let mut message = String::new();
            push_str(&mut message, "Possible port scan from ");
            let ip = netfmt::fmt_ipv4(key.src_ip);
            push_str(&mut message, ip.as_str());
            push_str(&mut message, ": ");
            push_dec(&mut message, count as u64);
            push_str(&mut message, " distinct ports in ");
            push_dec_i64(&mut message, window);
            push_str(&mut message, "s");
            let mut kind = String::new();
            push_str(&mut kind, "port_scan");
            out.push(Alert::new(now, None, Severity::Warning, kind, message));
        }
        let ghost next = ScanView {
            window_start: state.window_start,
            ports: state.ports@,
            alerted: state.alerted,
        };
        self.seen.insert(key.src_ip, state);
        proof {
            assert(self.scans() =~= old(self).scans().insert(key.src_ip, next));
        }
        out
    }
}

} // verus!
