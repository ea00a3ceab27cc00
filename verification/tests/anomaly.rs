use lanscope::alert::{Alert, Severity};
use lanscope::anomaly::heuristics::{NewDeviceDetector, PortScanDetector};
use lanscope::anomaly::{Detector, Engine};
use lanscope::common::{FlowKey, FlowStats};
use lanscope::registry::{Change, Device};

fn dev(mac: &str) -> Device {
    Device {
        mac: mac.into(),
        vendor: Some("Acme".into()),
        hostname: None,
        ips: vec![],
        services: vec![],
        dhcp_fingerprint: None,
        dhcp_vendor_class: None,
        device_type: None,
        first_seen: 0,
        last_seen: 0,
        packets: 0,
        bytes: 0,
    }
}

fn flow(src_ip: u32, dst_port: u16, bytes: u64) -> (FlowKey, FlowStats) {
    (
        FlowKey::new(src_ip, 0x01020304, 40000, dst_port, 6),
        FlowStats {
            bytes,
            packets: 1,
            ..Default::default()
        },
    )
}

#[test]
fn new_device_alerts_once() {
    let mut d = NewDeviceDetector;
    assert_eq!(
        d.on_device(&dev("aa:bb:cc:00:11:22"), Change::NewDevice, 1)
            .len(),
        1
    );
    assert!(d
        .on_device(&dev("aa:bb:cc:00:11:22"), Change::Updated, 2)
        .is_empty());
}

#[test]
fn port_scan_fires_past_threshold_then_silent() {
    let mut d = PortScanDetector::default();
    let mut alerts = 0;
    for port in 0..25u16 {
        let (k, s) = flow(0x0a000001, port, 100);
        alerts += d.on_flow(&k, &s, 0).len();
    }
    assert_eq!(alerts, 1, "should alert exactly once per window");
}

#[test]
fn port_scan_resets_after_window() {
    let mut d = PortScanDetector::default();
    for port in 0..25u16 {
        let (k, s) = flow(0x0a000001, port, 100);
        d.on_flow(&k, &s, 0);
    }
    // New window, fresh scan → alerts again.
    let mut alerts = 0;
    for port in 100..125u16 {
        let (k, s) = flow(0x0a000001, port, 100);
        alerts += d.on_flow(&k, &s, 100).len();
    }
    assert_eq!(alerts, 1);
}

#[test]
fn new_device_alert_names_the_device() {
    let mut d = NewDeviceDetector;
    let alerts = d.on_device(&dev("aa:bb:cc:00:11:22"), Change::NewDevice, 7);
    assert_eq!(alerts.len(), 1);
    let a = &alerts[0];
    assert_eq!(a.ts, 7);
    assert_eq!(a.mac.as_deref(), Some("aa:bb:cc:00:11:22"));
    assert_eq!(a.severity, Severity::Info);
    assert_eq!(a.kind, "new_device");
    assert_eq!(a.message, "New device joined: Acme (Acme)");
}

#[test]
fn port_scan_alert_fires_on_the_twentieth_port() {
    let mut d = PortScanDetector::default();
    for port in 0..19u16 {
        let (k, s) = flow(0x0a000001, port, 100);
        assert!(d.on_flow(&k, &s, 0).is_empty());
    }
    let (k, s) = flow(0x0a000001, 19, 100);
    let alerts = d.on_flow(&k, &s, 0);
    assert_eq!(alerts.len(), 1);
    assert_eq!(alerts[0].severity, Severity::Warning);
    assert_eq!(alerts[0].kind, "port_scan");
    assert_eq!(alerts[0].mac, None);
    assert_eq!(alerts[0].message, "Possible port scan from 10.0.0.1: 20 distinct ports in 10s");
}

#[test]
fn port_scan_same_port_repeated_is_not_a_scan() {
    let mut d = PortScanDetector::default();
    let mut alerts = 0;
    for _ in 0..50 {
        let (k, s) = flow(0x0a000001, 443, 100);
        alerts += d.on_flow(&k, &s, 0).len();
    }
    assert_eq!(alerts, 0);
}

#[test]
fn port_scan_window_is_per_source() {
    let mut d = PortScanDetector::default();
    let mut alerts = 0;
    for port in 0..25u16 {
        let (k, s) = flow(0x0a000001, port, 100);
        alerts += d.on_flow(&k, &s, 0).len();
        let (k, s) = flow(0x0a000002, port, 100);
        alerts += d.on_flow(&k, &s, 0).len();
    }
    assert_eq!(alerts, 2);
}

#[test]
fn engine_counts_alerts_from_every_detector() {
    let mut e = Engine::new().with(Box::new(NewDeviceDetector)).with(Box::new(NewDeviceDetector));
    let alerts = e.on_device(&dev("aa:bb:cc:00:11:22"), Change::NewDevice, 1);
    assert_eq!(alerts.len(), 2);
    assert!(e.on_device(&dev("aa:bb:cc:00:11:22"), Change::Updated, 2).is_empty());
}

struct Silent;
impl Detector for Silent {
    fn on_device(&mut self, _device: &Device, _change: Change, _now: i64) -> Vec<Alert> {
        Vec::new()
    }

    fn on_flow(&mut self, _key: &FlowKey, _stats: &FlowStats, _now: i64) -> Vec<Alert> {
        Vec::new()
    }
}

#[test]
fn default_stack_runs_heuristics() {
    let mut e = Engine::default_stack(Box::new(Silent));
    assert_eq!(e.on_device(&dev("aa:bb:cc:00:11:22"), Change::NewDevice, 1).len(), 1);
    let mut alerts = 0;
    for port in 0..25u16 {
        let (k, s) = flow(0x0a000009, port, 100);
        alerts += e.on_flow(&k, &s, 0).len();
    }
    assert_eq!(alerts, 1);
}

#[test]
fn default_stack_new_device_alert() {
    let mut e = Engine::default_stack(Box::new(Silent));
    let alerts = e.on_device(&dev("aa:bb:cc:00:11:22"), Change::NewDevice, 1);
    assert_eq!(
        alerts,
        vec![Alert::new(
            1,
            Some("aa:bb:cc:00:11:22".into()),
            Severity::Info,
            "new_device".into(),
            "New device joined: Acme (Acme)".into(),
        )]
    );
    assert!(e.on_device(&dev("aa:bb:cc:00:11:22"), Change::Updated, 2).is_empty());
}

#[test]
fn engine_joins_detector_alerts_in_order() {
    let mut e = Engine::new()
        .with(Box::new(PortScanDetector::default()))
        .with(Box::new(NewDeviceDetector))
        .with(Box::new(NewDeviceDetector));
    let alerts = e.on_device(&dev("aa:bb:cc:00:11:22"), Change::NewDevice, 3);
    assert_eq!(alerts.len(), 2);
    assert!(alerts.iter().all(|a| a.kind == "new_device" && a.ts == 3));
    assert!(Engine::new().on_flow(&flow(1, 2, 3).0, &flow(1, 2, 3).1, 0).is_empty());
}

