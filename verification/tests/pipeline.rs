use lanscope::anomaly::heuristics::{NewDeviceDetector, PortScanDetector};
use lanscope::anomaly::Engine;
use lanscope::capture::{sample_events, sample_flows, CaptureEvent};
use lanscope::common::{Event, FlowKey, FlowStats};
use lanscope::config::CaptureMode;
use lanscope::fingerprint::RuleFingerprinter;
use lanscope::pipeline::{
    copy_device, handle_discovery, handle_event, handle_flows, resolve_config, seed_registry,
    Effect,
};
use lanscope::registry::DeviceRegistry;

fn engine() -> Engine {
    Engine::new().with(Box::new(NewDeviceDetector)).with(Box::new(PortScanDetector::default()))
}

#[test]
fn sample_replay_builds_both_devices() {
    let mut reg = DeviceRegistry::new();
    let fp = RuleFingerprinter::new();
    let mut anomaly = engine();
    let mut total = 0;
    let mut persisted = 0;
    let mut alerts = 0;
    for ev in sample_events() {
        let (n, effects) = handle_discovery(&mut reg, &ev, 100, &fp, &mut anomaly);
        total += n;
        for e in effects {
            match e {
                Effect::PersistDevice(_) => persisted += 1,
                Effect::EmitAlert(_) => alerts += 1,
            }
        }
    }
    assert_eq!(reg.len(), 2);
    assert_eq!(persisted, 2);
    assert_eq!(alerts, 2);
    assert!(total >= 5);
    let pi = reg.get(&[0xb8, 0x27, 0xeb, 0x01, 0x02, 0x03]).unwrap();
    assert_eq!(pi.hostname.as_deref(), Some("livingroom-pi"));
    assert_eq!(pi.device_type.as_deref(), Some("Raspberry Pi"));
    let echo = reg.get(&[0x44, 0x65, 0x0d, 0xaa, 0xbb, 0xcc]).unwrap();
    assert_eq!(echo.device_type.as_deref(), Some("Amazon Echo"));
}

#[test]
fn zero_mac_is_skipped() {
    let mut reg = DeviceRegistry::new();
    let fp = RuleFingerprinter::new();
    let mut anomaly = engine();
    let ev = Event { kind: 0, src_mac: [0; 6], ..Event::default() };
    let (n, effects) = handle_discovery(&mut reg, &ev, 1, &fp, &mut anomaly);
    assert_eq!(n, 0);
    assert!(effects.is_empty());
    assert!(reg.is_empty());
}

#[test]
fn persisted_record_is_the_new_device() {
    let mut reg = DeviceRegistry::new();
    let fp = RuleFingerprinter::new();
    let mut anomaly = engine();
    let ev = Event { kind: 1, src_mac: [0xb8, 0x27, 0xeb, 9, 9, 9], src_ip: 0x0a00_0001, ..Event::default() };
    let (n, effects) = handle_discovery(&mut reg, &ev, 42, &fp, &mut anomaly);
    assert_eq!(n, 1);
    assert_eq!(effects.len(), 2);
    match &effects[0] {
        Effect::PersistDevice(d) => {
            assert_eq!(d.mac, "b8:27:eb:09:09:09");
            assert_eq!(d.first_seen, 42);
            assert_eq!(d.ips, vec!["10.0.0.1"]);
            assert_eq!(d.device_type.as_deref(), Some("Raspberry Pi"));
        }
        Effect::EmitAlert(_) => panic!("persist must come first"),
    }
    match &effects[1] {
        Effect::EmitAlert(a) => assert_eq!(a.kind, "new_device"),
        Effect::PersistDevice(_) => panic!("expected an alert"),
    }
    // Seen again: no persistence, no alert.
    let (_, again) = handle_discovery(&mut reg, &ev, 43, &fp, &mut anomaly);
    assert!(again.is_empty());
    assert_eq!(reg.get(&[0xb8, 0x27, 0xeb, 9, 9, 9]).unwrap().last_seen, 43);
}

#[test]
fn flow_snapshot_credits_traffic() {
    let mut reg = DeviceRegistry::new();
    let fp = RuleFingerprinter::new();
    let mut anomaly = engine();
    for ev in sample_events() {
        handle_discovery(&mut reg, &ev, 100, &fp, &mut anomaly);
    }
    let alerts = handle_flows(&mut reg, &sample_flows(), 200, &mut anomaly);
    assert!(alerts.is_empty());
    let pi = reg.get(&[0xb8, 0x27, 0xeb, 0x01, 0x02, 0x03]).unwrap();
    assert_eq!(pi.packets, 42);
    assert_eq!(pi.bytes, 5120);
    assert_eq!(pi.last_seen, 200);
}

#[test]
fn port_scan_surfaces_as_alert_effect() {
    let mut reg = DeviceRegistry::new();
    let fp = RuleFingerprinter::new();
    let mut anomaly = engine();
    let flows: Vec<(FlowKey, FlowStats)> = (0..25u16)
        .map(|p| (FlowKey::new(0x0a00_0007, 0x0a00_0001, 40000, p, 6), FlowStats::default()))
        .collect();
    let (_, n, effects) = handle_event(CaptureEvent::Flows(flows), &mut reg, &fp, &mut anomaly);
    assert_eq!(n, 0);
    assert_eq!(effects.len(), 1);
    assert!(matches!(&effects[0], Effect::EmitAlert(a) if a.kind == "port_scan"));
}

#[test]
fn discovery_event_through_dispatch() {
    let mut reg = DeviceRegistry::new();
    let fp = RuleFingerprinter::new();
    let mut anomaly = engine();
    let ev = sample_events().remove(2);
    let (_, n, effects) = handle_event(CaptureEvent::Discovery(Box::new(ev)), &mut reg, &fp, &mut anomaly);
    assert_eq!(n, 2);
    assert_eq!(effects.len(), 2);
    let pi = reg.get(&[0xb8, 0x27, 0xeb, 0x01, 0x02, 0x03]).unwrap();
    assert_eq!(pi.dhcp_fingerprint.as_deref(), Some("1,3,6,15,26,28,51,58"));
}

#[test]
fn seeding_skips_unparseable_macs() {
    let mut src = DeviceRegistry::new();
    let fp = RuleFingerprinter::new();
    let mut anomaly = engine();
    for ev in sample_events() {
        handle_discovery(&mut src, &ev, 100, &fp, &mut anomaly);
    }
    let mut records: Vec<_> = src.iter().into_iter().map(|(_, d)| copy_device(d)).collect();
    let mut bad = records[0].clone();
    bad.mac = "garbage".into();
    records.push(bad);
    let mut reg = DeviceRegistry::new();
    seed_registry(&mut reg, records);
    assert_eq!(reg.len(), 2);
    assert_eq!(
        reg.get(&[0x44, 0x65, 0x0d, 0xaa, 0xbb, 0xcc]),
        src.get(&[0x44, 0x65, 0x0d, 0xaa, 0xbb, 0xcc])
    );
}

#[test]
fn config_defaults() {
    let c = resolve_config(CaptureMode::Gateway, None, None, "/tmp/x.db".into(), None);
    assert_eq!(c.mode, CaptureMode::Gateway);
    assert_eq!(c.interface, "any");
    assert_eq!(c.db_path, "/tmp/x.db");
    assert_eq!(c.flow_drain_interval_secs, 2);
    assert_eq!(c.model_path, None);
    let c = resolve_config(
        CaptureMode::Host,
        Some("eth0".into()),
        Some("/var/db".into()),
        "/tmp/x.db".into(),
        Some("m.onnx".into()),
    );
    assert_eq!(c.interface, "eth0");
    assert_eq!(c.db_path, "/var/db");
    assert_eq!(c.model_path.as_deref(), Some("m.onnx"));
}

#[test]
fn sample_payload_lengths() {
    let evs = sample_events();
    assert_eq!(evs[1].payload_len, 58);
    assert_eq!(evs[2].payload_len, 40);
    assert_eq!(evs[4].payload_len, 101);
}

#[test]
fn new_device_alert_is_emitted_after_persisting() {
    let mut reg = DeviceRegistry::new();
    let fp = RuleFingerprinter::new();
    let mut anomaly = engine();
    let ev = sample_events().remove(3);
    let (n, effects) = handle_discovery(&mut reg, &ev, 7, &fp, &mut anomaly);
    assert_eq!(n, 1);
    assert_eq!(effects.len(), 2);
    assert!(matches!(&effects[0], Effect::PersistDevice(d) if d.mac == "44:65:0d:aa:bb:cc"));
    match &effects[1] {
        Effect::EmitAlert(a) => {
            assert_eq!(a.kind, "new_device");
            assert_eq!(a.ts, 7);
            assert_eq!(a.message, "New device joined: Amazon Technologies (Amazon Technologies)");
        }
        Effect::PersistDevice(_) => panic!("expected the new-device alert"),
    }
}
