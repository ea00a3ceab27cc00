use lanscope::common::{FlowKey, FlowStats, Ipv4Be, MacAddr};
use lanscope::decode::{Observation, Signal};
use lanscope::registry::{Change, DeviceRegistry};

fn obs(mac: MacAddr, ip: Option<Ipv4Be>, signal: Signal) -> Observation {
    Observation { mac, ip, signal }
}

#[test]
fn first_sighting_is_new_then_updates() {
    let mut reg = DeviceRegistry::new();
    let mac = [0xb8, 0x27, 0xeb, 1, 2, 3];
    let (_, c1) = reg.observe(&obs(mac, Some(0x0a00_0042), Signal::Seen), 100);
    assert_eq!(c1, Change::NewDevice);
    let (_, c2) = reg.observe(&obs(mac, None, Signal::Hostname("pi".into())), 200);
    assert_eq!(c2, Change::Updated);

    let d = reg.get(&mac).unwrap();
    assert_eq!(d.vendor.as_deref(), Some("Raspberry Pi Foundation"));
    assert_eq!(d.hostname.as_deref(), Some("pi"));
    assert_eq!(d.ips, vec!["10.0.0.66".to_string()]);
    assert_eq!(d.first_seen, 100);
    assert_eq!(d.last_seen, 200);
}

#[test]
fn services_dedup() {
    let mut reg = DeviceRegistry::new();
    let mac = [0x44, 0x65, 0x0d, 1, 2, 3];
    reg.observe(&obs(mac, None, Signal::Service("a".into())), 1);
    reg.observe(&obs(mac, None, Signal::Service("a".into())), 2);
    reg.observe(&obs(mac, None, Signal::Service("b".into())), 3);
    assert_eq!(reg.get(&mac).unwrap().services, vec!["a", "b"]);
}

#[test]
fn flow_attribution_by_ip() {
    let mut reg = DeviceRegistry::new();
    let mac = [0xb8, 0x27, 0xeb, 1, 2, 3];
    reg.observe(&obs(mac, Some(0x0a00_0042), Signal::Seen), 1);
    let key = FlowKey::new(0x0a00_0042, 0x0808_0808, 1234, 443, 6);
    let stats = FlowStats {
        packets: 10,
        bytes: 999,
        ..Default::default()
    };
    reg.apply_flow(&key, &stats, 5);
    let d = reg.get(&mac).unwrap();
    assert_eq!(d.packets, 10);
    assert_eq!(d.bytes, 999);
}

#[test]
fn readdressed_ip_moves_to_the_end() {
    let mut reg = DeviceRegistry::new();
    let mac = [0xb8, 0x27, 0xeb, 1, 2, 3];
    reg.observe(&obs(mac, Some(0x0a00_0001), Signal::Seen), 1);
    reg.observe(&obs(mac, Some(0x0a00_0002), Signal::Seen), 2);
    reg.observe(&obs(mac, Some(0x0a00_0001), Signal::Seen), 3);
    assert_eq!(reg.get(&mac).unwrap().ips, vec!["10.0.0.2", "10.0.0.1"]);
}

#[test]
fn services_are_capped() {
    let mut reg = DeviceRegistry::new();
    let mac = [0x44, 0x65, 0x0d, 1, 2, 3];
    for i in 0..40 {
        reg.observe(&obs(mac, None, Signal::Service(format!("svc-{i}"))), i);
    }
    let d = reg.get(&mac).unwrap();
    assert_eq!(d.services.len(), 32);
    assert_eq!(d.services[31], "svc-31");
}

#[test]
fn flow_to_unknown_address_changes_nothing() {
    let mut reg = DeviceRegistry::new();
    let mac = [0xb8, 0x27, 0xeb, 1, 2, 3];
    reg.observe(&obs(mac, Some(0x0a00_0042), Signal::Seen), 1);
    let key = FlowKey::new(0x0a00_0099, 0x0808_0808, 1234, 443, 6);
    let stats = FlowStats { packets: 10, bytes: 999, ..Default::default() };
    reg.apply_flow(&key, &stats, 5);
    let d = reg.get(&mac).unwrap();
    assert_eq!(d.packets, 0);
    assert_eq!(d.last_seen, 1);
}

#[test]
fn flow_counters_saturate() {
    let mut reg = DeviceRegistry::new();
    let mac = [0xb8, 0x27, 0xeb, 1, 2, 3];
    reg.observe(&obs(mac, Some(0x0a00_0042), Signal::Seen), 1);
    let key = FlowKey::new(0x0a00_0042, 0x0808_0808, 1234, 443, 6);
    let stats = FlowStats { packets: u64::MAX, bytes: u64::MAX, ..Default::default() };
    reg.apply_flow(&key, &stats, 5);
    reg.apply_flow(&key, &stats, 6);
    let d = reg.get(&mac).unwrap();
    assert_eq!(d.packets, u64::MAX);
    assert_eq!(d.bytes, u64::MAX);
    assert_eq!(d.last_seen, 6);
}

#[test]
fn registry_listing_and_type() {
    let mut reg = DeviceRegistry::new();
    assert!(reg.is_empty());
    let a = [0xb8, 0x27, 0xeb, 1, 2, 3];
    let b = [0x44, 0x65, 0x0d, 1, 2, 3];
    reg.observe(&obs(a, None, Signal::Seen), 1);
    reg.observe(&obs(b, None, Signal::Seen), 2);
    assert_eq!(reg.len(), 2);
    reg.set_device_type(&a, Some("Raspberry Pi".into()));
    assert_eq!(reg.get(&a).unwrap().device_type.as_deref(), Some("Raspberry Pi"));
    let mut macs: Vec<MacAddr> = reg.iter().into_iter().map(|(m, _)| m).collect();
    macs.sort();
    assert_eq!(macs, vec![b, a]);
    assert_eq!(reg.get(&a).unwrap().label(), "Raspberry Pi Foundation");
    assert_eq!(reg.get(&a).unwrap().mac, "b8:27:eb:01:02:03");
}

#[test]
fn loaded_record_is_returned() {
    let mut reg = DeviceRegistry::new();
    let mac = [0xb8, 0x27, 0xeb, 1, 2, 3];
    reg.observe(&obs(mac, None, Signal::Hostname("pi".into())), 1);
    let mut d = reg.get(&mac).unwrap().clone();
    d.packets = 77;
    let mut other = DeviceRegistry::new();
    other.load(mac, d.clone());
    assert_eq!(other.get(&mac), Some(&d));
    assert_eq!(other.get(&mac).unwrap().label(), "pi");
}

#[test]
fn registry_count_grows_only_for_new_devices() {
    let mut reg = DeviceRegistry::new();
    let a = [0xb8, 0x27, 0xeb, 1, 2, 3];
    reg.observe(&obs(a, None, Signal::Seen), 1);
    reg.observe(&obs(a, None, Signal::Seen), 2);
    assert_eq!(reg.len(), 1);
    reg.observe(&obs([0x44, 0x65, 0x0d, 1, 2, 3], None, Signal::Seen), 3);
    assert_eq!(reg.len(), 2);
}
