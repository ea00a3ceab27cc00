use lanscope::features::{FEATURE_COUNT, FEATURE_NAMES};
use lanscope::fingerprint::oui::lookup;
use lanscope::fingerprint::{Category, Fingerprinter, RuleFingerprinter};
use lanscope::registry::Device;

#[test]
fn names_match_count() {
    assert_eq!(FEATURE_NAMES.len(), FEATURE_COUNT);
}

#[test]
fn known_vendor() {
    assert_eq!(
        lookup(&[0xb8, 0x27, 0xeb, 1, 2, 3]),
        Some("Raspberry Pi Foundation")
    );
    assert_eq!(
        lookup(&[0x44, 0x65, 0x0d, 1, 2, 3]),
        Some("Amazon Technologies")
    );
}

#[test]
fn unknown_vendor() {
    assert_eq!(
        lookup(&[0x12, 0x34, 0x56, 1, 2, 3]),
        Some("(locally administered)")
    );
    assert_eq!(lookup(&[0x10, 0x34, 0x56, 1, 2, 3]), None);
}

fn device_with(vendor: Option<&str>, services: &[&str], vendor_class: Option<&str>) -> Device {
    Device {
        mac: "00:00:00:00:00:00".into(),
        vendor: vendor.map(str::to_string),
        hostname: None,
        ips: vec![],
        services: services.iter().map(|s| s.to_string()).collect(),
        dhcp_fingerprint: None,
        dhcp_vendor_class: vendor_class.map(str::to_string),
        device_type: None,
        first_seen: 0,
        last_seen: 0,
        packets: 0,
        bytes: 0,
    }
}

#[test]
fn service_beats_vendor() {
    // Echo OUI (weak) + AmazonEcho SSDP banner (strong) → strong wins.
    let d = device_with(
        Some("Amazon Technologies"),
        &["server=Linux UPnP/1.0 AmazonEcho/1.0"],
        None,
    );
    let c = RuleFingerprinter::new().classify(&d).unwrap();
    assert_eq!(c.device_type, "Amazon Echo");
    assert_eq!(c.category, Category::SmartSpeaker);
    assert!(f32::from(c.confidence_pct) / 100.0 > 0.9);
}

#[test]
fn raspberry_pi_via_mdns() {
    let d = device_with(
        Some("Raspberry Pi Foundation"),
        &["_raspberrypi._tcp.local"],
        None,
    );
    let c = RuleFingerprinter::new().classify(&d).unwrap();
    assert_eq!(c.category, Category::SingleBoardComputer);
}

#[test]
fn android_via_dhcp_vendor_class() {
    let d = device_with(None, &[], Some("android-dhcp-13"));
    let c = RuleFingerprinter::new().classify(&d).unwrap();
    assert_eq!(c.category, Category::Phone);
}

#[test]
fn unknown_device_unclassified() {
    let d = device_with(None, &[], None);
    assert!(RuleFingerprinter::new().classify(&d).is_none());
}

#[test]
fn zero_mac_has_no_vendor() {
    assert_eq!(lookup(&[0, 0, 0, 0, 0, 0]), None);
}

#[test]
fn vendor_alone_gives_a_weak_guess() {
    let d = device_with(Some("Raspberry Pi Foundation"), &[], None);
    let c = RuleFingerprinter::new().classify(&d).unwrap();
    assert_eq!(c.category, Category::SingleBoardComputer);
    assert!(c.confidence_pct < 90);
}

#[test]
fn category_names() {
    assert_eq!(Category::SmartSpeaker.as_str(), "smart-speaker");
    assert_eq!(Category::Phone.as_str(), "phone");
}

#[test]
fn multicast_mac_is_marked() {
    assert_eq!(lookup(&[0x01, 0x00, 0x5e, 0, 0, 1]), Some("(multicast)"));
    assert_eq!(lookup(&[0x33, 0x33, 0, 0, 0, 1]), Some("(locally administered)"));
}
