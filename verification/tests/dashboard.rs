use lanscope::alert::{Alert, Severity};
use lanscope::registry::Device;
use lanscope::tui::{key_action, Dashboard, Key, KeyAction, MAX_ALERTS};

fn device(mac: &str, last_seen: i64) -> Device {
    Device {
        mac: mac.into(),
        vendor: None,
        hostname: None,
        ips: vec![],
        services: vec![],
        dhcp_fingerprint: None,
        dhcp_vendor_class: None,
        device_type: None,
        first_seen: 0,
        last_seen,
        packets: 0,
        bytes: 0,
    }
}

#[test]
fn dashboard_lists_most_recent_first() {
    let mut dash = Dashboard::new("portable".into(), "host".into());
    dash.set_devices(vec![device("a", 1), device("b", 3), device("c", 2)]);
    let macs: Vec<&str> = dash.devices.iter().map(|d| d.mac.as_str()).collect();
    assert_eq!(macs, vec!["b", "c", "a"]);
    assert_eq!(dash.backend, "portable");
    assert_eq!(dash.mode, "host");
}

#[test]
fn alert_feed_is_newest_first_and_bounded() {
    let mut dash = Dashboard::new("portable".into(), "host".into());
    for i in 0..(MAX_ALERTS as i64 + 5) {
        dash.push_alert(Alert::new(i, None, Severity::Info, "k".into(), format!("{i}")));
    }
    assert_eq!(dash.alerts.len(), MAX_ALERTS);
    assert_eq!(dash.alerts[0].ts, MAX_ALERTS as i64 + 4);
    assert_eq!(dash.alerts[MAX_ALERTS - 1].ts, 5);
}

#[test]
fn device_row_cells_fall_back_to_dashes() {
    let bare = device("aa:bb:cc:00:11:22", 5);
    assert_eq!(
        lanscope::report::device_cells(&bare),
        vec!["aa:bb:cc:00:11:22", "—", "—", "—"]
    );
    let mut d = device("aa:bb:cc:00:11:22", 5);
    d.vendor = Some("Acme".into());
    d.device_type = Some("Sonos Speaker".into());
    d.ips = vec!["10.0.0.2".into(), "10.0.0.9".into()];
    assert_eq!(
        lanscope::report::device_cells(&d),
        vec!["aa:bb:cc:00:11:22", "Sonos Speaker", "Acme", "10.0.0.9"]
    );
    d.hostname = Some("kitchen".into());
    assert_eq!(lanscope::report::device_cells(&d)[2], "kitchen");
}

#[test]
fn detail_pane_rows_and_services() {
    let mut d = device("aa:bb:cc:00:11:22", 0);
    d.ips = vec!["10.0.0.2".into(), "10.0.0.9".into()];
    d.packets = 3;
    d.bytes = 180;
    d.services = (0..8).map(|i| format!("_s{i}._tcp.local")).collect();
    let pairs = lanscope::report::detail_pairs(&d);
    let keys: Vec<&str> = pairs.iter().map(|(k, _)| k.as_str()).collect();
    assert_eq!(
        keys,
        vec!["MAC", "Type", "Vendor", "Hostname", "IPs", "DHCP fp", "Traffic", "First seen", "Last seen"]
    );
    assert_eq!(pairs[1].1, "—");
    assert_eq!(pairs[4].1, "10.0.0.2, 10.0.0.9");
    assert_eq!(pairs[6].1, "3 pkts / 180 bytes");
    assert_eq!(pairs[7].1, "1970-01-01 00:00:00");
    let services = lanscope::report::detail_services(&d);
    assert_eq!(services.len(), 7);
    assert_eq!(services[0], "Services:");
    assert_eq!(services[1], "  • _s0._tcp.local");
    assert_eq!(services[6], "  • _s5._tcp.local");
    assert!(lanscope::report::detail_services(&device("x", 0)).is_empty());
}

#[test]
fn dashboard_keys_and_warning_count() {
    assert!(matches!(key_action(Key::Char('q')), KeyAction::Quit));
    assert!(matches!(key_action(Key::Esc), KeyAction::Quit));
    assert!(matches!(key_action(Key::Char('j')), KeyAction::Move(1)));
    assert!(matches!(key_action(Key::Down), KeyAction::Move(1)));
    assert!(matches!(key_action(Key::Char('k')), KeyAction::Move(-1)));
    assert!(matches!(key_action(Key::Up), KeyAction::Move(-1)));
    assert!(matches!(key_action(Key::Char('x')), KeyAction::Ignore));
    assert!(matches!(key_action(Key::Other), KeyAction::Ignore));

    let mut dash = Dashboard::new("portable".into(), "host".into());
    dash.push_alert(Alert::new(1, None, Severity::Info, "a".into(), "m".into()));
    dash.push_alert(Alert::new(2, None, Severity::Warning, "b".into(), "m".into()));
    dash.push_alert(Alert::new(3, None, Severity::Critical, "c".into(), "m".into()));
    assert_eq!(dash.warnings(), 2);
}
