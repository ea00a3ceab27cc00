use lanscope::alert::{Alert, Severity};
use lanscope::registry::Device;
use lanscope::report::{
    alert_row, csv, csv_row, detail_lines, find_device, sort_by_recency, table_header, table_row,
    truncate,
};

fn device(mac: &str, last_seen: i64) -> Device {
    Device {
        mac: mac.into(),
        vendor: Some("Raspberry Pi Foundation".into()),
        hostname: Some("livingroom-pi".into()),
        ips: vec!["10.0.0.1".into(), "10.0.0.66".into()],
        services: vec!["_raspberrypi._tcp.local".into()],
        dhcp_fingerprint: Some("1,3,6".into()),
        dhcp_vendor_class: None,
        device_type: None,
        first_seen: 0,
        last_seen,
        packets: 42,
        bytes: 5120,
    }
}

#[test]
fn truncate_keeps_short_text() {
    assert_eq!(truncate("abc", 3), "abc");
    assert_eq!(truncate("", 0), "");
}

#[test]
fn truncate_marks_the_cut() {
    assert_eq!(truncate("abcdef", 4), "abc…");
    assert_eq!(truncate("abcdef", 1), "…");
    assert_eq!(truncate("abcdef", 0), "…");
    assert_eq!(truncate("héllo wörld", 6), "héllo…");
}

#[test]
fn csv_quotes_only_when_needed() {
    assert_eq!(csv(None), "");
    assert_eq!(csv(Some("plain")), "plain");
    assert_eq!(csv(Some("a,b")), "\"a,b\"");
    assert_eq!(csv(Some("say \"hi\"")), "\"say \"\"hi\"\"\"");
}

#[test]
fn csv_export_line() {
    let mut d = device("b8:27:eb:01:02:03", 1_700_000_000);
    d.vendor = Some("Acme, Inc".into());
    d.hostname = None;
    assert_eq!(
        csv_row(&d),
        "b8:27:eb:01:02:03,\"Acme, Inc\",,10.0.0.66,1,42,5120,0,1700000000"
    );
    d.ips.clear();
    d.first_seen = -5;
    assert_eq!(csv_row(&d), "b8:27:eb:01:02:03,\"Acme, Inc\",,,1,42,5120,-5,1700000000");
}

#[test]
fn table_line_columns() {
    let d = device("b8:27:eb:01:02:03", 0);
    let expected = format!(
        "{:<18} {:<26} {:<18} {:<16} {:>5} {:<19}",
        "b8:27:eb:01:02:03", "Raspberry Pi Foundation", "livingroom-pi", "10.0.0.66", 1, "1970-01-01 00:00:00"
    );
    assert_eq!(table_row(&d), expected);
    let mut bare = device("b8:27:eb:01:02:03", 0);
    bare.vendor = None;
    bare.hostname = Some("a-very-long-hostname-indeed".into());
    bare.ips.clear();
    let expected = format!(
        "{:<18} {:<26} {:<18} {:<16} {:>5} {:<19}",
        "b8:27:eb:01:02:03", "-", "a-very-long-hostn…", "-", 1, "1970-01-01 00:00:00"
    );
    assert_eq!(table_row(&bare), expected);
}

#[test]
fn alert_listing_line() {
    let a = Alert::new(0, None, Severity::Warning, "port_scan".into(), "scan".into());
    assert_eq!(alert_row(&a), "1970-01-01 00:00:00 [WARNING] - port_scan — scan");
    let b = Alert::new(60, Some("aa:bb:cc:dd:ee:ff".into()), Severity::Info, "new_device".into(), "hi".into());
    assert_eq!(alert_row(&b), "1970-01-01 00:01:00 [INFO] aa:bb:cc:dd:ee:ff new_device — hi");
}

#[test]
fn device_lookup_ignores_case() {
    let devices = vec![device("aa:bb:cc:00:00:01", 1), device("b8:27:eb:01:02:03", 2)];
    let d = find_device(devices.clone(), "B8:27:EB:01:02:03").unwrap();
    assert_eq!(d.last_seen, 2);
    assert!(find_device(devices, "00:00:00:00:00:00").is_none());
}

#[test]
fn device_detail_text() {
    let d = device("b8:27:eb:01:02:03", 60);
    let lines = detail_lines(&d);
    assert_eq!(
        lines,
        vec![
            "Device b8:27:eb:01:02:03",
            "  label:        livingroom-pi",
            "  vendor:       Raspberry Pi Foundation",
            "  hostname:     livingroom-pi",
            "  device type:  (not yet inferred)",
            "  ips:          10.0.0.1, 10.0.0.66",
            "  dhcp fp:      1,3,6",
            "  vendor class: -",
            "  traffic:      42 pkts / 5120 bytes",
            "  first seen:   1970-01-01 00:00:00",
            "  last seen:    1970-01-01 00:01:00",
            "  services:",
            "    - _raspberrypi._tcp.local",
        ]
    );
    let mut bare = device("b8:27:eb:01:02:03", 60);
    bare.ips.clear();
    bare.services.clear();
    let lines = detail_lines(&bare);
    assert_eq!(lines[5], "  ips:          -");
    assert_eq!(lines[11], "  services:     -");
    assert_eq!(lines.len(), 12);
}

#[test]
fn recency_order_is_stable() {
    let devices = vec![
        device("00:00:00:00:00:01", 5),
        device("00:00:00:00:00:02", 9),
        device("00:00:00:00:00:03", 5),
        device("00:00:00:00:00:04", 7),
        device("00:00:00:00:00:05", 9),
    ];
    let sorted = sort_by_recency(devices);
    let macs: Vec<&str> = sorted.iter().map(|d| d.mac.as_str()).collect();
    assert_eq!(
        macs,
        vec![
            "00:00:00:00:00:02",
            "00:00:00:00:00:05",
            "00:00:00:00:00:04",
            "00:00:00:00:00:01",
            "00:00:00:00:00:03",
        ]
    );
}

#[test]
fn table_header_columns() {
    let expected = format!(
        "{:<18} {:<26} {:<18} {:<16} {:>5} {:<19}",
        "MAC", "VENDOR", "HOSTNAME", "IP", "SVCS", "LAST SEEN"
    );
    assert_eq!(table_header(), expected);
}
