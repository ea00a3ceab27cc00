use lanscope::config::default_db_path;
use lanscope::alert::Severity;
use lanscope::common::{Event, EventKind, FlowKey, Protocol, EVENT_PAYLOAD_LEN};
use lanscope::config::{CaptureMode, Config};
use lanscope::report::ExportFormat;

#[test]
fn capture_mode_names_and_aliases() {
    assert_eq!("GW".parse::<CaptureMode>(), Ok(CaptureMode::Gateway));
    assert_eq!("mirror".parse::<CaptureMode>(), Ok(CaptureMode::Span));
    assert_eq!("Local".parse::<CaptureMode>(), Ok(CaptureMode::Host));
    assert_eq!(
        "wifi".parse::<CaptureMode>(),
        Err("unknown capture mode `wifi` (expected gateway|span|host)".to_string())
    );
    for m in [CaptureMode::Gateway, CaptureMode::Span, CaptureMode::Host] {
        assert_eq!(m.as_str().parse::<CaptureMode>(), Ok(m));
    }
    assert!(CaptureMode::Gateway.sees_whole_lan());
    assert!(CaptureMode::Span.sees_whole_lan());
    assert!(!CaptureMode::Host.sees_whole_lan());
    assert_eq!(CaptureMode::default(), CaptureMode::Host);
}

#[test]
fn config_new_defaults() {
    let c = Config::new(CaptureMode::Span, "eth1".into(), "/data/lanscope.db".into());
    assert_eq!(c.mode, CaptureMode::Span);
    assert_eq!(c.interface, "eth1");
    assert_eq!(c.db_path, "/data/lanscope.db");
    assert_eq!(c.flow_drain_interval_secs, 2);
    assert!(c.model_path.is_none());
}

#[test]
fn severity_names_roundtrip() {
    for s in [Severity::Info, Severity::Warning, Severity::Critical] {
        assert_eq!(s.as_str().parse::<Severity>(), Ok(s));
    }
    assert!("loud".parse::<Severity>().is_err());
}

#[test]
fn event_kind_codes() {
    for k in [EventKind::Arp, EventKind::NewHost, EventKind::Dhcp, EventKind::Mdns, EventKind::Ssdp, EventKind::TlsHello] {
        assert_eq!(EventKind::from_u8(k.as_u8()), k);
    }
    assert_eq!(EventKind::from_u8(99), EventKind::Unknown);
    assert_eq!(Protocol::from_u8(6), Protocol::Tcp);
    assert_eq!(Protocol::from_u8(17), Protocol::Udp);
    assert_eq!(Protocol::from_u8(1), Protocol::Icmp);
    assert_eq!(Protocol::from_u8(2), Protocol::Other);
}

#[test]
fn event_payload_is_bounded() {
    let mut ev = Event { kind: 3, payload_len: 3, ..Event::default() };
    ev.payload[0] = 7;
    assert_eq!(ev.kind(), EventKind::Mdns);
    assert_eq!(ev.payload(), &[7, 0, 0]);
    ev.payload_len = 60000;
    assert_eq!(ev.payload().len(), EVENT_PAYLOAD_LEN);
}

#[test]
fn flow_key_padding_is_zero() {
    let k = FlowKey::new(1, 2, 3, 4, 6);
    assert_eq!(k._pad, [0, 0, 0]);
    assert_eq!((k.src_ip, k.dst_ip, k.src_port, k.dst_port, k.protocol), (1, 2, 3, 4, 6));
}

#[test]
fn export_formats_differ() {
    assert_ne!(ExportFormat::Json, ExportFormat::Csv);
}

#[test]
fn protocol_numbers_round_trip() {
    assert_eq!(Protocol::Icmp.code(), 1);
    assert_eq!(Protocol::Tcp.code(), 6);
    assert_eq!(Protocol::Udp.code(), 17);
    assert_eq!(Protocol::Other.code(), 255);
    for p in [Protocol::Icmp, Protocol::Tcp, Protocol::Udp, Protocol::Other] {
        assert_eq!(Protocol::from_u8(p.code()), p);
    }
}

#[test]
fn default_database_location() {
    assert_eq!(
        default_db_path(Some("/data".into()), Some("/home/u".into())),
        "/data/lanscope/lanscope.db"
    );
    assert_eq!(default_db_path(Some("/data/".into()), None), "/data/lanscope/lanscope.db");
    assert_eq!(
        default_db_path(None, Some("/home/u".into())),
        "/home/u/.local/share/lanscope/lanscope.db"
    );
    assert_eq!(default_db_path(None, None), "./lanscope/lanscope.db");
    assert_eq!(default_db_path(Some(String::new()), None), "lanscope/lanscope.db");
}
