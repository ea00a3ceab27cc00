use lanscope::common::{Event, EventKind};
use lanscope::decode::dhcp::{OPT_END, OPT_HOSTNAME, OPT_PARAM_REQUEST_LIST, OPT_VENDOR_CLASS};
use lanscope::decode::dns::{extract_names, read_name};
use lanscope::decode::{decode_event, dhcp, mdns, ssdp, Signal};

fn build_dhcp(hostname: &str, prl: &[u8], vendor: &str) -> Vec<u8> {
    let mut v = vec![0u8; 8]; // some BOOTP bytes before the cookie
    v.extend_from_slice(&[0x63, 0x82, 0x53, 0x63]);
    v.push(OPT_HOSTNAME);
    v.push(hostname.len() as u8);
    v.extend_from_slice(hostname.as_bytes());
    v.push(OPT_PARAM_REQUEST_LIST);
    v.push(prl.len() as u8);
    v.extend_from_slice(prl);
    v.push(OPT_VENDOR_CLASS);
    v.push(vendor.len() as u8);
    v.extend_from_slice(vendor.as_bytes());
    v.push(OPT_END);
    v
}

fn http_service() -> Vec<u8> {
    let mut v = Vec::new();
    for label in ["_http", "_tcp", "local"] {
        v.push(label.len() as u8);
        v.extend_from_slice(label.as_bytes());
    }
    v.push(0);
    v
}

fn name_bytes(labels: &[&str]) -> Vec<u8> {
    let mut v = Vec::new();
    for l in labels {
        v.push(l.len() as u8);
        v.extend_from_slice(l.as_bytes());
    }
    v.push(0);
    v
}

#[test]
fn extracts_all_three_fields() {
    let pkt = build_dhcp("nest-cam", &[1, 3, 6, 15, 119, 252], "android-dhcp-13");
    let sigs = dhcp::decode(&pkt);
    assert!(sigs.contains(&Signal::Hostname("nest-cam".into())));
    assert!(sigs.contains(&Signal::DhcpFingerprint("1,3,6,15,119,252".into())));
    assert!(sigs.contains(&Signal::DhcpVendorClass("android-dhcp-13".into())));
}

#[test]
fn no_cookie_yields_nothing() {
    assert!(dhcp::decode(&[1, 2, 3, 4]).is_empty());
}

#[test]
fn reads_service_name() {
    let buf = http_service();
    let (name, next) = read_name(&buf, 0).unwrap();
    assert_eq!(name, "_http._tcp.local");
    assert_eq!(next, buf.len());
}

#[test]
fn extracts_from_mdns_with_header() {
    // 12-byte DNS header, then the question name.
    let mut pkt = vec![0u8; 12];
    pkt.extend_from_slice(&http_service());
    let names = extract_names(&pkt);
    assert!(
        names.contains(&"_http._tcp.local".to_string()),
        "got {names:?}"
    );
}

#[test]
fn rejects_binary_noise() {
    let noise = [5u8, 0xff, 0x00, 0xfe, 0x01, 0x02];
    assert!(extract_names(&noise).is_empty());
}

#[test]
fn detects_service_and_host() {
    let mut pkt = vec![0u8; 12];
    pkt.extend_from_slice(&name_bytes(&["_raspberrypi", "_tcp", "local"]));
    pkt.extend_from_slice(&name_bytes(&["livingroom-pi", "local"]));
    let sigs = mdns::decode(&pkt);
    assert!(sigs.contains(&Signal::Service("_raspberrypi._tcp.local".into())));
    assert!(sigs.contains(&Signal::Hostname("livingroom-pi".into())));
}

#[test]
fn parses_server_and_st() {
    let payload = b"NOTIFY * HTTP/1.1\r\nSERVER: Linux/3.14 UPnP/1.0 AmazonEcho/1.0\r\nST: urn:schemas-upnp-org:device:MediaRenderer:1\r\n\r\n";
    let sigs = ssdp::decode(payload);
    assert!(sigs.contains(&Signal::Service(
        "server=Linux/3.14 UPnP/1.0 AmazonEcho/1.0".into()
    )));
    assert!(sigs.contains(&Signal::Service(
        "urn:schemas-upnp-org:device:MediaRenderer:1".into()
    )));
}

#[test]
fn dhcp_signals_come_in_option_order() {
    let pkt = build_dhcp("nest-cam", &[1, 3, 6], "android-dhcp-13");
    assert_eq!(
        dhcp::decode(&pkt),
        vec![
            Signal::Hostname("nest-cam".into()),
            Signal::DhcpFingerprint("1,3,6".into()),
            Signal::DhcpVendorClass("android-dhcp-13".into()),
        ]
    );
}

#[test]
fn dhcp_truncated_option_stops_the_walk() {
    let mut pkt = vec![0u8; 236];
    pkt.extend_from_slice(&[0x63, 0x82, 0x53, 0x63]);
    pkt.push(OPT_HOSTNAME);
    pkt.push(20);
    pkt.extend_from_slice(b"short");
    assert!(dhcp::decode(&pkt).is_empty());
}

#[test]
fn dns_pointer_is_not_followed() {
    let buf = [0xc0u8, 0x0c];
    assert!(read_name(&buf, 0).is_none());
}

#[test]
fn dns_name_offset_past_end_is_none() {
    let buf = http_service();
    assert!(read_name(&buf, buf.len()).is_none());
}

#[test]
fn ssdp_ignores_other_headers() {
    let sigs = ssdp::decode(b"M-SEARCH * HTTP/1.1\r\nHOST: 239.255.255.250:1900\r\nMAN: \"ssdp:discover\"\r\n\r\n");
    assert!(sigs.is_empty());
}

#[test]
fn arp_event_is_a_plain_sighting() {
    let ev = Event {
        kind: EventKind::Arp.as_u8(),
        src_mac: [0xb8, 0x27, 0xeb, 1, 2, 3],
        src_ip: 0x0a00_0042,
        ..Event::default()
    };
    let obs = decode_event(&ev);
    assert_eq!(obs.len(), 1);
    assert_eq!(obs[0].mac, [0xb8, 0x27, 0xeb, 1, 2, 3]);
    assert_eq!(obs[0].ip, Some(0x0a00_0042));
    assert_eq!(obs[0].signal, Signal::Seen);
}

#[test]
fn unknown_event_kind_is_still_a_sighting() {
    let ev = Event {
        kind: 200,
        src_mac: [1, 2, 3, 4, 5, 6],
        ..Event::default()
    };
    let obs = decode_event(&ev);
    assert_eq!(obs.len(), 1);
    assert_eq!(obs[0].ip, None);
    assert_eq!(obs[0].signal, Signal::Seen);
}

#[test]
fn repeated_names_are_extracted_once() {
    let mut pkt = vec![0u8; 12];
    pkt.extend_from_slice(&http_service());
    pkt.extend_from_slice(&http_service());
    pkt.extend_from_slice(&name_bytes(&["printer", "local"]));
    let names = extract_names(&pkt);
    assert_eq!(
        names,
        vec![
            "_http._tcp.local".to_string(),
            "_tcp.local".to_string(),
            "printer.local".to_string(),
        ]
    );
}

#[test]
fn ssdp_text_lines_and_keys() {
    let sigs = ssdp::decode_text("nt:  upnp:rootdevice \nSt:\r\nServer:x\r\nno colon here\nST: last");
    assert_eq!(
        sigs,
        vec![
            Signal::Service("upnp:rootdevice".into()),
            Signal::Service("server=x".into()),
            Signal::Service("last".into()),
        ]
    );
}

#[test]
fn ssdp_invalid_utf8_is_replaced() {
    let sigs = ssdp::decode(b"SERVER: caf\xff\r\n");
    assert_eq!(sigs, vec![Signal::Service("server=caf\u{fffd}".into())]);
}

#[test]
fn extracted_names_come_in_reading_order() {
    let mut pkt = vec![0u8; 12];
    pkt.extend_from_slice(&name_bytes(&["host", "local"]));
    pkt.extend_from_slice(&name_bytes(&["_ipp", "_tcp", "local"]));
    pkt.extend_from_slice(&name_bytes(&["host", "local"]));
    let names = extract_names(&pkt);
    assert_eq!(
        names,
        vec![
            "host.local".to_string(),
            "_ipp._tcp.local".to_string(),
            "_tcp.local".to_string(),
        ]
    );
}
