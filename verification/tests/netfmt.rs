use lanscope::netfmt::{fmt_ipv4, fmt_mac, fmt_ts, format_datetime, parse_mac};

#[test]
fn mac_roundtrip() {
    let mac = [0xb8, 0x27, 0xeb, 0x01, 0x02, 0x03];
    let s = fmt_mac(&mac);
    assert_eq!(s, "b8:27:eb:01:02:03");
    assert_eq!(parse_mac(&s), Some(mac));
}

#[test]
fn mac_parse_rejects_garbage() {
    assert_eq!(parse_mac("not-a-mac"), None);
    assert_eq!(parse_mac("aa:bb:cc:dd:ee"), None);
    assert_eq!(parse_mac("aa:bb:cc:dd:ee:ff:00"), None);
}

#[test]
fn ipv4_format() {
    assert_eq!(fmt_ipv4(0x0a00_0042), "10.0.0.66");
}

#[test]
fn mac_parse_is_case_insensitive_and_accepts_short_groups() {
    assert_eq!(parse_mac("AA:bB:0c:D:e:FF"), Some([0xaa, 0xbb, 0x0c, 0x0d, 0x0e, 0xff]));
}

#[test]
fn mac_parse_rejects_empty_and_oversized_groups() {
    assert_eq!(parse_mac("aa::cc:dd:ee:ff"), None);
    assert_eq!(parse_mac("aa:bb:cc:dd:ee:1ff"), None);
    assert_eq!(parse_mac(""), None);
}

#[test]
fn ipv4_extremes() {
    assert_eq!(fmt_ipv4(0), "0.0.0.0");
    assert_eq!(fmt_ipv4(0xffff_ffff), "255.255.255.255");
}

#[test]
fn timestamp_rendering() {
    assert_eq!(fmt_ts(0), "1970-01-01 00:00:00");
    assert_eq!(fmt_ts(1_700_000_000), "2023-11-14 22:13:20");
    assert_eq!(fmt_ts(-1), "1969-12-31 23:59:59");
}

#[test]
fn timestamp_out_of_calendar_range_is_plain_number() {
    assert_eq!(fmt_ts(i64::MAX), i64::MAX.to_string());
    assert_eq!(fmt_ts(i64::MIN), i64::MIN.to_string());
}

#[test]
fn calendar_fields_rendering() {
    assert_eq!(format_datetime(2023, 11, 14, 22, 13, 20), "2023-11-14 22:13:20");
    assert_eq!(format_datetime(7, 1, 2, 3, 4, 5), "0007-01-02 03:04:05");
    assert_eq!(format_datetime(-5, 1, 2, 3, 4, 5), "-005-01-02 03:04:05");
    assert_eq!(format_datetime(-9999, 12, 31, 23, 59, 59), "-9999-12-31 23:59:59");
}
