//! Text renderings of device and alert records for the read-only
//! commands: the device table, the CSV export and the alert listing.

use vstd::prelude::*;

use crate::alert::{severity_name, Alert};
use crate::netfmt::{fmt_ts, ts_text};
use crate::registry::{device_views, Device, DeviceView};
use crate::text::{
    ascii_upper, chars_of, dec, dec_int, find_char, push_chars, push_dec, push_dec_i64, push_str,
    string_from_chars, string_push, sub_chars, upper_chars,
};

verus! {

/// Output format of the `export` command.
#[derive(Clone, Copy, Debug, PartialEq, Eq, Structural)]
pub enum ExportFormat {
    Json,
    Csv,
}

/// `s` cut to at most `max` characters, the last replaced by `…` when cut.
pub open spec fn truncated(s: Seq<char>, max: nat) -> Seq<char> {
    if s.len() <= max {
        s
    } else {
        s.take(if max >= 1 {
            max - 1
        } else {
            0
        }).push('…')
    }
}

/// Shorten a cell for a fixed-width table.
pub fn truncate(s: &str, max: usize) -> (r: String)
    ensures
        r@ == truncated(s@, max as nat),
{
    let c = chars_of(s);
    if c.len() <= max {
        string_from_chars(c.as_slice())
    } else {
        let keep: usize = if max >= 1 {
            max - 1
        } else {
            0
        };
        let head = sub_chars(c.as_slice(), 0, keep);
        let mut r = string_from_chars(head.as_slice());
        string_push(&mut r, '…');
        assert(head@ == s@.take(keep as int));
        r
    }
}

/// Every `"` doubled.
pub open spec fn double_quotes(s: Seq<char>) -> Seq<char>
    decreases s.len(),
{
    if s.len() == 0 {
        s
    } else {
        double_quotes(s.drop_last()) + if s.last() == '"' {
            seq!['"', '"']
        } else {
            seq![s.last()]
        }
    }
}

/// A CSV field: quoted (with inner quotes doubled) when it holds a comma or
/// a quote; an absent value is the empty field.
pub open spec fn csv_field(v: Option<Seq<char>>) -> Seq<char> {
    let s = match v {
        Some(t) => t,
        None => seq![],
    };
    if s.contains(',') || s.contains('"') {
        seq!['"'] + double_quotes(s) + seq!['"']
    } else {
        s
    }
}

/// Escape a CSV field minimally (quote if it contains a comma/quote).
pub fn csv(v: Option<&str>) -> (r: String)
    ensures
        r@ == csv_field(match v {
            Some(t) => Some(t@),
            None => None,
        }),
{
    let c = match v {
        Some(t) => chars_of(t),
        None => Vec::new(),
    };
    let needs_quotes = match find_char(c.as_slice(), ',') {
        Some(_) => true,
        None => match find_char(c.as_slice(), '"') {
            Some(_) => true,
            None => false,
        },
    };
    proof {
        crate::text::lemma_first_char_index(c@, ',', 0);
        if c@.contains(',') {
            let j = choose|j: int| 0 <= j < c@.len() && c@[j] == ',';
            lemma_first_is_none_means_absent(c@, ',', j);
        }
        if c@.contains('"') {
            let j = choose|j: int| 0 <= j < c@.len() && c@[j] == '"';
            lemma_first_is_none_means_absent(c@, '"', j);
        }
    }
    if !needs_quotes {
        return string_from_chars(c.as_slice());
    }
    let mut r = String::new();
    string_push(&mut r, '"');
    let mut i: usize = 0;
    while i < c.len()
        invariant
            i <= c@.len(),
            r@ == seq!['"'] + double_quotes(c@.take(i as int)),
        decreases c.len() - i,
    {
        let ghost before = r@;
        if c[i] == '"' {
            string_push(&mut r, '"');
            string_push(&mut r, '"');
        } else {
            string_push(&mut r, c[i]);
        }
        i += 1;
        proof {
            assert(c@.take(i as int).drop_last() == c@.take(i - 1));
            assert(c@.take(i as int).last() == c@[i - 1]);
            assert(r@ =~= seq!['"'] + double_quotes(c@.take(i as int)));
        }
    }
    string_push(&mut r, '"');
    assert(c@.take(c@.len() as int) == c@);
    r
}

proof fn lemma_first_is_none_means_absent(s: Seq<char>, c: char, j: int)
    requires
        0 <= j < s.len(),
        s[j] == c,
    ensures
        crate::text::first_char_index(s, c) is Some,
    decreases j,
{
    if s[0] != c {
        assert(s.drop_first()[j - 1] == c);
        lemma_first_is_none_means_absent(s.drop_first(), c, j - 1);
    }
}

/// `n` spaces.
pub open spec fn spaces(n: nat) -> Seq<char> {
    Seq::new(n, |i: int| ' ')
}

/// `s` left-aligned in a field of `w` characters.
pub open spec fn pad_right(s: Seq<char>, w: nat) -> Seq<char> {
    if s.len() >= w {
        s
    } else {
        s + spaces((w - s.len()) as nat)
    }
}

/// `s` right-aligned in a field of `w` characters.
pub open spec fn pad_left(s: Seq<char>, w: nat) -> Seq<char> {
    if s.len() >= w {
        s
    } else {
        spaces((w - s.len()) as nat) + s
    }
}

/// An optional text, or `-` when absent.
pub open spec fn or_dash(o: Option<Seq<char>>) -> Seq<char> {
    match o {
        Some(t) => t,
        None => seq!['-'],
    }
}

/// The most recent address, or `default` when there is none.
pub open spec fn last_ip(ips: Seq<Seq<char>>, default: Seq<char>) -> Seq<char> {
    if ips.len() > 0 {
        ips.last()
    } else {
        default
    }
}

/// One line of the device table: MAC, vendor, hostname, latest address,
/// number of services and last sighting, in fixed-width columns.
pub open spec fn table_line(d: DeviceView) -> Seq<char> {
    pad_right(d.mac, 18) + seq![' '] + pad_right(truncated(or_dash(d.vendor), 26), 26) + seq![' ']
        + pad_right(truncated(or_dash(d.hostname), 18), 18) + seq![' '] + pad_right(
        last_ip(d.ips, seq!['-']),
        16,
    ) + seq![' '] + pad_left(dec(d.services.len()), 5) + seq![' '] + pad_right(
        ts_text(d.last_seen),
        19,
    )
}

/// One line of the CSV export, in the order of the header
/// `mac,vendor,hostname,ip,services,packets,bytes,first_seen,last_seen`.
pub open spec fn csv_line(d: DeviceView) -> Seq<char> {
    d.mac + seq![','] + csv_field(d.vendor) + seq![','] + csv_field(d.hostname) + seq![',']
        + last_ip(d.ips, seq![]) + seq![','] + dec(d.services.len()) + seq![','] + dec(
        d.packets as nat,
    ) + seq![','] + dec(d.bytes as nat) + seq![','] + dec_int(d.first_seen as int) + seq![',']
        + dec_int(d.last_seen as int)
}

/// One line of the alert listing: time, upper-cased severity, MAC (or `-`),
/// kind and message.
pub open spec fn alert_line(a: Alert) -> Seq<char> {
    ts_text(a.ts) + seq![' ', '['] + ascii_upper(severity_name(a.severity)@) + seq![']', ' ']
        + or_dash(crate::registry::opt_text(a.mac)) + seq![' '] + a.kind@ + seq![' ', '—', ' ']
        + a.message@
}

fn push_spaces(s: &mut String, n: usize)
    ensures
        final(s)@ == old(s)@ + spaces(n as nat),
{
    let mut i: usize = 0;
    while i < n
        invariant
            i <= n,
            s@ == old(s)@ + spaces(i as nat),
        decreases n - i,
    {
        string_push(s, ' ');
        i += 1;
        assert(s@ =~= old(s)@ + spaces(i as nat));
    }
}

fn push_pad_right(s: &mut String, t: &[char], w: usize)
    ensures
        final(s)@ == old(s)@ + pad_right(t@, w as nat),
{
    push_chars(s, t);
    if t.len() < w {
        push_spaces(s, w - t.len());
    }
    assert(s@ =~= old(s)@ + pad_right(t@, w as nat));
}

fn push_pad_left(s: &mut String, t: &[char], w: usize)
    ensures
        final(s)@ == old(s)@ + pad_left(t@, w as nat),
{
    if t.len() < w {
        push_spaces(s, w - t.len());
    }
    push_chars(s, t);
    assert(s@ =~= old(s)@ + pad_left(t@, w as nat));
}

fn opt_str(o: &Option<String>) -> (r: Option<&str>)
    ensures
        match r {
            Some(t) => crate::registry::opt_text(*o) == Some(t@),
            None => o.is_none(),
        },
{
    match o {
        Some(t) => Some(t.as_str()),
        None => None,
    }
}

fn dash_chars(o: &Option<String>) -> (r: Vec<char>)
    ensures
        r@ == or_dash(crate::registry::opt_text(*o)),
{
    match o {
        Some(t) => chars_of(t.as_str()),
        None => {
            let mut v: Vec<char> = Vec::new();
            v.push('-');
            assert(v@ =~= seq!['-']);
            v
        },
    }
}

fn last_ip_chars(ips: &Vec<String>, dash: bool) -> (r: Vec<char>)
    ensures
        r@ == last_ip(crate::registry::texts(ips@), if dash {
            seq!['-']
        } else {
            seq![]
        }),
{
    if ips.len() > 0 {
        chars_of(ips[ips.len() - 1].as_str())
    } else {
        let mut v: Vec<char> = Vec::new();
        if dash {
            v.push('-');
        }
        assert(v@ =~= (if dash {
            seq!['-']
        } else {
            seq![]
        }));
        v
    }
}

/// The header line of the device table, in the table's columns.
pub open spec fn table_heading() -> Seq<char> {
    pad_right("MAC"@, 18) + seq![' '] + pad_right("VENDOR"@, 26) + seq![' '] + pad_right(
        "HOSTNAME"@,
        18,
    ) + seq![' '] + pad_right("IP"@, 16) + seq![' '] + pad_left("SVCS"@, 5) + seq![' ']
        + pad_right("LAST SEEN"@, 19)
}

/// The header line of the `list` table.
pub fn table_header() -> (r: String)
    ensures
        r@ == table_heading(),
{
    let mut r = String::new();
    let c = chars_of("MAC");
    push_pad_right(&mut r, c.as_slice(), 18);
    string_push(&mut r, ' ');
    let c = chars_of("VENDOR");
    push_pad_right(&mut r, c.as_slice(), 26);
    string_push(&mut r, ' ');
    let c = chars_of("HOSTNAME");
    push_pad_right(&mut r, c.as_slice(), 18);
    string_push(&mut r, ' ');
    let c = chars_of("IP");
    push_pad_right(&mut r, c.as_slice(), 16);
    string_push(&mut r, ' ');
    let c = chars_of("SVCS");
    push_pad_left(&mut r, c.as_slice(), 5);
    string_push(&mut r, ' ');
    let c = chars_of("LAST SEEN");
    push_pad_right(&mut r, c.as_slice(), 19);
    assert(r@ =~= table_heading());
    r
}

/// The device's line in the `list` table.
pub fn table_row(d: &Device) -> (r: String)
    ensures
        r@ == table_line(d@),
{
    let mut r = String::new();
    let mac = chars_of(d.mac.as_str());
    push_pad_right(&mut r, mac.as_slice(), 18);
    string_push(&mut r, ' ');
    let vendor = dash_chars(&d.vendor);
    let vendor = chars_of(truncate(string_from_chars(vendor.as_slice()).as_str(), 26).as_str());
    push_pad_right(&mut r, vendor.as_slice(), 26);
    string_push(&mut r, ' ');
    let host = dash_chars(&d.hostname);
    let host = chars_of(truncate(string_from_chars(host.as_slice()).as_str(), 18).as_str());
    push_pad_right(&mut r, host.as_slice(), 18);
    string_push(&mut r, ' ');
    let ip = last_ip_chars(&d.ips, true);
    push_pad_right(&mut r, ip.as_slice(), 16);
    string_push(&mut r, ' ');
    let mut count = String::new();
    push_dec(&mut count, d.services.len() as u64);
    let count = chars_of(count.as_str());
    push_pad_left(&mut r, count.as_slice(), 5);
    string_push(&mut r, ' ');
    let seen = chars_of(fmt_ts(d.last_seen).as_str());
    push_pad_right(&mut r, seen.as_slice(), 19);
    assert(r@ =~= table_line(d@));
    r
}

/// The device's line in the CSV export.
pub fn csv_row(d: &Device) -> (r: String)
    ensures
        r@ == csv_line(d@),
{
    let mut r = String::new();
    push_str(&mut r, d.mac.as_str());
    string_push(&mut r, ',');
    push_str(&mut r, csv(opt_str(&d.vendor)).as_str());
    string_push(&mut r, ',');
    push_str(&mut r, csv(opt_str(&d.hostname)).as_str());
    string_push(&mut r, ',');
    let ip = last_ip_chars(&d.ips, false);
    push_chars(&mut r, ip.as_slice());
    string_push(&mut r, ',');
    push_dec(&mut r, d.services.len() as u64);
    string_push(&mut r, ',');
    push_dec(&mut r, d.packets);
    string_push(&mut r, ',');
    push_dec(&mut r, d.bytes);
    string_push(&mut r, ',');
    push_dec_i64(&mut r, d.first_seen);
    string_push(&mut r, ',');
    push_dec_i64(&mut r, d.last_seen);
    assert(r@ =~= csv_line(d@));
    r
}

/// The alert's line in the `alerts` listing.
pub fn alert_row(a: &Alert) -> (r: String)
    ensures
        r@ == alert_line(*a),
{
    let mut r = fmt_ts(a.ts);
    string_push(&mut r, ' ');
    string_push(&mut r, '[');
    let name = chars_of(a.severity.as_str());
    let upper = upper_chars(name.as_slice());
    push_chars(&mut r, upper.as_slice());
    string_push(&mut r, ']');
    string_push(&mut r, ' ');
    let mac = dash_chars(&a.mac);
    push_chars(&mut r, mac.as_slice());
    string_push(&mut r, ' ');
    push_str(&mut r, a.kind.as_str());
    string_push(&mut r, ' ');
    string_push(&mut r, '—');
    string_push(&mut r, ' ');
    push_str(&mut r, a.message.as_str());
    assert(r@ =~= alert_line(*a));
    r
}

// ---------------------------------------------------------------------------
// The `device` command.
// ---------------------------------------------------------------------------

/// Find a device record by MAC text, in any letter case.
pub fn find_device(devices: Vec<Device>, mac: &str) -> (r: Option<Device>)
    ensures
        match r {
            Some(d) => exists|i: int|
                0 <= i < devices@.len() && #[trigger] devices@[i] == d && d@.mac
                    == crate::text::ascii_lower(mac@) && forall|j: int|
                    0 <= j < i ==> devices@[j]@.mac != crate::text::ascii_lower(mac@),
            None => forall|i: int|
                0 <= i < devices@.len() ==> (#[trigger] devices@[i])@.mac
                    != crate::text::ascii_lower(mac@),
        },
{
    let m = chars_of(mac);
    let want = crate::text::lower_chars(m.as_slice());
    let ghost all = devices@;
    let n = devices.len();
    let mut rest = devices;
    let mut found: Option<Device> = None;
    let mut i: usize = 0;
    while i < n
        invariant_except_break
            i <= n,
            rest@.len() == n - i,
            forall|j: int| 0 <= j < rest@.len() ==> #[trigger] rest@[j] == all[i + j],
            found.is_none(),
        invariant
            n == all.len(),
            want@ == crate::text::ascii_lower(mac@),
            forall|j: int| 0 <= j < i ==> all[j]@.mac != want@,
        ensures
            match found {
                Some(d) => 0 <= i < all.len() && all[i as int] == d && d@.mac == want@,
                None => i == n,
            },
        decreases n - i,
    {
        let ghost old_rest = rest@;
        let d = rest.remove(0);
        assert(d == all[i as int]);
        let dm = chars_of(d.mac.as_str());
        if crate::text::chars_eq(dm.as_slice(), want.as_slice()) {
            found = Some(d);
            break;
        }
        i += 1;
        assert forall|j: int| 0 <= j < rest@.len() implies #[trigger] rest@[j] == all[i + j] by {
            assert(rest@[j] == old_rest[j + 1]);
        }
    }
    found
}

/// Texts joined with `, `.
pub open spec fn comma_list(parts: Seq<Seq<char>>) -> Seq<char>
    decreases parts.len(),
{
    if parts.len() == 0 {
        seq![]
    } else if parts.len() == 1 {
        parts[0]
    } else {
        comma_list(parts.drop_last()) + seq![',', ' '] + parts.last()
    }
}

/// An optional text, or `default` when absent.
pub open spec fn or_text(o: Option<Seq<char>>, default: Seq<char>) -> Seq<char> {
    match o {
        Some(t) => t,
        None => default,
    }
}

/// The lines listing a device's services.
pub open spec fn service_lines(services: Seq<Seq<char>>) -> Seq<Seq<char>> {
    if services.len() == 0 {
        seq!["  services:     -"@]
    } else {
        seq!["  services:"@] + Seq::new(services.len(), |i: int| "    - "@ + services[i])
    }
}

/// What the `device` command prints for one device, line by line.
pub open spec fn detail_text(d: DeviceView) -> Seq<Seq<char>> {
    seq![
        "Device "@ + d.mac,
        "  label:        "@ + or_text(d.hostname, or_text(d.vendor, d.mac)),
        "  vendor:       "@ + or_dash(d.vendor),
        "  hostname:     "@ + or_dash(d.hostname),
        "  device type:  "@ + or_text(d.device_type, "(not yet inferred)"@),
        "  ips:          "@ + (if d.ips.len() == 0 {
            seq!['-']
        } else {
            comma_list(d.ips)
        }),
        "  dhcp fp:      "@ + or_dash(d.dhcp_fingerprint),
        "  vendor class: "@ + or_dash(d.dhcp_vendor_class),
        "  traffic:      "@ + dec(d.packets as nat) + " pkts / "@ + dec(d.bytes as nat) + " bytes"@,
        "  first seen:   "@ + ts_text(d.first_seen),
        "  last seen:    "@ + ts_text(d.last_seen),
    ] + service_lines(d.services)
}

fn labelled(label: &str, value: &[char]) -> (r: String)
    ensures
        r@ == label@ + value@,
{
    let mut r = String::new();
    push_str(&mut r, label);
    push_chars(&mut r, value);
    r
}

fn opt_chars(o: &Option<String>, default: &str) -> (r: Vec<char>)
    ensures
        r@ == or_text(crate::registry::opt_text(*o), default@),
{
    match o {
        Some(t) => chars_of(t.as_str()),
        None => chars_of(default),
    }
}

fn comma_list_chars(v: &Vec<String>) -> (r: Vec<char>)
    ensures
        r@ == comma_list(crate::registry::texts(v@)),
{
    let ghost all = crate::registry::texts(v@);
    let mut out: Vec<char> = Vec::new();
    let mut i: usize = 0;
    while i < v.len()
        invariant
            i <= v@.len(),
            all == crate::registry::texts(v@),
            out@ == comma_list(all.take(i as int)),
        decreases v.len() - i,
    {
        let c = chars_of(v[i].as_str());
        let ghost before = out@;
        if i > 0 {
            out.push(',');
            out.push(' ');
        }
        let mut j: usize = 0;
        let ghost mid = out@;
        while j < c.len()
            invariant
                j <= c@.len(),
                out@ == mid + c@.take(j as int),
            decreases c.len() - j,
        {
            out.push(c[j]);
            j += 1;
            assert(out@ =~= mid + c@.take(j as int));
        }
        proof {
            assert(c@.take(c@.len() as int) == c@);
            assert(all.take(i + 1).drop_last() == all.take(i as int));
            assert(all.take(i + 1).last() == c@);
            if i == 0 {
                assert(out@ =~= comma_list(all.take(1)));
            } else {
                assert(out@ =~= comma_list(all.take(i + 1)));
            }
        }
        i += 1;
    }
    assert(all.take(v@.len() as int) == all);
    out
}

/// What the `device` command prints for a device, line by line.
pub fn detail_lines(d: &Device) -> (r: Vec<String>)
    ensures
        r@.len() == detail_text(d@).len(),
        forall|i: int| 0 <= i < r@.len() ==> #[trigger] r@[i]@ == detail_text(d@)[i],
{
    let mut out: Vec<String> = Vec::new();
    let mac = chars_of(d.mac.as_str());
    out.push(labelled("Device ", mac.as_slice()));
    let label = chars_of(d.label());
    out.push(labelled("  label:        ", label.as_slice()));
    let vendor = dash_chars(&d.vendor);
    out.push(labelled("  vendor:       ", vendor.as_slice()));
    let host = dash_chars(&d.hostname);
    out.push(labelled("  hostname:     ", host.as_slice()));
    let ty = opt_chars(&d.device_type, "(not yet inferred)");
    out.push(labelled("  device type:  ", ty.as_slice()));
    let ips = if d.ips.len() == 0 {
        let mut v: Vec<char> = Vec::new();
        v.push('-');
        assert(v@ =~= seq!['-']);
        v
    } else {
        comma_list_chars(&d.ips)
    };
    out.push(labelled("  ips:          ", ips.as_slice()));
    let fp = dash_chars(&d.dhcp_fingerprint);
    out.push(labelled("  dhcp fp:      ", fp.as_slice()));
    let vc = dash_chars(&d.dhcp_vendor_class);
    out.push(labelled("  vendor class: ", vc.as_slice()));
    let mut traffic = String::new();
    push_str(&mut traffic, "  traffic:      ");
    push_dec(&mut traffic, d.packets);
    push_str(&mut traffic, " pkts / ");
    push_dec(&mut traffic, d.bytes);
    push_str(&mut traffic, " bytes");
    out.push(traffic);
    let first = chars_of(fmt_ts(d.first_seen).as_str());
    out.push(labelled("  first seen:   ", first.as_slice()));
    let last = chars_of(fmt_ts(d.last_seen).as_str());
    out.push(labelled("  last seen:    ", last.as_slice()));
    let ghost head = detail_text(d@).take(11);
    assert forall|i: int| 0 <= i < 11 implies #[trigger] out@[i]@ == detail_text(d@)[i] by {
    }
    if d.services.len() == 0 {
        out.push(String::from_str("  services:     -"));
    } else {
        out.push(String::from_str("  services:"));
        let mut i: usize = 0;
        while i < d.services.len()
            invariant
                i <= d.services@.len(),
                out@.len() == 12 + i,
                d.services@.len() > 0,
                forall|j: int| 0 <= j < out@.len() ==> #[trigger] out@[j]@ == detail_text(d@)[j],
            decreases d.services.len() - i,
        {
            let sv = chars_of(d.services[i].as_str());
            out.push(labelled("    - ", sv.as_slice()));
            i += 1;
        }
    }
    out
}

// ---------------------------------------------------------------------------
// The dashboard's device table and detail pane.
// ---------------------------------------------------------------------------

/// The cells of a device's row in the dashboard table: MAC, device type,
/// hostname (else vendor), latest address; `—` for what is missing.
pub open spec fn device_cells_text(d: DeviceView) -> Seq<Seq<char>> {
    seq![
        d.mac,
        or_text(d.device_type, "—"@),
        or_text(d.hostname, or_text(d.vendor, "—"@)),
        last_ip(d.ips, "—"@),
    ]
}

/// The key/value rows of the dashboard's detail pane for a device.
pub open spec fn tui_detail(d: DeviceView) -> Seq<(Seq<char>, Seq<char>)> {
    seq![
        ("MAC"@, d.mac),
        ("Type"@, or_text(d.device_type, "—"@)),
        ("Vendor"@, or_text(d.vendor, "—"@)),
        ("Hostname"@, or_text(d.hostname, "—"@)),
        ("IPs"@, if d.ips.len() == 0 {
            "—"@
        } else {
            comma_list(d.ips)
        }),
        ("DHCP fp"@, or_text(d.dhcp_fingerprint, "—"@)),
        ("Traffic"@, dec(d.packets as nat) + " pkts / "@ + dec(d.bytes as nat) + " bytes"@),
        ("First seen"@, ts_text(d.first_seen)),
        ("Last seen"@, ts_text(d.last_seen)),
    ]
}

/// The services section of the detail pane: nothing when the device has no
/// services, else a heading and a bullet for each of the first six.
pub open spec fn tui_services(services: Seq<Seq<char>>) -> Seq<Seq<char>> {
    if services.len() == 0 {
        seq![]
    } else {
        let n = if services.len() < 6 {
            services.len()
        } else {
            6
        };
        seq!["Services:"@] + Seq::new(n, |i: int| "  • "@ + services[i])
    }
}

fn text_or(o: &Option<String>, default: &str) -> (r: String)
    ensures
        r@ == or_text(crate::registry::opt_text(*o), default@),
{
    match o {
        Some(t) => t.clone(),
        None => String::from_str(default),
    }
}

/// The cells of a device's row in the dashboard table.
pub fn device_cells(d: &Device) -> (r: Vec<String>)
    ensures
        r@.len() == 4,
        forall|i: int| 0 <= i < 4 ==> #[trigger] r@[i]@ == device_cells_text(d@)[i],
{
    let mut out: Vec<String> = Vec::new();
    out.push(d.mac.clone());
    out.push(text_or(&d.device_type, "—"));
    let name = match &d.hostname {
        Some(h) => h.clone(),
        None => text_or(&d.vendor, "—"),
    };
    out.push(name);
    let ip = if d.ips.len() > 0 {
        d.ips[d.ips.len() - 1].clone()
    } else {
        String::from_str("—")
    };
    out.push(ip);
    proof {
        assert(crate::registry::texts(d.ips@).len() == d.ips@.len());
        if d.ips@.len() > 0 {
            assert(crate::registry::texts(d.ips@).last() == d.ips@.last()@);
        }
    }
    out
}

/// The key/value rows of the dashboard's detail pane for a device.
pub fn detail_pairs(d: &Device) -> (r: Vec<(String, String)>)
    ensures
        r@.len() == tui_detail(d@).len(),
        forall|i: int|
            0 <= i < r@.len() ==> (#[trigger] r@[i]).0@ == tui_detail(d@)[i].0 && r@[i].1@
                == tui_detail(d@)[i].1,
{
    let mut out: Vec<(String, String)> = Vec::new();
    out.push((String::from_str("MAC"), d.mac.clone()));
    out.push((String::from_str("Type"), text_or(&d.device_type, "—")));
    out.push((String::from_str("Vendor"), text_or(&d.vendor, "—")));
    out.push((String::from_str("Hostname"), text_or(&d.hostname, "—")));
    let ips = if d.ips.len() == 0 {
        String::from_str("—")
    } else {
        let v = comma_list_chars(&d.ips);
        string_from_chars(v.as_slice())
    };
    out.push((String::from_str("IPs"), ips));
    out.push((String::from_str("DHCP fp"), text_or(&d.dhcp_fingerprint, "—")));
    let mut traffic = String::new();
    push_dec(&mut traffic, d.packets);
    push_str(&mut traffic, " pkts / ");
    push_dec(&mut traffic, d.bytes);
    push_str(&mut traffic, " bytes");
    out.push((String::from_str("Traffic"), traffic));
    out.push((String::from_str("First seen"), fmt_ts(d.first_seen)));
    out.push((String::from_str("Last seen"), fmt_ts(d.last_seen)));
    assert(traffic@ =~= dec(d.packets as nat) + " pkts / "@ + dec(d.bytes as nat) + " bytes"@);
    out
}

/// The services section of the dashboard's detail pane for a device.
pub fn detail_services(d: &Device) -> (r: Vec<String>)
    ensures
        r@.len() == tui_services(crate::registry::texts(d.services@)).len(),
        forall|i: int|
            0 <= i < r@.len() ==> #[trigger] r@[i]@ == tui_services(crate::registry::texts(d.services@))[i],
{
    let ghost all = crate::registry::texts(d.services@);
    let mut out: Vec<String> = Vec::new();
    if d.services.len() == 0 {
        return out;
    }
    out.push(String::from_str("Services:"));
    let n = if d.services.len() < 6 {
        d.services.len()
    } else {
        6
    };
    let mut i: usize = 0;
    while i < n
        invariant
            i <= n,
            n <= d.services@.len(),
            d.services@.len() > 0,
            n == (if d.services@.len() < 6 {
                d.services@.len()
            } else {
                6
            }),
            all == crate::registry::texts(d.services@),
            out@.len() == 1 + i,
            forall|j: int| 0 <= j < out@.len() ==> #[trigger] out@[j]@ == tui_services(all)[j],
        decreases n - i,
    {
        let mut line = String::from_str("  • ");
        let sv = chars_of(d.services[i].as_str());
        push_chars(&mut line, sv.as_slice());
        out.push(line);
        i += 1;
    }
    out
}

// ---------------------------------------------------------------------------
// Ordering devices by recency.
// ---------------------------------------------------------------------------

/// Where a device last seen at `t` goes in a list ordered most recent
/// first: after every entry seen at `t` or later.
pub open spec fn recency_pos(s: Seq<DeviceView>, t: i64) -> nat
    decreases s.len(),
{
    if s.len() == 0 {
        0
    } else if s[0].last_seen < t {
        0
    } else {
        1 + recency_pos(s.drop_first(), t)
    }
}

/// `s` ordered most recently seen first; devices seen at the same time keep
/// their relative order.
pub open spec fn by_recency(s: Seq<DeviceView>) -> Seq<DeviceView>
    decreases s.len(),
{
    if s.len() == 0 {
        s
    } else {
        let sorted = by_recency(s.drop_last());
        sorted.insert(recency_pos(sorted, s.last().last_seen) as int, s.last())
    }
}

/// Ordered most recently seen first.
pub open spec fn recency_ordered(s: Seq<DeviceView>) -> bool {
    forall|i: int, j: int| 0 <= i < j < s.len() ==> #[trigger] s[i].last_seen >= #[trigger] s[j].last_seen
}

/// The devices of `s` last seen at `t`, in order.
pub open spec fn seen_at(s: Seq<DeviceView>, t: i64) -> Seq<DeviceView> {
    s.filter(|d: DeviceView| d.last_seen == t)
}

proof fn lemma_recency_pos(s: Seq<DeviceView>, t: i64)
    ensures
        recency_pos(s, t) <= s.len(),
        forall|j: int| 0 <= j < recency_pos(s, t) ==> s[j].last_seen >= t,
        recency_pos(s, t) < s.len() ==> s[recency_pos(s, t) as int].last_seen < t,
    decreases s.len(),
{
    if s.len() > 0 && s[0].last_seen >= t {
        lemma_recency_pos(s.drop_first(), t);
        assert forall|j: int| 0 <= j < recency_pos(s, t) implies s[j].last_seen >= t by {
            if j > 0 {
                assert(s[j] == s.drop_first()[j - 1]);
            }
        }
    }
}

proof fn lemma_recency_pos_is(s: Seq<DeviceView>, t: i64, p: int)
    requires
        0 <= p <= s.len(),
        forall|j: int| 0 <= j < p ==> s[j].last_seen >= t,
        p < s.len() ==> s[p].last_seen < t,
    ensures
        recency_pos(s, t) == p,
    decreases p,
{
    if p > 0 {
        assert forall|j: int| 0 <= j < p - 1 implies s.drop_first()[j].last_seen >= t by {
            assert(s.drop_first()[j] == s[j + 1]);
        }
        if p < s.len() {
            assert(s.drop_first()[p - 1] == s[p]);
        }
        lemma_recency_pos_is(s.drop_first(), t, p - 1);
    }
}

/// Ordering by recency yields a list ordered most recently seen first.
pub proof fn law_by_recency_ordered(s: Seq<DeviceView>)
    ensures
        recency_ordered(by_recency(s)),
    decreases s.len(),
{
    if s.len() > 0 {
        let a = by_recency(s.drop_last());
        law_by_recency_ordered(s.drop_last());
        let x = s.last();
        let t = x.last_seen;
        let p = recency_pos(a, t) as int;
        lemma_recency_pos(a, t);
        a.insert_ensures(p, x);
        let b = a.insert(p, x);
        assert(b == by_recency(s));
        assert forall|i: int, j: int| 0 <= i < j < b.len() implies #[trigger] b[i].last_seen
            >= #[trigger] b[j].last_seen by {
            if j < p {
                assert(b[i] == a[i] && b[j] == a[j]);
            } else if j == p {
                assert(b[i] == a[i]);
            } else if i < p {
                assert(b[i] == a[i] && b[j] == a[j - 1]);
            } else if i == p {
                assert(b[j] == a[j - 1]);
                assert(a[p].last_seen >= a[j - 1].last_seen);
            } else {
                assert(b[i] == a[i - 1] && b[j] == a[j - 1]);
            }
        }
    }
}

/// Ordering by recency neither loses nor duplicates a device.
pub proof fn law_by_recency_permutes(s: Seq<DeviceView>)
    ensures
        by_recency(s).to_multiset() == s.to_multiset(),
    decreases s.len(),
{
    broadcast use vstd::seq_lib::group_to_multiset_ensures;
    broadcast use vstd::multiset::group_multiset_axioms;

    if s.len() > 0 {
        let a = by_recency(s.drop_last());
        law_by_recency_permutes(s.drop_last());
        let x = s.last();
        let p = recency_pos(a, x.last_seen) as int;
        lemma_recency_pos(a, x.last_seen);
        let front = a.subrange(0, p);
        let back = a.subrange(p, a.len() as int);
        vstd::seq_lib::lemma_multiset_commutative(front.push(x), back);
        vstd::seq_lib::lemma_multiset_commutative(front, back);
        assert(front + back == a);
        assert(s.drop_last().push(x) == s);
        assert(by_recency(s).to_multiset() =~= s.to_multiset());
    }
}

/// Ordering by recency is stable: the devices last seen at any one time
/// keep their relative order.
pub proof fn law_by_recency_stable(s: Seq<DeviceView>, t: i64)
    ensures
        seen_at(by_recency(s), t) == seen_at(s, t),
    decreases s.len(),
{
    if s.len() > 0 {
        let pred = |d: DeviceView| d.last_seen == t;
        let a = by_recency(s.drop_last());
        law_by_recency_stable(s.drop_last(), t);
        law_by_recency_ordered(s.drop_last());
        let x = s.last();
        let p = recency_pos(a, x.last_seen) as int;
        lemma_recency_pos(a, x.last_seen);
        let front = a.subrange(0, p);
        let back = a.subrange(p, a.len() as int);
        assert(front + back == a);
        assert(s.drop_last().push(x) == s);
        assert(by_recency(s) == front.push(x) + back);
        Seq::filter_distributes_over_add(front.push(x), back, pred);
        Seq::filter_distributes_over_add(front, back, pred);
        front.lemma_filter_push(x, pred);
        s.drop_last().lemma_filter_push(x, pred);
        if x.last_seen == t {
            assert forall|j: int| 0 <= j < back.len() implies !pred(back[j]) by {
                assert(back[j] == a[p + j]);
                assert(a[p].last_seen >= a[p + j].last_seen);
            }
            assert(back.filter(pred) =~= Seq::<DeviceView>::empty()) by {
                if back.filter(pred).len() > 0 {
                    let e = back.filter(pred)[0];
                    assert(back.filter(pred).contains(e));
                    back.lemma_filter_contains_rev(pred, e);
                    let j = choose|j: int| 0 <= j < back.len() && back[j] == e;
                    assert(!pred(back[j]));
                }
            }
        }
        assert(seen_at(by_recency(s), t) =~= seen_at(s, t));
    }
}

/// Order devices most recently seen first, keeping the order of devices
/// seen at the same time.
pub fn sort_by_recency(devices: Vec<Device>) -> (r: Vec<Device>)
    ensures
        device_views(r@) == by_recency(device_views(devices@)),
{
    let ghost all = device_views(devices@);
    let n = devices.len();
    let mut rest = devices;
    let mut out: Vec<Device> = Vec::new();
    let mut i: usize = 0;
    while i < n
        invariant
            i <= n,
            n == all.len(),
            rest@.len() == n - i,
            forall|j: int| 0 <= j < rest@.len() ==> #[trigger] rest@[j]@ == all[i + j],
            device_views(out@) == by_recency(all.take(i as int)),
        decreases n - i,
    {
        let ghost old_rest = rest@;
        let d = rest.remove(0);
        let t = d.last_seen;
        let ghost outv = device_views(out@);
        let mut p: usize = 0;
        while p < out.len() && out[p].last_seen >= t
            invariant
                p <= out@.len(),
                outv == device_views(out@),
                forall|j: int| 0 <= j < p ==> outv[j].last_seen >= t,
            decreases out@.len() - p,
        {
            p += 1;
        }
        proof {
            lemma_recency_pos_is(outv, t, p as int);
            assert(all.take(i + 1).drop_last() == all.take(i as int));
            assert(all.take(i + 1).last() == d@);
        }
        out.insert(p, d);
        assert(device_views(out@) =~= outv.insert(p as int, d@));
        i += 1;
        assert forall|j: int| 0 <= j < rest@.len() implies #[trigger] rest@[j]@ == all[i + j] by {
            assert(rest@[j] == old_rest[j + 1]);
        }
    }
    assert(all.take(n as int) == all);
    out
}

} // verus!
