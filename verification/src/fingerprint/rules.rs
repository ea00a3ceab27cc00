//! Rule-based fingerprinter.
//!
//! Each rule is a case-insensitive substring matched against a "haystack"
//! built from all of a device's textual signals (vendor, DHCP vendor class,
//! hostname, services). The highest-confidence matching rule wins; among
//! equally confident matches the one listed last wins.
//!
//! Rules are ordered most-specific (a unique mDNS service or SSDP banner) to
//! least-specific (a bare OUI vendor), and confidences encode that: a service
//! match is strong evidence, an OUI match is weak.

use vstd::prelude::*;

use super::engine::{Category, Classification, ClassificationView, Fingerprinter};
use crate::registry::{Device, DeviceView};
use crate::text::{
    ascii_lower, chars_of, contains_chars, contains_seq, lower_chars, occurs_at, push_str,
};

verus! {

/// One row of the rule table. Confidence is in hundredths (95 = 0.95).
pub struct Rule {
    pub needle: &'static str,
    pub device_type: &'static str,
    pub category: Category,
    pub confidence_pct: u8,
}

/// Number of rows in the rule table.
pub const RULE_COUNT: usize = 30;

/// The rule table, row by row: strong (protocol-advertised) signals first,
/// then DHCP vendor classes, then weak OUI-vendor fallbacks.
pub open spec fn rule(i: int) -> Rule {
    if i == 0 {
        Rule { needle: "amazonecho", device_type: "Amazon Echo", category: Category::SmartSpeaker, confidence_pct: 95 }
    } else if i == 1 {
        Rule { needle: "_googlecast", device_type: "Google Chromecast", category: Category::MediaStreamer, confidence_pct: 92 }
    } else if i == 2 {
        Rule { needle: "googlecast", device_type: "Google Chromecast", category: Category::MediaStreamer, confidence_pct: 90 }
    } else if i == 3 {
        Rule { needle: "sonos", device_type: "Sonos Speaker", category: Category::SmartSpeaker, confidence_pct: 92 }
    } else if i == 4 {
        Rule { needle: "roku", device_type: "Roku Streamer", category: Category::MediaStreamer, confidence_pct: 90 }
    } else if i == 5 {
        Rule { needle: "_raop", device_type: "AirPlay Device", category: Category::MediaStreamer, confidence_pct: 85 }
    } else if i == 6 {
        Rule { needle: "_airplay", device_type: "AirPlay Device", category: Category::MediaStreamer, confidence_pct: 85 }
    } else if i == 7 {
        Rule { needle: "spotify-connect", device_type: "Spotify Speaker", category: Category::SmartSpeaker, confidence_pct: 80 }
    } else if i == 8 {
        Rule { needle: "philips hue", device_type: "Philips Hue Bridge", category: Category::SmartLight, confidence_pct: 92 }
    } else if i == 9 {
        Rule { needle: "_hue", device_type: "Philips Hue Bridge", category: Category::SmartLight, confidence_pct: 90 }
    } else if i == 10 {
        Rule { needle: "lifx", device_type: "LIFX Bulb", category: Category::SmartLight, confidence_pct: 90 }
    } else if i == 11 {
        Rule { needle: "_ipp", device_type: "Network Printer", category: Category::Printer, confidence_pct: 90 }
    } else if i == 12 {
        Rule { needle: "_pdl-datastream", device_type: "Network Printer", category: Category::Printer, confidence_pct: 90 }
    } else if i == 13 {
        Rule { needle: "_printer", device_type: "Network Printer", category: Category::Printer, confidence_pct: 90 }
    } else if i == 14 {
        Rule { needle: "diskstation", device_type: "Synology NAS", category: Category::Nas, confidence_pct: 90 }
    } else if i == 15 {
        Rule { needle: "_smb", device_type: "File Server / NAS", category: Category::Nas, confidence_pct: 60 }
    } else if i == 16 {
        Rule { needle: "_raspberrypi", device_type: "Raspberry Pi", category: Category::SingleBoardComputer, confidence_pct: 85 }
    } else if i == 17 {
        Rule { needle: "_homekit", device_type: "HomeKit Accessory", category: Category::IoTSensor, confidence_pct: 70 }
    } else if i == 18 {
        Rule { needle: "_hap", device_type: "HomeKit Accessory", category: Category::IoTSensor, confidence_pct: 70 }
    } else if i == 19 {
        Rule { needle: "android-dhcp", device_type: "Android Phone/Tablet", category: Category::Phone, confidence_pct: 85 }
    } else if i == 20 {
        Rule { needle: "msft 5.0", device_type: "Windows PC", category: Category::Computer, confidence_pct: 80 }
    } else if i == 21 {
        Rule { needle: "raspberry pi", device_type: "Raspberry Pi", category: Category::SingleBoardComputer, confidence_pct: 70 }
    } else if i == 22 {
        Rule { needle: "espressif", device_type: "ESP32/ESP8266 Module", category: Category::IoTSensor, confidence_pct: 70 }
    } else if i == 23 {
        Rule { needle: "nest labs", device_type: "Nest Device", category: Category::IoTSensor, confidence_pct: 60 }
    } else if i == 24 {
        Rule { needle: "lifx", device_type: "LIFX Bulb", category: Category::SmartLight, confidence_pct: 65 }
    } else if i == 25 {
        Rule { needle: "amazon", device_type: "Amazon Device", category: Category::SmartSpeaker, confidence_pct: 55 }
    } else if i == 26 {
        Rule { needle: "philips", device_type: "Philips Smart Device", category: Category::SmartLight, confidence_pct: 55 }
    } else if i == 27 {
        Rule { needle: "tp-link", device_type: "TP-Link Device", category: Category::Router, confidence_pct: 50 }
    } else if i == 28 {
        Rule { needle: "apple", device_type: "Apple Device", category: Category::Computer, confidence_pct: 50 }
    } else if i == 29 {
        Rule { needle: "google", device_type: "Google Device", category: Category::MediaStreamer, confidence_pct: 50 }
    } else {
        Rule { needle: "", device_type: "", category: Category::Unknown, confidence_pct: 0 }
    }
}

fn rule_at(i: usize) -> (r: Rule)
    requires
        i < RULE_COUNT,
    ensures
        r == rule(i as int),
{
    if i == 0 {
        Rule { needle: "amazonecho", device_type: "Amazon Echo", category: Category::SmartSpeaker, confidence_pct: 95 }
    } else if i == 1 {
        Rule { needle: "_googlecast", device_type: "Google Chromecast", category: Category::MediaStreamer, confidence_pct: 92 }
    } else if i == 2 {
        Rule { needle: "googlecast", device_type: "Google Chromecast", category: Category::MediaStreamer, confidence_pct: 90 }
    } else if i == 3 {
        Rule { needle: "sonos", device_type: "Sonos Speaker", category: Category::SmartSpeaker, confidence_pct: 92 }
    } else if i == 4 {
        Rule { needle: "roku", device_type: "Roku Streamer", category: Category::MediaStreamer, confidence_pct: 90 }
    } else if i == 5 {
        Rule { needle: "_raop", device_type: "AirPlay Device", category: Category::MediaStreamer, confidence_pct: 85 }
    } else if i == 6 {
        Rule { needle: "_airplay", device_type: "AirPlay Device", category: Category::MediaStreamer, confidence_pct: 85 }
    } else if i == 7 {
        Rule { needle: "spotify-connect", device_type: "Spotify Speaker", category: Category::SmartSpeaker, confidence_pct: 80 }
    } else if i == 8 {
        Rule { needle: "philips hue", device_type: "Philips Hue Bridge", category: Category::SmartLight, confidence_pct: 92 }
    } else if i == 9 {
        Rule { needle: "_hue", device_type: "Philips Hue Bridge", category: Category::SmartLight, confidence_pct: 90 }
    } else if i == 10 {
        Rule { needle: "lifx", device_type: "LIFX Bulb", category: Category::SmartLight, confidence_pct: 90 }
    } else if i == 11 {
        Rule { needle: "_ipp", device_type: "Network Printer", category: Category::Printer, confidence_pct: 90 }
    } else if i == 12 {
        Rule { needle: "_pdl-datastream", device_type: "Network Printer", category: Category::Printer, confidence_pct: 90 }
    } else if i == 13 {
        Rule { needle: "_printer", device_type: "Network Printer", category: Category::Printer, confidence_pct: 90 }
    } else if i == 14 {
        Rule { needle: "diskstation", device_type: "Synology NAS", category: Category::Nas, confidence_pct: 90 }
    } else if i == 15 {
        Rule { needle: "_smb", device_type: "File Server / NAS", category: Category::Nas, confidence_pct: 60 }
    } else if i == 16 {
        Rule { needle: "_raspberrypi", device_type: "Raspberry Pi", category: Category::SingleBoardComputer, confidence_pct: 85 }
    } else if i == 17 {
        Rule { needle: "_homekit", device_type: "HomeKit Accessory", category: Category::IoTSensor, confidence_pct: 70 }
    } else if i == 18 {
        Rule { needle: "_hap", device_type: "HomeKit Accessory", category: Category::IoTSensor, confidence_pct: 70 }
    } else if i == 19 {
        Rule { needle: "android-dhcp", device_type: "Android Phone/Tablet", category: Category::Phone, confidence_pct: 85 }
    } else if i == 20 {
        Rule { needle: "msft 5.0", device_type: "Windows PC", category: Category::Computer, confidence_pct: 80 }
    } else if i == 21 {
        Rule { needle: "raspberry pi", device_type: "Raspberry Pi", category: Category::SingleBoardComputer, confidence_pct: 70 }
    } else if i == 22 {
        Rule { needle: "espressif", device_type: "ESP32/ESP8266 Module", category: Category::IoTSensor, confidence_pct: 70 }
    } else if i == 23 {
        Rule { needle: "nest labs", device_type: "Nest Device", category: Category::IoTSensor, confidence_pct: 60 }
    } else if i == 24 {
        Rule { needle: "lifx", device_type: "LIFX Bulb", category: Category::SmartLight, confidence_pct: 65 }
    } else if i == 25 {
        Rule { needle: "amazon", device_type: "Amazon Device", category: Category::SmartSpeaker, confidence_pct: 55 }
    } else if i == 26 {
        Rule { needle: "philips", device_type: "Philips Smart Device", category: Category::SmartLight, confidence_pct: 55 }
    } else if i == 27 {
        Rule { needle: "tp-link", device_type: "TP-Link Device", category: Category::Router, confidence_pct: 50 }
    } else if i == 28 {
        Rule { needle: "apple", device_type: "Apple Device", category: Category::Computer, confidence_pct: 50 }
    } else if i == 29 {
        Rule { needle: "google", device_type: "Google Device", category: Category::MediaStreamer, confidence_pct: 50 }
    } else {
        Rule { needle: "", device_type: "", category: Category::Unknown, confidence_pct: 0 }
    }
}

/// One haystack line: the text lower-cased, then a newline.
pub open spec fn hay_line(s: Seq<char>) -> Seq<char> {
    ascii_lower(s).push('\n')
}

pub open spec fn opt_line(o: Option<Seq<char>>) -> Seq<char> {
    match o {
        Some(s) => hay_line(s),
        None => seq![],
    }
}

pub open spec fn lines_of(v: Seq<Seq<char>>) -> Seq<char>
    decreases v.len(),
{
    if v.len() == 0 {
        seq![]
    } else {
        lines_of(v.drop_last()) + hay_line(v.last())
    }
}

/// Every textual signal of a device, one lower-cased line each.
pub open spec fn haystack(d: DeviceView) -> Seq<char> {
    opt_line(d.vendor) + opt_line(d.dhcp_vendor_class) + opt_line(d.hostname) + lines_of(d.services)
}

pub open spec fn rule_matches(h: Seq<char>, i: int) -> bool {
    contains_seq(h, rule(i).needle@)
}

/// The winning rule among the first `n`: the most confident match, the
/// later one on ties.
pub open spec fn best_rule(h: Seq<char>, n: int) -> Option<int>
    decreases n,
{
    if n <= 0 {
        None
    } else {
        let b = best_rule(h, n - 1);
        if rule_matches(h, n - 1) {
            match b {
                None => Some(n - 1),
                Some(j) => if rule(n - 1).confidence_pct >= rule(j).confidence_pct {
                    Some(n - 1)
                } else {
                    Some(j)
                },
            }
        } else {
            b
        }
    }
}

/// The winning rule matches, no matching rule is more confident, and no
/// later matching rule is as confident (the last of equally confident
/// matches wins); with no winner, no rule matches.
pub proof fn law_strongest_match_wins(h: Seq<char>, n: int)
    requires
        0 <= n <= RULE_COUNT,
    ensures
        match best_rule(h, n) {
            Some(i) => 0 <= i < n && rule_matches(h, i) && (forall|j: int|
                0 <= j < n && rule_matches(h, j) ==> rule(j).confidence_pct <= rule(
                    i,
                ).confidence_pct) && (forall|j: int|
                i < j < n && rule_matches(h, j) ==> rule(j).confidence_pct < rule(
                    i,
                ).confidence_pct),
            None => forall|j: int| 0 <= j < n ==> !rule_matches(h, j),
        },
    decreases n,
{
    if n > 0 {
        law_strongest_match_wins(h, n - 1);
    }
}

proof fn lemma_occurs_within(a: Seq<char>, b: Seq<char>, c: Seq<char>, n: Seq<char>, k: int)
    requires
        occurs_at(b, n, k),
    ensures
        occurs_at(a + b + c, n, a.len() + k),
{
    assert((a + b + c).subrange(a.len() + k, a.len() + k + n.len()) =~= b.subrange(k, k + n.len()));
}

proof fn lemma_occurs_trans(h: Seq<char>, m: Seq<char>, n: Seq<char>, k: int, j: int)
    requires
        occurs_at(h, m, k),
        occurs_at(m, n, j),
    ensures
        occurs_at(h, n, k + j),
{
    assert(h.subrange(k + j, k + j + n.len()) =~= m.subrange(j, j + n.len()));
}

proof fn lemma_line_holds(s: Seq<char>)
    ensures
        occurs_at(hay_line(s), ascii_lower(s), 0),
{
    assert(hay_line(s).subrange(0, ascii_lower(s).len() as int) =~= ascii_lower(s));
}

proof fn lemma_lines_of_holds(v: Seq<Seq<char>>, i: int)
    requires
        0 <= i < v.len(),
    ensures
        contains_seq(lines_of(v), ascii_lower(v[i])),
    decreases v.len(),
{
    let init = v.drop_last();
    lemma_line_holds(v.last());
    if i == v.len() - 1 {
        lemma_occurs_within(lines_of(init), hay_line(v.last()), seq![], ascii_lower(v[i]), 0);
        assert(lines_of(init) + hay_line(v.last()) + seq![] =~= lines_of(v));
    } else {
        lemma_lines_of_holds(init, i);
        assert(init[i] == v[i]);
        let k = choose|k: int| occurs_at(lines_of(init), ascii_lower(v[i]), k);
        lemma_occurs_within(seq![], lines_of(init), hay_line(v.last()), ascii_lower(v[i]), k);
        assert(Seq::<char>::empty() + lines_of(init) + hay_line(v.last()) =~= lines_of(v));
    }
}

/// Every textual signal of a device occurs, lower-cased, in the haystack the
/// rules are matched against: the vendor, the DHCP vendor class, the
/// hostname and each service.
pub proof fn law_haystack_holds_signals(d: DeviceView)
    ensures
        d.vendor matches Some(v) ==> contains_seq(haystack(d), ascii_lower(v)),
        d.dhcp_vendor_class matches Some(v) ==> contains_seq(haystack(d), ascii_lower(v)),
        d.hostname matches Some(h) ==> contains_seq(haystack(d), ascii_lower(h)),
        forall|i: int|
            0 <= i < d.services.len() ==> contains_seq(haystack(d), ascii_lower(#[trigger] d.services[i])),
{
    let a = opt_line(d.vendor);
    let b = opt_line(d.dhcp_vendor_class);
    let c = opt_line(d.hostname);
    let e = lines_of(d.services);
    assert(haystack(d) == a + b + c + e);
    if let Some(v) = d.vendor {
        lemma_line_holds(v);
        lemma_occurs_within(seq![], a, b + c + e, ascii_lower(v), 0);
        assert(Seq::<char>::empty() + a + (b + c + e) =~= haystack(d));
    }
    if let Some(v) = d.dhcp_vendor_class {
        lemma_line_holds(v);
        lemma_occurs_within(a, b, c + e, ascii_lower(v), 0);
        assert(a + b + (c + e) =~= haystack(d));
    }
    if let Some(h) = d.hostname {
        lemma_line_holds(h);
        lemma_occurs_within(a + b, c, e, ascii_lower(h), 0);
    }
    assert forall|i: int| 0 <= i < d.services.len() implies contains_seq(
        haystack(d),
        ascii_lower(#[trigger] d.services[i]),
    ) by {
        lemma_lines_of_holds(d.services, i);
        let k = choose|k: int| occurs_at(e, ascii_lower(d.services[i]), k);
        lemma_occurs_within(a + b + c, e, seq![], ascii_lower(d.services[i]), k);
        assert(a + b + c + e + seq![] =~= haystack(d));
    }
}

/// A device one of whose textual signals (vendor, DHCP vendor class,
/// hostname or a service) holds a rule's needle, ignoring ASCII case, is
/// classified, at least as confidently as that rule.
pub proof fn law_signal_with_needle_is_classified(d: DeviceView, s: Seq<char>, i: int)
    requires
        0 <= i < RULE_COUNT,
        contains_seq(ascii_lower(s), rule(i).needle@),
        d.vendor == Some(s) || d.dhcp_vendor_class == Some(s) || d.hostname == Some(s)
            || d.services.contains(s),
    ensures
        classification_of(d) matches Some(c) && c.confidence_pct >= rule(i).confidence_pct,
{
    law_haystack_holds_signals(d);
    if d.services.contains(s) && !(d.vendor == Some(s) || d.dhcp_vendor_class == Some(s)
        || d.hostname == Some(s)) {
        let j = choose|j: int| 0 <= j < d.services.len() && d.services[j] == s;
        assert(contains_seq(haystack(d), ascii_lower(d.services[j])));
    }
    assert(contains_seq(haystack(d), ascii_lower(s)));
    let k = choose|k: int| occurs_at(haystack(d), ascii_lower(s), k);
    let j = choose|j: int| occurs_at(ascii_lower(s), rule(i).needle@, j);
    lemma_occurs_trans(haystack(d), ascii_lower(s), rule(i).needle@, k, j);
    assert(rule_matches(haystack(d), i));
    law_strongest_match_wins(haystack(d), RULE_COUNT as int);
}

/// What the rule fingerprinter concludes about a device.
pub open spec fn classification_of(d: DeviceView) -> Option<ClassificationView> {
    match best_rule(haystack(d), RULE_COUNT as int) {
        None => None,
        Some(i) => Some(
            ClassificationView {
                device_type: rule(i).device_type@,
                category: rule(i).category,
                confidence_pct: rule(i).confidence_pct,
                rationale: "matched `"@ + rule(i).needle@ + "`"@,
            },
        ),
    }
}

/// The default fingerprinter used by the agent.
#[derive(Default)]
pub struct RuleFingerprinter;

impl RuleFingerprinter {
    pub fn new() -> Self {
        RuleFingerprinter
    }
}

fn push_line(h: &mut Vec<char>, s: &str)
    ensures
        final(h)@ == old(h)@ + hay_line(s@),
{
    let c = chars_of(s);
    let l = lower_chars(c.as_slice());
    let mut i: usize = 0;
    while i < l.len()
        invariant
            i <= l@.len(),
            h@ == old(h)@ + l@.take(i as int),
        decreases l.len() - i,
    {
        h.push(l[i]);
        i += 1;
        assert(l@.take(i as int) == l@.take(i - 1).push(l@[i - 1]));
    }
    h.push('\n');
    assert(l@.take(l@.len() as int) == l@);
    assert(h@ =~= old(h)@ + hay_line(s@));
}

fn push_opt_line(h: &mut Vec<char>, o: &Option<String>)
    ensures
        final(h)@ == old(h)@ + opt_line(crate::registry::opt_text(*o)),
{
    match o {
        Some(s) => push_line(h, s.as_str()),
        None => {
            assert(old(h)@ + opt_line(crate::registry::opt_text(*o)) =~= old(h)@);
        },
    }
}

/// Concatenate every textual signal into one lowercase text for matching.
fn build_haystack(d: &Device) -> (h: Vec<char>)
    ensures
        h@ == haystack(d@),
{
    let mut h: Vec<char> = Vec::new();
    push_opt_line(&mut h, &d.vendor);
    push_opt_line(&mut h, &d.dhcp_vendor_class);
    push_opt_line(&mut h, &d.hostname);
    let ghost head = h@;
    let ghost sv = d@.services;
    let mut i: usize = 0;
    while i < d.services.len()
        invariant
            i <= d.services@.len(),
            sv == d@.services,
            h@ == head + lines_of(sv.take(i as int)),
        decreases d.services.len() - i,
    {
        push_line(&mut h, d.services[i].as_str());
        i += 1;
        assert(sv.take(i as int).drop_last() == sv.take(i - 1));
    }
    assert(sv.take(sv.len() as int) == sv);
    assert(head =~= opt_line(d@.vendor) + opt_line(d@.dhcp_vendor_class) + opt_line(d@.hostname));
    h
}

impl Fingerprinter for RuleFingerprinter {
    fn classify(&self, device: &Device) -> (r: Option<Classification>)
        ensures
            match r {
                Some(c) => classification_of(device@) == Some(c@),
                None => classification_of(device@) is None,
            },
    {
        let hay = build_haystack(device);
        let mut best: Option<usize> = None;
        let mut i: usize = 0;
        while i < RULE_COUNT
            invariant
                i <= RULE_COUNT,
                hay@ == haystack(device@),
                match best {
                    Some(j) => best_rule(hay@, i as int) == Some(j as int) && j < i,
                    None => best_rule(hay@, i as int) is None,
                },
            decreases RULE_COUNT - i,
        {
            let r = rule_at(i);
            let needle = chars_of(r.needle);
            if contains_chars(hay.as_slice(), needle.as_slice()) {
                match best {
                    None => {
                        best = Some(i);
                    },
                    Some(j) => {
                        let rj = rule_at(j);
                        if r.confidence_pct >= rj.confidence_pct {
                            best = Some(i);
                        }
                    },
                }
            }
            i += 1;
        }
        match best {
            None => None,
            Some(j) => {
                let r = rule_at(j);
                let mut device_type = String::new();
                push_str(&mut device_type, r.device_type);
                let mut rationale = String::new();
                push_str(&mut rationale, "matched `");
                push_str(&mut rationale, r.needle);
                push_str(&mut rationale, "`");
                let c = Classification {
                    device_type,
                    category: r.category,
                    confidence_pct: r.confidence_pct,
                    rationale,
                };
                assert(device_type@ =~= rule(j as int).device_type@);
                Some(c)
            },
        }
    }
}

} // verus!
