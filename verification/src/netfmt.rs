//! Formatting and parsing of MAC addresses, IPv4 addresses and timestamps.

use vstd::prelude::*;

use crate::common::{Ipv4Be, MacAddr};
use crate::text::{
    ascii_upper, chars_of, char_vecs, dec, dec_int, hex2, hex_digit, join_char, lemma_split_join, pad0,
    push_dec, push_dec_i64, push_dec_padded, push_hex2, split_char, split_chars, string_push,
};

verus! {

// ---------------------------------------------------------------------------
// MAC addresses.
// ---------------------------------------------------------------------------

/// `aa:bb:cc:dd:ee:ff`: lower-case two-digit hex octets joined by `:`.
pub open spec fn mac_text(mac: MacAddr) -> Seq<char> {
    join_char(Seq::new(6, |i: int| hex2(mac[i])), ':')
}

/// Render a MAC as lowercase colon-separated hex (`aa:bb:cc:dd:ee:ff`).
pub fn fmt_mac(mac: &MacAddr) -> (s: String)
    ensures
        s@ == mac_text(*mac),
{
    let ghost f = |i: int| hex2(mac[i]);
    let mut s = String::new();
    let mut i: usize = 0;
    while i < 6
        invariant
            i <= 6,
            f == (|i: int| hex2(mac[i])),
            i == 0 ==> s@.len() == 0,
            i > 0 ==> s@ == join_char(Seq::new(i as nat, f), ':'),
        decreases 6 - i,
    {
        let ghost before = s@;
        if i > 0 {
            string_push(&mut s, ':');
        }
        push_hex2(&mut s, mac[i]);
        i += 1;
        proof {
            let parts = Seq::new(i as nat, f);
            if i == 1 {
                assert(s@ =~= hex2(mac[0]));
                assert(join_char(parts, ':') == parts[0]);
            } else {
                assert(parts.drop_last() =~= Seq::new((i - 1) as nat, f));
                assert(parts.last() == hex2(mac[i - 1]));
                assert(s@ =~= join_char(parts, ':'));
            }
        }
    }
    s
}

/// Value of a hex digit (`char::to_digit(16)`).
pub open spec fn hex_val(c: char) -> Option<nat> {
    let u = c as u32;
    if 48 <= u <= 57 {
        Some((u - 48) as nat)
    } else if 97 <= u <= 102 {
        Some((u - 87) as nat)
    } else if 65 <= u <= 70 {
        Some((u - 55) as nat)
    } else {
        None
    }
}

pub open spec fn all_hex(s: Seq<char>) -> bool {
    forall|i: int| 0 <= i < s.len() ==> (#[trigger] hex_val(s[i])) is Some
}

/// Value of a run of hex digits, most significant first.
pub open spec fn hex_value(s: Seq<char>) -> nat
    decreases s.len(),
{
    if s.len() == 0 {
        0
    } else {
        hex_value(s.drop_last()) * 16 + hex_val(s.last()).unwrap()
    }
}

/// The text after an optional leading `+`.
pub open spec fn hex_digits_part(s: Seq<char>) -> Seq<char> {
    if s.len() > 0 && s[0] == '+' {
        s.drop_first()
    } else {
        s
    }
}

/// `u8::from_str_radix(s, 16)`: an optional `+`, then at least one hex
/// digit, with a value that fits a byte.
pub open spec fn parse_hex_u8(s: Seq<char>) -> Option<u8> {
    let d = hex_digits_part(s);
    if d.len() > 0 && all_hex(d) && hex_value(d) <= 255 {
        Some(hex_value(d) as u8)
    } else {
        None
    }
}

/// What `parse_mac` returns for a text.
pub open spec fn mac_of_text(s: Seq<char>) -> Option<MacAddr> {
    let parts = split_char(s, ':');
    if parts.len() == 6 && forall|i: int| 0 <= i < 6 ==> (#[trigger] parse_hex_u8(parts[i])) is Some {
        Some(
            [
                parse_hex_u8(parts[0]).unwrap(),
                parse_hex_u8(parts[1]).unwrap(),
                parse_hex_u8(parts[2]).unwrap(),
                parse_hex_u8(parts[3]).unwrap(),
                parse_hex_u8(parts[4]).unwrap(),
                parse_hex_u8(parts[5]).unwrap(),
            ],
        )
    } else {
        None
    }
}

fn hex_digit_value(c: char) -> (r: Option<u32>)
    ensures
        match r {
            Some(v) => hex_val(c) == Some(v as nat) && v < 16,
            None => hex_val(c) is None,
        },
{
    let u = c as u32;
    if 48 <= u && u <= 57 {
        Some(u - 48)
    } else if 97 <= u && u <= 102 {
        Some(u - 87)
    } else if 65 <= u && u <= 70 {
        Some(u - 55)
    } else {
        None
    }
}

proof fn lemma_hex_value_prefix(s: Seq<char>, k: int)
    requires
        0 <= k <= s.len(),
        all_hex(s),
    ensures
        hex_value(s) >= hex_value(s.take(k)),
    decreases s.len(),
{
    if k < s.len() {
        let t = s.drop_last();
        assert(all_hex(t)) by {
            assert forall|i: int| 0 <= i < t.len() implies (#[trigger] hex_val(t[i])) is Some by {
                assert(t[i] == s[i]);
            }
        }
        lemma_hex_value_prefix(t, k);
        assert(t.take(k) == s.take(k));
    } else {
        assert(s.take(k) == s);
    }
}

/// `u8::from_str_radix(s, 16).ok()`.
pub fn parse_hex_byte(s: &[char]) -> (r: Option<u8>)
    ensures
        r == parse_hex_u8(s@),
{
    let start: usize = if s.len() > 0 && s[0] == '+' {
        1
    } else {
        0
    };
    let ghost d = hex_digits_part(s@);
    assert(d == s@.skip(start as int));
    if start == s.len() {
        return None;
    }
    let mut acc: u32 = 0;
    let mut i: usize = start;
    while i < s.len()
        invariant
            start <= i <= s@.len(),
            d == s@.skip(start as int),
            d == hex_digits_part(s@),
            all_hex(d.take(i - start)),
            acc as nat == hex_value(d.take(i - start)),
            acc <= 255,
        decreases s.len() - i,
    {
        let dv = match hex_digit_value(s[i]) {
            Some(v) => v,
            None => {
                assert(d[i - start] == s@[i as int]);
                proof {
                    if all_hex(d) {
                        assert(hex_val(d[i - start]) is Some);
                    }
                    assert(!all_hex(d));
                    assert(parse_hex_u8(s@) is None);
                }
                return None;
            },
        };
        proof {
            let t = d.take(i - start + 1);
            assert(t.drop_last() == d.take(i - start));
            assert(t.last() == s@[i as int]);
            assert(hex_value(t) == hex_value(d.take(i - start)) * 16 + dv);
            assert(all_hex(t)) by {
                assert forall|j: int| 0 <= j < t.len() implies (#[trigger] hex_val(t[j])) is Some by {
                    if j < t.len() - 1 {
                        assert(t[j] == d.take(i - start)[j]);
                    }
                }
            }
        }
        acc = acc * 16 + dv;
        i += 1;
        if acc > 255 {
            proof {
                if all_hex(d) {
                    lemma_hex_value_prefix(d, i - start);
                    assert(hex_value(d) > 255);
                }
                assert(parse_hex_u8(s@) is None);
            }
            return None;
        }
    }
    assert(d.take(i - start) == d);
    Some(acc as u8)
}

/// Parse `aa:bb:cc:dd:ee:ff` (case-insensitive) into a [`MacAddr`].
pub fn parse_mac(s: &str) -> (r: Option<MacAddr>)
    ensures
        r == mac_of_text(s@),
{
    let chars = chars_of(s);
    let parts = split_chars(chars.as_slice(), ':');
    let ghost pv = split_char(s@, ':');
    assert(char_vecs(parts@) == pv);
    if parts.len() != 6 {
        return None;
    }
    let mut out: [u8; 6] = [0u8; 6];
    let mut i: usize = 0;
    while i < 6
        invariant
            i <= 6,
            parts@.len() == 6,
            char_vecs(parts@) == pv,
            pv == split_char(s@, ':'),
            forall|j: int| 0 <= j < i ==> parse_hex_u8(pv[j]) == Some(#[trigger] out@[j]),
        decreases 6 - i,
    {
        assert(parts@[i as int]@ == pv[i as int]);
        match parse_hex_byte(parts[i].as_slice()) {
            Some(b) => {
                out[i] = b;
            },
            None => {
                assert(parse_hex_u8(pv[i as int]) is None);
                return None;
            },
        }
        i += 1;
    }
    assert(out@[0] == parse_hex_u8(pv[0]).unwrap());
    assert(out@[1] == parse_hex_u8(pv[1]).unwrap());
    assert(out@[2] == parse_hex_u8(pv[2]).unwrap());
    assert(out@[3] == parse_hex_u8(pv[3]).unwrap());
    assert(out@[4] == parse_hex_u8(pv[4]).unwrap());
    assert(out@[5] == parse_hex_u8(pv[5]).unwrap());
    assert(out@ =~= mac_of_text(s@).unwrap()@);
    Some(out)
}

proof fn lemma_parse_hex2(b: u8)
    ensures
        parse_hex_u8(hex2(b)) == Some(b),
{
    let s = hex2(b);
    let hi = (b / 16) as nat;
    let lo = (b % 16) as nat;
    assert(hex_val(hex_digit(hi)) == Some(hi));
    assert(hex_val(hex_digit(lo)) == Some(lo));
    assert(s[0] != '+');
    assert(all_hex(s));
    assert(s.drop_last() =~= seq![hex_digit(hi)]);
    let one = seq![hex_digit(hi)];
    assert(one.drop_last() =~= Seq::<char>::empty());
    assert(one.last() == hex_digit(hi));
    assert(hex_value(Seq::<char>::empty()) == 0);
    assert(hex_value(one) == hi);
    assert(hex_value(s) == hi * 16 + lo);
}

/// Parsing a formatted MAC gives the MAC back.
pub proof fn law_mac_roundtrip(mac: MacAddr)
    ensures
        mac_of_text(mac_text(mac)) == Some(mac),
{
    let parts = Seq::new(6, |i: int| hex2(mac[i]));
    assert forall|k: int, i: int| 0 <= k < parts.len() && 0 <= i < parts[k].len() implies #[trigger] parts[k][i] != ':' by {
        let b = mac[k];
        assert(parts[k] == hex2(b));
    }
    lemma_split_join(parts, ':');
    assert forall|i: int| 0 <= i < 6 implies (#[trigger] parse_hex_u8(parts[i])) is Some by {
        lemma_parse_hex2(mac[i]);
    }
    lemma_parse_hex2(mac[0]);
    lemma_parse_hex2(mac[1]);
    lemma_parse_hex2(mac[2]);
    lemma_parse_hex2(mac[3]);
    lemma_parse_hex2(mac[4]);
    lemma_parse_hex2(mac[5]);
    assert(mac_of_text(mac_text(mac)).unwrap()@ =~= mac@);
}

proof fn lemma_upper_join(parts: Seq<Seq<char>>)
    ensures
        ascii_upper(join_char(parts, ':')) == join_char(
            Seq::new(parts.len(), |i: int| ascii_upper(parts[i])),
            ':',
        ),
    decreases parts.len(),
{
    let up = Seq::new(parts.len(), |i: int| ascii_upper(parts[i]));
    if parts.len() == 0 {
        assert(ascii_upper(join_char(parts, ':')) =~= join_char(up, ':'));
    } else if parts.len() == 1 {
        assert(ascii_upper(join_char(parts, ':')) =~= join_char(up, ':'));
    } else {
        lemma_upper_join(parts.drop_last());
        assert(up.drop_last() =~= Seq::new(
            parts.drop_last().len(),
            |i: int| ascii_upper(parts.drop_last()[i]),
        ));
        let a = join_char(parts.drop_last(), ':');
        assert(ascii_upper(a.push(':') + parts.last()) =~= ascii_upper(a).push(':') + ascii_upper(
            parts.last(),
        ));
    }
}

proof fn lemma_parse_upper_hex2(b: u8)
    ensures
        parse_hex_u8(ascii_upper(hex2(b))) == Some(b),
{
    lemma_parse_hex2(b);
    let s = hex2(b);
    let u = ascii_upper(s);
    assert(hex_val(u[0]) == hex_val(s[0]));
    assert(hex_val(u[1]) == hex_val(s[1]));
    assert(u[0] != '+');
    assert(u.drop_last() =~= seq![u[0]]);
    assert(s.drop_last() =~= seq![s[0]]);
    assert(seq![u[0]].drop_last() =~= Seq::<char>::empty());
    assert(seq![s[0]].drop_last() =~= Seq::<char>::empty());
    assert(hex_value(seq![u[0]]) == hex_value(seq![s[0]]));
    assert(hex_value(u) == hex_value(s));
    assert(all_hex(u));
}

/// Parsing is case-insensitive: a formatted MAC in upper case parses back
/// to the MAC too.
pub proof fn law_mac_roundtrip_upper(mac: MacAddr)
    ensures
        mac_of_text(ascii_upper(mac_text(mac))) == Some(mac),
{
    let lower = Seq::new(6, |i: int| hex2(mac[i]));
    lemma_upper_join(lower);
    let parts = Seq::new(6, |i: int| ascii_upper(hex2(mac[i])));
    assert(Seq::new(lower.len(), |i: int| ascii_upper(lower[i])) =~= parts);
    assert forall|k: int, i: int| 0 <= k < parts.len() && 0 <= i < parts[k].len() implies #[trigger] parts[k][i] != ':' by {
        let b = mac[k];
        assert(parts[k] == ascii_upper(hex2(b)));
    }
    lemma_split_join(parts, ':');
    assert forall|i: int| 0 <= i < 6 implies (#[trigger] parse_hex_u8(parts[i])) is Some by {
        lemma_parse_upper_hex2(mac[i]);
    }
    lemma_parse_upper_hex2(mac[0]);
    lemma_parse_upper_hex2(mac[1]);
    lemma_parse_upper_hex2(mac[2]);
    lemma_parse_upper_hex2(mac[3]);
    lemma_parse_upper_hex2(mac[4]);
    lemma_parse_upper_hex2(mac[5]);
    assert(mac_of_text(ascii_upper(mac_text(mac))).unwrap()@ =~= mac@);
}

// ---------------------------------------------------------------------------
// IPv4 addresses.
// ---------------------------------------------------------------------------

/// Octet `k` (0 = most significant) of an address in network byte order.
pub open spec fn ipv4_octet(ip: Ipv4Be, k: int) -> nat {
    ((ip as nat) / pow256(3 - k)) % 256
}

pub open spec fn pow256(e: int) -> nat {
    if e <= 0 {
        1
    } else if e == 1 {
        256
    } else if e == 2 {
        65536
    } else {
        16777216
    }
}

/// Dotted-quad rendering: the four octets in decimal, joined by `.`.
pub open spec fn ipv4_text(ip: Ipv4Be) -> Seq<char> {
    join_char(Seq::new(4, |k: int| dec(ipv4_octet(ip, k))), '.')
}

/// Render an IPv4 address (network byte order) as dotted-quad.
pub fn fmt_ipv4(ip: Ipv4Be) -> (s: String)
    ensures
        s@ == ipv4_text(ip),
{
    let ghost f = |k: int| dec(ipv4_octet(ip, k));
    let mut s = String::new();
    let mut k: usize = 0;
    while k < 4
        invariant
            k <= 4,
            f == (|k: int| dec(ipv4_octet(ip, k))),
            k == 0 ==> s@.len() == 0,
            k > 0 ==> s@ == join_char(Seq::new(k as nat, f), '.'),
        decreases 4 - k,
    {
        if k > 0 {
            string_push(&mut s, '.');
        }
        let div: u32 = if k == 0 {
            16777216
        } else if k == 1 {
            65536
        } else if k == 2 {
            256
        } else {
            1
        };
        assert(div as nat == pow256(3 - k as int));
        let octet: u32 = (ip / div) % 256;
        push_dec(&mut s, octet as u64);
        k += 1;
        proof {
            let parts = Seq::new(k as nat, f);
            if k == 1 {
                assert(s@ =~= dec(ipv4_octet(ip, 0)));
                assert(join_char(parts, '.') == parts[0]);
            } else {
                assert(parts.drop_last() =~= Seq::new((k - 1) as nat, f));
                assert(parts.last() == dec(ipv4_octet(ip, k - 1)));
                assert(s@ =~= join_char(parts, '.'));
            }
        }
    }
    s
}

// ---------------------------------------------------------------------------
// Timestamps.
// ---------------------------------------------------------------------------

/// Earliest and latest unix second the calendar conversion accepts
/// (-9999-01-01 00:00:00 and 9999-12-31 23:59:59 UTC).
pub open spec fn ts_in_range(secs: i64) -> bool {
    -377705116800 <= secs <= 253402300799
}

/// Whether `y` is a leap year of the proleptic Gregorian calendar.
pub open spec fn is_leap_year(y: int) -> bool {
    (y % 4 == 0 && y % 100 != 0) || y % 400 == 0
}

/// Number of days of month `m` (1 = January) of year `y`.
pub open spec fn month_len(y: int, m: int) -> int {
    if m == 2 {
        if is_leap_year(y) {
            29
        } else {
            28
        }
    } else if m == 4 || m == 6 || m == 9 || m == 11 {
        30
    } else {
        31
    }
}

/// `leap_count(b) - leap_count(a)` is the number of leap years in
/// `a + 1 ..= b`.
pub open spec fn leap_count(y: int) -> int {
    y / 4 - y / 100 + y / 400
}

/// The day number (days since 1970-01-01) of January 1st of year `y`.
pub open spec fn year_start(y: int) -> int {
    365 * (y - 1970) + leap_count(y - 1) - leap_count(1969)
}

/// Days of year `y` before the first of month `m`.
pub open spec fn days_before_month(y: int, m: int) -> int
    decreases m,
{
    if m <= 1 {
        0
    } else {
        days_before_month(y, m - 1) + month_len(y, m - 1)
    }
}

/// A date of the proleptic Gregorian calendar.
pub open spec fn valid_date(y: int, m: int, d: int) -> bool {
    1 <= m <= 12 && 1 <= d <= month_len(y, m)
}

/// The day number (days since 1970-01-01) of the date `y-m-d`.
pub open spec fn day_number(y: int, m: int, d: int) -> int {
    year_start(y) + days_before_month(y, m) + d - 1
}

/// The date whose day number is `day`.
pub open spec fn date_of_day(day: int) -> (int, int, int) {
    choose|y: int, m: int, d: int| valid_date(y, m, d) && day_number(y, m, d) == day
}

proof fn lemma_leap_count_step(y: int)
    ensures
        leap_count(y) - leap_count(y - 1) == (if is_leap_year(y) {
            1int
        } else {
            0int
        }),
{
    assert(y / 4 - (y - 1) / 4 == (if y % 4 == 0 { 1int } else { 0int })) by (nonlinear_arith);
    assert(y / 100 - (y - 1) / 100 == (if y % 100 == 0 { 1int } else { 0int })) by (nonlinear_arith);
    assert(y / 400 - (y - 1) / 400 == (if y % 400 == 0 { 1int } else { 0int })) by (nonlinear_arith);
    assert(y % 100 == 0 ==> y % 4 == 0) by (nonlinear_arith);
    assert(y % 400 == 0 ==> y % 100 == 0) by (nonlinear_arith);
}

proof fn lemma_year_len(y: int)
    ensures
        year_start(y + 1) - year_start(y) == 365 + (if is_leap_year(y) {
            1int
        } else {
            0int
        }),
        days_before_month(y, 13) == year_start(y + 1) - year_start(y),
{
    lemma_leap_count_step(y);
    reveal_with_fuel(days_before_month, 13);
}

proof fn lemma_days_before_month_mono(y: int, a: int, b: int)
    requires
        1 <= a <= b <= 13,
    ensures
        days_before_month(y, a) + (if a < b {
            month_len(y, a)
        } else {
            0
        }) <= days_before_month(y, b),
    decreases b - a,
{
    if a + 1 < b {
        lemma_days_before_month_mono(y, a, b - 1);
    }
}

proof fn lemma_year_start_mono(a: int, b: int)
    requires
        a <= b,
    ensures
        year_start(a) <= year_start(b),
        a < b ==> year_start(a + 1) <= year_start(b),
    decreases b - a,
{
    lemma_year_len(a);
    if a < b {
        lemma_year_start_mono(a + 1, b);
    }
}

proof fn lemma_date_in_year(y: int, m: int, d: int)
    requires
        valid_date(y, m, d),
    ensures
        year_start(y) <= day_number(y, m, d) < year_start(y + 1),
{
    lemma_year_len(y);
    lemma_days_before_month_mono(y, m, 13);
    lemma_days_before_month_mono(y, 1, m);
}

/// Distinct dates have distinct day numbers.
proof fn lemma_day_number_unique(y1: int, m1: int, d1: int, y2: int, m2: int, d2: int)
    requires
        valid_date(y1, m1, d1),
        valid_date(y2, m2, d2),
        day_number(y1, m1, d1) == day_number(y2, m2, d2),
    ensures
        y1 == y2 && m1 == m2 && d1 == d2,
{
    lemma_date_in_year(y1, m1, d1);
    lemma_date_in_year(y2, m2, d2);
    if y1 < y2 {
        lemma_year_start_mono(y1, y2);
    } else if y2 < y1 {
        lemma_year_start_mono(y2, y1);
    } else if m1 < m2 {
        lemma_days_before_month_mono(y1, m1, m2);
    } else if m2 < m1 {
        lemma_days_before_month_mono(y1, m2, m1);
    }
}

/// `time::OffsetDateTime::from_unix_timestamp` followed by the year, month,
/// day, hour, minute and second accessors. The crate accepts exactly the
/// seconds of years -9999..=9999 and counts dates in the proleptic Gregorian
/// calendar: the date is the one whose day number is the second divided by
/// 86400 (rounding down), and hour, minute and second come from the second
/// of the day (`rem_euclid(86400)`).
#[verifier::external_body]
fn utc_fields(secs: i64) -> (r: Option<(i32, u8, u8, u8, u8, u8)>)
    ensures
        r is Some <==> ts_in_range(secs),
        r matches Some(f) ==> {
            &&& valid_date(f.0 as int, f.1 as int, f.2 as int)
            &&& day_number(f.0 as int, f.1 as int, f.2 as int) == secs as int / 86400
            &&& -9999 <= f.0 <= 9999
            &&& f.3 as int == (secs as int % 86400) / 3600
            &&& f.4 as int == ((secs as int % 86400) % 3600) / 60
            &&& f.5 as int == (secs as int % 86400) % 60
        },
{
    match time::OffsetDateTime::from_unix_timestamp(secs) {
        Ok(t) => Some((t.year(), u8::from(t.month()), t.day(), t.hour(), t.minute(), t.second())),
        Err(_) => None,
    }
}

/// `{:04}` of a year: four digits, or a `-` and three digits when negative.
pub open spec fn year_text(y: int) -> Seq<char> {
    if y < 0 {
        seq!['-'] + pad0(dec((-y) as nat), 3)
    } else {
        pad0(dec(y as nat), 4)
    }
}

/// `YYYY-MM-DD HH:MM:SS` from calendar fields.
pub open spec fn datetime_text(y: int, mo: nat, d: nat, h: nat, mi: nat, s: nat) -> Seq<char> {
    year_text(y) + seq!['-'] + pad0(dec(mo), 2) + seq!['-'] + pad0(dec(d), 2) + seq![' '] + pad0(
        dec(h),
        2,
    ) + seq![':'] + pad0(dec(mi), 2) + seq![':'] + pad0(dec(s), 2)
}

/// What `fmt_ts` renders for a unix second.
pub open spec fn ts_text(secs: i64) -> Seq<char> {
    if ts_in_range(secs) {
        let (y, mo, d) = date_of_day(secs as int / 86400);
        let sod = secs as int % 86400;
        datetime_text(y as int, mo as nat, d as nat, (sod / 3600) as nat, ((sod % 3600) / 60) as nat, (sod % 60) as nat)
    } else {
        dec_int(secs as int)
    }
}

/// Calendar fields as `{:04}-{:02}-{:02} {:02}:{:02}:{:02}` renders them.
pub fn format_datetime(y: i32, mo: u8, d: u8, h: u8, mi: u8, sec: u8) -> (s: String)
    ensures
        s@ == datetime_text(y as int, mo as nat, d as nat, h as nat, mi as nat, sec as nat),
{
    let mut s = String::new();
    if y < 0 {
        string_push(&mut s, '-');
        push_dec_padded(&mut s, (0i64 - y as i64) as u64, 3);
    } else {
        push_dec_padded(&mut s, y as u64, 4);
    }
    assert(s@ =~= year_text(y as int));
    string_push(&mut s, '-');
    push_dec_padded(&mut s, mo as u64, 2);
    string_push(&mut s, '-');
    push_dec_padded(&mut s, d as u64, 2);
    string_push(&mut s, ' ');
    push_dec_padded(&mut s, h as u64, 2);
    string_push(&mut s, ':');
    push_dec_padded(&mut s, mi as u64, 2);
    string_push(&mut s, ':');
    push_dec_padded(&mut s, sec as u64, 2);
    assert(s@ =~= datetime_text(y as int, mo as nat, d as nat, h as nat, mi as nat, sec as nat));
    s
}

/// Render a unix timestamp (seconds) as a compact UTC `YYYY-MM-DD HH:MM:SS`;
/// outside the calendar's range, the plain number.
pub fn fmt_ts(unix_secs: i64) -> (s: String)
    ensures
        s@ == ts_text(unix_secs),
{
    match utc_fields(unix_secs) {
        Some((y, mo, d, h, mi, sec)) => {
            proof {
                let day = unix_secs as int / 86400;
                let (y2, m2, d2) = date_of_day(day);
                assert(valid_date(y as int, mo as int, d as int) && day_number(y as int, mo as int, d as int) == day);
                lemma_day_number_unique(y as int, mo as int, d as int, y2, m2, d2);
            }
            format_datetime(y, mo, d, h, mi, sec)
        },
        None => {
            let mut s = String::new();
            push_dec_i64(&mut s, unix_secs);
            assert(s@ =~= dec_int(unix_secs as int));
            s
        },
    }
}

} // verus!
