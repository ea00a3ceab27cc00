//! DHCP decoder.
//!
//! Extracts the three fields that matter for device fingerprinting:
//!   * option 12  — hostname,
//!   * option 55  — parameter request list (the classic DHCP fingerprint),
//!   * option 60  — vendor class identifier.
//!
//! The BOOTP magic cookie (`0x63825363`) is located and the option TLVs after
//! it are walked, so the decoder does not depend on where the copied bytes
//! start.

use vstd::prelude::*;
use vstd::utf8::{decode_utf8, valid_utf8};

use super::{lemma_signals_push, signals_view, Signal, SpecSignal};
use crate::text::{
    chars_of, dec, join_char, push_dec, string_from_chars, string_push, trim_chars, trim_seq,
    utf8_str,
};

verus! {

pub const OPT_PAD: u8 = 0;

pub const OPT_HOSTNAME: u8 = 12;

pub const OPT_PARAM_REQUEST_LIST: u8 = 55;

pub const OPT_VENDOR_CLASS: u8 = 60;

pub const OPT_END: u8 = 255;

/// The BOOTP magic cookie starts at index `i`.
pub open spec fn cookie_at(p: Seq<u8>, i: int) -> bool {
    0 <= i && i + 4 <= p.len() && p[i] == 0x63 && p[i + 1] == 0x82 && p[i + 2] == 0x53 && p[i
        + 3] == 0x63
}

/// Index of the first cookie at or after `from`.
pub open spec fn first_cookie(p: Seq<u8>, from: int) -> Option<int>
    decreases p.len() - from,
{
    if from < 0 || from + 4 > p.len() {
        None
    } else if cookie_at(p, from) {
        Some(from)
    } else {
        first_cookie(p, from + 1)
    }
}

/// Offset of the first option byte (just past the first magic cookie).
pub open spec fn options_start(p: Seq<u8>) -> Option<int> {
    match first_cookie(p, 0) {
        Some(i) => Some(i + 4),
        None => None,
    }
}

/// Hostname or vendor-class text: the option data as UTF-8, trimmed
/// (the hostname first loses NUL padding), when valid and non-empty.
pub open spec fn text_option(data: Seq<u8>, strip_nul: bool) -> Option<Seq<char>> {
    if valid_utf8(data) {
        let t = if strip_nul {
            trim_seq(trim_seq(decode_utf8(data), true), false)
        } else {
            trim_seq(decode_utf8(data), false)
        };
        if t.len() > 0 {
            Some(t)
        } else {
            None
        }
    } else {
        None
    }
}

/// The parameter request list: each code in decimal, joined by commas.
pub open spec fn prl_text(data: Seq<u8>) -> Seq<char> {
    join_char(Seq::new(data.len(), |k: int| dec(data[k] as nat)), ',')
}

/// The signals one option contributes.
pub open spec fn option_signals(code: u8, data: Seq<u8>) -> Seq<SpecSignal> {
    if code == OPT_HOSTNAME {
        match text_option(data, true) {
            Some(h) => seq![SpecSignal::Hostname(h)],
            None => seq![],
        }
    } else if code == OPT_PARAM_REQUEST_LIST {
        if data.len() > 0 {
            seq![SpecSignal::DhcpFingerprint(prl_text(data))]
        } else {
            seq![]
        }
    } else if code == OPT_VENDOR_CLASS {
        match text_option(data, false) {
            Some(v) => seq![SpecSignal::DhcpVendorClass(v)],
            None => seq![],
        }
    } else {
        seq![]
    }
}

/// The signals of the option walk from offset `i`: pad bytes are skipped,
/// the end option or a truncated option stops the walk.
pub open spec fn dhcp_walk(p: Seq<u8>, i: int) -> Seq<SpecSignal>
    decreases p.len() - i,
{
    if i < 0 || i >= p.len() {
        seq![]
    } else {
        let code = p[i];
        if code == OPT_PAD {
            dhcp_walk(p, i + 1)
        } else if code == OPT_END {
            seq![]
        } else if i + 1 >= p.len() {
            seq![]
        } else {
            let len = p[i + 1] as int;
            let start = i + 2;
            if start + len > p.len() {
                seq![]
            } else {
                option_signals(code, p.subrange(start, start + len)) + dhcp_walk(p, start + len)
            }
        }
    }
}

/// Everything `decode` extracts from a payload.
pub open spec fn dhcp_signals(p: Seq<u8>) -> Seq<SpecSignal> {
    match options_start(p) {
        Some(i) => dhcp_walk(p, i),
        None => seq![],
    }
}

/// Offset of the first option byte (just past the magic cookie), if present.
fn find_options(payload: &[u8]) -> (r: Option<usize>)
    ensures
        match r {
            Some(i) => options_start(payload@) == Some(i as int),
            None => options_start(payload@) is None,
        },
{
    if payload.len() < 4 {
        return None;
    }
    let mut i: usize = 0;
    while i <= payload.len() - 4
        invariant
            payload@.len() >= 4,
            i <= payload@.len() - 3,
            first_cookie(payload@, 0) == first_cookie(payload@, i as int),
        decreases payload.len() - i,
    {
        if payload[i] == 0x63 && payload[i + 1] == 0x82 && payload[i + 2] == 0x53 && payload[i
            + 3] == 0x63 {
            return Some(i + 4);
        }
        i += 1;
    }
    None
}

/// The signals of one option's data.
fn decode_option(code: u8, data: &[u8], out: &mut Vec<Signal>)
    ensures
        signals_view(final(out)@) == signals_view(old(out)@) + option_signals(code, data@),
{
    let ghost before = out@;
    if code == OPT_HOSTNAME || code == OPT_VENDOR_CLASS {
        if let Some(text) = utf8_str(data) {
            let chars = chars_of(text);
            let t = if code == OPT_HOSTNAME {
                let inner = trim_chars(chars.as_slice(), true);
                trim_chars(inner.as_slice(), false)
            } else {
                trim_chars(chars.as_slice(), false)
            };
            if t.len() > 0 {
                let s = string_from_chars(t.as_slice());
                let sig = if code == OPT_HOSTNAME {
                    Signal::Hostname(s)
                } else {
                    Signal::DhcpVendorClass(s)
                };
                out.push(sig);
                proof {
                    lemma_signals_push(before, sig);
                }
            }
        }
        assert(signals_view(out@) =~= signals_view(before) + option_signals(code, data@));
    } else if code == OPT_PARAM_REQUEST_LIST {
        let ghost f = |k: int| dec(data@[k] as nat);
        let mut fp = String::new();
        let mut k: usize = 0;
        while k < data.len()
            invariant
                k <= data@.len(),
                f == (|k: int| dec(data@[k] as nat)),
                fp@ == join_char(Seq::new(k as nat, f), ','),
            decreases data.len() - k,
        {
            if k > 0 {
                string_push(&mut fp, ',');
            }
            push_dec(&mut fp, data[k] as u64);
            k += 1;
            proof {
                let parts = Seq::new(k as nat, f);
                if k == 1 {
                    assert(fp@ =~= parts[0]);
                } else {
                    assert(parts.drop_last() =~= Seq::new((k - 1) as nat, f));
                    assert(fp@ =~= join_char(parts.drop_last(), ',').push(',') + parts.last());
                }
            }
        }
        if data.len() > 0 {
            let sig = Signal::DhcpFingerprint(fp);
            out.push(sig);
            proof {
                lemma_signals_push(before, sig);
            }
        }
        assert(signals_view(out@) =~= signals_view(before) + option_signals(code, data@));
    } else {
        assert(signals_view(out@) =~= signals_view(before) + option_signals(code, data@));
    }
}

/// Decode the hostname, parameter request list and vendor class options of a
/// DHCP payload.
pub fn decode(payload: &[u8]) -> (r: Vec<Signal>)
    ensures
        signals_view(r@) == dhcp_signals(payload@),
{
    let opts_start = match find_options(payload) {
        Some(i) => i,
        None => {
            let v: Vec<Signal> = Vec::new();
            assert(signals_view(v@) =~= seq![]);
            return v;
        },
    };
    let ghost p = payload@;
    let mut signals: Vec<Signal> = Vec::new();
    let mut i: usize = opts_start;
    assert(signals_view(signals@) =~= seq![]);
    while i < payload.len()
        invariant_except_break
            signals_view(signals@) + dhcp_walk(p, i as int) == dhcp_walk(p, opts_start as int),
        invariant
            p == payload@,
        ensures
            signals_view(signals@) == dhcp_walk(p, opts_start as int),
        decreases payload.len() - i,
    {
        let code = payload[i];
        let ghost at = i as int;
        i += 1;
        if code == OPT_PAD {
            continue;
        }
        if code == OPT_END {
            assert(dhcp_walk(p, at) =~= seq![]);
            assert(signals_view(signals@) + dhcp_walk(p, at) =~= signals_view(signals@));
            break;
        }
        if i >= payload.len() {
            assert(signals_view(signals@) + dhcp_walk(p, at) =~= signals_view(signals@));
            break;
        }
        let len = payload[i] as usize;
        i += 1;
        if len > payload.len() - i {
            assert(signals_view(signals@) + dhcp_walk(p, at) =~= signals_view(signals@));
            break;
        }
        let data = crate::text::sub_bytes(payload, i, i + len);
        let ghost sv_before = signals_view(signals@);
        decode_option(code, data.as_slice(), &mut signals);
        i += len;
        proof {
            assert(dhcp_walk(p, at) == option_signals(code, data@) + dhcp_walk(p, i as int));
            assert(signals_view(signals@) + dhcp_walk(p, i as int) =~= sv_before + dhcp_walk(
                p,
                at,
            ));
        }
    }
    signals
}

} // verus!
