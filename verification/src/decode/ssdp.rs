//! SSDP / UPnP decoder.
//!
//! SSDP rides on HTTP-over-UDP, so the payload is line-oriented text. The
//! `SERVER` banner (good for OS/device identification) and the advertised
//! `NT`/`ST` device/service types are pulled out.

use vstd::prelude::*;

use super::{lemma_signals_push, signals_view, Signal, SpecSignal};
use crate::text::{
    ascii_upper, char_vecs, chars_eq, chars_of, find_char, first_char_index, push_chars,
    push_str, split_char, split_chars, string_from_chars, sub_chars, trim, trim_chars,
    upper_chars, utf8_lossy, utf8_lossy_chars, lemma_split_nonempty,
};

verus! {

/// A line with one trailing carriage return removed.
pub open spec fn strip_cr(s: Seq<char>) -> Seq<char> {
    if s.len() > 0 && s.last() == '\r' {
        s.drop_last()
    } else {
        s
    }
}

/// `str::lines`: pieces ended by `\n` (and a `\r` before it) or by the end of
/// the text; a final empty piece is not a line.
pub open spec fn text_lines(s: Seq<char>) -> Seq<Seq<char>> {
    let parts = split_char(s, '\n');
    let n = parts.len();
    let terminated = Seq::new((n - 1) as nat, |i: int| strip_cr(parts[i]));
    if parts[n - 1].len() == 0 {
        terminated
    } else {
        terminated.push(parts[n - 1])
    }
}

/// The signal of one header line: `SERVER: x` gives the service
/// `server=x`, `NT: x` and `ST: x` give the service `x`, when the trimmed
/// value is non-empty; the header name is trimmed and compared in upper case.
pub open spec fn line_signal(line: Seq<char>) -> Seq<SpecSignal> {
    match first_char_index(line, ':') {
        None => seq![],
        Some(k) => {
            let key = ascii_upper(trim(line.take(k)));
            let value = trim(line.skip(k + 1));
            if value.len() == 0 {
                seq![]
            } else if key == "SERVER"@ {
                seq![SpecSignal::Service("server="@ + value)]
            } else if key == "NT"@ || key == "ST"@ {
                seq![SpecSignal::Service(value)]
            } else {
                seq![]
            }
        },
    }
}

pub open spec fn lines_signals(lines: Seq<Seq<char>>) -> Seq<SpecSignal>
    decreases lines.len(),
{
    if lines.len() == 0 {
        seq![]
    } else {
        lines_signals(lines.drop_last()) + line_signal(lines.last())
    }
}

/// Everything `decode` extracts from an SSDP payload (decoded as lossy UTF-8).
pub open spec fn ssdp_signals(p: Seq<u8>) -> Seq<SpecSignal> {
    lines_signals(text_lines(utf8_lossy_chars(p)))
}

fn decode_line(line: &[char], server: &[char], nt: &[char], st: &[char], out: &mut Vec<Signal>)
    requires
        server@ == "SERVER"@,
        nt@ == "NT"@,
        st@ == "ST"@,
    ensures
        signals_view(final(out)@) == signals_view(old(out)@) + line_signal(line@),
{
    let ghost before = out@;
    match find_char(line, ':') {
        None => {
        },
        Some(k) => {
            assert(k < line@.len());
            assert(k < line.len());
            let key_raw = sub_chars(line, 0, k);
            let key_trim = trim_chars(key_raw.as_slice(), false);
            let key = upper_chars(key_trim.as_slice());
            let value_raw = sub_chars(line, k + 1, line.len());
            let value = trim_chars(value_raw.as_slice(), false);
            assert(key_raw@ == line@.take(k as int));
            assert(value_raw@ == line@.skip(k + 1));
            if value.len() > 0 {
                if chars_eq(key.as_slice(), server) {
                    let mut s = String::new();
                    push_str(&mut s, "server=");
                    push_chars(&mut s, value.as_slice());
                    let sig = Signal::Service(s);
                    out.push(sig);
                    proof {
                        lemma_signals_push(before, sig);
                    }
                } else if chars_eq(key.as_slice(), nt) || chars_eq(key.as_slice(), st) {
                    let sig = Signal::Service(string_from_chars(value.as_slice()));
                    out.push(sig);
                    proof {
                        lemma_signals_push(before, sig);
                    }
                }
            }
        },
    }
    assert(signals_view(out@) =~= signals_view(before) + line_signal(line@));
}

/// Decode an SSDP payload: its bytes are read as lossy UTF-8 and the text
/// is decoded line by line.
pub fn decode(payload: &[u8]) -> (r: Vec<Signal>)
    ensures
        signals_view(r@) == ssdp_signals(payload@),
{
    let text = utf8_lossy(payload);
    decode_text(text.as_str())
}

/// The signals of SSDP header text, line by line.
pub fn decode_text(text: &str) -> (r: Vec<Signal>)
    ensures
        signals_view(r@) == lines_signals(text_lines(text@)),
{
    let chars = chars_of(text);
    let parts = split_chars(chars.as_slice(), '\n');
    let ghost pv = split_char(chars@, '\n');
    let ghost lines = text_lines(chars@);
    proof {
        lemma_split_nonempty(chars@, '\n');
    }
    let server = chars_of("SERVER");
    let nt = chars_of("NT");
    let st = chars_of("ST");
    let mut signals: Vec<Signal> = Vec::new();
    let n = parts.len();
    let mut i: usize = 0;
    assert(signals_view(signals@) =~= seq![]);
    while i + 1 < n
        invariant
            n == pv.len(),
            n >= 1,
            char_vecs(parts@) == pv,
            pv == split_char(chars@, '\n'),
            lines == text_lines(chars@),
            i + 1 <= n,
            signals_view(signals@) == lines_signals(lines.take(i as int)),
            server@ == "SERVER"@,
            nt@ == "NT"@,
            st@ == "ST"@,
        decreases n - i,
    {
        let part = &parts[i];
        let line = if part.len() > 0 && part[part.len() - 1] == '\r' {
            sub_chars(part.as_slice(), 0, part.len() - 1)
        } else {
            sub_chars(part.as_slice(), 0, part.len())
        };
        assert(part@ == pv[i as int]);
        assert(lines[i as int] == line@);
        let ghost before = signals_view(signals@);
        decode_line(line.as_slice(), server.as_slice(), nt.as_slice(), st.as_slice(), &mut signals);
        i += 1;
        assert(lines.take(i as int).drop_last() == lines.take(i - 1));
    }
    let last = &parts[n - 1];
    assert(last@ == pv[n - 1]);
    let ghost terminated = Seq::new((n - 1) as nat, |j: int| strip_cr(pv[j]));
    if last.len() > 0 {
        let line = sub_chars(last.as_slice(), 0, last.len());
        let ghost before = signals_view(signals@);
        decode_line(line.as_slice(), server.as_slice(), nt.as_slice(), st.as_slice(), &mut signals);
        assert(lines == terminated.push(pv[n - 1]));
        assert(lines.drop_last() =~= lines.take(n - 1));
        assert(lines.last() == line@);
        assert(signals_view(signals@) == lines_signals(lines));
    } else {
        assert(lines == terminated);
        assert(lines.take(n - 1) =~= lines);
    }
    signals
}

} // verus!
