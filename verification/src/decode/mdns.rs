//! mDNS / Bonjour decoder.
//!
//! Pulls service types and `.local` hostnames out of an mDNS packet. A
//! `_service._tcp.local` name becomes a [`Signal::Service`]; a bare
//! `host.local` becomes a [`Signal::Hostname`].

use vstd::prelude::*;

use super::dns::{extract_names, names_in, string_views};
use super::{signals_view, Signal, SpecSignal};
use crate::text::{
    chars_of, contains_chars, contains_seq, ends_with, ends_with_chars, string_from_chars,
    sub_chars,
};

verus! {

/// The signal one extracted name yields.
pub open spec fn name_signal(name: Seq<char>) -> Seq<SpecSignal> {
    if contains_seq(name, "._tcp"@) || contains_seq(name, "._udp"@) {
        seq![SpecSignal::Service(name)]
    } else if ends_with(name, ".local"@) {
        let host = name.take(name.len() - ".local"@.len());
        if host.len() > 0 && host[0] != '_' {
            seq![SpecSignal::Hostname(host)]
        } else {
            seq![]
        }
    } else {
        seq![]
    }
}

/// The signals of a sequence of names, in order.
pub open spec fn names_signals(names: Seq<Seq<char>>) -> Seq<SpecSignal>
    decreases names.len(),
{
    if names.len() == 0 {
        seq![]
    } else {
        names_signals(names.drop_last()) + name_signal(names.last())
    }
}

proof fn lemma_names_signals_kinds(names: Seq<Seq<char>>)
    ensures
        forall|i: int|
            0 <= i < names_signals(names).len() ==> (#[trigger] names_signals(names)[i] is Service
                || names_signals(names)[i] is Hostname),
    decreases names.len(),
{
    if names.len() > 0 {
        lemma_names_signals_kinds(names.drop_last());
        let a = names_signals(names.drop_last());
        let b = name_signal(names.last());
        assert forall|i: int| 0 <= i < (a + b).len() implies ((a + b)[i] is Service || (a
            + b)[i] is Hostname) by {
            if i >= a.len() {
                assert((a + b)[i] == b[i - a.len()]);
            } else {
                assert((a + b)[i] == a[i]);
            }
        }
    }
}

/// An mDNS payload yields only service and host-name signals.
pub proof fn law_mdns_signal_kinds(p: Seq<u8>)
    ensures
        forall|i: int|
            0 <= i < mdns_signals(p).len() ==> (#[trigger] mdns_signals(p)[i] is Service
                || mdns_signals(p)[i] is Hostname),
{
    lemma_names_signals_kinds(names_in(p));
}

proof fn lemma_names_signals_members(names: Seq<Seq<char>>, s: SpecSignal)
    ensures
        names_signals(names).contains(s) <==> exists|i: int|
            0 <= i < names.len() && #[trigger] name_signal(names[i]).contains(s),
    decreases names.len(),
{
    if names.len() > 0 {
        let init = names.drop_last();
        lemma_names_signals_members(init, s);
        let a = names_signals(init);
        let b = name_signal(names.last());
        let last = names.len() - 1;
        if (a + b).contains(s) {
            let j = choose|j: int| 0 <= j < (a + b).len() && (a + b)[j] == s;
            if j < a.len() {
                assert(a[j] == s);
                let i = choose|i: int| 0 <= i < init.len() && #[trigger] name_signal(init[i]).contains(s);
                assert(names[i] == init[i]);
            } else {
                assert(b[j - a.len()] == s);
                assert(name_signal(names[last]).contains(s));
            }
        }
        if exists|i: int| 0 <= i < names.len() && #[trigger] name_signal(names[i]).contains(s) {
            let i = choose|i: int| 0 <= i < names.len() && #[trigger] name_signal(names[i]).contains(s);
            if i < last {
                assert(init[i] == names[i]);
                assert(a.contains(s));
                let j = choose|j: int| 0 <= j < a.len() && a[j] == s;
                assert((a + b)[j] == s);
            } else {
                let j = choose|j: int| 0 <= j < b.len() && b[j] == s;
                assert((a + b)[a.len() + j] == s);
            }
        }
    }
}

/// An mDNS payload yields a service signal for exactly the extracted names
/// that contain `._tcp` or `._udp`, and the host-name signal `host` exactly
/// when `host.local` is extracted and is no such name, and `host` is not
/// empty and does not start with `_`.
pub proof fn law_mdns_signal_sources(p: Seq<u8>, name: Seq<char>, host: Seq<char>)
    ensures
        mdns_signals(p).contains(SpecSignal::Service(name)) <==> (names_in(p).contains(name) && (
        contains_seq(name, "._tcp"@) || contains_seq(name, "._udp"@))),
        mdns_signals(p).contains(SpecSignal::Hostname(host)) <==> ({
            let n = host + ".local"@;
            &&& names_in(p).contains(n)
            &&& !contains_seq(n, "._tcp"@)
            &&& !contains_seq(n, "._udp"@)
            &&& host.len() > 0
            &&& host[0] != '_'
        }),
{
    let names = names_in(p);
    let service = SpecSignal::Service(name);
    let hostname = SpecSignal::Hostname(host);
    let n = host + ".local"@;
    let tcp = |m: Seq<char>| contains_seq(m, "._tcp"@) || contains_seq(m, "._udp"@);
    lemma_names_signals_members(names, service);
    lemma_names_signals_members(names, hostname);
    if mdns_signals(p).contains(service) {
        let i = choose|i: int| 0 <= i < names.len() && #[trigger] name_signal(names[i]).contains(service);
        let m = names[i];
        let j = choose|j: int| 0 <= j < name_signal(m).len() && name_signal(m)[j] == service;
        assert(tcp(m));
        assert(m == name);
        assert(names.contains(name));
    }
    if names.contains(name) && tcp(name) {
        let i = choose|i: int| 0 <= i < names.len() && names[i] == name;
        assert(name_signal(names[i])[0] == service);
        assert(name_signal(names[i]).contains(service));
    }
    if names.contains(n) && !tcp(n) && host.len() > 0 && host[0] != '_' {
        let i = choose|i: int| 0 <= i < names.len() && names[i] == n;
        assert(n.subrange(n.len() - ".local"@.len(), n.len() as int) =~= ".local"@);
        assert(ends_with(n, ".local"@));
        assert(n.take(n.len() - ".local"@.len()) =~= host);
        assert(name_signal(names[i])[0] == hostname);
        assert(name_signal(names[i]).contains(hostname));
    }
    if mdns_signals(p).contains(hostname) {
        let i = choose|i: int| 0 <= i < names.len() && #[trigger] name_signal(names[i]).contains(hostname);
        let m = names[i];
        let j = choose|j: int| 0 <= j < name_signal(m).len() && name_signal(m)[j] == hostname;
        assert(!tcp(m));
        assert(ends_with(m, ".local"@));
        let h = m.take(m.len() - ".local"@.len());
        assert(h == host);
        assert(m.subrange(m.len() - ".local"@.len(), m.len() as int) == ".local"@);
        assert(m =~= h + m.subrange(m.len() - ".local"@.len(), m.len() as int));
        assert(m =~= n);
        assert(names.contains(n));
    }
}

/// Everything `decode` extracts from an mDNS payload.
pub open spec fn mdns_signals(p: Seq<u8>) -> Seq<SpecSignal> {
    names_signals(names_in(p))
}

pub fn decode(payload: &[u8]) -> (r: Vec<Signal>)
    requires
        payload@.len() <= isize::MAX,
    ensures
        signals_view(r@) == mdns_signals(payload@),
{
    let names = extract_names(payload);
    let ghost nv = string_views(names@);
    let mut signals: Vec<Signal> = Vec::new();
    let tcp = chars_of("._tcp");
    let udp = chars_of("._udp");
    let local = chars_of(".local");
    let mut rest = names;
    let n = rest.len();
    let mut i: usize = 0;
    assert(signals_view(signals@) =~= seq![]);
    while i < n
        invariant
            n == nv.len(),
            i <= n,
            rest@.len() == n - i,
            forall|k: int| 0 <= k < rest@.len() ==> #[trigger] rest@[k]@ == nv[i + k],
            signals_view(signals@) == names_signals(nv.take(i as int)),
            tcp@ == "._tcp"@,
            udp@ == "._udp"@,
            local@ == ".local"@,
        decreases n - i,
    {
        let ghost old_rest = rest@;
        let name = rest.remove(0);
        assert(name@ == nv[i as int]);
        assert(rest@ == old_rest.drop_first());
        let ghost before = signals_view(signals@);
        let chars = chars_of(name.as_str());
        if contains_chars(chars.as_slice(), tcp.as_slice()) || contains_chars(
            chars.as_slice(),
            udp.as_slice(),
        ) {
            let sig = Signal::Service(name);
            signals.push(sig);
        } else if ends_with_chars(chars.as_slice(), local.as_slice()) {
            let host = sub_chars(chars.as_slice(), 0, chars.len() - local.len());
            if host.len() > 0 && host[0] != '_' {
                let sig = Signal::Hostname(string_from_chars(host.as_slice()));
                signals.push(sig);
            }
        }
        i += 1;
        proof {
            assert(nv.take(i as int).drop_last() == nv.take(i - 1));
            assert(nv.take(i as int).last() == name@);
            assert(signals_view(signals@) =~= before + name_signal(name@));
        }
        assert forall|k: int| 0 <= k < rest@.len() implies #[trigger] rest@[k]@ == nv[i + k] by {
        }
    }
    assert(nv.take(n as int) == nv);
    signals
}

} // verus!
