//! Minimal DNS name extraction, sufficient for mDNS service/host discovery.
//!
//! This is deliberately not a full DNS parser: for fingerprinting only the
//! human-readable names (`_service._tcp.local`, `host.local`) matter, and
//! they live uncompressed in the mDNS question section. Valid
//! length-prefixed label runs are scanned for and the ones that look like
//! service/host names are kept.

use vstd::prelude::*;

use crate::capture::{dns_wire, dns_wire_prefix};

use crate::text::{
    char_vecs, chars_eq, chars_of, contains_chars, contains_seq, ends_with, ends_with_chars,
    join_char, join_chars,
};

verus! {

/// Label bytes: printable ASCII (`is_ascii_graphic`) or a space.
pub open spec fn label_byte_ok(b: u8) -> bool {
    0x20 <= b <= 0x7e
}

/// ASCII bytes as characters.
pub open spec fn ascii_chars(b: Seq<u8>) -> Seq<char> {
    Seq::new(b.len(), |i: int| b[i] as char)
}

/// Reading labels from `pos`, having already read `labels`: the dotted name
/// and the offset after it. A zero byte ends the name; a length byte with
/// either of its top two bits set (a compression pointer) ends a non-empty
/// name two bytes later and rejects an empty one; a label that runs past the
/// buffer or holds a non-printable byte rejects the name.
pub open spec fn read_labels(buf: Seq<u8>, pos: int, labels: Seq<Seq<char>>) -> Option<
    (Seq<char>, int),
>
    decreases buf.len() - pos,
{
    if pos < 0 || pos >= buf.len() {
        None
    } else {
        let len = buf[pos] as int;
        if len == 0 {
            Some((join_char(labels, '.'), pos + 1))
        } else if len >= 64 {
            if labels.len() == 0 {
                None
            } else {
                Some((join_char(labels, '.'), pos + 2))
            }
        } else {
            let end = pos + 1 + len;
            if end > buf.len() {
                None
            } else {
                let label = buf.subrange(pos + 1, end);
                if forall|i: int| 0 <= i < label.len() ==> label_byte_ok(#[trigger] label[i]) {
                    read_labels(buf, end, labels.push(ascii_chars(label)))
                } else {
                    None
                }
            }
        }
    }
}

/// What `read_name` returns.
pub open spec fn name_at(buf: Seq<u8>, start: int) -> Option<(Seq<char>, int)> {
    read_labels(buf, start, seq![])
}

/// The labels of a name as text.
pub open spec fn label_texts(labels: Seq<Seq<u8>>) -> Seq<Seq<char>> {
    Seq::new(labels.len(), |i: int| ascii_chars(labels[i]))
}

/// Labels a name can carry uncompressed: 1 to 63 printable bytes each.
pub open spec fn plain_labels(labels: Seq<Seq<u8>>) -> bool {
    forall|i: int|
        0 <= i < labels.len() ==> 1 <= (#[trigger] labels[i]).len() <= 63 && forall|j: int|
            0 <= j < labels[i].len() ==> label_byte_ok(#[trigger] labels[i][j])
}

proof fn lemma_read_labels_wire(buf: Seq<u8>, p: int, acc: Seq<Seq<char>>, ls: Seq<Seq<u8>>)
    requires
        plain_labels(ls),
        0 <= p,
        p + dns_wire(ls).len() <= buf.len(),
        buf.subrange(p, p + dns_wire(ls).len()) == dns_wire(ls),
    ensures
        read_labels(buf, p, acc) == Some((join_char(acc + label_texts(ls), '.'), (p + dns_wire(ls).len()) as int)),
    decreases ls.len(),
{
    let w = dns_wire(ls);
    assert(buf[p] == w[0]);
    if ls.len() == 0 {
        assert(acc + label_texts(ls) =~= acc);
    } else {
        let l = ls[0];
        let rest = ls.drop_first();
        let end = p + 1 + l.len();
        assert(w == seq![l.len() as u8] + l + dns_wire(rest));
        assert(buf[p] as int == l.len());
        assert(buf.subrange(p + 1, end) =~= l) by {
            assert forall|j: int| 0 <= j < l.len() implies buf.subrange(p + 1, end)[j] == l[j] by {
                assert(buf[p + 1 + j] == w[1 + j]);
            }
        }
        assert(buf.subrange(end, end + dns_wire(rest).len()) =~= dns_wire(rest)) by {
            assert forall|j: int| 0 <= j < dns_wire(rest).len() implies buf.subrange(
                end,
                end + dns_wire(rest).len(),
            )[j] == dns_wire(rest)[j] by {
                assert(buf[end + j] == w[1 + l.len() + j]);
            }
        }
        assert(plain_labels(rest)) by {
            assert forall|i: int| 0 <= i < rest.len() implies 1 <= (#[trigger] rest[i]).len() <= 63
                && forall|j: int| 0 <= j < rest[i].len() ==> label_byte_ok(#[trigger] rest[i][j]) by {
                assert(rest[i] == ls[i + 1]);
            }
        }
        assert(forall|j: int| 0 <= j < l.len() ==> label_byte_ok(#[trigger] l[j])) by {
            assert(l == ls[0]);
        }
        lemma_read_labels_wire(buf, end, acc.push(ascii_chars(l)), rest);
        assert(acc.push(ascii_chars(l)) + label_texts(rest) =~= acc + label_texts(ls));
    }
}

/// A name encoded as length-prefixed labels reads back, wherever it stands:
/// `read_name` returns its labels joined by `.` and the offset just past
/// its terminating zero byte.
pub proof fn law_read_name_reads_encoded(prefix: Seq<u8>, labels: Seq<Seq<u8>>, suffix: Seq<u8>)
    requires
        plain_labels(labels),
    ensures
        name_at(prefix + dns_wire(labels) + suffix, prefix.len() as int) == Some(
            (join_char(label_texts(labels), '.'), (prefix.len() + dns_wire(labels).len()) as int),
        ),
{
    let buf = prefix + dns_wire(labels) + suffix;
    let p = prefix.len() as int;
    assert(buf.subrange(p, p + dns_wire(labels).len()) =~= dns_wire(labels));
    lemma_read_labels_wire(buf, p, seq![], labels);
    assert(Seq::<Seq<char>>::empty() + label_texts(labels) =~= label_texts(labels));
}

proof fn lemma_read_labels_pointer(
    buf: Seq<u8>,
    p: int,
    acc: Seq<Seq<char>>,
    ls: Seq<Seq<u8>>,
)
    requires
        plain_labels(ls),
        acc.len() + ls.len() > 0,
        0 <= p,
        p + dns_wire_prefix(ls).len() < buf.len(),
        buf.subrange(p, p + dns_wire_prefix(ls).len()) == dns_wire_prefix(ls),
        buf[p + dns_wire_prefix(ls).len()] >= 64,
    ensures
        read_labels(buf, p, acc) == Some(
            (join_char(acc + label_texts(ls), '.'), (p + dns_wire_prefix(ls).len() + 2) as int),
        ),
    decreases ls.len(),
{
    let w = dns_wire_prefix(ls);
    if ls.len() == 0 {
        assert(acc + label_texts(ls) =~= acc);
    } else {
        let l = ls[0];
        let rest = ls.drop_first();
        let end = p + 1 + l.len();
        assert(w == seq![l.len() as u8] + l + dns_wire_prefix(rest));
        assert(buf[p] == w[0]);
        assert(buf[p] as int == l.len());
        assert(buf.subrange(p + 1, end) =~= l) by {
            assert forall|j: int| 0 <= j < l.len() implies buf.subrange(p + 1, end)[j] == l[j] by {
                assert(buf[p + 1 + j] == w[1 + j]);
            }
        }
        assert(buf.subrange(end, end + dns_wire_prefix(rest).len()) =~= dns_wire_prefix(rest)) by {
            assert forall|j: int| 0 <= j < dns_wire_prefix(rest).len() implies buf.subrange(
                end,
                end + dns_wire_prefix(rest).len(),
            )[j] == dns_wire_prefix(rest)[j] by {
                assert(buf[end + j] == w[1 + l.len() + j]);
            }
        }
        assert(plain_labels(rest)) by {
            assert forall|i: int| 0 <= i < rest.len() implies 1 <= (#[trigger] rest[i]).len() <= 63
                && forall|j: int| 0 <= j < rest[i].len() ==> label_byte_ok(#[trigger] rest[i][j]) by {
                assert(rest[i] == ls[i + 1]);
            }
        }
        assert(forall|j: int| 0 <= j < l.len() ==> label_byte_ok(#[trigger] l[j])) by {
            assert(l == ls[0]);
        }
        lemma_read_labels_pointer(buf, end, acc.push(ascii_chars(l)), rest);
        assert(acc.push(ascii_chars(l)) + label_texts(rest) =~= acc + label_texts(ls));
    }
}

/// A run of labels cut short by a compression pointer (a length byte with
/// either of its top two bits set) reads back as those labels joined by
/// `.`, ending two bytes after the pointer's first byte; the pointer is not
/// followed.
pub proof fn law_read_name_stops_at_pointer(
    prefix: Seq<u8>,
    labels: Seq<Seq<u8>>,
    pointer: u8,
    target: u8,
    suffix: Seq<u8>,
)
    requires
        plain_labels(labels),
        labels.len() > 0,
        pointer & 0xC0 != 0,
    ensures
        name_at(prefix + dns_wire_prefix(labels) + seq![pointer, target] + suffix, prefix.len() as int)
            == Some(
            (
                join_char(label_texts(labels), '.'),
                (prefix.len() + dns_wire_prefix(labels).len() + 2) as int,
            ),
        ),
{
    let buf = prefix + dns_wire_prefix(labels) + seq![pointer, target] + suffix;
    let p = prefix.len() as int;
    let n = dns_wire_prefix(labels).len();
    assert(buf.subrange(p, p + n) =~= dns_wire_prefix(labels));
    assert(buf[p + n] == pointer);
    assert(pointer & 0xC0 != 0 ==> pointer >= 64) by (bit_vector);
    lemma_read_labels_wire_pointer_start(buf, p, labels);
}

proof fn lemma_read_labels_wire_pointer_start(buf: Seq<u8>, p: int, labels: Seq<Seq<u8>>)
    requires
        plain_labels(labels),
        labels.len() > 0,
        0 <= p,
        p + dns_wire_prefix(labels).len() < buf.len(),
        buf.subrange(p, p + dns_wire_prefix(labels).len()) == dns_wire_prefix(labels),
        buf[p + dns_wire_prefix(labels).len()] >= 64,
    ensures
        name_at(buf, p) == Some(
            (join_char(label_texts(labels), '.'), (p + dns_wire_prefix(labels).len() + 2) as int),
        ),
{
    lemma_read_labels_pointer(buf, p, seq![], labels);
    assert(Seq::<Seq<char>>::empty() + label_texts(labels) =~= label_texts(labels));
}

/// A name cannot start with a compression pointer, nor run past the end of
/// the buffer.
pub proof fn law_read_name_rejects(buf: Seq<u8>, start: int)
    requires
        0 <= start < buf.len(),
    ensures
        buf[start] & 0xC0 != 0 ==> name_at(buf, start) is None,
        buf[start] as int > 0 && buf[start] < 64 && start + 1 + buf[start] as int > buf.len()
            ==> name_at(buf, start) is None,
{
    let b = buf[start];
    assert(b & 0xC0 != 0 ==> b >= 64) by (bit_vector);
}

/// Every character of a name read is a printable ASCII character (the dots
/// between labels included).
pub proof fn law_read_name_printable(buf: Seq<u8>, start: int)
    ensures
        name_at(buf, start) matches Some((name, _)) ==> forall|i: int|
            0 <= i < name.len() ==> ' ' <= #[trigger] name[i] <= '~',
{
    lemma_read_labels_printable(buf, start, seq![]);
}

/// All characters of every label are printable.
pub open spec fn printable_labels(labels: Seq<Seq<char>>) -> bool {
    forall|k: int, i: int|
        0 <= k < labels.len() && 0 <= i < labels[k].len() ==> ' ' <= #[trigger] labels[k][i] <= '~'
}

proof fn lemma_join_printable(labels: Seq<Seq<char>>)
    requires
        printable_labels(labels),
    ensures
        forall|i: int| 0 <= i < join_char(labels, '.').len() ==> ' ' <= #[trigger] join_char(labels, '.')[i] <= '~',
    decreases labels.len(),
{
    if labels.len() > 1 {
        let init = labels.drop_last();
        assert(printable_labels(init)) by {
            assert forall|k: int, i: int| 0 <= k < init.len() && 0 <= i < init[k].len() implies ' '
                <= #[trigger] init[k][i] <= '~' by {
                assert(init[k] == labels[k]);
            }
        }
        lemma_join_printable(init);
        let a = join_char(init, '.').push('.');
        let l = labels.last();
        assert forall|i: int| 0 <= i < (a + l).len() implies ' ' <= #[trigger] (a + l)[i] <= '~' by {
            if i < a.len() {
                if i < a.len() - 1 {
                    assert(a[i] == join_char(init, '.')[i]);
                }
            } else {
                assert((a + l)[i] == l[i - a.len()]);
                assert(l == labels[labels.len() - 1]);
            }
        }
    } else if labels.len() == 1 {
        assert forall|i: int| 0 <= i < join_char(labels, '.').len() implies ' ' <= #[trigger] join_char(
            labels,
            '.',
        )[i] <= '~' by {
            assert(labels[0][i] == join_char(labels, '.')[i]);
        }
    }
}

proof fn lemma_read_labels_printable(buf: Seq<u8>, pos: int, labels: Seq<Seq<char>>)
    ensures
        printable_labels(labels) ==> (read_labels(buf, pos, labels) matches Some((name, _))
            ==> forall|i: int| 0 <= i < name.len() ==> ' ' <= #[trigger] name[i] <= '~'),
    decreases buf.len() - pos,
{
    if printable_labels(labels) && 0 <= pos < buf.len() {
        let len = buf[pos] as int;
        if len == 0 || len >= 64 {
            lemma_join_printable(labels);
        } else {
            let end = pos + 1 + len;
            if end <= buf.len() {
                let label = buf.subrange(pos + 1, end);
                if forall|i: int| 0 <= i < label.len() ==> label_byte_ok(#[trigger] label[i]) {
                    let next = labels.push(ascii_chars(label));
                    assert(printable_labels(next)) by {
                        assert forall|k: int, i: int| 0 <= k < next.len() && 0 <= i < next[k].len()
                            implies ' ' <= #[trigger] next[k][i] <= '~' by {
                            if k < labels.len() {
                                assert(next[k] == labels[k]);
                            } else {
                                assert(next[k] == ascii_chars(label));
                                assert(label_byte_ok(label[i]));
                            }
                        }
                    }
                    lemma_read_labels_printable(buf, end, next);
                }
            }
        }
    }
}

/// Read one length-prefixed DNS name starting at `start`.
///
/// Returns the dotted name and the offset just past the terminating zero byte.
/// Compression pointers terminate the read (they are not followed).
pub fn read_name(buf: &[u8], start: usize) -> (r: Option<(String, usize)>)
    requires
        buf@.len() <= isize::MAX,
    ensures
        match r {
            Some((name, next)) => name_at(buf@, start as int) == Some((name@, next as int)),
            None => name_at(buf@, start as int) is None,
        },
{
    let mut pos: usize = start;
    let mut labels: Vec<Vec<char>> = Vec::new();
    assert(char_vecs(labels@) =~= seq![]);
    loop
        invariant
            buf@.len() <= isize::MAX,
            read_labels(buf@, pos as int, char_vecs(labels@)) == name_at(buf@, start as int),
        decreases buf.len() - pos,
    {
        if pos >= buf.len() {
            return None;
        }
        let len = buf[pos] as usize;
        if len == 0 {
            let name = join_chars(&labels, '.');
            return Some((name, pos + 1));
        }
        if len >= 64 {
            if labels.len() == 0 {
                return None;
            }
            let name = join_chars(&labels, '.');
            return Some((name, pos + 2));
        }
        pos += 1;
        if len > buf.len() - pos {
            return None;
        }
        let end = pos + len;
        let mut label: Vec<char> = Vec::new();
        let mut i: usize = pos;
        #[verifier::loop_isolation(false)]
        while i < end
            invariant
                pos <= i <= end <= buf@.len(),
                label@ == ascii_chars(buf@.subrange(pos as int, i as int)),
                forall|k: int| pos <= k < i ==> label_byte_ok(#[trigger] buf@[k]),
            decreases end - i,
        {
            let b = buf[i];
            if !(0x20 <= b && b <= 0x7e) {
                proof {
                    let lab = buf@.subrange(pos as int, end as int);
                    assert(lab[i - pos] == b);
                }
                return None;
            }
            label.push(b as char);
            i += 1;
            assert(label@ =~= ascii_chars(buf@.subrange(pos as int, i as int)));
        }
        proof {
            let lab = buf@.subrange(pos as int, end as int);
            assert forall|k: int| 0 <= k < lab.len() implies label_byte_ok(#[trigger] lab[k]) by {
                assert(lab[k] == buf@[pos + k]);
            }
        }
        let ghost old_labels = char_vecs(labels@);
        labels.push(label);
        assert(char_vecs(labels@) =~= old_labels.push(
            ascii_chars(buf@.subrange(pos as int, end as int)),
        ));
        pos = end;
    }
}

/// Keep names that look like mDNS service types or `.local` hosts (3 to 255
/// characters; names read from the wire are ASCII, so this is their byte
/// length).
pub open spec fn is_interesting(name: Seq<char>) -> bool {
    3 <= name.len() <= 255 && (ends_with(name, ".local"@) || contains_seq(name, "._tcp"@)
        || contains_seq(name, "._udp"@))
}

fn is_interesting_exec(name: &[char]) -> (r: bool)
    ensures
        r == is_interesting(name@),
{
    let n = name.len();
    if n < 3 || n > 255 {
        return false;
    }
    let local = chars_of(".local");
    let tcp = chars_of("._tcp");
    let udp = chars_of("._udp");
    ends_with_chars(name, local.as_slice()) || contains_chars(name, tcp.as_slice())
        || contains_chars(name, udp.as_slice())
}

/// The interesting names read at offsets `0..k`, first occurrence kept.
pub open spec fn names_upto(buf: Seq<u8>, k: int) -> Seq<Seq<char>>
    decreases k,
{
    if k <= 0 {
        seq![]
    } else {
        let prev = names_upto(buf, k - 1);
        match name_at(buf, k - 1) {
            Some((name, _)) => if is_interesting(name) && !prev.contains(name) {
                prev.push(name)
            } else {
                prev
            },
            None => prev,
        }
    }
}

proof fn lemma_names_upto_distinct(buf: Seq<u8>, k: int)
    ensures
        names_upto(buf, k).no_duplicates(),
        forall|i: int| 0 <= i < names_upto(buf, k).len() ==> is_interesting(#[trigger] names_upto(buf, k)[i]),
    decreases k,
{
    if k > 0 {
        lemma_names_upto_distinct(buf, k - 1);
        let prev = names_upto(buf, k - 1);
        if let Some((name, _)) = name_at(buf, k - 1) {
            if is_interesting(name) && !prev.contains(name) {
                let next = prev.push(name);
                assert forall|i: int, j: int| 0 <= i < j < next.len() implies next[i] != next[j] by {
                    if j == prev.len() {
                        assert(next[i] == prev[i]);
                    }
                }
                assert forall|i: int| 0 <= i < next.len() implies is_interesting(#[trigger] next[i]) by {
                    if i < prev.len() {
                        assert(next[i] == prev[i]);
                    }
                }
            }
        }
    }
}

/// The extracted names are distinct, and each looks like a service type or
/// a `.local` host.
pub proof fn law_extracted_names_distinct(buf: Seq<u8>)
    ensures
        names_in(buf).no_duplicates(),
        forall|i: int| 0 <= i < names_in(buf).len() ==> is_interesting(#[trigger] names_in(buf)[i]),
{
    lemma_names_upto_distinct(buf, buf.len() as int);
}

/// The name read at offset `p` of `buf` is `name`.
pub open spec fn reads_name_at(buf: Seq<u8>, p: int, name: Seq<char>) -> bool {
    match name_at(buf, p) {
        Some((n, _)) => n == name,
        None => false,
    }
}

proof fn lemma_names_upto_members(buf: Seq<u8>, k: int, name: Seq<char>)
    requires
        0 <= k,
    ensures
        names_upto(buf, k).contains(name) <==> (is_interesting(name) && exists|p: int|
            0 <= p < k && #[trigger] reads_name_at(buf, p, name)),
    decreases k,
{
    lemma_names_upto_distinct(buf, k);
    if k > 0 {
        lemma_names_upto_members(buf, k - 1, name);
        let prev = names_upto(buf, k - 1);
        let next = names_upto(buf, k);
        if names_upto(buf, k).contains(name) {
            let i = choose|i: int| 0 <= i < next.len() && next[i] == name;
            assert(is_interesting(next[i]));
            if prev.contains(name) {
                let p = choose|p: int| 0 <= p < k - 1 && #[trigger] reads_name_at(buf, p, name);
                assert(0 <= p < k && reads_name_at(buf, p, name));
            } else {
                assert(i == prev.len()) by {
                    if i < prev.len() {
                        assert(next[i] == prev[i]);
                    }
                }
                assert(reads_name_at(buf, k - 1, name));
            }
        }
        if is_interesting(name) && exists|p: int| 0 <= p < k && #[trigger] reads_name_at(buf, p, name) {
            let p = choose|p: int| 0 <= p < k && #[trigger] reads_name_at(buf, p, name);
            if p < k - 1 {
                assert(prev.contains(name));
                let i = choose|i: int| 0 <= i < prev.len() && prev[i] == name;
                assert(next.contains(name)) by {
                    match name_at(buf, k - 1) {
                        Some((n, _)) => {
                            if is_interesting(n) && !prev.contains(n) {
                                assert(next[i] == prev[i]);
                            }
                        },
                        None => {},
                    }
                }
            } else {
                match name_at(buf, k - 1) {
                    Some((n, _)) => {
                        assert(n == name);
                        if !prev.contains(n) {
                            assert(next[prev.len() as int] == name);
                        }
                    },
                    None => {},
                }
            }
        }
    }
}

/// A name is extracted exactly when the name read at some offset of the
/// buffer is that name and it looks like a service type or a `.local` host.
pub proof fn law_extracted_names_are_interesting_reads(buf: Seq<u8>, name: Seq<char>)
    ensures
        names_in(buf).contains(name) <==> (is_interesting(name) && exists|p: int|
            0 <= p < buf.len() && #[trigger] reads_name_at(buf, p, name)),
{
    lemma_names_upto_members(buf, buf.len() as int, name);
}

/// A name is extracted exactly when some offset of the buffer reads it, it
/// is 3 to 255 characters long, and it ends with `.local` or contains
/// `._tcp` or `._udp`.
pub proof fn law_extracted_names_are_service_or_local(buf: Seq<u8>, name: Seq<char>)
    ensures
        names_in(buf).contains(name) <==> ({
            &&& 3 <= name.len() <= 255
            &&& ends_with(name, ".local"@) || contains_seq(name, "._tcp"@) || contains_seq(
                name,
                "._udp"@,
            )
            &&& exists|p: int| 0 <= p < buf.len() && #[trigger] reads_name_at(buf, p, name)
        }),
{
    law_extracted_names_are_interesting_reads(buf, name);
}

/// Some offset before `p` reads `name`.
pub open spec fn read_before(buf: Seq<u8>, p: int, name: Seq<char>) -> bool {
    exists|q: int| q < p && #[trigger] reads_name_at(buf, q, name)
}

proof fn lemma_names_upto_order(buf: Seq<u8>, k: int)
    requires
        0 <= k,
    ensures
        forall|i: int, j: int, p: int|
            #![trigger reads_name_at(buf, p, names_upto(buf, k)[j]), names_upto(buf, k)[i]]
            0 <= i < j < names_upto(buf, k).len() && reads_name_at(buf, p, names_upto(buf, k)[j])
                ==> read_before(buf, p, names_upto(buf, k)[i]),
    decreases k,
{
    if k > 0 {
        lemma_names_upto_order(buf, k - 1);
        let prev = names_upto(buf, k - 1);
        let next = names_upto(buf, k);
        assert forall|i: int, j: int, p: int|
            #![trigger reads_name_at(buf, p, next[j]), next[i]]
            0 <= i < j < next.len() && reads_name_at(buf, p, next[j]) implies read_before(
            buf,
            p,
            next[i],
        ) by {
            if j < prev.len() {
                assert(next[i] == prev[i] && next[j] == prev[j]);
                assert(reads_name_at(buf, p, prev[j]));
                let q = choose|q: int| q < p && #[trigger] reads_name_at(buf, q, prev[i]);
                assert(reads_name_at(buf, q, next[i]));
            } else {
                assert(next[i] == prev[i]);
                lemma_names_upto_members(buf, k - 1, next[i]);
                lemma_names_upto_members(buf, k - 1, next[j]);
                assert(prev.contains(next[i])) by {
                    assert(prev[i] == next[i]);
                }
                let q = choose|q: int| 0 <= q < k - 1 && #[trigger] reads_name_at(buf, q, next[i]);
                if p < k - 1 {
                    lemma_names_upto_distinct(buf, k);
                    assert(is_interesting(next[j]));
                    assert(prev.contains(next[j]));
                    assert(false);
                }
                assert(q < p && reads_name_at(buf, q, next[i]));
            }
        }
    }
}

/// The extracted names come in the order in which the buffer first reads
/// them: every offset that reads a later name comes after some offset that
/// reads an earlier one.
pub proof fn law_extracted_names_in_reading_order(buf: Seq<u8>)
    ensures
        forall|i: int, j: int, p: int|
            #![trigger reads_name_at(buf, p, names_in(buf)[j]), names_in(buf)[i]]
            0 <= i < j < names_in(buf).len() && reads_name_at(buf, p, names_in(buf)[j])
                ==> read_before(buf, p, names_in(buf)[i]),
{
    lemma_names_upto_order(buf, buf.len() as int);
    assert forall|i: int, j: int, p: int|
        #![trigger reads_name_at(buf, p, names_in(buf)[j]), names_in(buf)[i]]
        0 <= i < j < names_in(buf).len() && reads_name_at(buf, p, names_in(buf)[j]) implies read_before(
        buf,
        p,
        names_in(buf)[i],
    ) by {
        let names = names_upto(buf, buf.len() as int);
        assert(reads_name_at(buf, p, names[j]));
        let q = choose|q: int| q < p && #[trigger] reads_name_at(buf, q, names[i]);
        assert(reads_name_at(buf, q, names_in(buf)[i]));
    }
}

/// What `extract_names` returns.
pub open spec fn names_in(buf: Seq<u8>) -> Seq<Seq<char>> {
    names_upto(buf, buf.len() as int)
}

/// The views of a sequence of strings.
pub open spec fn string_views(v: Seq<String>) -> Seq<Seq<char>> {
    Seq::new(v.len(), |i: int| v[i]@)
}

/// Extract plausible mDNS service/host names from a packet.
pub fn extract_names(buf: &[u8]) -> (r: Vec<String>)
    requires
        buf@.len() <= isize::MAX,
    ensures
        string_views(r@) == names_in(buf@),
{
    let mut out: Vec<String> = Vec::new();
    let mut seen: Vec<Vec<char>> = Vec::new();
    let mut pos: usize = 0;
    assert(string_views(out@) =~= seq![]);
    while pos < buf.len()
        invariant
            buf@.len() <= isize::MAX,
            pos <= buf@.len(),
            string_views(out@) == names_upto(buf@, pos as int),
            char_vecs(seen@) == names_upto(buf@, pos as int),
        decreases buf.len() - pos,
    {
        let ghost prev = names_upto(buf@, pos as int);
        if let Some((name, _)) = read_name(buf, pos) {
            let chars = chars_of(name.as_str());
            if is_interesting_exec(chars.as_slice()) {
                let mut dup = false;
                let mut j: usize = 0;
                while j < seen.len()
                    invariant
                        j <= seen@.len(),
                        char_vecs(seen@) == prev,
                        dup == exists|k: int| 0 <= k < j && prev[k] == chars@,
                    decreases seen.len() - j,
                {
                    if chars_eq(seen[j].as_slice(), chars.as_slice()) {
                        dup = true;
                    }
                    assert(prev[j as int] == seen@[j as int]@);
                    j += 1;
                }
                proof {
                    if dup {
                        let k = choose|k: int| 0 <= k < j && prev[k] == chars@;
                        assert(prev.contains(chars@));
                    } else {
                        assert(!prev.contains(chars@));
                    }
                }
                if !dup {
                    let ghost ov = string_views(out@);
                    let ghost os = char_vecs(seen@);
                    out.push(name);
                    seen.push(chars);
                    assert(string_views(out@) =~= ov.push(name@));
                    assert(char_vecs(seen@) =~= os.push(name@));
                }
            }
        }
        pos += 1;
    }
    out
}

} // verus!
