//! Character-sequence utilities shared by the decoders and formatters.
//!
//! Every string in this crate is reasoned about through its view, a
//! `Seq<char>`. The spec functions here say what the usual `str` operations
//! (trim, contains, ASCII case mapping, decimal and hex rendering, splitting)
//! compute; the executable functions compute them on `Vec<char>` buffers and
//! are proved against those definitions.

use vstd::prelude::*;
use vstd::utf8::{decode_utf8, valid_utf8};

verus! {

// ---------------------------------------------------------------------------
// Conversions between `str`/`String` and `Vec<char>`.
// ---------------------------------------------------------------------------

/// `String::push`: appends one character.
#[verifier::external_body]
pub fn string_push(s: &mut String, c: char)
    ensures
        final(s)@ == old(s)@.push(c),
{
    s.push(c);
}

/// The characters of `s`, in order.
pub fn chars_of(s: &str) -> (r: Vec<char>)
    ensures
        r@ == s@,
{
    let mut out: Vec<char> = Vec::new();
    for c in it: s.chars()
        invariant
            out@ == it.seq().take(it.index() as int),
    {
        out.push(c);
    }
    out
}

/// Appends every character of `v` to `s`.
pub fn push_chars(s: &mut String, v: &[char])
    ensures
        final(s)@ == old(s)@ + v@,
{
    let mut i: usize = 0;
    while i < v.len()
        invariant
            i <= v@.len(),
            s@ == old(s)@ + v@.take(i as int),
        decreases v.len() - i,
    {
        string_push(s, v[i]);
        i += 1;
        assert(v@.take(i as int) == v@.take(i - 1).push(v@[i - 1]));
    }
    assert(v@.take(v@.len() as int) == v@);
}

/// A fresh `String` holding the characters of `v`.
pub fn string_from_chars(v: &[char]) -> (s: String)
    ensures
        s@ == v@,
{
    let mut s = String::new();
    push_chars(&mut s, v);
    s
}

/// Appends the characters of a string slice.
pub fn push_str(s: &mut String, t: &str)
    ensures
        final(s)@ == old(s)@ + t@,
{
    let v = chars_of(t);
    push_chars(s, v.as_slice());
}

/// Copy of `v[a..b]`.
pub fn sub_chars(v: &[char], a: usize, b: usize) -> (r: Vec<char>)
    requires
        a <= b <= v@.len(),
    ensures
        r@ == v@.subrange(a as int, b as int),
{
    let mut out: Vec<char> = Vec::new();
    let mut i: usize = a;
    while i < b
        invariant
            a <= i <= b <= v@.len(),
            out@ == v@.subrange(a as int, i as int),
        decreases b - i,
    {
        out.push(v[i]);
        i += 1;
    }
    out
}

/// Copy of `v[a..b]` for bytes.
pub fn sub_bytes(v: &[u8], a: usize, b: usize) -> (r: Vec<u8>)
    requires
        a <= b <= v@.len(),
    ensures
        r@ == v@.subrange(a as int, b as int),
{
    let mut out: Vec<u8> = Vec::new();
    let mut i: usize = a;
    while i < b
        invariant
            a <= i <= b <= v@.len(),
            out@ == v@.subrange(a as int, i as int),
        decreases b - i,
    {
        out.push(v[i]);
        i += 1;
    }
    out
}

/// Whether two character sequences are equal.
pub fn chars_eq(a: &[char], b: &[char]) -> (r: bool)
    ensures
        r == (a@ == b@),
{
    if a.len() != b.len() {
        return false;
    }
    let mut i: usize = 0;
    while i < a.len()
        invariant
            a@.len() == b@.len(),
            i <= a@.len(),
            forall|j: int| 0 <= j < i ==> a@[j] == b@[j],
        decreases a.len() - i,
    {
        if a[i] != b[i] {
            return false;
        }
        i += 1;
    }
    assert(a@ =~= b@);
    true
}

/// Whether two strings hold the same characters.
pub fn str_eq(a: &str, b: &str) -> (r: bool)
    ensures
        r == (a@ == b@),
{
    let va = chars_of(a);
    let vb = chars_of(b);
    chars_eq(va.as_slice(), vb.as_slice())
}

/// Whether `v` holds a string equal to `s`.
pub fn vec_contains_str(v: &Vec<String>, s: &str) -> (r: bool)
    ensures
        r == exists|i: int| 0 <= i < v@.len() && #[trigger] v@[i]@ == s@,
{
    let mut i: usize = 0;
    while i < v.len()
        invariant
            i <= v@.len(),
            forall|j: int| 0 <= j < i ==> #[trigger] v@[j]@ != s@,
        decreases v.len() - i,
    {
        if str_eq(v[i].as_str(), s) {
            return true;
        }
        i += 1;
    }
    false
}

/// Index of the first string of `v` equal to `s`.
pub open spec fn first_index_of(v: Seq<Seq<char>>, s: Seq<char>) -> Option<int>
    decreases v.len(),
{
    if v.len() == 0 {
        None
    } else if v[0] == s {
        Some(0)
    } else {
        match first_index_of(v.drop_first(), s) {
            Some(i) => Some(i + 1),
            None => None,
        }
    }
}

pub proof fn lemma_first_index_of(v: Seq<Seq<char>>, s: Seq<char>, k: int)
    requires
        0 <= k <= v.len(),
        forall|j: int| 0 <= j < k ==> v[j] != s,
    ensures
        k < v.len() && v[k] == s ==> first_index_of(v, s) == Some(k),
        k == v.len() ==> first_index_of(v, s) is None,
    decreases k,
{
    if k > 0 {
        assert forall|j: int| 0 <= j < k - 1 implies v.drop_first()[j] != s by {
            assert(v.drop_first()[j] == v[j + 1]);
        }
        lemma_first_index_of(v.drop_first(), s, k - 1);
    }
}

/// What `first_index_of` finds is an occurrence; when it finds none, there
/// is none.
pub proof fn lemma_first_index_of_found(v: Seq<Seq<char>>, s: Seq<char>)
    ensures
        match first_index_of(v, s) {
            Some(p) => 0 <= p < v.len() && v[p] == s,
            None => !v.contains(s),
        },
    decreases v.len(),
{
    if v.len() > 0 && v[0] != s {
        lemma_first_index_of_found(v.drop_first(), s);
        if first_index_of(v.drop_first(), s) is None && v.contains(s) {
            let j = choose|j: int| 0 <= j < v.len() && v[j] == s;
            assert(v.drop_first()[j - 1] == s);
        }
    }
}

/// Position of the first string of `v` equal to `s`.
pub fn position_of_str(v: &Vec<String>, s: &str) -> (r: Option<usize>)
    ensures
        match r {
            Some(i) => first_index_of(v.deep_view(), s@) == Some(i as int) && i < v@.len() && v@[i as int]@ == s@,
            None => first_index_of(v.deep_view(), s@) is None,
        },
{
    let ghost dv = v.deep_view();
    let mut i: usize = 0;
    while i < v.len()
        invariant
            i <= v@.len(),
            dv == v.deep_view(),
            dv.len() == v@.len(),
            forall|j: int| 0 <= j < i ==> dv[j] != s@,
        decreases v.len() - i,
    {
        assert(dv[i as int] == v@[i as int]@);
        if str_eq(v[i].as_str(), s) {
            proof {
                lemma_first_index_of(dv, s@, i as int);
            }
            return Some(i);
        }
        i += 1;
    }
    proof {
        lemma_first_index_of(dv, s@, i as int);
    }
    None
}

// ---------------------------------------------------------------------------
// Whitespace and trimming.
// ---------------------------------------------------------------------------

/// `char::is_whitespace`: the Unicode `White_Space` property.
pub open spec fn is_ws(c: char) -> bool {
    let u = c as u32;
    (0x09 <= u <= 0x0d) || u == 0x20 || u == 0x85 || u == 0xa0 || u == 0x1680 || (0x2000 <= u
        <= 0x200a) || u == 0x2028 || u == 0x2029 || u == 0x202f || u == 0x205f || u == 0x3000
}

/// Which characters a trim removes: Unicode whitespace, or NUL.
pub open spec fn trimmed_by(c: char, nul: bool) -> bool {
    if nul {
        c == '\0'
    } else {
        is_ws(c)
    }
}

pub open spec fn trim_start(s: Seq<char>, nul: bool) -> Seq<char>
    decreases s.len(),
{
    if s.len() > 0 && trimmed_by(s[0], nul) {
        trim_start(s.drop_first(), nul)
    } else {
        s
    }
}

pub open spec fn trim_end(s: Seq<char>, nul: bool) -> Seq<char>
    decreases s.len(),
{
    if s.len() > 0 && trimmed_by(s.last(), nul) {
        trim_end(s.drop_last(), nul)
    } else {
        s
    }
}

/// `str::trim` (`nul == false`) or `str::trim_matches('\0')` (`nul == true`).
pub open spec fn trim_seq(s: Seq<char>, nul: bool) -> Seq<char> {
    trim_end(trim_start(s, nul), nul)
}

/// `str::trim`.
pub open spec fn trim(s: Seq<char>) -> Seq<char> {
    trim_seq(s, false)
}

pub fn char_is_ws(c: char) -> (r: bool)
    ensures
        r == is_ws(c),
{
    let u = c as u32;
    (0x09 <= u && u <= 0x0d) || u == 0x20 || u == 0x85 || u == 0xa0 || u == 0x1680 || (0x2000
        <= u && u <= 0x200a) || u == 0x2028 || u == 0x2029 || u == 0x202f || u == 0x205f || u
        == 0x3000
}

fn char_trimmed_by(c: char, nul: bool) -> (r: bool)
    ensures
        r == trimmed_by(c, nul),
{
    if nul {
        c == '\0'
    } else {
        char_is_ws(c)
    }
}

proof fn lemma_trim_start(s: Seq<char>, nul: bool, a: int)
    requires
        0 <= a <= s.len(),
        forall|i: int| 0 <= i < a ==> trimmed_by(#[trigger] s[i], nul),
        a == s.len() || !trimmed_by(s[a], nul),
    ensures
        trim_start(s, nul) == s.skip(a),
    decreases a,
{
    if a == 0 {
        assert(s.skip(0) == s);
    } else {
        assert(trimmed_by(s[0], nul));
        assert forall|i: int| 0 <= i < a - 1 implies trimmed_by(#[trigger] s.drop_first()[i], nul) by {
            assert(s.drop_first()[i] == s[i + 1]);
        }
        if a - 1 < s.drop_first().len() {
            assert(s.drop_first()[a - 1] == s[a]);
        }
        lemma_trim_start(s.drop_first(), nul, a - 1);
        assert(s.drop_first().skip(a - 1) == s.skip(a));
    }
}

proof fn lemma_trim_end(s: Seq<char>, nul: bool, b: int)
    requires
        0 <= b <= s.len(),
        forall|i: int| b <= i < s.len() ==> trimmed_by(#[trigger] s[i], nul),
        b == 0 || !trimmed_by(s[b - 1], nul),
    ensures
        trim_end(s, nul) == s.take(b),
    decreases s.len() - b,
{
    if b == s.len() {
        assert(s.take(b) == s);
        if s.len() > 0 {
            assert(s.last() == s[b - 1]);
        }
    } else {
        assert(trimmed_by(s.last(), nul));
        assert forall|i: int| b <= i < s.drop_last().len() implies trimmed_by(
            #[trigger] s.drop_last()[i],
            nul,
        ) by {
            assert(s.drop_last()[i] == s[i]);
        }
        if b > 0 {
            assert(s.drop_last()[b - 1] == s[b - 1]);
        }
        lemma_trim_end(s.drop_last(), nul, b);
        assert(s.drop_last().take(b) == s.take(b));
    }
}

/// Removes leading and trailing whitespace (or NUL characters, when `nul`).
pub fn trim_chars(v: &[char], nul: bool) -> (r: Vec<char>)
    ensures
        r@ == trim_seq(v@, nul),
{
    let mut a: usize = 0;
    while a < v.len() && char_trimmed_by(v[a], nul)
        invariant
            a <= v@.len(),
            forall|i: int| 0 <= i < a ==> trimmed_by(#[trigger] v@[i], nul),
        decreases v.len() - a,
    {
        a += 1;
    }
    proof {
        lemma_trim_start(v@, nul, a as int);
    }
    let mut b: usize = v.len();
    while b > a && char_trimmed_by(v[b - 1], nul)
        invariant
            a <= b <= v@.len(),
            forall|i: int| b <= i < v@.len() ==> trimmed_by(#[trigger] v@[i], nul),
        decreases b,
    {
        b -= 1;
    }
    let ghost t = v@.skip(a as int);
    proof {
        assert forall|i: int| (b - a) <= i < t.len() implies trimmed_by(#[trigger] t[i], nul) by {
            assert(t[i] == v@[i + a]);
        }
        if b - a > 0 {
            assert(t[b - a - 1] == v@[b - 1]);
        }
        lemma_trim_end(t, nul, (b - a) as int);
        assert(t.take((b - a) as int) == v@.subrange(a as int, b as int));
    }
    sub_chars(v, a, b)
}

// ---------------------------------------------------------------------------
// Searching.
// ---------------------------------------------------------------------------

/// `n` occurs in `h` starting at index `i`.
pub open spec fn occurs_at(h: Seq<char>, n: Seq<char>, i: int) -> bool {
    0 <= i && i + n.len() <= h.len() && h.subrange(i, i + n.len()) == n
}

/// `str::contains` with a string pattern.
pub open spec fn contains_seq(h: Seq<char>, n: Seq<char>) -> bool {
    exists|i: int| occurs_at(h, n, i)
}

/// `str::ends_with`.
pub open spec fn ends_with(h: Seq<char>, n: Seq<char>) -> bool {
    n.len() <= h.len() && occurs_at(h, n, h.len() - n.len())
}

/// Whether `n` occurs in `h` at index `i`.
pub fn matches_at(h: &[char], n: &[char], i: usize) -> (r: bool)
    ensures
        r == occurs_at(h@, n@, i as int),
{
    if i > h.len() || n.len() > h.len() - i {
        return false;
    }
    let mut j: usize = 0;
    while j < n.len()
        invariant
            i + n@.len() <= h@.len(),
            i + n.len() <= h.len(),
            j <= n@.len(),
            forall|k: int| 0 <= k < j ==> h@[i + k] == n@[k],
        decreases n.len() - j,
    {
        if h[i + j] != n[j] {
            assert(h@.subrange(i as int, i + n@.len())[j as int] != n@[j as int]);
            return false;
        }
        j += 1;
    }
    assert(h@.subrange(i as int, i + n@.len()) =~= n@);
    true
}

/// `str::contains`.
pub fn contains_chars(h: &[char], n: &[char]) -> (r: bool)
    ensures
        r == contains_seq(h@, n@),
{
    let mut i: usize = 0;
    while i < h.len()
        invariant
            i <= h@.len(),
            forall|k: int| 0 <= k < i ==> !occurs_at(h@, n@, k),
        decreases h.len() - i,
    {
        if matches_at(h, n, i) {
            return true;
        }
        i += 1;
    }
    if matches_at(h, n, i) {
        return true;
    }
    assert forall|k: int| !occurs_at(h@, n@, k) by {
        if 0 <= k <= i {
        }
    }
    false
}

/// `str::ends_with`.
pub fn ends_with_chars(h: &[char], n: &[char]) -> (r: bool)
    ensures
        r == ends_with(h@, n@),
{
    if n.len() > h.len() {
        false
    } else {
        matches_at(h, n, h.len() - n.len())
    }
}

/// Index of the first occurrence of `c` in `s`.
pub open spec fn first_char_index(s: Seq<char>, c: char) -> Option<int>
    decreases s.len(),
{
    if s.len() == 0 {
        None
    } else if s[0] == c {
        Some(0)
    } else {
        match first_char_index(s.drop_first(), c) {
            Some(i) => Some(i + 1),
            None => None,
        }
    }
}

pub proof fn lemma_first_char_index(s: Seq<char>, c: char, k: int)
    requires
        0 <= k <= s.len(),
        forall|j: int| 0 <= j < k ==> s[j] != c,
    ensures
        k < s.len() && s[k] == c ==> first_char_index(s, c) == Some(k),
        k == s.len() ==> first_char_index(s, c) is None,
    decreases k,
{
    if k > 0 {
        assert forall|j: int| 0 <= j < k - 1 implies s.drop_first()[j] != c by {
            assert(s.drop_first()[j] == s[j + 1]);
        }
        lemma_first_char_index(s.drop_first(), c, k - 1);
    }
}

pub fn find_char(s: &[char], c: char) -> (r: Option<usize>)
    ensures
        match r {
            Some(i) => first_char_index(s@, c) == Some(i as int) && i < s@.len() && s@[i as int] == c,
            None => first_char_index(s@, c) is None,
        },
{
    let mut i: usize = 0;
    while i < s.len()
        invariant
            i <= s@.len(),
            forall|j: int| 0 <= j < i ==> s@[j] != c,
        decreases s.len() - i,
    {
        if s[i] == c {
            proof {
                lemma_first_char_index(s@, c, i as int);
            }
            return Some(i);
        }
        i += 1;
    }
    proof {
        lemma_first_char_index(s@, c, i as int);
    }
    None
}

// ---------------------------------------------------------------------------
// ASCII case mapping.
// ---------------------------------------------------------------------------

pub open spec fn lower_char(c: char) -> char {
    if 'A' <= c <= 'Z' {
        ((c as u32) + 32) as char
    } else {
        c
    }
}

pub open spec fn upper_char(c: char) -> char {
    if 'a' <= c <= 'z' {
        ((c as u32) - 32) as char
    } else {
        c
    }
}

/// `str::to_ascii_lowercase`.
pub open spec fn ascii_lower(s: Seq<char>) -> Seq<char> {
    s.map_values(|c: char| lower_char(c))
}

/// `str::to_ascii_uppercase`.
pub open spec fn ascii_upper(s: Seq<char>) -> Seq<char> {
    s.map_values(|c: char| upper_char(c))
}

pub fn to_lower_char(c: char) -> (r: char)
    ensures
        r == lower_char(c),
{
    if 'A' <= c && c <= 'Z' {
        let b: u8 = (c as u32) as u8;
        (b + 32) as char
    } else {
        c
    }
}

pub fn to_upper_char(c: char) -> (r: char)
    ensures
        r == upper_char(c),
{
    if 'a' <= c && c <= 'z' {
        let b: u8 = (c as u32) as u8;
        (b - 32) as char
    } else {
        c
    }
}

/// ASCII lower-casing of every character.
pub fn lower_chars(v: &[char]) -> (r: Vec<char>)
    ensures
        r@ == ascii_lower(v@),
{
    let mut out: Vec<char> = Vec::new();
    let mut i: usize = 0;
    while i < v.len()
        invariant
            i <= v@.len(),
            out@ == ascii_lower(v@.take(i as int)),
        decreases v.len() - i,
    {
        out.push(to_lower_char(v[i]));
        i += 1;
        assert(ascii_lower(v@.take(i as int)) =~= ascii_lower(v@.take(i - 1)).push(
            lower_char(v@[i - 1]),
        ));
    }
    assert(v@.take(v@.len() as int) == v@);
    out
}

/// ASCII upper-casing of every character.
pub fn upper_chars(v: &[char]) -> (r: Vec<char>)
    ensures
        r@ == ascii_upper(v@),
{
    let mut out: Vec<char> = Vec::new();
    let mut i: usize = 0;
    while i < v.len()
        invariant
            i <= v@.len(),
            out@ == ascii_upper(v@.take(i as int)),
        decreases v.len() - i,
    {
        out.push(to_upper_char(v[i]));
        i += 1;
        assert(ascii_upper(v@.take(i as int)) =~= ascii_upper(v@.take(i - 1)).push(
            upper_char(v@[i - 1]),
        ));
    }
    assert(v@.take(v@.len() as int) == v@);
    out
}

// ---------------------------------------------------------------------------
// Number rendering.
// ---------------------------------------------------------------------------

/// The ASCII digit for `d < 10`.
pub open spec fn digit_char(d: nat) -> char {
    (48 + d) as char
}

/// Decimal rendering of a natural number, as `{}` prints it.
pub open spec fn dec(n: nat) -> Seq<char>
    decreases n,
{
    if n < 10 {
        seq![digit_char(n)]
    } else {
        dec(n / 10).push(digit_char(n % 10))
    }
}

/// Decimal rendering of an integer, with a leading `-` when negative.
pub open spec fn dec_int(n: int) -> Seq<char> {
    if n < 0 {
        seq!['-'] + dec((-n) as nat)
    } else {
        dec(n as nat)
    }
}

/// `s` left-padded with `'0'` to at least `w` characters.
pub open spec fn pad0(s: Seq<char>, w: nat) -> Seq<char> {
    if s.len() >= w {
        s
    } else {
        Seq::new((w - s.len()) as nat, |i: int| '0') + s
    }
}

pub proof fn lemma_dec_len(n: nat)
    ensures
        dec(n).len() >= 1,
        n < 10 ==> dec(n).len() == 1,
        10 <= n < 100 ==> dec(n).len() == 2,
        100 <= n < 1000 ==> dec(n).len() == 3,
        1000 <= n < 10000 ==> dec(n).len() == 4,
    decreases n,
{
    if n >= 10 {
        lemma_dec_len(n / 10);
    }
}

fn digit(d: u64) -> (r: char)
    requires
        d < 10,
    ensures
        r == digit_char(d as nat),
{
    let b: u8 = 48 + (d as u8);
    b as char
}

/// Appends the decimal rendering of `n`.
pub fn push_dec(s: &mut String, n: u64)
    ensures
        final(s)@ == old(s)@ + dec(n as nat),
    decreases n,
{
    if n >= 10 {
        push_dec(s, n / 10);
    }
    string_push(s, digit(n % 10));
    proof {
        if n < 10 {
            assert(old(s)@ + dec(n as nat) == old(s)@.push(digit_char(n as nat)));
        } else {
            assert(dec(n as nat) == dec((n / 10) as nat).push(digit_char((n % 10) as nat)));
            assert(old(s)@ + dec(n as nat) =~= (old(s)@ + dec((n / 10) as nat)).push(
                digit_char((n % 10) as nat),
            ));
        }
    }
}

/// Appends the decimal rendering of a signed `n`.
pub fn push_dec_i64(s: &mut String, n: i64)
    ensures
        final(s)@ == old(s)@ + dec_int(n as int),
{
    if n < 0 {
        string_push(s, '-');
        let m: u64 = if n == i64::MIN {
            9223372036854775808u64
        } else {
            (-n) as u64
        };
        push_dec(s, m);
        assert(old(s)@ + dec_int(n as int) =~= old(s)@.push('-') + dec(m as nat));
    } else {
        push_dec(s, n as u64);
    }
}

/// Appends `n` in decimal, zero-padded to at least `w` digits (`{:0w}`).
pub fn push_dec_padded(s: &mut String, n: u64, w: usize)
    ensures
        final(s)@ == old(s)@ + pad0(dec(n as nat), w as nat),
{
    let mut t = String::new();
    push_dec(&mut t, n);
    let digits = chars_of(t.as_str());
    assert(digits@ == dec(n as nat));
    let mut k: usize = digits.len();
    let ghost start = s@;
    while k < w
        invariant
            digits.len() <= k <= w || (k == digits.len() && k >= w),
            s@ == start + Seq::new((k - digits@.len()) as nat, |i: int| '0'),
        decreases w - k,
    {
        string_push(s, '0');
        k += 1;
        assert(s@ =~= start + Seq::new((k - digits@.len()) as nat, |i: int| '0'));
    }
    let ghost mid = s@;
    push_chars(s, digits.as_slice());
    proof {
        if digits@.len() >= w {
            assert(mid == start);
        } else {
            assert(k == w);
        }
        assert(s@ =~= start + pad0(dec(n as nat), w as nat));
    }
}

/// Lower-case hex digit for `d < 16`.
pub open spec fn hex_digit(d: nat) -> char {
    if d < 10 {
        (48 + d) as char
    } else {
        (87 + d) as char
    }
}

/// Two lower-case hex digits of a byte, as `{:02x}` prints it.
pub open spec fn hex2(b: u8) -> Seq<char> {
    seq![hex_digit((b / 16) as nat), hex_digit((b % 16) as nat)]
}

fn hex_digit_exec(d: u8) -> (r: char)
    requires
        d < 16,
    ensures
        r == hex_digit(d as nat),
{
    if d < 10 {
        (48 + d) as char
    } else {
        (87 + d) as char
    }
}

/// Appends `{:02x}` of `b`.
pub fn push_hex2(s: &mut String, b: u8)
    ensures
        final(s)@ == old(s)@ + hex2(b),
{
    string_push(s, hex_digit_exec(b / 16));
    string_push(s, hex_digit_exec(b % 16));
    assert(old(s)@ + hex2(b) =~= old(s)@.push(hex_digit((b / 16) as nat)).push(
        hex_digit((b % 16) as nat),
    ));
}

// ---------------------------------------------------------------------------
// Splitting and joining.
// ---------------------------------------------------------------------------

/// The views of a sequence of character vectors.
pub open spec fn char_vecs(v: Seq<Vec<char>>) -> Seq<Seq<char>> {
    Seq::new(v.len(), |i: int| v[i]@)
}

/// `str::split(c)`: the pieces between occurrences of `c` (always at least one).
pub open spec fn split_char(s: Seq<char>, c: char) -> Seq<Seq<char>>
    decreases s.len(),
{
    if s.len() == 0 {
        seq![Seq::<char>::empty()]
    } else {
        let p = split_char(s.drop_last(), c);
        if s.last() == c {
            p.push(Seq::<char>::empty())
        } else {
            p.update(p.len() - 1, p.last().push(s.last()))
        }
    }
}

pub proof fn lemma_split_nonempty(s: Seq<char>, c: char)
    ensures
        split_char(s, c).len() >= 1,
    decreases s.len(),
{
    if s.len() > 0 {
        lemma_split_nonempty(s.drop_last(), c);
    }
}

/// `parts` joined with the separator `c` between consecutive pieces.
pub open spec fn join_char(parts: Seq<Seq<char>>, c: char) -> Seq<char>
    decreases parts.len(),
{
    if parts.len() == 0 {
        Seq::empty()
    } else if parts.len() == 1 {
        parts[0]
    } else {
        join_char(parts.drop_last(), c).push(c) + parts.last()
    }
}

/// Splitting after appending text free of the separator extends the last piece.
pub proof fn lemma_split_append(a: Seq<char>, b: Seq<char>, c: char)
    requires
        forall|i: int| 0 <= i < b.len() ==> b[i] != c,
    ensures
        ({
            let p = split_char(a, c);
            split_char(a + b, c) == p.update(p.len() - 1, p.last() + b)
        }),
    decreases b.len(),
{
    lemma_split_nonempty(a, c);
    let p = split_char(a, c);
    if b.len() == 0 {
        assert(a + b == a);
        assert(p.last() + b == p.last());
        assert(p.update(p.len() - 1, p.last()) =~= p);
    } else {
        let b2 = b.drop_last();
        lemma_split_append(a, b2, c);
        assert((a + b).drop_last() == a + b2);
        assert((a + b).last() == b.last());
        let q = split_char(a + b2, c);
        assert(q == p.update(p.len() - 1, p.last() + b2));
        assert(q.last() + seq![b.last()] == p.last() + b) by {
            assert(p.last() + b2 + seq![b.last()] =~= p.last() + b);
        }
        assert(q.last().push(b.last()) == p.last() + b) by {
            assert(q.last().push(b.last()) =~= q.last() + seq![b.last()]);
        }
        assert(split_char(a + b, c) =~= p.update(p.len() - 1, p.last() + b));
    }
}

/// Splitting the join of separator-free pieces gives the pieces back.
pub proof fn lemma_split_join(parts: Seq<Seq<char>>, c: char)
    requires
        parts.len() >= 1,
        forall|k: int, i: int| 0 <= k < parts.len() && 0 <= i < parts[k].len() ==> #[trigger] parts[k][i] != c,
    ensures
        split_char(join_char(parts, c), c) == parts,
    decreases parts.len(),
{
    if parts.len() == 1 {
        let e = Seq::<char>::empty();
        assert(forall|i: int| 0 <= i < parts[0].len() ==> parts[0][i] != c);
        lemma_split_append(e, parts[0], c);
        assert(e + parts[0] == parts[0]);
        assert(split_char(e, c) == seq![e]);
        assert(e + parts[0] =~= parts[0]);
        assert(split_char(join_char(parts, c), c) =~= parts);
    } else {
        let init = parts.drop_last();
        assert forall|k: int, i: int| 0 <= k < init.len() && 0 <= i < init[k].len() implies #[trigger] init[k][i] != c by {
            assert(init[k] == parts[k]);
        }
        lemma_split_join(init, c);
        let j = join_char(init, c);
        let jc = j.push(c);
        assert(jc.drop_last() == j);
        assert(split_char(jc, c) == init.push(Seq::<char>::empty()));
        let last = parts.last();
        assert(forall|i: int| 0 <= i < last.len() ==> last[i] != c);
        lemma_split_append(jc, last, c);
        let p = init.push(Seq::<char>::empty());
        assert(Seq::<char>::empty() + last =~= last);
        assert(p.update(p.len() - 1, p.last() + last) =~= parts);
    }
}

/// Splits `v` at every `c`.
pub fn split_chars(v: &[char], c: char) -> (r: Vec<Vec<char>>)
    ensures
        char_vecs(r@) == split_char(v@, c),
{
    let mut out: Vec<Vec<char>> = Vec::new();
    let mut cur: Vec<char> = Vec::new();
    let mut i: usize = 0;
    while i < v.len()
        invariant
            i <= v@.len(),
            ({
                let p = split_char(v@.take(i as int), c);
                &&& char_vecs(out@) == p.drop_last()
                &&& cur@ == p.last()
                &&& p.len() >= 1
            }),
        decreases v.len() - i,
    {
        let ghost p = split_char(v@.take(i as int), c);
        let ch = v[i];
        i += 1;
        proof {
            assert(v@.take(i as int).drop_last() == v@.take(i - 1));
            assert(v@.take(i as int).last() == ch);
        }
        if ch == c {
            let ghost old_dv = char_vecs(out@);
            let done = cur;
            out.push(done);
            cur = Vec::new();
            proof {
                let q = split_char(v@.take(i as int), c);
                assert(q == p.push(Seq::<char>::empty()));
                assert(char_vecs(out@) =~= old_dv.push(p.last()));
                assert(char_vecs(out@) =~= q.drop_last());
            }
        } else {
            cur.push(ch);
            proof {
                let q = split_char(v@.take(i as int), c);
                assert(q == p.update(p.len() - 1, p.last().push(ch)));
                assert(char_vecs(out@) =~= q.drop_last());
            }
        }
    }
    let ghost old_dv = char_vecs(out@);
    let ghost last = cur@;
    out.push(cur);
    proof {
        assert(v@.take(v@.len() as int) == v@);
        let p = split_char(v@, c);
        assert(char_vecs(out@) =~= old_dv.push(last));
        assert(char_vecs(out@) =~= p);
    }
    out
}

// ---------------------------------------------------------------------------
// UTF-8 decoding.
// ---------------------------------------------------------------------------

/// `std::str::from_utf8(bytes).ok()`: the text when `bytes` is valid UTF-8.
/// The claim restates the documented contract over vstd's UTF-8 definitions.
#[verifier::external_body]
pub fn utf8_str(bytes: &[u8]) -> (r: Option<&str>)
    ensures
        r is Some <==> valid_utf8(bytes@),
        r matches Some(s) ==> s@ == decode_utf8(bytes@),
{
    std::str::from_utf8(bytes).ok()
}

/// The characters `String::from_utf8_lossy` produces for a byte sequence.
pub uninterp spec fn utf8_lossy_chars(bytes: Seq<u8>) -> Seq<char>;

/// `String::from_utf8_lossy(bytes)`: valid UTF-8 decodes as is; how invalid
/// sequences become U+FFFD is named by `utf8_lossy_chars` and not restated.
#[verifier::external_body]
pub fn utf8_lossy(bytes: &[u8]) -> (r: String)
    ensures
        r@ == utf8_lossy_chars(bytes@),
        valid_utf8(bytes@) ==> r@ == decode_utf8(bytes@),
{
    String::from_utf8_lossy(bytes).into_owned()
}

/// `parts` joined by `c`, as a `String`.
pub fn join_chars(parts: &Vec<Vec<char>>, c: char) -> (s: String)
    ensures
        s@ == join_char(char_vecs(parts@), c),
{
    let mut s = String::new();
    let mut i: usize = 0;
    while i < parts.len()
        invariant
            i <= parts@.len(),
            s@ == join_char(char_vecs(parts@.take(i as int)), c),
        decreases parts.len() - i,
    {
        let ghost before = char_vecs(parts@.take(i as int));
        if i > 0 {
            string_push(&mut s, c);
        }
        push_chars(&mut s, parts[i].as_slice());
        i += 1;
        proof {
            let now = char_vecs(parts@.take(i as int));
            assert(now.drop_last() =~= before);
            assert(now.last() == parts@[i - 1]@);
            if i == 1 {
                assert(before.len() == 0);
                assert(s@ =~= now[0]);
            } else {
                assert(s@ =~= join_char(before, c).push(c) + now.last());
            }
        }
    }
    assert(parts@.take(parts@.len() as int) == parts@);
    s
}

} // verus!
