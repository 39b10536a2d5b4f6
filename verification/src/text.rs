//! Character-level text utilities: classification, trimming, case folding,
//! searching and the small normalisations the analyzer applies to names,
//! timestamps and free text.
use vstd::prelude::*;

verus! {

// ---------------------------------------------------------------------------
// Character classes
// ---------------------------------------------------------------------------

/// ASCII decimal digit `0..=9`.
pub open spec fn is_digit_char(c: char) -> bool {
    48 <= (c as u32) && (c as u32) <= 57
}

/// ASCII letter `A..=Z`.
pub open spec fn is_upper_char(c: char) -> bool {
    65 <= (c as u32) && (c as u32) <= 90
}

/// ASCII letter `a..=z`.
pub open spec fn is_lower_char(c: char) -> bool {
    97 <= (c as u32) && (c as u32) <= 122
}

/// ASCII letter or digit.
pub open spec fn is_alnum_char(c: char) -> bool {
    is_digit_char(c) || is_upper_char(c) || is_lower_char(c)
}

/// ASCII lower-casing of one character: only `A..=Z` change.
pub open spec fn lower_char(c: char) -> char {
    if is_upper_char(c) {
        ((c as u32) + 32) as char
    } else {
        c
    }
}

/// ASCII upper-casing of one character: only `a..=z` change.
pub open spec fn upper_char(c: char) -> char {
    if is_lower_char(c) {
        ((c as u32) - 32) as char
    } else {
        c
    }
}

/// The Unicode `White_Space` property, which `char::is_whitespace` tests.
pub open spec fn is_ws_char(c: char) -> bool {
    let u = c as u32;
    (9 <= u && u <= 13) || u == 32 || u == 0x85 || u == 0xA0 || u == 0x1680 || (0x2000 <= u
        && u <= 0x200A) || u == 0x2028 || u == 0x2029 || u == 0x202F || u == 0x205F || u
        == 0x3000
}

pub fn is_digit(c: char) -> (r: bool)
    ensures
        r == is_digit_char(c),
{
    let u = c as u32;
    48 <= u && u <= 57
}

pub fn is_alnum(c: char) -> (r: bool)
    ensures
        r == is_alnum_char(c),
{
    let u = c as u32;
    (48 <= u && u <= 57) || (65 <= u && u <= 90) || (97 <= u && u <= 122)
}

pub fn is_whitespace(c: char) -> (r: bool)
    ensures
        r == is_ws_char(c),
{
    let u = c as u32;
    (9 <= u && u <= 13) || u == 32 || u == 0x85 || u == 0xA0 || u == 0x1680 || (0x2000 <= u
        && u <= 0x200A) || u == 0x2028 || u == 0x2029 || u == 0x202F || u == 0x205F || u
        == 0x3000
}

pub fn to_lower(c: char) -> (r: char)
    ensures
        r == lower_char(c),
{
    let u = c as u32;
    if 65 <= u && u <= 90 {
        let b = (u + 32) as u8;
        let r = b as char;
        assert(r == lower_char(c));
        r
    } else {
        c
    }
}

pub fn to_upper(c: char) -> (r: char)
    ensures
        r == upper_char(c),
{
    let u = c as u32;
    if 97 <= u && u <= 122 {
        let b = (u - 32) as u8;
        let r = b as char;
        assert(r == upper_char(c));
        r
    } else {
        c
    }
}

/// An ASCII character that is not a control character: what the text
/// inputs of the interface accept from a key press.
pub open spec fn printable_input_spec(c: char) -> bool {
    32 <= (c as u32) && (c as u32) < 127
}

pub fn is_printable_input(c: char) -> (r: bool)
    ensures
        r == printable_input_spec(c),
{
    let u = c as u32;
    32 <= u && u < 127
}

// ---------------------------------------------------------------------------
// Building strings
// ---------------------------------------------------------------------------

/// `String::push`: appends one character.
#[verifier::external_body]
pub(crate) fn push_char(s: &mut String, c: char)
    ensures
        final(s)@ == old(s)@.push(c),
{
    s.push(c);
}

/// The characters of `s`, in order.
pub fn chars_of(s: &str) -> (out: Vec<char>)
    ensures
        out@ == s@,
{
    let mut out: Vec<char> = Vec::new();
    for c in it: s.chars()
        invariant
            out@ == it.seq().take(it.index() as int),
            it.seq() == s@,
    {
        out.push(c);
    }
    out
}

/// A string holding `v[from..to]`.
pub fn string_from_range(v: &Vec<char>, from: usize, to: usize) -> (out: String)
    requires
        from <= to <= v.len(),
    ensures
        out@ == v@.subrange(from as int, to as int),
{
    let mut out = String::new();
    let mut i = from;
    while i < to
        invariant
            from <= i <= to <= v.len(),
            out@ == v@.subrange(from as int, i as int),
        decreases to - i,
    {
        push_char(&mut out, v[i]);
        i += 1;
        assert(out@ =~= v@.subrange(from as int, i as int));
    }
    out
}

/// A string holding all of `v`.
pub fn string_from_chars(v: &Vec<char>) -> (out: String)
    ensures
        out@ == v@,
{
    let out = string_from_range(v, 0, v.len());
    assert(v@.subrange(0, v@.len() as int) =~= v@);
    out
}

/// Appends all of `t` to `s`.
pub fn push_str(s: &mut String, t: &str)
    ensures
        final(s)@ == old(s)@ + t@,
{
    let v = chars_of(t);
    let ghost start = s@;
    let mut i: usize = 0;
    while i < v.len()
        invariant
            i <= v.len(),
            v@ == t@,
            s@ == start + v@.take(i as int),
        decreases v.len() - i,
    {
        push_char(s, v[i]);
        i += 1;
        assert(s@ =~= start + v@.take(i as int));
    }
    assert(v@.take(v@.len() as int) =~= v@);
}

/// `a` followed by `b`.
pub fn concat(a: &str, b: &str) -> (out: String)
    ensures
        out@ == a@ + b@,
{
    let mut out = String::new();
    push_str(&mut out, a);
    push_str(&mut out, b);
    assert(out@ =~= a@ + b@);
    out
}

/// A fresh copy of `s`.
pub fn copy_str(s: &str) -> (out: String)
    ensures
        out@ == s@,
{
    let mut out = String::new();
    push_str(&mut out, s);
    assert(out@ =~= s@);
    out
}

// ---------------------------------------------------------------------------
// Comparing and searching
// ---------------------------------------------------------------------------

/// Character-wise equality of two strings.
pub fn str_eq(a: &str, b: &str) -> (r: bool)
    ensures
        r == (a@ == b@),
{
    let va = chars_of(a);
    let vb = chars_of(b);
    if va.len() != vb.len() {
        return false;
    }
    let mut i: usize = 0;
    while i < va.len()
        invariant
            va@ == a@,
            vb@ == b@,
            va.len() == vb.len(),
            i <= va.len(),
            forall|k: int| 0 <= k < i ==> va@[k] == vb@[k],
        decreases va.len() - i,
    {
        if va[i] != vb[i] {
            return false;
        }
        i += 1;
    }
    assert(va@ =~= vb@);
    true
}

/// Strict lexicographic order on character sequences, comparing code
/// points; for strings this is the order of `str`'s `<`, since UTF-8
/// preserves code point order.
pub open spec fn seq_less(a: Seq<char>, b: Seq<char>) -> bool
    decreases a.len(),
{
    if b.len() == 0 {
        false
    } else if a.len() == 0 {
        true
    } else if a[0] != b[0] {
        (a[0] as u32) < (b[0] as u32)
    } else {
        seq_less(a.drop_first(), b.drop_first())
    }
}

proof fn lemma_seq_less_from(a: Seq<char>, b: Seq<char>, i: int)
    requires
        0 <= i <= a.len(),
        i <= b.len(),
        forall|k: int| 0 <= k < i ==> a[k] == b[k],
    ensures
        seq_less(a, b) == seq_less(a.skip(i), b.skip(i)),
    decreases i,
{
    if i > 0 {
        assert(a.len() > 0 && b.len() > 0);
        assert(a.drop_first().skip(i - 1) =~= a.skip(i));
        assert(b.drop_first().skip(i - 1) =~= b.skip(i));
        lemma_seq_less_from(a.drop_first(), b.drop_first(), i - 1);
    } else {
        assert(a.skip(0) =~= a);
        assert(b.skip(0) =~= b);
    }
}

/// `a` sorts strictly before `b`.
pub fn str_less(a: &str, b: &str) -> (r: bool)
    ensures
        r == seq_less(a@, b@),
{
    let va = chars_of(a);
    let vb = chars_of(b);
    let mut i: usize = 0;
    while i < va.len() && i < vb.len()
        invariant
            va@ == a@,
            vb@ == b@,
            i <= va.len(),
            i <= vb.len(),
            forall|k: int| 0 <= k < i ==> va@[k] == vb@[k],
        decreases va.len() - i,
    {
        if va[i] != vb[i] {
            proof {
                lemma_seq_less_from(a@, b@, i as int);
                assert(a@.skip(i as int)[0] == va@[i as int]);
                assert(b@.skip(i as int)[0] == vb@[i as int]);
            }
            return (va[i] as u32) < (vb[i] as u32);
        }
        i += 1;
    }
    proof {
        lemma_seq_less_from(a@, b@, i as int);
    }
    i < vb.len()
}

/// `needle` occurs in `hay` starting at position `i`.
pub open spec fn occurs_at(hay: Seq<char>, needle: Seq<char>, i: int) -> bool {
    0 <= i && i + needle.len() <= hay.len() && hay.subrange(i, i + needle.len()) == needle
}

/// `needle` occurs somewhere in `hay` (the empty needle always does).
pub open spec fn contains_seq(hay: Seq<char>, needle: Seq<char>) -> bool {
    exists|i: int| occurs_at(hay, needle, i)
}

pub fn matches_at(hay: &Vec<char>, needle: &Vec<char>, i: usize) -> (r: bool)
    requires
        i + needle.len() <= hay.len(),
    ensures
        r == occurs_at(hay@, needle@, i as int),
{
    let mut k: usize = 0;
    while k < needle.len()
        invariant
            i + needle.len() <= hay.len(),
            k <= needle.len(),
            forall|j: int| 0 <= j < k ==> hay@[i + j] == needle@[j],
        decreases needle.len() - k,
    {
        if hay[i + k] != needle[k] {
            assert(hay@.subrange(i as int, i + needle.len())[k as int] != needle@[k as int]);
            return false;
        }
        k += 1;
    }
    assert(hay@.subrange(i as int, i + needle.len()) =~= needle@);
    true
}

/// Substring search over character vectors.
pub fn contains_chars(hay: &Vec<char>, needle: &Vec<char>) -> (r: bool)
    ensures
        r == contains_seq(hay@, needle@),
{
    if needle.len() == 0 {
        assert(occurs_at(hay@, needle@, 0)) by {
            assert(hay@.subrange(0, 0) =~= needle@);
        }
        return true;
    }
    if needle.len() > hay.len() {
        return false;
    }
    let last = hay.len() - needle.len();
    let mut i: usize = 0;
    while i <= last
        invariant
            last + needle.len() == hay.len(),
            needle.len() >= 1,
            i <= last + 1,
            forall|j: int| 0 <= j < i ==> !occurs_at(hay@, needle@, j),
        decreases last + 1 - i,
    {
        if matches_at(hay, needle, i) {
            return true;
        }
        i += 1;
    }
    false
}

/// Substring search over strings.
pub fn contains_str(hay: &str, needle: &str) -> (r: bool)
    ensures
        r == contains_seq(hay@, needle@),
{
    let h = chars_of(hay);
    let n = chars_of(needle);
    contains_chars(&h, &n)
}

/// `s` begins with `p`.
pub open spec fn has_prefix(s: Seq<char>, p: Seq<char>) -> bool {
    p.len() <= s.len() && s.subrange(0, p.len() as int) == p
}

pub fn starts_with(s: &str, p: &str) -> (r: bool)
    ensures
        r == has_prefix(s@, p@),
{
    let vs = chars_of(s);
    let vp = chars_of(p);
    if vp.len() > vs.len() {
        return false;
    }
    let r = matches_at(&vs, &vp, 0);
    r
}

// ---------------------------------------------------------------------------
// Case folding and filtering
// ---------------------------------------------------------------------------

/// ASCII lower-casing of a whole string.
pub open spec fn lower_seq(s: Seq<char>) -> Seq<char> {
    s.map_values(|c: char| lower_char(c))
}

pub fn to_ascii_lowercase(s: &str) -> (out: String)
    ensures
        out@ == lower_seq(s@),
{
    let v = chars_of(s);
    let mut out = String::new();
    let mut i: usize = 0;
    while i < v.len()
        invariant
            v@ == s@,
            i <= v.len(),
            out@ == lower_seq(v@.take(i as int)),
        decreases v.len() - i,
    {
        let c = to_lower(v[i]);
        push_char(&mut out, c);
        i += 1;
        assert(out@ =~= lower_seq(v@.take(i as int)));
    }
    assert(v@.take(v@.len() as int) =~= v@);
    out
}

/// ASCII upper-casing of a whole string.
pub open spec fn upper_seq(s: Seq<char>) -> Seq<char> {
    s.map_values(|c: char| upper_char(c))
}

pub fn to_ascii_uppercase(s: &str) -> (out: String)
    ensures
        out@ == upper_seq(s@),
{
    let v = chars_of(s);
    let mut out = String::new();
    let mut i: usize = 0;
    while i < v.len()
        invariant
            v@ == s@,
            i <= v.len(),
            out@ == upper_seq(v@.take(i as int)),
        decreases v.len() - i,
    {
        let c = to_upper(v[i]);
        push_char(&mut out, c);
        i += 1;
        assert(out@ =~= upper_seq(v@.take(i as int)));
    }
    assert(v@.take(v@.len() as int) =~= v@);
    out
}

/// Keeps the ASCII letters and digits of `s`, lower-cased: the key under
/// which export folder names are compared ("Support Tickets" and
/// "support_tickets" both become "supporttickets").
pub open spec fn dir_key(s: Seq<char>) -> Seq<char>
    decreases s.len(),
{
    if s.len() == 0 {
        Seq::empty()
    } else if is_alnum_char(s.last()) {
        dir_key(s.drop_last()).push(lower_char(s.last()))
    } else {
        dir_key(s.drop_last())
    }
}

pub fn normalize_dir_name(name: &str) -> (out: String)
    ensures
        out@ == dir_key(name@),
{
    let v = chars_of(name);
    let mut out = String::new();
    let mut i: usize = 0;
    while i < v.len()
        invariant
            v@ == name@,
            i <= v.len(),
            out@ == dir_key(v@.take(i as int)),
        decreases v.len() - i,
    {
        let c = v[i];
        assert(v@.take(i + 1).drop_last() =~= v@.take(i as int));
        if is_alnum(c) {
            push_char(&mut out, to_lower(c));
        }
        i += 1;
    }
    assert(v@.take(v@.len() as int) =~= v@);
    out
}

/// The ASCII digits of `s`, in order.
pub open spec fn digits_of(s: Seq<char>) -> Seq<char>
    decreases s.len(),
{
    if s.len() == 0 {
        Seq::empty()
    } else if is_digit_char(s.last()) {
        digits_of(s.drop_last()).push(s.last())
    } else {
        digits_of(s.drop_last())
    }
}

/// Sort key of a timestamp: its digits, or the timestamp itself when it
/// holds none.
pub open spec fn sort_key_spec(s: Seq<char>) -> Seq<char> {
    if digits_of(s).len() == 0 {
        s
    } else {
        digits_of(s)
    }
}

pub fn normalize_sort_key(timestamp: &str) -> (out: String)
    ensures
        out@ == sort_key_spec(timestamp@),
{
    let v = chars_of(timestamp);
    let mut out = String::new();
    let mut found = false;
    let mut i: usize = 0;
    while i < v.len()
        invariant
            v@ == timestamp@,
            i <= v.len(),
            out@ == digits_of(v@.take(i as int)),
            found == (out@.len() > 0),
        decreases v.len() - i,
    {
        let c = v[i];
        assert(v@.take(i + 1).drop_last() =~= v@.take(i as int));
        if is_digit(c) {
            push_char(&mut out, c);
            found = true;
        }
        i += 1;
    }
    assert(v@.take(v@.len() as int) =~= v@);
    if !found {
        copy_str(timestamp)
    } else {
        out
    }
}

// ---------------------------------------------------------------------------
// Trimming
// ---------------------------------------------------------------------------

/// Index of the first non-whitespace character at or after `i`.
pub open spec fn skip_ws_from(s: Seq<char>, i: int) -> int
    decreases s.len() - i,
{
    if 0 <= i < s.len() && is_ws_char(s[i]) {
        skip_ws_from(s, i + 1)
    } else {
        i
    }
}

/// One past the last non-whitespace character at or before `j - 1`,
/// not going below `lo`.
pub open spec fn back_ws_from(s: Seq<char>, lo: int, j: int) -> int
    decreases j - lo,
{
    if lo < j && j <= s.len() && is_ws_char(s[j - 1]) {
        back_ws_from(s, lo, j - 1)
    } else {
        j
    }
}

/// `s` without leading and trailing (Unicode) whitespace, as `str::trim`.
pub open spec fn trim_seq(s: Seq<char>) -> Seq<char> {
    let a = skip_ws_from(s, 0);
    s.subrange(a, back_ws_from(s, a, s.len() as int))
}

proof fn lemma_skip_ws_bounds(s: Seq<char>, i: int)
    requires
        0 <= i <= s.len(),
    ensures
        i <= skip_ws_from(s, i) <= s.len(),
    decreases s.len() - i,
{
    if i < s.len() && is_ws_char(s[i]) {
        lemma_skip_ws_bounds(s, i + 1);
    }
}

proof fn lemma_back_ws_bounds(s: Seq<char>, lo: int, j: int)
    requires
        0 <= lo <= j <= s.len(),
    ensures
        lo <= back_ws_from(s, lo, j) <= j,
    decreases j - lo,
{
    if lo < j && is_ws_char(s[j - 1]) {
        lemma_back_ws_bounds(s, lo, j - 1);
    }
}

/// The bounds `[a, b)` of the trimmed part of `v`.
pub fn trim_bounds(v: &Vec<char>) -> (r: (usize, usize))
    ensures
        r.0 == skip_ws_from(v@, 0),
        r.1 == back_ws_from(v@, r.0 as int, v@.len() as int),
        r.0 <= r.1 <= v.len(),
{
    let mut a: usize = 0;
    while a < v.len() && is_whitespace(v[a])
        invariant
            a <= v.len(),
            skip_ws_from(v@, 0) == skip_ws_from(v@, a as int),
        decreases v.len() - a,
    {
        a += 1;
    }
    let mut b: usize = v.len();
    while a < b && is_whitespace(v[b - 1])
        invariant
            a <= b <= v.len(),
            back_ws_from(v@, a as int, v@.len() as int) == back_ws_from(v@, a as int, b as int),
        decreases b - a,
    {
        b -= 1;
    }
    (a, b)
}

pub fn trim(s: &str) -> (out: String)
    ensures
        out@ == trim_seq(s@),
{
    let v = chars_of(s);
    let (a, b) = trim_bounds(&v);
    string_from_range(&v, a, b)
}

/// ASCII whitespace as `u8::is_ascii_whitespace`: space, tab, line feed,
/// form feed and carriage return.
pub open spec fn is_ascii_ws_byte(b: u8) -> bool {
    b == 32 || b == 9 || b == 10 || b == 12 || b == 13
}

pub fn is_ascii_ws(b: u8) -> (r: bool)
    ensures
        r == is_ascii_ws_byte(b),
{
    b == 32 || b == 9 || b == 10 || b == 12 || b == 13
}

/// The bounds of `bytes` without leading and trailing ASCII whitespace.
pub open spec fn ascii_trim_start(s: Seq<u8>, i: int) -> int
    decreases s.len() - i,
{
    if 0 <= i < s.len() && is_ascii_ws_byte(s[i]) {
        ascii_trim_start(s, i + 1)
    } else {
        i
    }
}

pub open spec fn ascii_trim_end(s: Seq<u8>, lo: int, j: int) -> int
    decreases j - lo,
{
    if lo < j && j <= s.len() && is_ascii_ws_byte(s[j - 1]) {
        ascii_trim_end(s, lo, j - 1)
    } else {
        j
    }
}

/// `bytes` without leading and trailing ASCII whitespace.
pub fn trim_ascii_whitespace(bytes: &[u8]) -> (out: Vec<u8>)
    ensures
        out@ == bytes@.subrange(
            ascii_trim_start(bytes@, 0),
            ascii_trim_end(bytes@, ascii_trim_start(bytes@, 0), bytes@.len() as int),
        ),
        0 <= ascii_trim_start(bytes@, 0) <= ascii_trim_end(
            bytes@,
            ascii_trim_start(bytes@, 0),
            bytes@.len() as int,
        ) <= bytes@.len(),
{
    let mut a: usize = 0;
    while a < bytes.len() && is_ascii_ws(bytes[a])
        invariant
            a <= bytes.len(),
            ascii_trim_start(bytes@, 0) == ascii_trim_start(bytes@, a as int),
        decreases bytes.len() - a,
    {
        a += 1;
    }
    let mut e: usize = bytes.len();
    while a < e && is_ascii_ws(bytes[e - 1])
        invariant
            a <= e <= bytes.len(),
            ascii_trim_end(bytes@, a as int, bytes@.len() as int) == ascii_trim_end(
                bytes@,
                a as int,
                e as int,
            ),
        decreases e - a,
    {
        e -= 1;
    }
    assert(ascii_trim_start(bytes@, a as int) == a);
    assert(ascii_trim_end(bytes@, a as int, e as int) == e);
    let mut out: Vec<u8> = Vec::new();
    let mut i = a;
    while i < e
        invariant
            a <= i <= e <= bytes.len(),
            out@ == bytes@.subrange(a as int, i as int),
        decreases e - i,
    {
        out.push(bytes[i]);
        i += 1;
        assert(out@ =~= bytes@.subrange(a as int, i as int));
    }
    out
}


// ---------------------------------------------------------------------------
// Whitespace collapsing, truncation and line splitting
// ---------------------------------------------------------------------------

/// Left-to-right state of whitespace collapsing: the text so far and
/// whether whitespace was seen since its last character.
pub open spec fn inline_state(s: Seq<char>) -> (Seq<char>, bool)
    decreases s.len(),
{
    if s.len() == 0 {
        (Seq::empty(), false)
    } else {
        let prev = inline_state(s.drop_last());
        let c = s.last();
        if is_ws_char(c) {
            (prev.0, true)
        } else if prev.1 && prev.0.len() > 0 {
            (prev.0.push(' ').push(c), false)
        } else {
            (prev.0.push(c), false)
        }
    }
}

/// The words of `s` (maximal runs of non-whitespace) joined by single
/// spaces, as `split_whitespace().join(" ")`.
pub open spec fn inline_seq(s: Seq<char>) -> Seq<char> {
    inline_state(s).0
}

pub fn normalize_inline(text: &str) -> (out: String)
    ensures
        out@ == inline_seq(text@),
{
    let v = chars_of(text);
    let mut out = String::new();
    let mut gap = false;
    let mut nonempty = false;
    let mut i: usize = 0;
    while i < v.len()
        invariant
            v@ == text@,
            i <= v.len(),
            inline_state(v@.take(i as int)) == (out@, gap),
            nonempty == (out@.len() > 0),
        decreases v.len() - i,
    {
        let c = v[i];
        assert(v@.take(i + 1).drop_last() =~= v@.take(i as int));
        if is_whitespace(c) {
            gap = true;
        } else {
            if gap && nonempty {
                push_char(&mut out, ' ');
            }
            push_char(&mut out, c);
            gap = false;
            nonempty = true;
        }
        i += 1;
    }
    assert(v@.take(v@.len() as int) =~= v@);
    out
}

/// At most `max` characters: longer text keeps its first `max - 1`
/// characters followed by an ellipsis.
pub open spec fn truncate_seq(s: Seq<char>, max: nat) -> Seq<char> {
    if max == 0 {
        Seq::empty()
    } else if s.len() <= max {
        s
    } else {
        s.take(max - 1).push('\u{2026}')
    }
}

pub fn truncate_text(text: &str, max_chars: usize) -> (out: String)
    ensures
        out@ == truncate_seq(text@, max_chars as nat),
{
    if max_chars == 0 {
        return String::new();
    }
    let v = chars_of(text);
    if v.len() <= max_chars {
        return copy_str(text);
    }
    let mut out = string_from_range(&v, 0, max_chars - 1);
    push_char(&mut out, '\u{2026}');
    assert(v@.subrange(0, max_chars - 1) =~= v@.take(max_chars - 1));
    out
}

/// Position of the first `c` in `s` at or after `i`, or `s.len()`.
pub open spec fn find_from(s: Seq<char>, c: char, i: int) -> int
    decreases s.len() - i,
{
    if i < 0 || i >= s.len() {
        s.len() as int
    } else if s[i] == c {
        i
    } else {
        find_from(s, c, i + 1)
    }
}

pub proof fn lemma_find_from_bounds(s: Seq<char>, c: char, i: int)
    requires
        0 <= i <= s.len(),
    ensures
        i <= find_from(s, c, i) <= s.len(),
        find_from(s, c, i) < s.len() ==> s[find_from(s, c, i)] == c,
        forall|k: int| i <= k < find_from(s, c, i) ==> s[k] != c,
    decreases s.len() - i,
{
    if i < s.len() && s[i] != c {
        lemma_find_from_bounds(s, c, i + 1);
    }
}

/// `s` without one trailing carriage return.
pub open spec fn strip_cr(s: Seq<char>) -> Seq<char> {
    if s.len() > 0 && s.last() == '\r' {
        s.drop_last()
    } else {
        s
    }
}

/// The lines of `s` as `str::lines` yields them: split at `\n`, a `\r`
/// right before a `\n` dropped, and no empty line after a final `\n`.
pub open spec fn lines_seq(s: Seq<char>) -> Seq<Seq<char>>
    decreases s.len(),
{
    if s.len() == 0 {
        Seq::empty()
    } else {
        let i = find_from(s, '\n', 0);
        if i >= s.len() {
            seq![s]
        } else {
            proof {
                lemma_find_from_bounds(s, '\n', 0);
            }
            seq![strip_cr(s.take(i))] + lines_seq(s.skip(i + 1))
        }
    }
}

/// The views of a sequence of strings.
pub open spec fn views(v: Seq<String>) -> Seq<Seq<char>> {
    v.map_values(|x: String| x@)
}

/// Each line of `lines_seq(s)` with `prefix` in front.
pub open spec fn prefixed_lines(prefix: Seq<char>, s: Seq<char>) -> Seq<Seq<char>> {
    lines_seq(s).map_values(|l: Seq<char>| prefix + l)
}

/// Pushes `prefix` + each line of `v[from..]` onto `out`.
fn push_lines_from(out: &mut Vec<String>, prefix: &str, v: &Vec<char>, from: usize)
    requires
        from <= v.len(),
    ensures
        views(final(out)@) == views(old(out)@) + prefixed_lines(prefix@, v@.skip(from as int)),
    decreases v.len() - from,
{
    let ghost rest = v@.skip(from as int);
    if from == v.len() {
        assert(rest.len() == 0);
        assert(prefixed_lines(prefix@, rest) =~= Seq::<Seq<char>>::empty());
        assert(views(out@) =~= views(old(out)@) + prefixed_lines(prefix@, rest));
        return;
    }
    let mut j = from;
    while j < v.len() && v[j] != '\n'
        invariant
            from <= j <= v.len(),
            find_from(rest, '\n', 0) == find_from(rest, '\n', (j - from) as int),
            rest == v@.skip(from as int),
        decreases v.len() - j,
    {
        j += 1;
    }
    let ghost i = (j - from) as int;
    assert(find_from(rest, '\n', i) == i);
    let mut end = j;
    if j < v.len() && j > from && v[j - 1] == '\r' {
        end = j - 1;
    }
    let mut line = copy_str(prefix);
    let body = string_from_range(v, from, end);
    push_str(&mut line, body.as_str());
    let ghost before = views(out@);
    out.push(line);
    if j == v.len() {
        assert(rest.take(i) =~= rest);
        assert(body@ =~= rest);
        assert(lines_seq(rest) =~= seq![rest]);
        assert(views(out@) =~= views(old(out)@) + prefixed_lines(prefix@, rest));
    } else {
        assert(strip_cr(rest.take(i)) =~= body@);
        assert(rest.skip(i + 1) =~= v@.skip(j + 1));
        push_lines_from(out, prefix, v, j + 1);
        assert(lines_seq(rest) =~= seq![body@] + lines_seq(v@.skip(j + 1)));
        assert(prefixed_lines(prefix@, rest) =~= seq![prefix@ + body@] + prefixed_lines(
            prefix@,
            v@.skip(j + 1),
        ));
        assert(views(out@) =~= views(old(out)@) + prefixed_lines(prefix@, rest));
    }
}

/// Pushes `prefix` + each line of `text`.
pub fn push_prefixed_lines(lines: &mut Vec<String>, prefix: &str, text: &str)
    ensures
        views(final(lines)@) == views(old(lines)@) + prefixed_lines(prefix@, text@),
{
    let v = chars_of(text);
    push_lines_from(lines, prefix, &v, 0);
    assert(v@.skip(0) =~= v@);
}

/// What `push_multiline_prefixed` appends: `prefix<empty>` for empty text,
/// otherwise `prefix` + each line.
pub open spec fn multiline_prefixed(prefix: Seq<char>, text: Seq<char>) -> Seq<Seq<char>> {
    if text.len() == 0 {
        seq![prefix + "<empty>"@]
    } else {
        prefixed_lines(prefix, text)
    }
}

pub fn push_multiline_prefixed(lines: &mut Vec<String>, prefix: &str, text: &str)
    ensures
        views(final(lines)@) == views(old(lines)@) + multiline_prefixed(prefix@, text@),
{
    let v = chars_of(text);
    if v.len() == 0 {
        let line = concat(prefix, "<empty>");
        let ghost before = views(lines@);
        lines.push(line);
        assert(views(lines@) =~= before + multiline_prefixed(prefix@, text@));
        return;
    }
    push_lines_from(lines, prefix, &v, 0);
    assert(v@.skip(0) =~= v@);
}

// ---------------------------------------------------------------------------
// Word and URL helpers
// ---------------------------------------------------------------------------

/// Common English words (and URL fragments) left out of word counts.
pub open spec fn stop_words() -> Seq<Seq<char>> {
    seq![
        "the"@, "and"@, "you"@, "that"@, "was"@, "for"@, "are"@, "with"@, "his"@, "they"@,
        "this"@, "have"@, "from"@, "one"@, "had"@, "word"@, "but"@, "not"@, "what"@, "all"@,
        "were"@, "when"@, "your"@, "can"@, "said"@, "there"@, "use"@, "each"@, "which"@,
        "she"@, "how"@, "their"@, "will"@, "other"@, "about"@, "out"@, "many"@, "then"@,
        "them"@, "these"@, "some"@, "her"@, "would"@, "make"@, "like"@, "him"@, "into"@,
        "time"@, "has"@, "look"@, "two"@, "more"@, "write"@, "see"@, "number"@, "way"@,
        "could"@, "people"@, "than"@, "first"@, "water"@, "been"@, "call"@, "who"@, "oil"@,
        "its"@, "now"@, "find"@, "long"@, "down"@, "day"@, "did"@, "get"@, "come"@, "made"@,
        "may"@, "part"@, "https"@, "http"@, "com"@, "www"@, "net"@, "org"@
    ]
}

pub fn stop_word_list() -> (out: Vec<&'static str>)
    ensures
        out@.map_values(|w: &str| w@) == stop_words(),
{
    let out = vec![
        "the", "and", "you", "that", "was", "for", "are", "with", "his", "they",
        "this", "have", "from", "one", "had", "word", "but", "not", "what", "all",
        "were", "when", "your", "can", "said", "there", "use", "each", "which",
        "she", "how", "their", "will", "other", "about", "out", "many", "then",
        "them", "these", "some", "her", "would", "make", "like", "him", "into",
        "time", "has", "look", "two", "more", "write", "see", "number", "way",
        "could", "people", "than", "first", "water", "been", "call", "who", "oil",
        "its", "now", "find", "long", "down", "day", "did", "get", "come", "made",
        "may", "part", "https", "http", "com", "www", "net", "org"
    ];
    assert(out@.map_values(|w: &str| w@) =~= stop_words());
    out
}

pub fn is_stop_word(w: &str) -> (r: bool)
    ensures
        r == stop_words().contains(w@),
{
    let list = stop_word_list();
    let ghost l = list@.map_values(|x: &str| x@);
    let mut i: usize = 0;
    while i < list.len()
        invariant
            i <= list.len(),
            l == stop_words(),
            l == list@.map_values(|x: &str| x@),
            forall|k: int| 0 <= k < i ==> l[k] != w@,
        decreases list.len() - i,
    {
        if str_eq(list[i], w) {
            assert(l[i as int] == w@);
            return true;
        }
        i += 1;
    }
    assert(!stop_words().contains(w@));
    false
}

/// `s` without prefix `p` when it has one.
pub open spec fn strip_prefix_seq(s: Seq<char>, p: Seq<char>) -> Option<Seq<char>> {
    if has_prefix(s, p) {
        Some(s.skip(p.len() as int))
    } else {
        None
    }
}

pub fn strip_prefix(s: &str, p: &str) -> (r: Option<String>)
    ensures
        r matches Some(t) ==> strip_prefix_seq(s@, p@) == Some(t@),
        r is None ==> strip_prefix_seq(s@, p@) is None,
{
    if starts_with(s, p) {
        let v = chars_of(s);
        let n = chars_of(p).len();
        let t = string_from_range(&v, n, v.len());
        assert(t@ =~= s@.skip(p@.len() as int));
        Some(t)
    } else {
        None
    }
}

/// Position of the first URL delimiter (`/`, `?` or `#`) at or after `i`.
pub open spec fn host_end(s: Seq<char>, i: int) -> int
    decreases s.len() - i,
{
    if i < 0 || i >= s.len() {
        s.len() as int
    } else if s[i] == '/' || s[i] == '?' || s[i] == '#' {
        i
    } else {
        host_end(s, i + 1)
    }
}

/// The host of an `http(s)` URL, lower-cased, without a leading `www.`.
pub open spec fn host_spec(url: Seq<char>) -> Option<Seq<char>> {
    let rest = if has_prefix(url, "https://"@) {
        Some(url.skip(8))
    } else if has_prefix(url, "http://"@) {
        Some(url.skip(7))
    } else {
        None
    };
    match rest {
        None => None,
        Some(r) => {
            let host = r.take(host_end(r, 0));
            if host.len() == 0 {
                None
            } else if has_prefix(host, "www."@) {
                Some(lower_seq(host.skip(4)))
            } else {
                Some(lower_seq(host))
            }
        },
    }
}

pub fn extract_host(url: &str) -> (r: Option<String>)
    ensures
        r matches Some(h) ==> host_spec(url@) == Some(h@),
        r is None ==> host_spec(url@) is None,
{
    proof {
        reveal_strlit("https://");
        reveal_strlit("http://");
        reveal_strlit("www.");
    }
    let rest = match strip_prefix(url, "https://") {
        Some(r) => r,
        None => match strip_prefix(url, "http://") {
            Some(r) => r,
            None => return None,
        },
    };
    let v = chars_of(rest.as_str());
    let mut j: usize = 0;
    while j < v.len() && v[j] != '/' && v[j] != '?' && v[j] != '#'
        invariant
            j <= v.len(),
            host_end(v@, 0) == host_end(v@, j as int),
        decreases v.len() - j,
    {
        j += 1;
    }
    if j == 0 {
        return None;
    }
    let host = string_from_range(&v, 0, j);
    assert(host@ =~= v@.take(j as int));
    let out = match strip_prefix(host.as_str(), "www.") {
        Some(h) => to_ascii_lowercase(h.as_str()),
        None => to_ascii_lowercase(host.as_str()),
    };
    Some(out)
}

} // verus!
