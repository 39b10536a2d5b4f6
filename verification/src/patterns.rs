//! Text matching done by outside crates: regular expressions (`regex`),
//! grapheme clusters (`unicode-segmentation`), the emoji table (`emojis`)
//! and SHA-256 (`sha2`). Each call stands behind one trusted wrapper whose
//! result is named by a specification function of its inputs.
use vstd::prelude::*;
use regex::Regex;
use sha2::Sha256;
use sha2::Digest;
use unicode_segmentation::UnicodeSegmentation;

verus! {

#[verifier::external_type_specification]
#[verifier::external_body]
pub struct ExRegex(regex::Regex);

/// A running SHA-256 state of the `sha2` crate (a generic wrapper over
/// type-level integers), held opaque and described only through
/// `sha256_absorbed`: the bytes fed into it since it was made.
#[verifier::external_body]
pub struct HashState {
    inner: Sha256,
}

/// Whether `regex::Regex::new` accepts `pattern`.
pub uninterp spec fn regex_compiles(pattern: Seq<char>) -> bool;

/// The texts of the successive non-overlapping matches of `pattern` in
/// `text`, as `regex::Regex::find_iter` yields them.
pub uninterp spec fn regex_find_all(pattern: Seq<char>, text: Seq<char>) -> Seq<Seq<char>>;

/// The capture groups of the first match of `pattern` in `text`, as
/// `regex::Regex::captures` gives them (group 0 is the whole match; a
/// group that did not take part is `None`), or `None` without a match.
pub uninterp spec fn regex_captures(pattern: Seq<char>, text: Seq<char>) -> Option<
    Seq<Option<Seq<char>>>,
>;

/// The extended grapheme clusters of `text`, as
/// `UnicodeSegmentation::graphemes(text, true)` yields them.
pub uninterp spec fn grapheme_clusters(text: Seq<char>) -> Seq<Seq<char>>;

/// Whether `emojis::get` finds `g` in its emoji table.
pub uninterp spec fn known_emoji(g: Seq<char>) -> bool;

/// The bytes a SHA-256 state has absorbed since it was created.
pub uninterp spec fn sha256_absorbed(h: HashState) -> Seq<u8>;

/// The SHA-256 digest of `data`.
pub uninterp spec fn sha256_digest(data: Seq<u8>) -> Seq<u8>;

/// The view of an optional string.
pub open spec fn opt_view(x: Option<String>) -> Option<Seq<char>> {
    match x {
        Some(s) => Some(s@),
        None => None,
    }
}

/// A compiled regular expression together with its source pattern.
pub struct Pattern {
    source: String,
    re: Regex,
}

impl Pattern {
    /// The pattern this expression was compiled from.
    pub closed spec fn source(&self) -> Seq<char> {
        self.source@
    }
}

/// `regex::Regex::new`: compiles `pattern`; `None` when the regex crate
/// rejects it. The contract claims the result is `Some` exactly when the
/// crate accepts the pattern, and that it keeps the pattern it was given.
#[verifier::external_body]
fn compile_regex(pattern: &str) -> (r: Option<Pattern>)
    ensures
        r is Some <==> regex_compiles(pattern@),
        r matches Some(p) ==> p.source() == pattern@,
{
    match Regex::new(pattern) {
        Ok(re) => Some(Pattern { source: pattern.to_string(), re }),
        Err(_) => None,
    }
}

/// `regex::Regex::find_iter`: the texts of all non-overlapping matches, in
/// order. The contract claims exactly the named match list.
#[verifier::external_body]
fn find_all(p: &Pattern, text: &str) -> (r: Vec<String>)
    ensures
        r@.map_values(|s: String| s@) == regex_find_all(p.source(), text@),
{
    p.re.find_iter(text).map(|m| m.as_str().to_string()).collect()
}

/// `regex::Regex::captures`: the groups of the first match. The contract
/// claims exactly the named capture list.
#[verifier::external_body]
fn captures(p: &Pattern, text: &str) -> (r: Option<Vec<Option<String>>>)
    ensures
        match r {
            Some(g) => regex_captures(p.source(), text@) == Some(
                g@.map_values(|x: Option<String>| opt_view(x)),
            ),
            None => regex_captures(p.source(), text@) is None,
        },
{
    p.re.captures(text).map(|c| c.iter().map(|m| m.map(|m| m.as_str().to_string())).collect())
}

/// `UnicodeSegmentation::graphemes(text, true)`: the extended grapheme
/// clusters. The contract claims exactly the named cluster list.
#[verifier::external_body]
fn graphemes(text: &str) -> (r: Vec<String>)
    ensures
        r@.map_values(|s: String| s@) == grapheme_clusters(text@),
{
    text.graphemes(true).map(|g| g.to_string()).collect()
}

/// `emojis::get(g).is_some()`. The contract claims exactly the named answer.
#[verifier::external_body]
fn emoji_lookup(g: &str) -> (r: bool)
    ensures
        r == known_emoji(g@),
{
    emojis::get(g).is_some()
}

/// `Sha256::new`: a state that has absorbed nothing.
#[verifier::external_body]
fn sha256_new() -> (h: HashState)
    ensures
        sha256_absorbed(h) == Seq::<u8>::empty(),
{
    HashState { inner: Sha256::new() }
}

/// `Digest::update`: absorbs `data` after what the state already holds.
#[verifier::external_body]
fn sha256_update(h: &mut HashState, data: &[u8])
    ensures
        sha256_absorbed(*final(h)) == sha256_absorbed(*old(h)) + data@,
{
    h.inner.update(data);
}

/// `Digest::finalize`: the 32-byte digest of everything absorbed.
#[verifier::external_body]
fn sha256_finish(h: HashState) -> (r: Vec<u8>)
    ensures
        r@ == sha256_digest(sha256_absorbed(h)),
        r@.len() == 32,
{
    h.inner.finalize().to_vec()
}

// ---------------------------------------------------------------------------
// The patterns of the message analyzer
// ---------------------------------------------------------------------------

/// Custom Discord emoji such as `<:name:123>` or `<a:name:123>`.
pub open spec fn custom_emoji_pattern() -> Seq<char> {
    "<a?:[A-Za-z0-9_]+:\\d+>"@
}

/// A clock time after `T` or a space; group 1 is the hour.
pub open spec fn hour_pattern() -> Seq<char> {
    "(?:T| )(\\d{2}):(\\d{2}):(\\d{2})"@
}

/// A leading `YYYY-MM-DD`; groups 1-3 are year, month and day.
pub open spec fn date_pattern() -> Seq<char> {
    "^(\\d{4})-(\\d{2})-(\\d{2})"@
}

/// A word of 3 to 15 ASCII letters.
pub open spec fn word_pattern() -> Seq<char> {
    "(?i)\\b[a-z]{3,15}\\b"@
}

/// An `http(s)` URL.
pub open spec fn url_pattern() -> Seq<char> {
    "https?://[^\\s<>\\x22')\\x5D]+"@
}

/// The compiled patterns the message analyzer matches content against.
pub struct MessagePatterns {
    emoji: Pattern,
    hour: Pattern,
    date: Pattern,
    word: Pattern,
    url: Pattern,
}

impl MessagePatterns {
    pub closed spec fn wf(&self) -> bool {
        &&& self.emoji.source() == custom_emoji_pattern()
        &&& self.hour.source() == hour_pattern()
        &&& self.date.source() == date_pattern()
        &&& self.word.source() == word_pattern()
        &&& self.url.source() == url_pattern()
    }

    /// Compiles the five patterns; `None` if the regex crate rejects one.
    pub fn new() -> (r: Option<Self>)
        ensures
            r matches Some(p) ==> p.wf(),
            r is Some <==> (regex_compiles(custom_emoji_pattern()) && regex_compiles(hour_pattern())
                && regex_compiles(date_pattern()) && regex_compiles(word_pattern())
                && regex_compiles(url_pattern())),
    {
        let emoji = match compile_regex("<a?:[A-Za-z0-9_]+:\\d+>") {
            Some(p) => p,
            None => return None,
        };
        let hour = match compile_regex("(?:T| )(\\d{2}):(\\d{2}):(\\d{2})") {
            Some(p) => p,
            None => return None,
        };
        let date = match compile_regex("^(\\d{4})-(\\d{2})-(\\d{2})") {
            Some(p) => p,
            None => return None,
        };
        let word = match compile_regex("(?i)\\b[a-z]{3,15}\\b") {
            Some(p) => p,
            None => return None,
        };
        let url = match compile_regex("https?://[^\\s<>\\x22')\\x5D]+") {
            Some(p) => p,
            None => return None,
        };
        Some(MessagePatterns { emoji, hour, date, word, url })
    }

    /// The custom emoji in `text`.
    pub fn custom_emojis(&self, text: &str) -> (r: Vec<String>)
        requires
            self.wf(),
        ensures
            r@.map_values(|s: String| s@) == regex_find_all(custom_emoji_pattern(), text@),
    {
        find_all(&self.emoji, text)
    }

    /// The capture groups of the clock-time pattern in `text`.
    pub fn hour_captures(&self, text: &str) -> (r: Option<Vec<Option<String>>>)
        requires
            self.wf(),
        ensures
            match r {
                Some(g) => regex_captures(hour_pattern(), text@) == Some(
                    g@.map_values(|x: Option<String>| opt_view(x)),
                ),
                None => regex_captures(hour_pattern(), text@) is None,
            },
    {
        captures(&self.hour, text)
    }

    /// The capture groups of the leading-date pattern in `text`.
    pub fn date_captures(&self, text: &str) -> (r: Option<Vec<Option<String>>>)
        requires
            self.wf(),
        ensures
            match r {
                Some(g) => regex_captures(date_pattern(), text@) == Some(
                    g@.map_values(|x: Option<String>| opt_view(x)),
                ),
                None => regex_captures(date_pattern(), text@) is None,
            },
    {
        captures(&self.date, text)
    }

    /// The words in `text`.
    pub fn words(&self, text: &str) -> (r: Vec<String>)
        requires
            self.wf(),
        ensures
            r@.map_values(|s: String| s@) == regex_find_all(word_pattern(), text@),
    {
        find_all(&self.word, text)
    }

    /// The URLs in `text`.
    pub fn urls(&self, text: &str) -> (r: Vec<String>)
        requires
            self.wf(),
        ensures
            r@.map_values(|s: String| s@) == regex_find_all(url_pattern(), text@),
    {
        find_all(&self.url, text)
    }
}

/// The grapheme clusters of `text` found in the emoji table.
pub open spec fn emoji_cluster_count(gs: Seq<Seq<char>>) -> nat
    decreases gs.len(),
{
    if gs.len() == 0 {
        0
    } else {
        emoji_cluster_count(gs.drop_last()) + if known_emoji(gs.last()) {
            1nat
        } else {
            0nat
        }
    }
}

/// How many grapheme clusters of `text` are emoji.
pub fn count_unicode_emoji(text: &str) -> (r: u64)
    ensures
        r as nat == emoji_cluster_count(grapheme_clusters(text@)),
{
    let gs = graphemes(text);
    let ghost gv = gs@.map_values(|s: String| s@);
    let mut n: u64 = 0;
    let mut i: usize = 0;
    while i < gs.len()
        invariant
            i <= gs.len(),
            gv == gs@.map_values(|s: String| s@),
            n as nat == emoji_cluster_count(gv.take(i as int)),
            n <= i,
        decreases gs.len() - i,
    {
        assert(gv.take(i + 1).drop_last() =~= gv.take(i as int));
        if emoji_lookup(gs[i].as_str()) {
            n += 1;
        }
        i += 1;
    }
    assert(gv.take(gv.len() as int) =~= gv);
    n
}

// ---------------------------------------------------------------------------
// Content hashing
// ---------------------------------------------------------------------------

/// Lower-case hexadecimal digit for `d < 16`.
pub open spec fn hex_digit(d: nat) -> char {
    if d < 10 {
        (48 + d) as char
    } else {
        (87 + d) as char
    }
}

/// Two lower-case hex digits per byte.
pub open spec fn hex_seq(bytes: Seq<u8>) -> Seq<char>
    decreases bytes.len(),
{
    if bytes.len() == 0 {
        Seq::empty()
    } else {
        hex_seq(bytes.drop_last()) + seq![
            hex_digit((bytes.last() / 16) as nat),
            hex_digit((bytes.last() % 16) as nat),
        ]
    }
}

fn hex_char(d: u8) -> (c: char)
    requires
        d < 16,
    ensures
        c == hex_digit(d as nat),
{
    if d < 10 {
        (48 + d) as char
    } else {
        (87 + d) as char
    }
}

/// `bytes` as lower-case hex, two digits per byte.
pub fn hex_lower(bytes: &[u8]) -> (out: String)
    ensures
        out@ == hex_seq(bytes@),
{
    let mut out = String::new();
    let mut i: usize = 0;
    while i < bytes.len()
        invariant
            i <= bytes.len(),
            out@ == hex_seq(bytes@.take(i as int)),
        decreases bytes.len() - i,
    {
        let b = bytes[i];
        assert(bytes@.take(i + 1).drop_last() =~= bytes@.take(i as int));
        crate::text::push_char(&mut out, hex_char(b / 16));
        crate::text::push_char(&mut out, hex_char(b % 16));
        i += 1;
        assert(out@ =~= hex_seq(bytes@.take(i as int)));
    }
    assert(bytes@.take(bytes@.len() as int) =~= bytes@);
    out
}

/// A SHA-256 computation over content fed in pieces.
pub struct ContentHasher {
    state: HashState,
}

impl ContentHasher {
    /// Everything fed so far.
    pub closed spec fn input(&self) -> Seq<u8> {
        sha256_absorbed(self.state)
    }

    pub fn new() -> (h: Self)
        ensures
            h.input() == Seq::<u8>::empty(),
    {
        ContentHasher { state: sha256_new() }
    }

    pub fn update(&mut self, data: &[u8])
        ensures
            final(self).input() == old(self).input() + data@,
    {
        sha256_update(&mut self.state, data);
    }

    /// The lower-case hex SHA-256 of everything fed.
    pub fn finish(self) -> (hex: String)
        ensures
            hex@ == hex_seq(sha256_digest(self.input())),
            hex@.len() == 64,
    {
        let digest = sha256_finish(self.state);
        let hex = hex_lower(digest.as_slice());
        proof {
            lemma_hex_len(digest@);
        }
        hex
    }
}

proof fn lemma_hex_len(b: Seq<u8>)
    ensures
        hex_seq(b).len() == 2 * b.len(),
    decreases b.len(),
{
    if b.len() > 0 {
        lemma_hex_len(b.drop_last());
    }
}

} // verus!
