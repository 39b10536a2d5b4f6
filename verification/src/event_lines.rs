//! The lines of activity files as the per-file counts read them: ASCII
//! trimming, and the scan of a line's top-level object for a repeated
//! `event_type` key, which makes the line unreadable as an event.
use vstd::prelude::*;
use crate::analysis::line_event_type;
use crate::json::{ascii_blank_end, json_of, JsonValue};
use crate::text::{chars_of, matches_at, occurs_at, string_from_range};

verus! {

/// ASCII whitespace as `u8::is_ascii_whitespace` knows it.
pub open spec fn is_ascii_blank(c: char) -> bool {
    c == ' ' || c == '\t' || c == '\n' || c == '\r' || c == '\x0C'
}

/// Where trailing ASCII whitespace before `j` (and after `lo`) begins.
pub open spec fn ascii_blank_back(t: Seq<char>, lo: int, j: int) -> int
    decreases j - lo,
{
    if lo < j && j <= t.len() && is_ascii_blank(t[j - 1]) {
        ascii_blank_back(t, lo, j - 1)
    } else {
        j
    }
}

/// `t` without leading and trailing ASCII whitespace.
pub open spec fn ascii_trimmed(t: Seq<char>) -> Seq<char> {
    let a = ascii_blank_end(t, 0);
    t.subrange(a, ascii_blank_back(t, a, t.len() as int))
}

pub fn ascii_trim(line: &str) -> (r: String)
    ensures
        r@ == ascii_trimmed(line@),
{
    let v = chars_of(line);
    let mut a: usize = 0;
    while a < v.len() && (v[a] == ' ' || v[a] == '\t' || v[a] == '\n' || v[a] == '\r' || v[a] == '\x0C')
        invariant
            a <= v@.len(),
            v@ == line@,
            ascii_blank_end(line@, 0) == ascii_blank_end(line@, a as int),
        decreases v@.len() - a,
    {
        a += 1;
    }
    let mut e: usize = v.len();
    while a < e && (v[e - 1] == ' ' || v[e - 1] == '\t' || v[e - 1] == '\n' || v[e - 1] == '\r'
        || v[e - 1] == '\x0C')
        invariant
            a <= e <= v@.len(),
            v@ == line@,
            ascii_blank_end(line@, 0) == a,
            ascii_blank_back(line@, a as int, v@.len() as int) == ascii_blank_back(line@, a as int, e as int),
        decreases e - a,
    {
        e -= 1;
    }
    string_from_range(&v, a, e)
}

/// The state of a scan over a JSON text for the members of its top-level
/// object: nesting depth, inside a string, after a backslash in one, where
/// the current string began, the last string closed at depth 1 (a key when
/// a `:` follows), and how many `event_type` keys were met (up to 2).
pub open spec fn scan_start() -> (int, bool, bool, int, Option<(int, int)>, nat) {
    (0, false, false, 0, None, 0)
}

pub open spec fn scan_step(
    st: (int, bool, bool, int, Option<(int, int)>, nat),
    t: Seq<char>,
    i: int,
) -> (int, bool, bool, int, Option<(int, int)>, nat) {
    let (depth, in_str, esc, start, pending, hits) = st;
    let c = t[i];
    if in_str {
        if esc {
            (depth, true, false, start, pending, hits)
        } else if c == '\\' {
            (depth, true, true, start, pending, hits)
        } else if c == '"' {
            (depth, false, false, start, if depth == 1 { Some((start, i)) } else { None }, hits)
        } else {
            st
        }
    } else if c == '"' {
        (depth, true, false, i + 1, None, hits)
    } else if c == '{' || c == '[' {
        (depth + 1, false, false, start, None, hits)
    } else if c == '}' || c == ']' {
        (depth - 1, false, false, start, None, hits)
    } else if c == ':' {
        let key_hit = match pending {
            Some(p) => t.subrange(p.0, p.1) == "event_type"@,
            None => false,
        };
        (depth, false, false, start, None, if key_hit && hits < 2 { hits + 1 } else { hits })
    } else if is_ascii_blank(c) {
        st
    } else {
        (depth, false, false, start, None, hits)
    }
}

pub open spec fn scan_state(t: Seq<char>, k: int) -> (int, bool, bool, int, Option<(int, int)>, nat)
    decreases k,
{
    if k <= 0 {
        scan_start()
    } else {
        scan_step(scan_state(t, k - 1), t, k - 1)
    }
}

/// The top-level object of a JSON text names `event_type` more than once
/// (a key written with escapes is not recognized as that name).
pub open spec fn repeats_event_type(t: Seq<char>) -> bool {
    scan_state(t, t.len() as int).5 >= 2
}

pub open spec fn pend_view(p: Option<(usize, usize)>) -> Option<(int, int)> {
    match p {
        Some(q) => Some((q.0 as int, q.1 as int)),
        None => None,
    }
}

pub fn has_repeated_event_type(text: &str) -> (r: bool)
    ensures
        r == repeats_event_type(text@),
{
    let t = chars_of(text);
    let key = chars_of("event_type");
    let mut depth: i128 = 0;
    let mut in_str = false;
    let mut esc = false;
    let mut start: usize = 0;
    let mut pend: Option<(usize, usize)> = None;
    let mut hits: u8 = 0;
    let mut i: usize = 0;
    while i < t.len()
        invariant
            i <= t@.len(),
            t@ == text@,
            key@ == "event_type"@,
            -(i as int) <= depth <= i,
            start <= i,
            hits <= 2,
            !in_str ==> !esc,
            match pend {
                Some(q) => q.0 <= q.1 < i,
                None => true,
            },
            (depth as int, in_str, esc, start as int, pend_view(pend), hits as nat) == scan_state(text@, i as int),
        decreases t@.len() - i,
    {
        let c = t[i];
        let ghost st = scan_state(text@, i as int);
        assert(scan_state(text@, i + 1) == scan_step(st, text@, i as int));
        if in_str {
            if esc {
                esc = false;
            } else if c == '\\' {
                esc = true;
            } else if c == '"' {
                in_str = false;
                pend = if depth == 1 {
                    Some((start, i))
                } else {
                    None
                };
            }
        } else if c == '"' {
            in_str = true;
            esc = false;
            start = i + 1;
            pend = None;
        } else if c == '{' || c == '[' {
            depth = depth + 1;
            pend = None;
        } else if c == '}' || c == ']' {
            depth = depth - 1;
            pend = None;
        } else if c == ':' {
            let key_hit = match pend {
                Some(q) => q.1 - q.0 == key.len() && matches_at(&t, &key, q.0),
                None => false,
            };
            proof {
                match pend {
                    Some(q) => {
                        if q.1 - q.0 == key@.len() {
                            assert(occurs_at(t@, key@, q.0 as int) == (t@.subrange(q.0 as int, q.1 as int) == key@));
                        } else {
                            assert(t@.subrange(q.0 as int, q.1 as int).len() != key@.len());
                        }
                    },
                    None => {},
                }
            }
            assert(key_hit == match pend_view(pend) {
                Some(p) => text@.subrange(p.0, p.1) == "event_type"@,
                None => false,
            });
            if key_hit && hits < 2 {
                hits = hits + 1;
            }
            pend = None;
        } else if c == ' ' || c == '\t' || c == '\n' || c == '\r' || c == '\x0C' {
        } else {
            pend = None;
        }
        assert((depth as int, in_str, esc, start as int, pend_view(pend), hits as nat) == scan_step(st, text@, i as int));
        i += 1;
    }
    hits >= 2
}

/// The event type an activity file's line is counted under (the line
/// without its surrounding ASCII whitespace): `None` when it is not valid
/// JSON, when its top-level object names `event_type` twice, or when it
/// does not read as an event (see `line_event_type`).
pub open spec fn line_event_type_text(t: Seq<char>) -> Option<Seq<char>> {
    match json_of(t) {
        None => None,
        Some(v) => if v is Object && repeats_event_type(t) {
            None
        } else {
            line_event_type(v)
        },
    }
}

} // verus!
