//! The JSON records of an export, held as plain values, and the lookups the
//! analyzers make on them: first usable field among alternative names,
//! scalar renderings, attachment URL lists and channel titles.
use vstd::prelude::*;
use crate::text::{
    chars_of, copy_str, is_digit, is_digit_char, is_whitespace, is_ws_char, push_char, push_str,
    str_eq, string_from_range, trim, trim_seq, lines_seq, views,
};
use crate::numfmt::{digits_value, parse_i64, parse_i64_spec, parse_u64, parse_u64_spec};
use crate::patterns::hex_digit;
use crate::events::{nonblank_trimmed, tail_lines};
use serde_json::Value as SerdeValue;

verus! {

/// A JSON number: its canonical text and the integer readings of it.
pub struct JsonNumber {
    /// The number as JSON renders it.
    pub text: String,
    /// The value when it is a non-negative integer that fits `u64`.
    pub as_u64: Option<u64>,
    /// The value when it is an integer that fits `i64`.
    pub as_i64: Option<i64>,
}

/// Renderings of an array or object as JSON text.
pub struct JsonText {
    /// Single-line rendering.
    pub compact: String,
    /// Indented multi-line rendering.
    pub pretty: String,
}

/// A JSON value. Objects keep their members in key order, each key once.
pub enum JsonValue {
    Null,
    Bool(bool),
    Number(JsonNumber),
    Str(String),
    Array(Vec<JsonValue>, JsonText),
    Object(Vec<(String, JsonValue)>, JsonText),
}

/// The member `key` of an object value.
pub open spec fn obj_get(v: JsonValue, key: Seq<char>) -> Option<JsonValue> {
    match v {
        JsonValue::Object(members, _) => members_get(members@, key),
        _ => None,
    }
}

pub open spec fn members_get(m: Seq<(String, JsonValue)>, key: Seq<char>) -> Option<JsonValue>
    decreases m.len(),
{
    if m.len() == 0 {
        None
    } else if m[0].0@ == key {
        Some(m[0].1)
    } else {
        members_get(m.drop_first(), key)
    }
}

/// `value.get(key)` of a JSON object.
pub fn get<'a>(v: &'a JsonValue, key: &str) -> (r: Option<&'a JsonValue>)
    ensures
        match r {
            Some(x) => obj_get(*v, key@) == Some(*x),
            None => obj_get(*v, key@) is None,
        },
{
    match v {
        JsonValue::Object(members, _) => {
            let mut i: usize = 0;
            assert(obj_get(*v, key@) == members_get(members@, key@));
            assert(members@.skip(0) =~= members@);
            while i < members.len()
                invariant
                    i <= members.len(),
                    members_get(members@, key@) == members_get(members@.skip(i as int), key@),
                    obj_get(*v, key@) == members_get(members@, key@),
                decreases members.len() - i,
            {
                let ghost rest = members@.skip(i as int);
                assert(rest.drop_first() =~= members@.skip(i + 1));
                assert(rest[0] == members@[i as int]);
                if str_eq(members[i].0.as_str(), key) {
                    return Some(&members[i].1);
                }
                i += 1;
            }
            None
        },
        _ => None,
    }
}

/// `value_to_plain_string`: text of strings, numbers and booleans; the
/// compact JSON of arrays and objects; nothing for null.
pub open spec fn plain_text(v: JsonValue) -> Option<Seq<char>> {
    match v {
        JsonValue::Null => None,
        JsonValue::Bool(b) => Some(
            if b {
                "true"@
            } else {
                "false"@
            },
        ),
        JsonValue::Number(n) => Some(n.text@),
        JsonValue::Str(s) => Some(s@),
        JsonValue::Array(_, t) => Some(t.compact@),
        JsonValue::Object(_, t) => Some(t.compact@),
    }
}

pub fn value_to_plain_string(v: &JsonValue) -> (r: Option<String>)
    ensures
        match r {
            Some(s) => plain_text(*v) == Some(s@),
            None => plain_text(*v) is None,
        },
{
    match v {
        JsonValue::Null => None,
        JsonValue::Bool(b) => {
            if *b {
                Some(copy_str("true"))
            } else {
                Some(copy_str("false"))
            }
        },
        JsonValue::Number(n) => Some(n.text.clone()),
        JsonValue::Str(s) => Some(s.clone()),
        JsonValue::Array(_, t) => Some(t.compact.clone()),
        JsonValue::Object(_, t) => Some(t.compact.clone()),
    }
}

/// `value_to_scalar_string`: like `plain_text` but nothing for arrays and
/// objects.
pub open spec fn scalar_text(v: JsonValue) -> Option<Seq<char>> {
    match v {
        JsonValue::Array(_, _) => None,
        JsonValue::Object(_, _) => None,
        _ => plain_text(v),
    }
}

pub fn value_to_scalar_string(v: &JsonValue) -> (r: Option<String>)
    ensures
        match r {
            Some(s) => scalar_text(*v) == Some(s@),
            None => scalar_text(*v) is None,
        },
{
    match v {
        JsonValue::Array(_, _) => None,
        JsonValue::Object(_, _) => None,
        _ => value_to_plain_string(v),
    }
}

/// Text of strings and numbers only (the message analyzer's reading of
/// channel metadata).
pub open spec fn string_or_number_text(v: JsonValue) -> Option<Seq<char>> {
    match v {
        JsonValue::Number(n) => Some(n.text@),
        JsonValue::Str(s) => Some(s@),
        _ => None,
    }
}

pub fn value_to_text(v: &JsonValue) -> (r: Option<String>)
    ensures
        match r {
            Some(s) => string_or_number_text(*v) == Some(s@),
            None => string_or_number_text(*v) is None,
        },
{
    match v {
        JsonValue::Number(n) => Some(n.text.clone()),
        JsonValue::Str(s) => Some(s.clone()),
        _ => None,
    }
}

/// The views of a list of names.
pub open spec fn key_views(keys: Seq<&str>) -> Seq<Seq<char>> {
    keys.map_values(|k: &str| k@)
}

/// The first string-valued member among `keys`.
pub open spec fn pick_str_spec(v: JsonValue, keys: Seq<Seq<char>>) -> Option<Seq<char>>
    decreases keys.len(),
{
    if keys.len() == 0 {
        None
    } else {
        match obj_get(v, keys[0]) {
            Some(JsonValue::Str(s)) => Some(s@),
            _ => pick_str_spec(v, keys.drop_first()),
        }
    }
}

pub fn pick_str<'a>(record: &'a JsonValue, keys: &[&str]) -> (r: Option<&'a String>)
    ensures
        match r {
            Some(s) => pick_str_spec(*record, key_views(keys@)) == Some(s@),
            None => pick_str_spec(*record, key_views(keys@)) is None,
        },
{
    let ghost kv = key_views(keys@);
    let mut i: usize = 0;
    assert(kv.skip(0) =~= kv);
    while i < keys.len()
        invariant
            i <= keys.len(),
            kv == key_views(keys@),
            pick_str_spec(*record, kv) == pick_str_spec(*record, kv.skip(i as int)),
        decreases keys.len() - i,
    {
        assert(kv.skip(i as int).drop_first() =~= kv.skip(i + 1));
        assert(kv.skip(i as int)[0] == keys@[i as int]@);
        match get(record, keys[i]) {
            Some(JsonValue::Str(s)) => {
                return Some(s);
            },
            _ => {},
        }
        i += 1;
    }
    None
}

/// The first member among `keys` whose rendering by `f`, trimmed, is not
/// empty, trimmed.
pub open spec fn pick_trimmed_spec(
    v: JsonValue,
    keys: Seq<Seq<char>>,
    scalar_only: bool,
) -> Option<Seq<char>>
    decreases keys.len(),
{
    if keys.len() == 0 {
        None
    } else {
        match obj_get(v, keys[0]) {
            Some(x) => {
                let t = if scalar_only {
                    scalar_text(x)
                } else {
                    plain_text(x)
                };
                match t {
                    Some(s) => if trim_seq(s).len() > 0 {
                        Some(trim_seq(s))
                    } else {
                        pick_trimmed_spec(v, keys.drop_first(), scalar_only)
                    },
                    None => pick_trimmed_spec(v, keys.drop_first(), scalar_only),
                }
            },
            None => pick_trimmed_spec(v, keys.drop_first(), scalar_only),
        }
    }
}

fn pick_trimmed(record: &JsonValue, keys: &[&str], scalar_only: bool) -> (r: Option<String>)
    ensures
        match r {
            Some(s) => pick_trimmed_spec(*record, key_views(keys@), scalar_only) == Some(s@),
            None => pick_trimmed_spec(*record, key_views(keys@), scalar_only) is None,
        },
{
    let ghost kv = key_views(keys@);
    let mut i: usize = 0;
    assert(kv.skip(0) =~= kv);
    while i < keys.len()
        invariant
            i <= keys.len(),
            kv == key_views(keys@),
            pick_trimmed_spec(*record, kv, scalar_only) == pick_trimmed_spec(
                *record,
                kv.skip(i as int),
                scalar_only,
            ),
        decreases keys.len() - i,
    {
        assert(kv.skip(i as int).drop_first() =~= kv.skip(i + 1));
        assert(kv.skip(i as int)[0] == keys@[i as int]@);
        if let Some(value) = get(record, keys[i]) {
            let text = if scalar_only {
                value_to_scalar_string(value)
            } else {
                value_to_plain_string(value)
            };
            if let Some(t) = text {
                let tt = trim(t.as_str());
                let n = chars_of(tt.as_str()).len();
                if n > 0 {
                    return Some(tt);
                }
            }
        }
        i += 1;
    }
    None
}

/// `pick_plain_string` / `pick_value_string`: first member among `keys`
/// with a non-blank rendering, trimmed.
pub fn pick_plain_string(record: &JsonValue, keys: &[&str]) -> (r: Option<String>)
    ensures
        match r {
            Some(s) => pick_trimmed_spec(*record, key_views(keys@), false) == Some(s@),
            None => pick_trimmed_spec(*record, key_views(keys@), false) is None,
        },
{
    pick_trimmed(record, keys, false)
}

/// `pick_scalar_string`: as `pick_plain_string`, skipping arrays and objects.
pub fn pick_scalar_string(record: &JsonValue, keys: &[&str]) -> (r: Option<String>)
    ensures
        match r {
            Some(s) => pick_trimmed_spec(*record, key_views(keys@), true) == Some(s@),
            None => pick_trimmed_spec(*record, key_views(keys@), true) is None,
        },
{
    pick_trimmed(record, keys, true)
}

/// The first member among `keys` that exists and has a plain rendering.
pub open spec fn first_plain_spec(v: JsonValue, keys: Seq<Seq<char>>) -> Option<Seq<char>>
    decreases keys.len(),
{
    if keys.len() == 0 {
        None
    } else {
        match obj_get(v, keys[0]) {
            Some(x) => match plain_text(x) {
                Some(s) => Some(s),
                None => first_plain_spec(v, keys.drop_first()),
            },
            None => first_plain_spec(v, keys.drop_first()),
        }
    }
}

fn first_plain(record: &JsonValue, keys: &[&str]) -> (r: Option<String>)
    ensures
        match r {
            Some(s) => first_plain_spec(*record, key_views(keys@)) == Some(s@),
            None => first_plain_spec(*record, key_views(keys@)) is None,
        },
{
    let ghost kv = key_views(keys@);
    let mut i: usize = 0;
    assert(kv.skip(0) =~= kv);
    while i < keys.len()
        invariant
            i <= keys.len(),
            kv == key_views(keys@),
            first_plain_spec(*record, kv) == first_plain_spec(*record, kv.skip(i as int)),
        decreases keys.len() - i,
    {
        assert(kv.skip(i as int).drop_first() =~= kv.skip(i + 1));
        assert(kv.skip(i as int)[0] == keys@[i as int]@);
        if let Some(value) = get(record, keys[i]) {
            if let Some(t) = value_to_plain_string(value) {
                return Some(t);
            }
        }
        i += 1;
    }
    None
}

/// Field names under which exports store a message's text.
pub open spec fn content_keys() -> Seq<Seq<char>> {
    seq!["Contents"@, "Content"@, "content"@, "message_content"@]
}

/// The text of a message record, empty when it has none.
pub open spec fn message_content_spec(record: JsonValue) -> Seq<char> {
    match first_plain_spec(record, content_keys()) {
        Some(s) => s,
        None => Seq::empty(),
    }
}

pub fn extract_message_content(record: &JsonValue) -> (r: String)
    ensures
        r@ == message_content_spec(*record),
{
    let keys = ["Contents", "Content", "content", "message_content"];
    assert(key_views(keys@) =~= content_keys());
    match first_plain(record, &keys) {
        Some(s) => s,
        None => String::new(),
    }
}

// ---------------------------------------------------------------------------
// Whitespace-separated words
// ---------------------------------------------------------------------------

/// The words of `s` (maximal runs of non-whitespace) and whether `s` ends
/// inside a word.
pub open spec fn words_state(s: Seq<char>) -> (Seq<Seq<char>>, bool)
    decreases s.len(),
{
    if s.len() == 0 {
        (Seq::empty(), false)
    } else {
        let prev = words_state(s.drop_last());
        let c = s.last();
        if is_ws_char(c) {
            (prev.0, false)
        } else if prev.1 && prev.0.len() > 0 {
            (prev.0.update(prev.0.len() - 1, prev.0.last().push(c)), true)
        } else {
            (prev.0.push(seq![c]), true)
        }
    }
}

/// `str::split_whitespace`.
pub open spec fn words_of(s: Seq<char>) -> Seq<Seq<char>> {
    words_state(s).0
}

pub fn split_whitespace(text: &str) -> (r: Vec<String>)
    ensures
        r@.map_values(|x: String| x@) == words_of(text@),
{
    let v = chars_of(text);
    let mut out: Vec<String> = Vec::new();
    let mut cur = String::new();
    let mut in_word = false;
    let mut i: usize = 0;
    while i < v.len()
        invariant
            v@ == text@,
            i <= v.len(),
            !in_word ==> cur@.len() == 0,
            ({
                let st = words_state(v@.take(i as int));
                &&& st.1 == in_word
                &&& in_word ==> st.0 == out@.map_values(|x: String| x@).push(cur@)
                &&& !in_word ==> st.0 == out@.map_values(|x: String| x@)
            }),
        decreases v.len() - i,
    {
        let c = v[i];
        assert(v@.take(i + 1).drop_last() =~= v@.take(i as int));
        let ghost ov = out@.map_values(|x: String| x@);
        if is_whitespace(c) {
            if in_word {
                let w = cur;
                out.push(w);
                cur = String::new();
                assert(out@.map_values(|x: String| x@) =~= ov.push(w@));
            }
            in_word = false;
        } else {
            if in_word {
                let ghost before = cur@;
                push_char(&mut cur, c);
                assert(ov.push(before).update(ov.len() as int, before.push(c)) =~= ov.push(cur@));
            } else {
                push_char(&mut cur, c);
                assert(cur@ =~= seq![c]);
            }
            in_word = true;
        }
        i += 1;
    }
    if in_word {
        let ghost ov = out@.map_values(|x: String| x@);
        out.push(cur);
        assert(out@.map_values(|x: String| x@) =~= ov.push(cur@));
    }
    assert(v@.take(v@.len() as int) =~= v@);
    out
}

// ---------------------------------------------------------------------------
// Attachments
// ---------------------------------------------------------------------------

/// The URLs named by an attachments field: the words of a string; each
/// string or object `url` in an array; the `url` of an object.
pub open spec fn attachment_urls_spec(v: JsonValue) -> Seq<Seq<char>> {
    match v {
        JsonValue::Str(s) => words_of(s@),
        JsonValue::Array(items, _) => array_urls(items@),
        JsonValue::Object(_, _) => match obj_get(v, "url"@) {
            Some(u) => match plain_text(u) {
                Some(t) => seq![t],
                None => Seq::empty(),
            },
            None => Seq::empty(),
        },
        _ => Seq::empty(),
    }
}

pub open spec fn array_urls(items: Seq<JsonValue>) -> Seq<Seq<char>>
    decreases items.len(),
{
    if items.len() == 0 {
        Seq::empty()
    } else {
        let rest = array_urls(items.drop_last());
        match items.last() {
            JsonValue::Str(s) => rest.push(s@),
            JsonValue::Object(_, _) => match obj_get(items.last(), "url"@) {
                Some(u) => match plain_text(u) {
                    Some(t) => rest.push(t),
                    None => rest,
                },
                None => rest,
            },
            _ => rest,
        }
    }
}

pub fn attachment_value_to_urls(value: &JsonValue) -> (r: Vec<String>)
    ensures
        r@.map_values(|x: String| x@) == attachment_urls_spec(*value),
{
    proof {
        reveal_strlit("url");
    }
    match value {
        JsonValue::Str(text) => split_whitespace(text.as_str()),
        JsonValue::Array(items, _) => {
            let mut out: Vec<String> = Vec::new();
            let mut i: usize = 0;
            while i < items.len()
                invariant
                    i <= items.len(),
                    out@.map_values(|x: String| x@) == array_urls(items@.take(i as int)),
                decreases items.len() - i,
            {
                assert(items@.take(i + 1).drop_last() =~= items@.take(i as int));
                let ghost ov = out@.map_values(|x: String| x@);
                match &items[i] {
                    JsonValue::Str(s) => {
                        out.push(s.clone());
                        assert(out@.map_values(|x: String| x@) =~= ov.push(s@));
                    },
                    JsonValue::Object(_, _) => {
                        if let Some(u) = get(&items[i], "url") {
                            if let Some(t) = value_to_plain_string(u) {
                                out.push(t);
                                assert(out@.map_values(|x: String| x@) =~= ov.push(t@));
                            }
                        }
                    },
                    _ => {},
                }
                i += 1;
            }
            assert(items@.take(items@.len() as int) =~= items@);
            out
        },
        JsonValue::Object(_, _) => {
            let mut out: Vec<String> = Vec::new();
            if let Some(u) = get(value, "url") {
                if let Some(t) = value_to_plain_string(u) {
                    out.push(t);
                    assert(out@.map_values(|x: String| x@) =~= seq![t@]);
                    return out;
                }
            }
            assert(out@.map_values(|x: String| x@) =~= Seq::<Seq<char>>::empty());
            out
        },
        _ => {
            let out: Vec<String> = Vec::new();
            assert(out@.map_values(|x: String| x@) =~= Seq::<Seq<char>>::empty());
            out
        },
    }
}

/// The attachment URLs of a message record (its first attachments field).
pub open spec fn message_attachments_spec(record: JsonValue) -> Seq<Seq<char>> {
    match obj_get(record, "Attachments"@) {
        Some(v) => attachment_urls_spec(v),
        None => match obj_get(record, "attachments"@) {
            Some(v) => attachment_urls_spec(v),
            None => Seq::empty(),
        },
    }
}

pub fn extract_attachment_urls(record: &JsonValue) -> (r: Vec<String>)
    ensures
        r@.map_values(|x: String| x@) == message_attachments_spec(*record),
{
    if let Some(v) = get(record, "Attachments") {
        return attachment_value_to_urls(v);
    }
    if let Some(v) = get(record, "attachments") {
        return attachment_value_to_urls(v);
    }
    let out: Vec<String> = Vec::new();
    assert(out@.map_values(|x: String| x@) =~= Seq::<Seq<char>>::empty());
    out
}

// ---------------------------------------------------------------------------
// Channel titles
// ---------------------------------------------------------------------------

/// `parts` joined by `sep`.
pub open spec fn join_seq(parts: Seq<Seq<char>>, sep: Seq<char>) -> Seq<char>
    decreases parts.len(),
{
    if parts.len() == 0 {
        Seq::empty()
    } else if parts.len() == 1 {
        parts[0]
    } else {
        join_seq(parts.drop_last(), sep) + sep + parts.last()
    }
}

/// The name shown for one recipient of a private channel.
pub open spec fn recipient_name(item: JsonValue) -> Option<Seq<char>> {
    match item {
        JsonValue::Object(_, _) => match first_plain_spec(
            item,
            seq!["global_name"@, "username"@, "name"@, "id"@],
        ) {
            Some(s) => Some(s),
            None => plain_text(item),
        },
        _ => plain_text(item),
    }
}

/// Names of the recipients, in order, skipping those without one.
pub open spec fn recipient_names(items: Seq<JsonValue>) -> Seq<Seq<char>>
    decreases items.len(),
{
    if items.len() == 0 {
        Seq::empty()
    } else {
        let rest = recipient_names(items.drop_last());
        match recipient_name(items.last()) {
            Some(n) => rest.push(n),
            None => rest,
        }
    }
}

/// The title of a channel: its non-blank `name`, else up to four recipient
/// names joined by `, `, else the fallback id.
pub open spec fn channel_title_spec(channel: Option<JsonValue>, fallback: Seq<char>) -> Seq<char> {
    match channel {
        None => fallback,
        Some(c) => {
            let named = match obj_get(c, "name"@) {
                Some(n) => match plain_text(n) {
                    Some(t) => if trim_seq(t).len() > 0 {
                        Some(t)
                    } else {
                        None
                    },
                    None => None,
                },
                None => None,
            };
            match named {
                Some(t) => t,
                None => match obj_get(c, "recipients"@) {
                    Some(JsonValue::Array(items, _)) => {
                        let names = recipient_names(items@);
                        if names.len() > 0 {
                            join_seq(names.take(if names.len() < 4 { names.len() as int } else { 4 }), ", "@)
                        } else {
                            fallback
                        }
                    },
                    _ => fallback,
                },
            }
        },
    }
}

fn recipient_display(item: &JsonValue) -> (r: Option<String>)
    ensures
        match r {
            Some(s) => recipient_name(*item) == Some(s@),
            None => recipient_name(*item) is None,
        },
{
    match item {
        JsonValue::Object(_, _) => {
            let keys = ["global_name", "username", "name", "id"];
            assert(key_views(keys@) =~= seq!["global_name"@, "username"@, "name"@, "id"@]);
            match first_plain(item, &keys) {
                Some(s) => Some(s),
                None => value_to_plain_string(item),
            }
        },
        _ => value_to_plain_string(item),
    }
}

pub fn channel_title(channel: Option<&JsonValue>, fallback_id: &str) -> (r: String)
    ensures
        r@ == channel_title_spec(
            match channel {
                Some(c) => Some(*c),
                None => None,
            },
            fallback_id@,
        ),
{
    let c = match channel {
        None => return copy_str(fallback_id),
        Some(c) => c,
    };
    if let Some(n) = get(c, "name") {
        if let Some(t) = value_to_plain_string(n) {
            let tt = trim(t.as_str());
            if chars_of(tt.as_str()).len() > 0 {
                return t;
            }
        }
    }
    match get(c, "recipients") {
        Some(JsonValue::Array(items, _)) => {
            let mut names: Vec<String> = Vec::new();
            let mut i: usize = 0;
            while i < items.len()
                invariant
                    i <= items.len(),
                    names@.map_values(|x: String| x@) == recipient_names(items@.take(i as int)),
                decreases items.len() - i,
            {
                assert(items@.take(i + 1).drop_last() =~= items@.take(i as int));
                let ghost nv = names@.map_values(|x: String| x@);
                if let Some(n) = recipient_display(&items[i]) {
                    names.push(n);
                    assert(names@.map_values(|x: String| x@) =~= nv.push(n@));
                }
                i += 1;
            }
            assert(items@.take(items@.len() as int) =~= items@);
            let ghost all = names@.map_values(|x: String| x@);
            if names.len() == 0 {
                return copy_str(fallback_id);
            }
            let k: usize = if names.len() < 4 {
                names.len()
            } else {
                4
            };
            let mut out = names[0].clone();
            let mut j: usize = 1;
            while j < k
                invariant
                    1 <= j <= k <= names.len(),
                    all == names@.map_values(|x: String| x@),
                    out@ == join_seq(all.take(j as int), ", "@),
                decreases k - j,
            {
                assert(all.take(j + 1).drop_last() =~= all.take(j as int));
                push_str(&mut out, ", ");
                push_str(&mut out, names[j].as_str());
                j += 1;
                assert(out@ =~= join_seq(all.take(j as int), ", "@));
            }
            proof {
                assert(all.take(1) =~= seq![all[0]]);
            }
            out
        },
        _ => copy_str(fallback_id),
    }
}

// ---------------------------------------------------------------------------
// Numbers held in fields
// ---------------------------------------------------------------------------

/// A count field: an unsigned integer number or numeric string, else 0.
pub open spec fn num_u64_spec(v: Option<JsonValue>) -> u64 {
    match v {
        Some(JsonValue::Number(n)) => match n.as_u64 {
            Some(x) => x,
            None => 0,
        },
        Some(JsonValue::Str(s)) => match parse_u64_spec(trim_seq(s@)) {
            Some(x) => x,
            None => 0,
        },
        _ => 0,
    }
}

pub fn num_u64(v: Option<&JsonValue>) -> (r: u64)
    ensures
        r == num_u64_spec(
            match v {
                Some(x) => Some(*x),
                None => None,
            },
        ),
{
    match v {
        Some(JsonValue::Number(n)) => match n.as_u64 {
            Some(x) => x,
            None => 0,
        },
        Some(JsonValue::Str(s)) => match parse_u64(s.as_str()) {
            Some(x) => x,
            None => 0,
        },
        _ => 0,
    }
}

// ---------------------------------------------------------------------------
// Numbers written as text
// ---------------------------------------------------------------------------

/// The end of the run of ASCII digits of `s` that starts at `i`.
pub open spec fn digit_end(s: Seq<char>, i: int) -> int
    decreases s.len() - i,
{
    if 0 <= i < s.len() && is_digit_char(s[i]) {
        digit_end(s, i + 1)
    } else {
        i
    }
}

/// A JSON number's text taken apart: whether it is negative, all its
/// digits (those before the point, then those after), and where the point
/// falls among them once the exponent is applied. `None` when the text is
/// not a JSON number (`-`, digits, an optional fraction, an optional
/// exponent) or its exponent exceeds 10000, which no finite double needs.
pub open spec fn number_parts(t: Seq<char>) -> Option<(bool, Seq<char>, int)> {
    let neg = t.len() > 0 && t[0] == '-';
    let s = if neg {
        t.skip(1)
    } else {
        t
    };
    let i1 = digit_end(s, 0);
    let has_frac = i1 < s.len() && s[i1] == '.';
    let i2 = if has_frac {
        digit_end(s, i1 + 1)
    } else {
        i1
    };
    let has_exp = i2 < s.len() && (s[i2] == 'e' || s[i2] == 'E');
    let signed_exp = has_exp && i2 + 1 < s.len() && (s[i2 + 1] == '+' || s[i2 + 1] == '-');
    let j = if signed_exp {
        i2 + 2
    } else {
        i2 + 1
    };
    let i3 = if has_exp {
        digit_end(s, j)
    } else {
        i2
    };
    let e = if has_exp {
        digits_value(s.subrange(j, i3)) as int
    } else {
        0
    };
    if i1 == 0 || (has_frac && i2 == i1 + 1) || (has_exp && i3 == j) || i3 != s.len() || e > 10000 {
        None
    } else {
        let digits = s.subrange(0, i1) + if has_frac {
            s.subrange(i1 + 1, i2)
        } else {
            Seq::empty()
        };
        Some((neg, digits, i1 + if signed_exp && s[i2 + 1] == '-' {
            -e
        } else {
            e
        }))
    }
}

/// The digit at `k` of `d`, zero past its end.
pub open spec fn padded_digit(d: Seq<char>, k: int) -> nat {
    if 0 <= k < d.len() {
        ((d[k] as u32) - 48) as nat
    } else {
        0
    }
}

/// The number the first `k` digits of `d` (zeros past its end) make.
pub open spec fn lead_value(d: Seq<char>, k: nat) -> nat
    decreases k,
{
    if k == 0 {
        0
    } else {
        lead_value(d, (k - 1) as nat) * 10 + padded_digit(d, k - 1)
    }
}

/// A JSON number's text as an integer: the value truncated toward zero,
/// saturating at the ends of `i64` (as a cast of the number to `i64`).
pub open spec fn number_trunc_spec(t: Seq<char>) -> Option<i64> {
    match number_parts(t) {
        None => None,
        Some(p) => {
            let m: int = if p.2 <= 0 {
                0
            } else {
                lead_value(p.1, p.2 as nat) as int
            };
            Some(
                if p.0 {
                    if m >= 0x8000_0000_0000_0000 {
                        i64::MIN
                    } else {
                        (-m) as i64
                    }
                } else if m > i64::MAX {
                    i64::MAX
                } else {
                    m as i64
                },
            )
        },
    }
}

fn digit_run_end(s: &Vec<char>, i: usize) -> (r: usize)
    requires
        i <= s.len(),
    ensures
        r as int == digit_end(s@, i as int),
        i <= r <= s.len(),
        forall|k: int| i <= k < r ==> is_digit_char(#[trigger] s@[k]),
{
    let mut k = i;
    while k < s.len() && is_digit(s[k])
        invariant
            i <= k <= s.len(),
            digit_end(s@, i as int) == digit_end(s@, k as int),
            forall|q: int| i <= q < k ==> is_digit_char(#[trigger] s@[q]),
        decreases s.len() - k,
    {
        k += 1;
    }
    k
}

/// The value of the digits `s[from..to]`, capped just above 10000.
fn small_digits_value(s: &Vec<char>, from: usize, to: usize) -> (r: u64)
    requires
        from <= to <= s.len(),
        forall|k: int| from <= k < to ==> is_digit_char(#[trigger] s@[k]),
    ensures
        r <= 10001,
        digits_value(s@.subrange(from as int, to as int)) <= 10000 ==> r as int == digits_value(
            s@.subrange(from as int, to as int),
        ),
        digits_value(s@.subrange(from as int, to as int)) > 10000 ==> r == 10001,
{
    let mut acc: u64 = 0;
    let mut k = from;
    while k < to
        invariant
            from <= k <= to <= s.len(),
            forall|q: int| from <= q < to ==> is_digit_char(#[trigger] s@[q]),
            acc <= 10001,
            digits_value(s@.subrange(from as int, k as int)) <= 10000 ==> acc as int == digits_value(
                s@.subrange(from as int, k as int),
            ),
            digits_value(s@.subrange(from as int, k as int)) > 10000 ==> acc == 10001,
        decreases to - k,
    {
        let ghost prev = s@.subrange(from as int, k as int);
        assert(s@.subrange(from as int, k + 1).drop_last() =~= prev);
        assert(s@.subrange(from as int, k + 1).last() == s@[k as int]);
        let d = (s[k] as u32 - 48) as u64;
        assert(is_digit_char(s@[k as int]));
        if acc == 10001 {
            assert(digits_value(s@.subrange(from as int, k + 1)) >= digits_value(prev) * 10);
        } else {
            let v = acc * 10 + d;
            acc = if v > 10000 {
                10001
            } else {
                v
            };
        }
        k += 1;
    }
    acc
}

/// A JSON number's text as an integer: truncated toward zero, saturating
/// at the ends of `i64` (see `number_trunc_spec`).
#[verifier::spinoff_prover]
#[verifier::rlimit(60)]
pub fn number_truncated(text: &str) -> (r: Option<i64>)
    ensures
        r == number_trunc_spec(text@),
{
    let t = chars_of(text);
    let neg = t.len() > 0 && t[0] == '-';
    let s = if neg {
        chars_of(string_from_range(&t, 1, t.len()).as_str())
    } else {
        t
    };
    assert(s@ =~= (if neg { text@.skip(1) } else { text@ }));
    let i1 = digit_run_end(&s, 0);
    let has_frac = i1 < s.len() && s[i1] == '.';
    let i2 = if has_frac {
        digit_run_end(&s, i1 + 1)
    } else {
        i1
    };
    let has_exp = i2 < s.len() && (s[i2] == 'e' || s[i2] == 'E');
    let signed_exp = has_exp && i2 + 1 < s.len() && (s[i2 + 1] == '+' || s[i2 + 1] == '-');
    let j = if !has_exp {
        i2
    } else if signed_exp {
        i2 + 2
    } else {
        i2 + 1
    };
    let i3 = if has_exp {
        digit_run_end(&s, j)
    } else {
        i2
    };
    let e = if has_exp {
        small_digits_value(&s, j, i3)
    } else {
        0
    };
    if i1 == 0 || (has_frac && i2 == i1 + 1) || (has_exp && i3 == j) || i3 != s.len() || e > 10000 {
        return None;
    }
    let ghost digits = s@.subrange(0, i1 as int) + if has_frac {
        s@.subrange(i1 + 1, i2 as int)
    } else {
        Seq::empty()
    };
    let mut d: Vec<char> = Vec::new();
    let mut k: usize = 0;
    while k < i2
        invariant
            k <= i2 <= s.len(),
            i1 <= i2,
            has_frac ==> i1 < i2,
            !has_frac ==> i1 == i2,
            d@ == if k <= i1 {
                s@.subrange(0, k as int)
            } else {
                s@.subrange(0, i1 as int) + s@.subrange(i1 + 1, k as int)
            },
        decreases i2 - k,
    {
        if k != i1 {
            d.push(s[k]);
        }
        proof {
            if k < i1 {
                assert(d@ =~= s@.subrange(0, k + 1));
            } else if k == i1 {
                assert(s@.subrange(i1 + 1, k + 1) =~= Seq::<char>::empty());
                assert(d@ =~= s@.subrange(0, i1 as int) + s@.subrange(i1 + 1, k + 1));
            } else {
                assert(d@ =~= s@.subrange(0, i1 as int) + s@.subrange(i1 + 1, k + 1));
            }
        }
        k += 1;
    }
    assert(d@ =~= digits);
    assert forall|q: int| 0 <= q < d@.len() implies is_digit_char(#[trigger] d@[q]) by {
        if q < i1 {
            assert(d@[q] == s@.subrange(0, i1 as int)[q]);
        } else {
            assert(d@[q] == s@.subrange(i1 + 1, i2 as int)[q - i1]);
        }
    }
    let point: i128 = if signed_exp && s[i2 + 1] == '-' {
        i1 as i128 - e as i128
    } else {
        i1 as i128 + e as i128
    };
    let cap: u128 = 0x8000_0000_0000_0000;
    let mut acc: u128 = 0;
    if point > 0 {
        let mut q: i128 = 0;
        while q < point
            invariant
                0 <= q <= point,
                cap == 0x8000_0000_0000_0000u128,
                forall|k: int| 0 <= k < d@.len() ==> is_digit_char(#[trigger] d@[k]),
                acc <= cap,
                acc < cap ==> acc as int == lead_value(d@, q as nat),
                acc == cap ==> lead_value(d@, q as nat) >= cap,
            decreases point - q,
        {
            let dig: u128 = if q < d.len() as i128 {
                assert(is_digit_char(d@[q as int]));
                (d[q as usize] as u32 - 48) as u128
            } else {
                0
            };
            proof {
                assert(lead_value(d@, (q + 1) as nat) == lead_value(d@, q as nat) * 10 + padded_digit(d@, q as int));
                assert(dig as int == padded_digit(d@, q as int));
            }
            if acc < cap {
                assert(acc * 10 <= 0x8000_0000_0000_0000 * 10) by (nonlinear_arith)
                    requires
                        acc < 0x8000_0000_0000_0000u128,
                ;
                let v = acc * 10 + dig;
                acc = if v > cap {
                    cap
                } else {
                    v
                };
            } else {
                assert(lead_value(d@, q as nat) * 10 >= lead_value(d@, q as nat)) by (nonlinear_arith);
            }
            q += 1;
        }
    }
    proof {
        if point <= 0 {
            assert(acc == 0);
        }
    }
    if neg {
        if acc >= cap {
            Some(i64::MIN)
        } else {
            Some(-(acc as i64))
        }
    } else if acc > 0x7FFF_FFFF_FFFF_FFFF {
        Some(i64::MAX)
    } else {
        Some(acc as i64)
    }
}

/// A signed amount: an integer number, a fractional number truncated, or a
/// numeric string.
pub open spec fn num_i64_spec(v: Option<JsonValue>) -> Option<i64> {
    match v {
        Some(JsonValue::Number(n)) => match n.as_i64 {
            Some(x) => Some(x),
            None => number_trunc_spec(n.text@),
        },
        Some(JsonValue::Str(s)) => parse_i64_spec(trim_seq(s@)),
        _ => None,
    }
}

pub fn num_i64(v: Option<&JsonValue>) -> (r: Option<i64>)
    ensures
        r == num_i64_spec(
            match v {
                Some(x) => Some(*x),
                None => None,
            },
        ),
{
    match v {
        Some(JsonValue::Number(n)) => match n.as_i64 {
            Some(x) => Some(x),
            None => number_truncated(n.text.as_str()),
        },
        Some(JsonValue::Str(s)) => parse_i64(s.as_str()),
        _ => None,
    }
}

/// `num_i64` clamped into `u32`.
pub open spec fn num_u32_spec(v: Option<JsonValue>) -> Option<u32> {
    match num_i64_spec(v) {
        Some(x) => Some(
            if x < 0 {
                0u32
            } else if x > u32::MAX {
                u32::MAX
            } else {
                x as u32
            },
        ),
        None => None,
    }
}

pub fn num_u32(v: Option<&JsonValue>) -> (r: Option<u32>)
    ensures
        r == num_u32_spec(
            match v {
                Some(x) => Some(*x),
                None => None,
            },
        ),
{
    match num_i64(v) {
        Some(x) => Some(
            if x < 0 {
                0u32
            } else if x > 4294967295 {
                4294967295u32
            } else {
                x as u32
            },
        ),
        None => None,
    }
}

/// A field's plain rendering, or `fallback`.
pub open spec fn str_or_spec(v: Option<JsonValue>, fallback: Seq<char>) -> Seq<char> {
    match v {
        Some(x) => match plain_text(x) {
            Some(s) => s,
            None => fallback,
        },
        None => fallback,
    }
}

pub fn str_or(v: Option<&JsonValue>, fallback: &str) -> (r: String)
    ensures
        r@ == str_or_spec(
            match v {
                Some(x) => Some(*x),
                None => None,
            },
            fallback@,
        ),
{
    match v {
        Some(x) => match value_to_plain_string(x) {
            Some(s) => s,
            None => copy_str(fallback),
        },
        None => copy_str(fallback),
    }
}

// ---------------------------------------------------------------------------
// Rendering as JSON text
// ---------------------------------------------------------------------------

/// A character inside a JSON string literal: quote and backslash escaped
/// with a backslash, the control characters as `\b`, `\t`, `\n`, `\f`,
/// `\r` or `\u00xx`.
pub open spec fn escape_char(c: char) -> Seq<char> {
    let u = c as u32;
    if c == '"' {
        seq!['\\', '"']
    } else if c == '\\' {
        seq!['\\', '\\']
    } else if u == 8 {
        seq!['\\', 'b']
    } else if u == 9 {
        seq!['\\', 't']
    } else if u == 10 {
        seq!['\\', 'n']
    } else if u == 12 {
        seq!['\\', 'f']
    } else if u == 13 {
        seq!['\\', 'r']
    } else if u < 32 {
        seq!['\\', 'u', '0', '0', hex_digit((u / 16) as nat), hex_digit((u % 16) as nat)]
    } else {
        seq![c]
    }
}

pub open spec fn escape_seq(s: Seq<char>) -> Seq<char>
    decreases s.len(),
{
    if s.len() == 0 {
        Seq::empty()
    } else {
        escape_seq(s.drop_last()) + escape_char(s.last())
    }
}

/// `s` as a JSON string literal.
pub open spec fn json_string(s: Seq<char>) -> Seq<char> {
    seq!['"'] + escape_seq(s) + seq!['"']
}

/// `value.to_string()`: the single-line JSON text of a value.
pub open spec fn compact_text(v: JsonValue) -> Seq<char> {
    match v {
        JsonValue::Null => "null"@,
        JsonValue::Bool(b) => if b {
            "true"@
        } else {
            "false"@
        },
        JsonValue::Number(n) => n.text@,
        JsonValue::Str(s) => json_string(s@),
        JsonValue::Array(_, t) => t.compact@,
        JsonValue::Object(_, t) => t.compact@,
    }
}

/// `serde_json::to_string_pretty(value)`: indented for arrays and objects,
/// as the single-line text otherwise.
pub open spec fn pretty_text(v: JsonValue) -> Seq<char> {
    match v {
        JsonValue::Array(_, t) => t.pretty@,
        JsonValue::Object(_, t) => t.pretty@,
        _ => compact_text(v),
    }
}

fn hex_of(d: u32) -> (c: char)
    requires
        d < 16,
    ensures
        c == hex_digit(d as nat),
{
    if d < 10 {
        ((48 + d) as u8) as char
    } else {
        ((87 + d) as u8) as char
    }
}

fn push_escaped(out: &mut String, c: char)
    ensures
        final(out)@ == old(out)@ + escape_char(c),
{
    let u = c as u32;
    if c == '"' {
        push_char(out, '\\');
        push_char(out, '"');
    } else if c == '\\' {
        push_char(out, '\\');
        push_char(out, '\\');
    } else if u == 8 {
        push_char(out, '\\');
        push_char(out, 'b');
    } else if u == 9 {
        push_char(out, '\\');
        push_char(out, 't');
    } else if u == 10 {
        push_char(out, '\\');
        push_char(out, 'n');
    } else if u == 12 {
        push_char(out, '\\');
        push_char(out, 'f');
    } else if u == 13 {
        push_char(out, '\\');
        push_char(out, 'r');
    } else if u < 32 {
        push_char(out, '\\');
        push_char(out, 'u');
        push_char(out, '0');
        push_char(out, '0');
        push_char(out, hex_of(u / 16));
        push_char(out, hex_of(u % 16));
    } else {
        push_char(out, c);
    }
    assert(final(out)@ =~= old(out)@ + escape_char(c));
}

pub fn json_string_of(s: &str) -> (out: String)
    ensures
        out@ == json_string(s@),
{
    let v = chars_of(s);
    let mut out = String::new();
    push_char(&mut out, '"');
    let mut i: usize = 0;
    while i < v.len()
        invariant
            i <= v@.len(),
            v@ == s@,
            out@ == seq!['"'] + escape_seq(v@.take(i as int)),
        decreases v@.len() - i,
    {
        assert(v@.take(i + 1).drop_last() =~= v@.take(i as int));
        push_escaped(&mut out, v[i]);
        i += 1;
        assert(out@ =~= seq!['"'] + escape_seq(v@.take(i as int)));
    }
    assert(v@.take(v@.len() as int) =~= v@);
    push_char(&mut out, '"');
    assert(out@ =~= json_string(s@));
    out
}

pub fn compact_json(v: &JsonValue) -> (out: String)
    ensures
        out@ == compact_text(*v),
{
    match v {
        JsonValue::Null => copy_str("null"),
        JsonValue::Bool(b) => if *b {
            copy_str("true")
        } else {
            copy_str("false")
        },
        JsonValue::Number(n) => n.text.clone(),
        JsonValue::Str(s) => json_string_of(s.as_str()),
        JsonValue::Array(_, t) => t.compact.clone(),
        JsonValue::Object(_, t) => t.compact.clone(),
    }
}

pub fn pretty_json(v: &JsonValue) -> (out: String)
    ensures
        out@ == pretty_text(*v),
{
    match v {
        JsonValue::Array(_, t) => t.pretty.clone(),
        JsonValue::Object(_, t) => t.pretty.clone(),
        _ => compact_json(v),
    }
}

// ---------------------------------------------------------------------------
// Parsing JSON text and the export's record files
// ---------------------------------------------------------------------------

#[verifier::external_type_specification]
#[verifier::external_body]
pub struct ExSerdeValue(serde_json::Value);

/// What `serde_json::from_str::<serde_json::Value>` makes of a text, in the
/// library's value type: `None` when the text is not one JSON document.
pub uninterp spec fn json_of(text: Seq<char>) -> Option<JsonValue>;

/// The `serde_json::to_string` and `serde_json::to_string_pretty`
/// renderings of an array or object.
#[verifier::external_body]
fn rendering(v: &SerdeValue) -> JsonText {
    let compact = serde_json::to_string(v).unwrap_or_default();
    JsonText { compact, pretty: serde_json::to_string_pretty(v).unwrap_or_default() }
}

/// Converts a `serde_json::Value`, one variant for one: a number by its
/// `Display` text and its `as_u64` / `as_i64` readings, arrays and objects
/// (members in the map's key order) with their renderings.
#[verifier::external_body]
fn value_from_serde(v: &SerdeValue) -> JsonValue {
    match v {
        SerdeValue::Null => JsonValue::Null,
        SerdeValue::Bool(b) => JsonValue::Bool(*b),
        SerdeValue::Number(n) => JsonValue::Number(JsonNumber { text: n.to_string(), as_u64: n.as_u64(), as_i64: n.as_i64() }),
        SerdeValue::String(t) => JsonValue::Str(t.clone()),
        SerdeValue::Array(items) => JsonValue::Array(items.iter().map(value_from_serde).collect(), rendering(v)),
        SerdeValue::Object(map) => JsonValue::Object(
            map.iter().map(|(k, x)| (k.clone(), value_from_serde(x))).collect(),
            rendering(v),
        ),
    }
}

/// `serde_json::from_str` into a `serde_json::Value`, converted to the
/// library's value: the result is `json_of` of the text, `None` when
/// serde_json refuses it. What serde_json accepts and how it renders numbers
/// and containers is left to that name.
#[verifier::external_body]
pub fn parse_json(text: &str) -> (r: Option<JsonValue>)
    ensures
        r == json_of(text@),
{
    serde_json::from_str::<SerdeValue>(text).ok().map(|v| value_from_serde(&v))
}

/// The values of the lines that parse, in order.
pub open spec fn parsed_lines(ls: Seq<Seq<char>>) -> Seq<JsonValue>
    decreases ls.len(),
{
    if ls.len() == 0 {
        Seq::empty()
    } else {
        let rest = parsed_lines(ls.drop_last());
        match json_of(ls.last()) {
            Some(v) => rest.push(v),
            None => rest,
        }
    }
}

/// The records of a record file's text: a top-level array gives its
/// items; an object gives its `messages` array, or else is itself the one
/// record; any other value is one record; a text that is not one JSON
/// document is read a line at a time, each non-blank (trimmed) line that
/// parses being a record.
pub open spec fn records_spec(text: Seq<char>) -> Seq<JsonValue> {
    match json_of(text) {
        Some(JsonValue::Array(items, _)) => items@,
        Some(JsonValue::Object(ms, t)) => match members_get(ms@, "messages"@) {
            Some(JsonValue::Array(items, _)) => items@,
            _ => seq![JsonValue::Object(ms, t)],
        },
        Some(v) => seq![v],
        None => parsed_lines(nonblank_trimmed(lines_seq(text))),
    }
}

/// The index of the first member named `key`, or `ms.len()` when none is.
fn member_index(ms: &Vec<(String, JsonValue)>, key: &str) -> (i: usize)
    ensures
        i <= ms@.len(),
        i == ms@.len() ==> members_get(ms@, key@) is None,
        i < ms@.len() ==> members_get(ms@, key@) == Some(ms@[i as int].1),
{
    let mut i: usize = 0;
    assert(ms@.skip(0) =~= ms@);
    while i < ms.len()
        invariant
            i <= ms@.len(),
            members_get(ms@, key@) == members_get(ms@.skip(i as int), key@),
        decreases ms@.len() - i,
    {
        let ghost rest = ms@.skip(i as int);
        assert(rest.drop_first() =~= ms@.skip(i + 1));
        assert(rest[0] == ms@[i as int]);
        if str_eq(ms[i].0.as_str(), key) {
            return i;
        }
        i += 1;
    }
    i
}

/// The records of a record file's text (see `records_spec`).
pub fn records_of_text(text: &str) -> (r: Vec<JsonValue>)
    ensures
        r@ == records_spec(text@),
{
    match parse_json(text) {
        Some(JsonValue::Array(items, _)) => items,
        Some(JsonValue::Object(ms, t)) => {
            let i = member_index(&ms, "messages");
            let is_array = i < ms.len() && match &ms[i].1 {
                JsonValue::Array(..) => true,
                _ => false,
            };
            if is_array {
                let mut ms = ms;
                let (_, v) = ms.remove(i);
                match v {
                    JsonValue::Array(items, _) => items,
                    _ => Vec::new(),
                }
            } else {
                let r = vec![JsonValue::Object(ms, t)];
                r
            }
        },
        Some(v) => vec![v],
        None => {
            let lines = tail_lines(text, false);
            let ghost ls = views(lines@);
            let mut r: Vec<JsonValue> = Vec::new();
            let mut i: usize = 0;
            while i < lines.len()
                invariant
                    i <= lines@.len(),
                    ls == views(lines@),
                    r@ == parsed_lines(ls.take(i as int)),
                decreases lines@.len() - i,
            {
                assert(ls.take(i + 1).drop_last() =~= ls.take(i as int));
                assert(ls.take(i + 1).last() == lines@[i as int]@);
                match parse_json(lines[i].as_str()) {
                    Some(v) => r.push(v),
                    None => {},
                }
                i += 1;
            }
            assert(ls.take(lines@.len() as int) =~= ls);
            r
        },
    }
}

/// Where the first character that is not ASCII whitespace stands.
pub open spec fn ascii_blank_end(t: Seq<char>, i: int) -> int
    decreases t.len() - i,
{
    if 0 <= i < t.len() && (t[i] == ' ' || t[i] == '\t' || t[i] == '\n' || t[i] == '\r'
        || t[i] == '\x0C') {
        ascii_blank_end(t, i + 1)
    } else {
        i
    }
}

/// How many records a record file holds: when its first character that is
/// not ASCII whitespace is `[`, the items of the array it holds (none when
/// it does not parse as one); otherwise its non-blank lines.
pub open spec fn record_count_text_spec(text: Seq<char>) -> nat {
    let i = ascii_blank_end(text, 0);
    if i < text.len() && text[i] == '[' {
        match json_of(text) {
            Some(JsonValue::Array(items, _)) => items@.len(),
            _ => 0,
        }
    } else {
        nonblank_trimmed(lines_seq(text)).len()
    }
}

pub fn count_records_text(text: &str) -> (n: u64)
    ensures
        n as nat == record_count_text_spec(text@),
{
    let t = chars_of(text);
    let mut i: usize = 0;
    while i < t.len() && (t[i] == ' ' || t[i] == '\t' || t[i] == '\n' || t[i] == '\r' || t[i] == '\x0C')
        invariant
            i <= t@.len(),
            t@ == text@,
            ascii_blank_end(text@, 0) == ascii_blank_end(text@, i as int),
        decreases t@.len() - i,
    {
        i += 1;
    }
    if i < t.len() && t[i] == '[' {
        match parse_json(text) {
            Some(JsonValue::Array(items, _)) => items.len() as u64,
            _ => 0,
        }
    } else {
        let lines = tail_lines(text, false);
        lines.len() as u64
    }
}

/// Where the reading of an activity file's recent end begins: `None` to
/// read it whole (files under 128 KiB, and JSON arrays, which must be read
/// from the start), else the offset of its last 512 KiB.
pub fn tail_read_start(size: u64, head_shows_array: bool) -> (r: Option<u64>)
    ensures
        r == if size < 128 * 1024 || head_shows_array {
            None
        } else {
            Some(if size > 512 * 1024 { (size - 512 * 1024) as u64 } else { 0u64 })
        },
{
    if size < 128 * 1024 || head_shows_array {
        None
    } else {
        Some(size.saturating_sub(512 * 1024))
    }
}

} // verus!
