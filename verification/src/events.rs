//! Activity events as listed in the explorer: the preview of one telemetry
//! record (its time, type, a one-line summary and the raw JSON), the text
//! filter, the three sort orders, and how many records are taken per file.
use vstd::prelude::*;
use crate::dates::{date_filter_spec, date_key_spec, normalize_date_filter, parse_date_key};
use crate::insights::reordered;
use crate::json::{
    compact_json, compact_text, join_seq, key_views, pick_scalar_string, pick_plain_string,
    pick_trimmed_spec, pretty_json, pretty_text, scalar_text, value_to_scalar_string, JsonValue,
    json_of, parse_json, records_of_text, records_spec,
};
use crate::order::{as_ints, key_view, key_views as sort_key_views, sort_order, stable_order, KeyView, SortKey};
use crate::nav::Key;
use crate::patterns::opt_view;
use crate::text::{
    chars_of, concat, contains_seq, contains_str, copy_str, inline_seq, is_printable_input,
    lower_seq, normalize_inline, printable_input_spec, push_char, string_from_range,
    normalize_sort_key, push_str, seq_less, sort_key_spec, str_less, to_ascii_lowercase, trim, trim_seq,
    truncate_seq, truncate_text, views, lines_seq, prefixed_lines, push_prefixed_lines, trim_bounds,
};

verus! {

/// One activity event as previewed.
pub struct ActivityEventPreview {
    pub timestamp: String,
    pub event_type: String,
    pub summary: String,
    pub source_file: String,
    pub date_key: Option<String>,
    pub sort_key: String,
    pub detail: String,
}

pub open spec fn time_keys() -> Seq<Seq<char>> {
    seq![
        "timestamp"@,
        "date"@,
        "created_at"@,
        "createdAt"@,
        "updated_at"@,
        "updatedAt"@,
        "occurred_at"@,
        "time"@,
    ]
}

pub open spec fn type_keys() -> Seq<Seq<char>> {
    seq!["event_type"@, "type"@, "name"@, "action"@]
}

pub open spec fn headline_keys() -> Seq<Seq<char>> {
    seq!["description"@, "summary"@, "details"@, "message"@, "title"@, "reason"@, "activity"@]
}

pub open spec fn actor_keys() -> Seq<Seq<char>> {
    seq!["actor"@, "actor_name"@, "author"@, "username"@, "user"@, "member"@, "initiator"@]
}

pub open spec fn target_keys() -> Seq<Seq<char>> {
    seq![
        "target"@,
        "target_name"@,
        "channel"@,
        "channel_name"@,
        "guild"@,
        "guild_name"@,
        "ticket_id"@,
        "message_id"@,
    ]
}

pub open spec fn action_keys() -> Seq<Seq<char>> {
    seq!["action"@, "event"@, "name"@, "status"@, "result"@]
}

/// A scalar member among `keys`, on one line and cut to `max` characters.
pub open spec fn short_scalar(v: JsonValue, keys: Seq<Seq<char>>, max: nat) -> Option<Seq<char>> {
    match pick_trimmed_spec(v, keys, true) {
        Some(s) => Some(truncate_seq(inline_seq(s), max)),
        None => None,
    }
}

/// `by actor`, the action, `on target`, for those present.
pub open spec fn summary_parts(v: JsonValue) -> Seq<Seq<char>> {
    let actor = match short_scalar(v, actor_keys(), 72) {
        Some(a) => seq!["by "@ + a],
        None => Seq::empty(),
    };
    let action = match short_scalar(v, action_keys(), 72) {
        Some(a) => seq![a],
        None => Seq::empty(),
    };
    let target = match short_scalar(v, target_keys(), 96) {
        Some(t) => seq!["on "@ + t],
        None => Seq::empty(),
    };
    actor + action + target
}

/// `key=value` for the first four members of an object with a scalar,
/// non-blank value.
pub open spec fn member_pairs(ms: Seq<(String, JsonValue)>) -> Seq<Seq<char>>
    decreases ms.len(),
{
    if ms.len() == 0 {
        Seq::empty()
    } else {
        let rest = member_pairs(ms.drop_last());
        if rest.len() >= 4 {
            rest
        } else {
            match scalar_text(ms.last().1) {
                Some(s) => if inline_seq(s).len() > 0 {
                    rest.push(ms.last().0@ + "="@ + truncate_seq(inline_seq(s), 48))
                } else {
                    rest
                },
                None => rest,
            }
        }
    }
}

/// The one-line summary of an event: its headline when it has one, else
/// who did what to what, else its first members, else its JSON.
pub open spec fn summary_spec(v: JsonValue) -> Seq<char> {
    let headline = match pick_trimmed_spec(v, headline_keys(), true) {
        Some(h) => inline_seq(h),
        None => Seq::empty(),
    };
    let pairs = match v {
        JsonValue::Object(ms, _) => member_pairs(ms@),
        _ => Seq::empty(),
    };
    if headline.len() > 0 {
        truncate_seq(headline, 240)
    } else if summary_parts(v).len() > 0 {
        join_seq(summary_parts(v), " \u{2022} "@)
    } else if pairs.len() > 0 {
        join_seq(pairs, " \u{2022} "@)
    } else {
        truncate_seq(inline_seq(compact_text(v)), 240)
    }
}

/// `parts` joined by `sep`.
pub fn join_strings(parts: &Vec<String>, sep: &str) -> (out: String)
    ensures
        out@ == join_seq(views(parts@), sep@),
{
    let mut out = String::new();
    let mut i: usize = 0;
    assert(views(parts@).take(0) =~= Seq::<Seq<char>>::empty());
    while i < parts.len()
        invariant
            i <= parts@.len(),
            out@ == join_seq(views(parts@).take(i as int), sep@),
        decreases parts@.len() - i,
    {
        let ghost prev = views(parts@).take(i as int);
        if i > 0 {
            push_str(&mut out, sep);
        }
        push_str(&mut out, parts[i].as_str());
        i += 1;
        proof {
            let cur = views(parts@).take(i as int);
            assert(cur.drop_last() =~= prev);
            assert(cur.last() == parts@[i - 1]@);
            if i == 1 {
                assert(out@ =~= cur[0]);
            } else {
                assert(out@ =~= join_seq(prev, sep@) + sep@ + cur.last());
            }
        }
    }
    assert(views(parts@).take(parts@.len() as int) =~= views(parts@));
    out
}

fn short_scalar_of(v: &JsonValue, keys: &[&str], max: usize) -> (r: Option<String>)
    ensures
        opt_view(r) == short_scalar(*v, key_views(keys@), max as nat),
{
    match pick_scalar_string(v, keys) {
        Some(s) => {
            let inline = normalize_inline(s.as_str());
            Some(truncate_text(inline.as_str(), max))
        },
        None => None,
    }
}

fn push_part(parts: &mut Vec<String>, s: String)
    ensures
        views(final(parts)@) == views(old(parts)@).push(s@),
{
    let ghost before = views(parts@);
    parts.push(s);
    assert(views(parts@) =~= before.push(s@));
}

fn member_pairs_of(ms: &Vec<(String, JsonValue)>) -> (r: Vec<String>)
    ensures
        views(r@) == member_pairs(ms@),
{
    let mut r: Vec<String> = Vec::new();
    let mut i: usize = 0;
    assert(ms@.take(0) =~= Seq::<(String, JsonValue)>::empty());
    while i < ms.len()
        invariant
            i <= ms@.len(),
            views(r@) == member_pairs(ms@.take(i as int)),
        decreases ms@.len() - i,
    {
        assert(ms@.take(i + 1).drop_last() =~= ms@.take(i as int));
        assert(ms@.take(i + 1).last() == ms@[i as int]);
        if r.len() < 4 {
            match value_to_scalar_string(&ms[i].1) {
                Some(s) => {
                    let inline = normalize_inline(s.as_str());
                    if !inline.as_str().is_empty() {
                        let mut pair = ms[i].0.clone();
                        push_str(&mut pair, "=");
                        let t = truncate_text(inline.as_str(), 48);
                        push_str(&mut pair, t.as_str());
                        push_part(&mut r, pair);
                    }
                },
                None => {},
            }
        }
        i += 1;
    }
    assert(ms@.take(ms@.len() as int) =~= ms@);
    r
}

pub fn build_activity_summary(value: &JsonValue) -> (out: String)
    ensures
        out@ == summary_spec(*value),
{
    let kh = ["description", "summary", "details", "message", "title", "reason", "activity"];
    assert(key_views(kh@) =~= headline_keys());
    let headline = match pick_scalar_string(value, &kh) {
        Some(h) => normalize_inline(h.as_str()),
        None => String::new(),
    };
    if !headline.as_str().is_empty() {
        return truncate_text(headline.as_str(), 240);
    }
    let ka = ["actor", "actor_name", "author", "username", "user", "member", "initiator"];
    assert(key_views(ka@) =~= actor_keys());
    let kt = ["target", "target_name", "channel", "channel_name", "guild", "guild_name", "ticket_id", "message_id"];
    assert(key_views(kt@) =~= target_keys());
    let kc = ["action", "event", "name", "status", "result"];
    assert(key_views(kc@) =~= action_keys());
    let actor = short_scalar_of(value, &ka, 72);
    let target = short_scalar_of(value, &kt, 96);
    let action = short_scalar_of(value, &kc, 72);
    let mut parts: Vec<String> = Vec::new();
    if let Some(a) = actor {
        push_part(&mut parts, concat("by ", a.as_str()));
    }
    if let Some(a) = action {
        push_part(&mut parts, a);
    }
    if let Some(t) = target {
        push_part(&mut parts, concat("on ", t.as_str()));
    }
    assert(views(parts@) =~= summary_parts(*value));
    if parts.len() > 0 {
        return join_strings(&parts, " \u{2022} ");
    }
    match value {
        JsonValue::Object(ms, _) => {
            let pairs = member_pairs_of(ms);
            if pairs.len() > 0 {
                return join_strings(&pairs, " \u{2022} ");
            }
        },
        _ => {},
    }
    let raw = compact_json(value);
    let inline = normalize_inline(raw.as_str());
    truncate_text(inline.as_str(), 240)
}

/// The preview of one record read from `source_file`.
pub open spec fn preview_spec(p: ActivityEventPreview, v: JsonValue, source_file: Seq<char>) -> bool {
    let ts = match pick_trimmed_spec(v, time_keys(), false) {
        Some(t) => t,
        None => "?"@,
    };
    &&& p.timestamp@ == ts
    &&& p.event_type@ == match pick_trimmed_spec(v, type_keys(), false) {
        Some(t) => t,
        None => "unknown"@,
    }
    &&& p.summary@ == summary_spec(v)
    &&& p.source_file@ == source_file
    &&& opt_view(p.date_key) == date_key_spec(ts)
    &&& p.sort_key@ == sort_key_spec(ts)
    &&& p.detail@ == pretty_text(v)
}

pub fn parse_activity_event_preview(value: &JsonValue, source_file: &str) -> (p: ActivityEventPreview)
    ensures
        preview_spec(p, *value, source_file@),
{
    let kt = ["timestamp", "date", "created_at", "createdAt", "updated_at", "updatedAt", "occurred_at", "time"];
    assert(key_views(kt@) =~= time_keys());
    let ke = ["event_type", "type", "name", "action"];
    assert(key_views(ke@) =~= type_keys());
    let timestamp = match pick_plain_string(value, &kt) {
        Some(t) => t,
        None => copy_str("?"),
    };
    let event_type = match pick_plain_string(value, &ke) {
        Some(t) => t,
        None => copy_str("unknown"),
    };
    let summary = build_activity_summary(value);
    let sort_key = normalize_sort_key(timestamp.as_str());
    let date_key = parse_date_key(timestamp.as_str());
    let detail = pretty_json(value);
    ActivityEventPreview {
        timestamp,
        event_type,
        summary,
        source_file: copy_str(source_file),
        date_key,
        sort_key,
        detail,
    }
}

/// The previews of the records read from the end of one file, newest
/// (last) first.
pub fn previews_newest_first(records: &Vec<JsonValue>, source_file: &str) -> (r: Vec<ActivityEventPreview>)
    ensures
        r@.len() == records@.len(),
        forall|i: int|
            0 <= i < r@.len() ==> preview_spec(#[trigger] r@[i], records@[records@.len() - 1 - i], source_file@),
{
    let mut r: Vec<ActivityEventPreview> = Vec::new();
    let mut i: usize = records.len();
    while i > 0
        invariant
            i <= records@.len(),
            r@.len() == records@.len() - i,
            forall|q: int|
                0 <= q < r@.len() ==> preview_spec(#[trigger] r@[q], records@[records@.len() - 1 - q], source_file@),
        decreases i,
    {
        i -= 1;
        r.push(parse_activity_event_preview(&records[i], source_file));
    }
    r
}

/// How many records to read from the next file: what is still missing of
/// `max_events`, at most 80.
pub fn tail_budget(collected: usize, max_events: usize) -> (n: usize)
    ensures
        n == if collected >= max_events {
            0
        } else if max_events - collected < 80 {
            (max_events - collected) as nat
        } else {
            80
        },
{
    if collected >= max_events {
        0
    } else if max_events - collected < 80 {
        max_events - collected
    } else {
        80
    }
}

// ---------------------------------------------------------------------------
// Reading the recent end of activity files
// ---------------------------------------------------------------------------

/// The non-blank lines of `ls`, each trimmed.
pub open spec fn nonblank_trimmed(ls: Seq<Seq<char>>) -> Seq<Seq<char>>
    decreases ls.len(),
{
    if ls.len() == 0 {
        Seq::empty()
    } else {
        let rest = nonblank_trimmed(ls.drop_last());
        let t = trim_seq(ls.last());
        if t.len() == 0 {
            rest
        } else {
            rest.push(t)
        }
    }
}

/// The lines of the tail of a file worth parsing: its lines, the first
/// dropped when the read began in the middle of the file (it may be cut),
/// each trimmed, blank ones left out.
pub open spec fn tail_lines_spec(tail: Seq<char>, started_mid_file: bool) -> Seq<Seq<char>> {
    let ls = lines_seq(tail);
    nonblank_trimmed(
        if started_mid_file && ls.len() > 0 {
            ls.drop_first()
        } else {
            ls
        },
    )
}

pub fn tail_lines(tail: &str, started_mid_file: bool) -> (r: Vec<String>)
    ensures
        views(r@) == tail_lines_spec(tail@, started_mid_file),
{
    let mut all: Vec<String> = Vec::new();
    push_prefixed_lines(&mut all, "", tail);
    proof {
        reveal_strlit("");
        assert(views(all@) =~= lines_seq(tail@)) by {
            assert forall|i: int| 0 <= i < views(all@).len() implies views(all@)[i]
                == lines_seq(tail@)[i] by {
                assert(prefixed_lines(""@, tail@)[i] == ""@ + lines_seq(tail@)[i]);
                assert(""@ + lines_seq(tail@)[i] =~= lines_seq(tail@)[i]);
            }
        }
    }
    let ghost ls = lines_seq(tail@);
    let start: usize = if started_mid_file && all.len() > 0 {
        1
    } else {
        0
    };
    let ghost src = if started_mid_file && ls.len() > 0 {
        ls.drop_first()
    } else {
        ls
    };
    assert(src =~= ls.skip(start as int));
    let mut r: Vec<String> = Vec::new();
    let mut i: usize = start;
    while i < all.len()
        invariant
            start <= i <= all.len(),
            views(all@) == ls,
            src == ls.skip(start as int),
            views(r@) == nonblank_trimmed(ls.subrange(start as int, i as int)),
        decreases all.len() - i,
    {
        assert(ls.subrange(start as int, i + 1).drop_last() =~= ls.subrange(start as int, i as int));
        assert(ls.subrange(start as int, i + 1).last() == views(all@)[i as int]);
        let v = chars_of(all[i].as_str());
        let (a, b) = trim_bounds(&v);
        if a < b {
            let t = string_from_range(&v, a, b);
            assert(t@ =~= trim_seq(ls[i as int]));
            let ghost before = views(r@);
            r.push(t);
            assert(views(r@) =~= before.push(t@));
        }
        i += 1;
    }
    assert(ls.subrange(start as int, all.len() as int) =~= src);
    r
}

/// The last `n` parsed records of a run of lines (`None`: a line that is
/// not valid JSON), in file order: lines are taken from the end, those
/// that do not parse are passed over, and taking stops at `n` records.
pub open spec fn last_n_some(s: Seq<Option<JsonValue>>, n: int) -> Seq<JsonValue>
    decreases s.len(),
{
    if s.len() == 0 || n <= 0 {
        Seq::empty()
    } else {
        match s.last() {
            Some(v) => last_n_some(s.drop_last(), n - 1).push(v),
            None => last_n_some(s.drop_last(), n),
        }
    }
}

pub fn last_parsed(lines: Vec<Option<JsonValue>>, n: usize) -> (r: Vec<JsonValue>)
    ensures
        r@ == last_n_some(lines@, n as int),
{
    let ghost orig = lines@;
    let mut cur = lines;
    let mut acc: Vec<JsonValue> = Vec::new();
    while acc.len() < n && cur.len() > 0
        invariant
            acc@.len() <= n,
            last_n_some(orig, n as int) == last_n_some(cur@, n - acc@.len()) + acc@.reverse(),
        decreases cur@.len(),
    {
        let ghost before = cur@;
        let ghost acc0 = acc@;
        let x = cur.pop();
        match x {
            Some(Some(v)) => {
                assert(before.drop_last() =~= cur@);
                acc.push(v);
                assert(acc@.reverse() =~= seq![v] + acc0.reverse());
                assert(last_n_some(before, n - acc0.len()) == last_n_some(cur@, n - acc@.len()).push(v));
                assert(last_n_some(cur@, n - acc@.len()).push(v) + acc0.reverse()
                    =~= last_n_some(cur@, n - acc@.len()) + acc@.reverse());
            },
            Some(None) => {
                assert(before.drop_last() =~= cur@);
            },
            None => {},
        }
    }
    assert(last_n_some(cur@, n - acc@.len()) =~= Seq::<JsonValue>::empty());
    let ghost full = acc@;
    let mut out: Vec<JsonValue> = Vec::new();
    while acc.len() > 0
        invariant
            out@ + acc@.reverse() == full.reverse(),
        decreases acc@.len(),
    {
        let ghost a0 = acc@;
        let ghost o0 = out@;
        let x = acc.pop();
        match x {
            Some(v) => {
                assert(a0 =~= acc@.push(v));
                assert(a0.reverse() =~= seq![v] + acc@.reverse());
                out.push(v);
                assert(out@ + acc@.reverse() =~= o0 + a0.reverse());
            },
            None => {},
        }
    }
    assert(acc@.reverse() =~= Seq::<JsonValue>::empty());
    assert(out@ =~= full.reverse());
    assert(last_n_some(orig, n as int) =~= full.reverse());
    out
}

/// The last `n` records of the end of a file read from the middle (or from
/// its start): the lines worth parsing (see `tail_lines_spec`), each
/// parsed, and of those that parse the last `n`, in file order.
pub fn records_tail_of_text(tail: &str, started_mid_file: bool, n: usize) -> (r: Vec<JsonValue>)
    ensures
        r@ == last_n_some(
            tail_lines_spec(tail@, started_mid_file).map_values(|l: Seq<char>| json_of(l)),
            n as int,
        ),
{
    let lines = tail_lines(tail, started_mid_file);
    let ghost ls = views(lines@);
    let mut parsed: Vec<Option<JsonValue>> = Vec::new();
    let mut i: usize = 0;
    while i < lines.len()
        invariant
            i <= lines@.len(),
            ls == views(lines@),
            parsed@ == ls.take(i as int).map_values(|l: Seq<char>| json_of(l)),
        decreases lines@.len() - i,
    {
        parsed.push(parse_json(lines[i].as_str()));
        i += 1;
        assert(parsed@ =~= ls.take(i as int).map_values(|l: Seq<char>| json_of(l)));
    }
    assert(ls.take(lines@.len() as int) =~= ls);
    last_parsed(parsed, n)
}

/// The last `n` records of a whole record file's text (see `records_spec`).
pub fn last_records_of_text(text: &str, n: usize) -> (r: Vec<JsonValue>)
    ensures
        r@ == last_n_some(records_spec(text@).map_values(|v: JsonValue| Some(v)), n as int),
{
    let mut all = records_of_text(text);
    let ghost whole = all@;
    let mut rev: Vec<Option<JsonValue>> = Vec::new();
    while all.len() > 0
        invariant
            whole == all@ + rev@.reverse().map_values(|o: Option<JsonValue>| o->0),
            forall|k: int| 0 <= k < rev@.len() ==> rev@[k] is Some,
        decreases all@.len(),
    {
        let ghost a0 = all@;
        let ghost r0 = rev@;
        let x = all.pop();
        match x {
            Some(v) => {
                rev.push(Some(v));
                assert(a0 =~= all@.push(v));
                assert(rev@.reverse() =~= seq![Some(v)] + r0.reverse());
                assert(whole =~= all@ + rev@.reverse().map_values(|o: Option<JsonValue>| o->0));
            },
            None => {},
        }
    }
    let mut wrapped: Vec<Option<JsonValue>> = Vec::new();
    let ghost full = rev@;
    while rev.len() > 0
        invariant
            wrapped@ + rev@.reverse() == full.reverse(),
        decreases rev@.len(),
    {
        let ghost r0 = rev@;
        let ghost w0 = wrapped@;
        let x = rev.pop();
        match x {
            Some(o) => {
                assert(r0 =~= rev@.push(o));
                assert(r0.reverse() =~= seq![o] + rev@.reverse());
                wrapped.push(o);
                assert(wrapped@ + rev@.reverse() =~= w0 + r0.reverse());
            },
            None => {},
        }
    }
    assert(rev@.reverse() =~= Seq::<Option<JsonValue>>::empty());
    assert(wrapped@ =~= full.reverse());
    assert(wrapped@ =~= whole.map_values(|v: JsonValue| Some(v))) by {
        assert(whole =~= full.reverse().map_values(|o: Option<JsonValue>| o->0));
        assert forall|k: int| 0 <= k < wrapped@.len() implies wrapped@[k] == Some(whole[k]) by {
            assert(full.reverse()[k] == full[full.len() - 1 - k]);
        }
    }
    last_parsed(wrapped, n)
}

/// `r` lists the indices of `mtimes` newest first, files with the same
/// time in their listed order.
pub open spec fn newest_first_order(mtimes: Seq<u64>, r: Seq<usize>) -> bool {
    &&& r.len() == mtimes.len()
    &&& forall|i: int| 0 <= i < r.len() ==> (#[trigger] r[i]) < mtimes.len()
    &&& forall|i: int, j: int| 0 <= i < j < r.len() ==> #[trigger] r[i] != #[trigger] r[j]
    &&& forall|i: int, j: int|
        0 <= i < j < r.len() ==> mtimes[#[trigger] r[i] as int] > mtimes[#[trigger] r[j] as int]
            || (mtimes[r[i] as int] == mtimes[r[j] as int] && r[i] < r[j])
}

/// The order in which files are read for the recent events: by
/// modification time, newest first (a stable order).
pub fn files_newest_first(mtimes: &Vec<u64>) -> (r: Vec<usize>)
    ensures
        newest_first_order(mtimes@, r@),
{
    let mut r: Vec<usize> = Vec::new();
    let mut k: usize = 0;
    while k < mtimes.len()
        invariant
            k <= mtimes.len(),
            r@.len() == k,
            forall|i: int| 0 <= i < r@.len() ==> (#[trigger] r@[i]) < k,
            forall|i: int, j: int| 0 <= i < j < r@.len() ==> #[trigger] r@[i] != #[trigger] r@[j],
            forall|i: int, j: int|
                0 <= i < j < r@.len() ==> mtimes@[#[trigger] r@[i] as int] > mtimes@[#[trigger] r@[j] as int]
                    || (mtimes@[r@[i] as int] == mtimes@[r@[j] as int] && r@[i] < r@[j]),
        decreases mtimes.len() - k,
    {
        let m = mtimes[k];
        let mut p: usize = 0;
        while p < r.len() && mtimes[r[p]] >= m
            invariant
                p <= r@.len(),
                forall|i: int| 0 <= i < r@.len() ==> (#[trigger] r@[i]) < k,
                k < mtimes@.len(),
                m == mtimes@[k as int],
                forall|q: int| 0 <= q < p ==> mtimes@[#[trigger] r@[q] as int] >= m,
            decreases r@.len() - p,
        {
            p += 1;
        }
        let ghost old_r = r@;
        proof {
            if p < old_r.len() {
                assert(mtimes@[old_r[p as int] as int] < m);
                assert forall|q: int| p <= q < old_r.len() implies mtimes@[#[trigger] old_r[q] as int] < m by {
                    if q > p {
                        assert(mtimes@[old_r[p as int] as int] > mtimes@[old_r[q] as int]
                            || mtimes@[old_r[p as int] as int] == mtimes@[old_r[q] as int]);
                    }
                }
            }
        }
        r.insert(p, k);
        proof {
            assert forall|i: int| 0 <= i < r@.len() implies (#[trigger] r@[i]) < k + 1 by {
                if i < p {
                    assert(r@[i] == old_r[i]);
                } else if i > p {
                    assert(r@[i] == old_r[i - 1]);
                }
            }
            assert forall|i: int, j: int| 0 <= i < j < r@.len() implies #[trigger] r@[i] != #[trigger] r@[j] by {
                if i < p && j > p {
                    assert(r@[j] == old_r[j - 1]);
                } else if i > p {
                    assert(r@[i] == old_r[i - 1] && r@[j] == old_r[j - 1]);
                } else if j < p {
                } else if i == p {
                    assert(r@[j] == old_r[j - 1]);
                } else {
                    assert(r@[i] == old_r[i]);
                }
            }
            assert forall|i: int, j: int| 0 <= i < j < r@.len() implies mtimes@[#[trigger] r@[i] as int]
                > mtimes@[#[trigger] r@[j] as int] || (mtimes@[r@[i] as int] == mtimes@[r@[j] as int]
                && r@[i] < r@[j]) by {
                if i < p && j > p {
                    assert(r@[i] == old_r[i] && r@[j] == old_r[j - 1]);
                    assert(mtimes@[old_r[i] as int] >= m);
                    assert(mtimes@[old_r[j - 1] as int] < m);
                } else if i > p {
                    assert(r@[i] == old_r[i - 1] && r@[j] == old_r[j - 1]);
                } else if j < p {
                    assert(r@[i] == old_r[i] && r@[j] == old_r[j]);
                } else if i == p {
                    assert(r@[j] == old_r[j - 1]);
                    assert(mtimes@[old_r[j - 1] as int] < m);
                } else {
                    assert(j == p && r@[i] == old_r[i]);
                    assert(mtimes@[old_r[i] as int] >= m);
                }
            }
        }
        k += 1;
    }
    r
}

/// Whether the first bytes of a large file show a JSON array (a `[`
/// anywhere among them), which must be read whole; otherwise only the
/// file's end is read, one record per line.
pub fn head_shows_array(head: &[u8]) -> (r: bool)
    ensures
        r == exists|i: int| 0 <= i < head@.len() && head@[i] == 91u8,
{
    let mut i: usize = 0;
    while i < head.len()
        invariant
            i <= head@.len(),
            forall|q: int| 0 <= q < i ==> head@[q] != 91u8,
        decreases head@.len() - i,
    {
        if head[i] == 91u8 {
            return true;
        }
        i += 1;
    }
    false
}

/// All the previews of the files, file after file, in the order given.
pub open spec fn concat_all(fs: Seq<Vec<ActivityEventPreview>>) -> Seq<ActivityEventPreview>
    decreases fs.len(),
{
    if fs.len() == 0 {
        Seq::empty()
    } else {
        fs[0]@ + concat_all(fs.drop_first())
    }
}

/// The recent events: the previews of the files (newest file first), file
/// after file, cut to `max_events`.
pub fn collect_recent(per_file: Vec<Vec<ActivityEventPreview>>, max_events: usize) -> (r: Vec<
    ActivityEventPreview,
>)
    ensures
        r@ == if concat_all(per_file@).len() <= max_events {
            concat_all(per_file@)
        } else {
            concat_all(per_file@).take(max_events as int)
        },
{
    let ghost orig = per_file@;
    let mut files = per_file;
    let mut out: Vec<ActivityEventPreview> = Vec::new();
    assert(orig.skip(orig.len() as int) =~= Seq::<Vec<ActivityEventPreview>>::empty());
    while files.len() > 0
        invariant
            files@.len() <= orig.len(),
            files@ == orig.take(files@.len() as int),
            out@ == concat_all(orig.skip(files@.len() as int)),
        decreases files@.len(),
    {
        let k = files.len();
        let x = files.pop();
        match x {
            Some(mut v) => {
                assert(files@ =~= orig.take(k - 1));
                assert(v == orig[k - 1]);
                assert(orig.skip(k - 1).drop_first() =~= orig.skip(k as int));
                assert(orig.skip(k - 1)[0] == orig[k - 1]);
                let ghost vv = v@;
                v.append(&mut out);
                out = v;
                assert(out@ == vv + concat_all(orig.skip(k as int)));
            },
            None => {},
        }
    }
    assert(orig.skip(0) =~= orig);
    out.truncate(max_events);
    assert(concat_all(orig).take(max_events as int) =~= concat_all(orig).subrange(0, max_events as int));
    out
}

// ---------------------------------------------------------------------------
// Filtering and sorting
// ---------------------------------------------------------------------------

/// Unicode lower-casing, as `str::to_lowercase` gives it.
pub uninterp spec fn unicode_lower(s: Seq<char>) -> Seq<char>;

/// `str::to_lowercase`: full Unicode lower-casing of `s`.
#[verifier::external_body]
pub(crate) fn lowercase_text(s: &str) -> (r: String)
    ensures
        r@ == unicode_lower(s@),
{
    s.to_lowercase()
}

/// The filters of the activity explorer; blank ones let everything
/// through.
pub struct ActivityFilters {
    /// Looked for in the time, type, summary and source file.
    pub query: String,
    pub event_type: String,
    pub source_file: String,
    /// Earliest date (`YYYY-MM-DD`) shown.
    pub from_date: String,
    /// Latest date shown.
    pub to_date: String,
}

/// `needle`, trimmed, is blank or occurs in `hay`, ignoring ASCII case.
pub open spec fn loose_match(hay: Seq<char>, needle: Seq<char>) -> bool {
    let n = trim_seq(needle);
    n.len() == 0 || contains_seq(lower_seq(hay), lower_seq(n))
}

/// An event's date against a date bound (lower bound when `from`): a
/// bound that is not a date lets every event through; otherwise events
/// without a date are left out.
pub open spec fn within_bound(date_key: Option<Seq<char>>, bound: Seq<char>, from: bool) -> bool {
    match date_filter_spec(bound) {
        None => true,
        Some(d) => match date_key {
            None => false,
            Some(k) => if from {
                !seq_less(k, d)
            } else {
                !seq_less(d, k)
            },
        },
    }
}

/// The text an explorer query is looked for in.
pub open spec fn query_haystack(e: ActivityEventPreview) -> Seq<char> {
    e.timestamp@ + " "@ + e.event_type@ + " "@ + e.summary@ + " "@ + e.source_file@
}

pub open spec fn filters_admit(e: ActivityEventPreview, f: ActivityFilters) -> bool {
    &&& loose_match(query_haystack(e), f.query@)
    &&& loose_match(e.event_type@, f.event_type@)
    &&& loose_match(e.source_file@, f.source_file@)
    &&& within_bound(opt_view(e.date_key), f.from_date@, true)
    &&& within_bound(opt_view(e.date_key), f.to_date@, false)
}

fn loose_contains(hay: &str, needle: &str) -> (r: bool)
    ensures
        r == loose_match(hay@, needle@),
{
    let n = trim(needle);
    if n.as_str().is_empty() {
        return true;
    }
    let h = to_ascii_lowercase(hay);
    let l = to_ascii_lowercase(n.as_str());
    contains_str(h.as_str(), l.as_str())
}

fn bound_holds(date_key: &Option<String>, bound: &str, from: bool) -> (r: bool)
    ensures
        r == within_bound(opt_view(*date_key), bound@, from),
{
    match normalize_date_filter(bound) {
        None => true,
        Some(d) => match date_key {
            None => false,
            Some(k) => if from {
                !str_less(k.as_str(), d.as_str())
            } else {
                !str_less(d.as_str(), k.as_str())
            },
        },
    }
}

/// Whether an event passes all the explorer's filters.
pub fn activity_event_matches_filters(e: &ActivityEventPreview, f: &ActivityFilters) -> (r: bool)
    ensures
        r == filters_admit(*e, *f),
{
    let mut hay = e.timestamp.clone();
    push_str(&mut hay, " ");
    push_str(&mut hay, e.event_type.as_str());
    push_str(&mut hay, " ");
    push_str(&mut hay, e.summary.as_str());
    push_str(&mut hay, " ");
    push_str(&mut hay, e.source_file.as_str());
    proof {
        reveal_strlit(" ");
        assert(hay@ =~= query_haystack(*e));
    }
    loose_contains(hay.as_str(), f.query.as_str()) && loose_contains(e.event_type.as_str(), f.event_type.as_str())
        && loose_contains(e.source_file.as_str(), f.source_file.as_str()) && bound_holds(
        &e.date_key,
        f.from_date.as_str(),
        true,
    ) && bound_holds(&e.date_key, f.to_date.as_str(), false)
}

/// The three orders of the event list.
#[derive(Clone, Copy, PartialEq, Eq, Debug, Structural)]
pub enum ActivitySortMode {
    Newest,
    Oldest,
    EventType,
}

pub open spec fn sort_mode_label(m: ActivitySortMode) -> Seq<char> {
    match m {
        ActivitySortMode::Newest => "newest"@,
        ActivitySortMode::Oldest => "oldest"@,
        ActivitySortMode::EventType => "type"@,
    }
}

impl ActivitySortMode {
    pub fn label(self) -> (r: &'static str)
        ensures
            r@ == sort_mode_label(self),
    {
        match self {
            ActivitySortMode::Newest => "newest",
            ActivitySortMode::Oldest => "oldest",
            ActivitySortMode::EventType => "type",
        }
    }

    /// The next order in the cycle newest, oldest, type.
    pub fn next(self) -> (r: Self)
        ensures
            r == match self {
                ActivitySortMode::Newest => ActivitySortMode::Oldest,
                ActivitySortMode::Oldest => ActivitySortMode::EventType,
                ActivitySortMode::EventType => ActivitySortMode::Newest,
            },
    {
        match self {
            ActivitySortMode::Newest => ActivitySortMode::Oldest,
            ActivitySortMode::Oldest => ActivitySortMode::EventType,
            ActivitySortMode::EventType => ActivitySortMode::Newest,
        }
    }
}

/// The key an event is ordered by: newest first or oldest first (then by
/// type), or by type (then newest first).
pub open spec fn event_key(e: ActivityEventPreview, m: ActivitySortMode) -> KeyView {
    match m {
        ActivitySortMode::Newest => (0u64, e.sort_key@, Seq::empty(), e.event_type@, Seq::empty(), Seq::empty()),
        ActivitySortMode::Oldest => (0u64, Seq::empty(), Seq::empty(), e.sort_key@, Seq::empty(), e.event_type@),
        ActivitySortMode::EventType => (0u64, Seq::empty(), Seq::empty(), e.event_type@, e.sort_key@, Seq::empty()),
    }
}

pub open spec fn event_keys(v: Seq<ActivityEventPreview>, m: ActivitySortMode) -> Seq<KeyView> {
    v.map_values(|e: ActivityEventPreview| event_key(e, m))
}

/// The events that pass the filters, in order.
pub open spec fn filtered_spec(v: Seq<ActivityEventPreview>, f: ActivityFilters) -> Seq<ActivityEventPreview>
    decreases v.len(),
{
    if v.len() == 0 {
        Seq::empty()
    } else {
        let rest = filtered_spec(v.drop_last(), f);
        if filters_admit(v.last(), f) {
            rest.push(v.last())
        } else {
            rest
        }
    }
}

fn copy_opt(o: &Option<String>) -> (r: Option<String>)
    ensures
        r == *o,
{
    match o {
        Some(s) => Some(s.clone()),
        None => None,
    }
}

fn copy_event(e: &ActivityEventPreview) -> (r: ActivityEventPreview)
    ensures
        r == *e,
{
    ActivityEventPreview {
        timestamp: e.timestamp.clone(),
        event_type: e.event_type.clone(),
        summary: e.summary.clone(),
        source_file: e.source_file.clone(),
        date_key: copy_opt(&e.date_key),
        sort_key: e.sort_key.clone(),
        detail: e.detail.clone(),
    }
}

fn event_sort_key(e: &ActivityEventPreview, m: ActivitySortMode) -> (k: SortKey)
    ensures
        key_view(k) == event_key(*e, m),
{
    match m {
        ActivitySortMode::Newest => SortKey {
            weight: 0,
            desc: e.sort_key.clone(),
            desc2: String::new(),
            asc: e.event_type.clone(),
            desc3: String::new(),
            asc2: String::new(),
        },
        ActivitySortMode::Oldest => SortKey {
            weight: 0,
            desc: String::new(),
            desc2: String::new(),
            asc: e.sort_key.clone(),
            desc3: String::new(),
            asc2: e.event_type.clone(),
        },
        ActivitySortMode::EventType => SortKey {
            weight: 0,
            desc: String::new(),
            desc2: String::new(),
            asc: e.event_type.clone(),
            desc3: e.sort_key.clone(),
            asc2: String::new(),
        },
    }
}

/// The events that pass the filters, in the chosen order (stable).
pub fn filtered_activity_events(
    events: &Vec<ActivityEventPreview>,
    filters: &ActivityFilters,
    mode: ActivitySortMode,
) -> (r: Vec<ActivityEventPreview>)
    ensures
        ({
            let kept = filtered_spec(events@, *filters);
            reordered(kept, event_keys(kept, mode), r@)
        }),
{
    let mut kept: Vec<ActivityEventPreview> = Vec::new();
    let mut i: usize = 0;
    assert(events@.take(0) =~= Seq::<ActivityEventPreview>::empty());
    while i < events.len()
        invariant
            i <= events@.len(),
            kept@ == filtered_spec(events@.take(i as int), *filters),
        decreases events@.len() - i,
    {
        assert(events@.take(i + 1).drop_last() =~= events@.take(i as int));
        assert(events@.take(i + 1).last() == events@[i as int]);
        if activity_event_matches_filters(&events[i], filters) {
            kept.push(copy_event(&events[i]));
        }
        i += 1;
    }
    assert(events@.take(events@.len() as int) =~= events@);
    let mut keys: Vec<SortKey> = Vec::new();
    let mut j: usize = 0;
    while j < kept.len()
        invariant
            j <= kept@.len(),
            sort_key_views(keys@) == event_keys(kept@, mode).take(j as int),
        decreases kept@.len() - j,
    {
        let ghost before = keys@;
        let key = event_sort_key(&kept[j], mode);
        keys.push(key);
        assert(sort_key_views(keys@) =~= sort_key_views(before).push(key_view(key)));
        j += 1;
        assert(event_keys(kept@, mode).take(j as int) =~= event_keys(kept@, mode).take(j - 1).push(
            event_key(kept@[j - 1], mode),
        ));
    }
    assert(sort_key_views(keys@) =~= event_keys(kept@, mode));
    let idx = sort_order(&keys);
    let mut out: Vec<ActivityEventPreview> = Vec::new();
    let mut k: usize = 0;
    while k < idx.len()
        invariant
            k <= idx@.len(),
            stable_order(event_keys(kept@, mode), as_ints(idx@)),
            out@.len() == k,
            forall|q: int| 0 <= q < k ==> out@[q] == kept@[idx@[q] as int],
        decreases idx@.len() - k,
    {
        assert(as_ints(idx@)[k as int] == idx@[k as int] as int);
        out.push(copy_event(&kept[idx[k]]));
        k += 1;
    }
    proof {
        let ids = as_ints(idx@);
        assert forall|q: int| 0 <= q < out@.len() implies out@[q] == kept@[ids[q]] by {
            assert(ids[q] == idx@[q] as int);
        }
    }
    out
}


// ---------------------------------------------------------------------------
// The explorer's keys
// ---------------------------------------------------------------------------

/// The filter being typed into.
#[derive(Clone, Copy, PartialEq, Eq, Debug, Structural)]
pub enum ActivityFilterField {
    Query,
    EventType,
    SourceFile,
    FromDate,
    ToDate,
}

/// What the explorer does after a key besides updating its state.
#[derive(Clone, Copy, PartialEq, Eq, Debug, Structural)]
pub enum ActivityKeyEffect {
    Nothing,
    /// Show the event under the cursor.
    OpenEvent,
    Home,
    /// Reload the tickets and events.
    Refresh,
}

/// The explorer's filters, the field being edited, the list cursor and the
/// order.
pub struct ActivityExplorer {
    pub filters: ActivityFilters,
    pub editing: Option<ActivityFilterField>,
    pub cursor: usize,
    pub sort: ActivitySortMode,
}

pub open spec fn field_text(f: ActivityFilters, field: ActivityFilterField) -> Seq<char> {
    match field {
        ActivityFilterField::Query => f.query@,
        ActivityFilterField::EventType => f.event_type@,
        ActivityFilterField::SourceFile => f.source_file@,
        ActivityFilterField::FromDate => f.from_date@,
        ActivityFilterField::ToDate => f.to_date@,
    }
}

/// A filter's text after a key while it is edited: Backspace removes the
/// last character, Ctrl+U clears it, printable characters are typed.
pub open spec fn edited_text(t: Seq<char>, key: Key, ctrl: bool) -> Seq<char> {
    if key == Key::Backspace {
        if t.len() > 0 {
            t.drop_last()
        } else {
            t
        }
    } else if (key == Key::Char('u') || key == Key::Char('U')) && ctrl {
        Seq::empty()
    } else {
        match key {
            Key::Char(c) => if !ctrl && printable_input_spec(c) {
                t.push(c)
            } else {
                t
            },
            _ => t,
        }
    }
}

/// The edit resets the cursor.
pub open spec fn edit_resets(key: Key, ctrl: bool) -> bool {
    ||| key == Key::Backspace
    ||| (key == Key::Char('u') || key == Key::Char('U')) && ctrl
    ||| match key {
        Key::Char(c) => !ctrl && printable_input_spec(c),
        _ => false,
    }
}

fn edit_text(t: &mut String, key: Key, ctrl: bool) -> (reset: bool)
    ensures
        final(t)@ == edited_text(old(t)@, key, ctrl),
        reset == edit_resets(key, ctrl),
{
    if key == Key::Backspace {
        let v = chars_of(t.as_str());
        if v.len() > 0 {
            *t = string_from_range(&v, 0, v.len() - 1);
            assert(t@ =~= old(t)@.drop_last());
        }
        true
    } else if (key == Key::Char('u') || key == Key::Char('U')) && ctrl {
        *t = String::new();
        true
    } else {
        match key {
            Key::Char(c) => {
                if !ctrl && is_printable_input(c) {
                    push_char(t, c);
                    true
                } else {
                    false
                }
            },
            _ => false,
        }
    }
}

/// The field a key starts editing in the list.
pub open spec fn edit_target(key: Key) -> Option<ActivityFilterField> {
    if key == Key::Char('/') {
        Some(ActivityFilterField::Query)
    } else if key == Key::Char('t') || key == Key::Char('T') {
        Some(ActivityFilterField::EventType)
    } else if key == Key::Char('y') || key == Key::Char('Y') {
        Some(ActivityFilterField::SourceFile)
    } else if key == Key::Char('[') {
        Some(ActivityFilterField::FromDate)
    } else if key == Key::Char(']') {
        Some(ActivityFilterField::ToDate)
    } else {
        None
    }
}

/// The cursor after a key in the list of `count` events (15 per page).
pub open spec fn list_cursor(cursor: int, key: Key, count: int) -> int {
    if key == Key::Up || key == Key::Char('k') || key == Key::Char('K') {
        if cursor > 0 { cursor - 1 } else { 0 }
    } else if key == Key::Down || key == Key::Char('j') || key == Key::Char('J') {
        if cursor + 1 < count { cursor + 1 } else { cursor }
    } else if key == Key::PageUp {
        if cursor >= 15 { cursor - 15 } else { 0 }
    } else if key == Key::PageDown {
        let last = if count > 0 { count - 1 } else { 0 };
        if cursor + 15 < last { cursor + 15 } else { last }
    } else {
        cursor
    }
}

pub open spec fn next_sort(m: ActivitySortMode) -> ActivitySortMode {
    match m {
        ActivitySortMode::Newest => ActivitySortMode::Oldest,
        ActivitySortMode::Oldest => ActivitySortMode::EventType,
        ActivitySortMode::EventType => ActivitySortMode::Newest,
    }
}

pub open spec fn blank_filters(f: ActivityFilters) -> bool {
    f.query@.len() == 0 && f.event_type@.len() == 0 && f.source_file@.len() == 0
        && f.from_date@.len() == 0 && f.to_date@.len() == 0
}

pub open spec fn same_filters(a: ActivityFilters, b: ActivityFilters) -> bool {
    a.query@ == b.query@ && a.event_type@ == b.event_type@ && a.source_file@ == b.source_file@
        && a.from_date@ == b.from_date@ && a.to_date@ == b.to_date@
}

impl ActivityExplorer {
    /// Handles a key (with Ctrl held when `ctrl`) when the list shows
    /// `count` events: while a filter is edited the key edits it (Enter or
    /// Esc ends the edit); otherwise it moves the cursor, starts editing a
    /// filter, changes the order, clears the filters, or opens, leaves or
    /// reloads.
    pub fn on_key(&mut self, key: Key, ctrl: bool, count: usize) -> (e: ActivityKeyEffect)
        ensures
            match old(self).editing {
                Some(field) => {
                    &&& e == ActivityKeyEffect::Nothing
                    &&& final(self).sort == old(self).sort
                    &&& if key == Key::Esc || key == Key::Enter {
                        &&& final(self).editing is None
                        &&& final(self).cursor == old(self).cursor
                        &&& same_filters(final(self).filters, old(self).filters)
                    } else {
                        &&& final(self).editing == Some(field)
                        &&& field_text(final(self).filters, field) == edited_text(
                            field_text(old(self).filters, field),
                            key,
                            ctrl,
                        )
                        &&& forall|g: ActivityFilterField| g != field ==> field_text(final(self).filters, g)
                            == field_text(old(self).filters, g)
                        &&& final(self).cursor == if edit_resets(key, ctrl) {
                            0
                        } else {
                            old(self).cursor
                        }
                    }
                },
                None => {
                    &&& e == if key == Key::Enter {
                        ActivityKeyEffect::OpenEvent
                    } else if key == Key::Char('b') || key == Key::Char('B') || key == Key::Esc
                        || key == Key::Backspace {
                        ActivityKeyEffect::Home
                    } else if key == Key::Char('r') || key == Key::Char('R') {
                        ActivityKeyEffect::Refresh
                    } else {
                        ActivityKeyEffect::Nothing
                    }
                    &&& final(self).editing == edit_target(key)
                    &&& final(self).sort == if key == Key::Char('o') || key == Key::Char('O') {
                        next_sort(old(self).sort)
                    } else {
                        old(self).sort
                    }
                    &&& if key == Key::Char('c') || key == Key::Char('C') {
                        blank_filters(final(self).filters)
                    } else {
                        same_filters(final(self).filters, old(self).filters)
                    }
                    &&& final(self).cursor as int == if key == Key::Char('o') || key == Key::Char('O')
                        || key == Key::Char('c') || key == Key::Char('C') {
                        0
                    } else {
                        list_cursor(old(self).cursor as int, key, count as int)
                    }
                },
            },
    {
        match self.editing {
            Some(field) => {
                if key == Key::Esc || key == Key::Enter {
                    self.editing = None;
                } else {
                    let reset = match field {
                        ActivityFilterField::Query => edit_text(&mut self.filters.query, key, ctrl),
                        ActivityFilterField::EventType => edit_text(&mut self.filters.event_type, key, ctrl),
                        ActivityFilterField::SourceFile => edit_text(&mut self.filters.source_file, key, ctrl),
                        ActivityFilterField::FromDate => edit_text(&mut self.filters.from_date, key, ctrl),
                        ActivityFilterField::ToDate => edit_text(&mut self.filters.to_date, key, ctrl),
                    };
                    if reset {
                        self.cursor = 0;
                    }
                }
                ActivityKeyEffect::Nothing
            },
            None => {
                if key == Key::Up || key == Key::Char('k') || key == Key::Char('K') {
                    self.cursor = self.cursor.saturating_sub(1);
                } else if key == Key::Down || key == Key::Char('j') || key == Key::Char('J') {
                    if count > 0 && self.cursor < count - 1 {
                        self.cursor = self.cursor + 1;
                    }
                } else if key == Key::PageUp {
                    self.cursor = self.cursor.saturating_sub(15);
                } else if key == Key::PageDown {
                    let last = if count > 0 {
                        count - 1
                    } else {
                        0
                    };
                    self.cursor = if self.cursor < last && last - self.cursor > 15 {
                        self.cursor + 15
                    } else {
                        last
                    };
                } else if key == Key::Char('/') {
                    self.editing = Some(ActivityFilterField::Query);
                } else if key == Key::Char('t') || key == Key::Char('T') {
                    self.editing = Some(ActivityFilterField::EventType);
                } else if key == Key::Char('y') || key == Key::Char('Y') {
                    self.editing = Some(ActivityFilterField::SourceFile);
                } else if key == Key::Char('[') {
                    self.editing = Some(ActivityFilterField::FromDate);
                } else if key == Key::Char(']') {
                    self.editing = Some(ActivityFilterField::ToDate);
                } else if key == Key::Char('o') || key == Key::Char('O') {
                    self.sort = self.sort.next();
                    self.cursor = 0;
                } else if key == Key::Char('c') || key == Key::Char('C') {
                    self.filters.query = String::new();
                    self.filters.event_type = String::new();
                    self.filters.source_file = String::new();
                    self.filters.from_date = String::new();
                    self.filters.to_date = String::new();
                    self.cursor = 0;
                }
                if key == Key::Enter {
                    ActivityKeyEffect::OpenEvent
                } else if key == Key::Char('b') || key == Key::Char('B') || key == Key::Esc || key
                    == Key::Backspace {
                    ActivityKeyEffect::Home
                } else if key == Key::Char('r') || key == Key::Char('R') {
                    ActivityKeyEffect::Refresh
                } else {
                    ActivityKeyEffect::Nothing
                }
            },
        }
    }
}

} // verus!
