//! Support tickets: the summary row of each ticket, the detail lines shown
//! when one is opened, and the order of the list (most recently updated
//! first).
use vstd::prelude::*;
use crate::insights::reordered;
use crate::json::{
    compact_json, compact_text, get, key_views, obj_get, pick_plain_string, pick_trimmed_spec,
    plain_text, pretty_json, pretty_text, value_to_plain_string, JsonValue,
};
use crate::numfmt::{decimal, push_decimal};
use crate::order::{as_ints, key_view, key_views as sort_key_views, sort_order, stable_order, KeyView, SortKey};
use crate::text::{
    chars_of, concat, copy_str, multiline_prefixed, prefixed_lines, push_multiline_prefixed,
    push_str, trim, trim_seq, views,
};

verus! {

/// One support ticket as listed and opened.
pub struct SupportTicketView {
    pub id: String,
    pub subject: String,
    pub status: String,
    pub priority: String,
    pub created_at: String,
    pub updated_at: String,
    pub comment_count: usize,
    pub detail_lines: Vec<String>,
}

pub open spec fn id_keys() -> Seq<Seq<char>> {
    seq!["id"@, "ticket_id"@, "case_id"@, "number"@]
}

pub open spec fn subject_keys() -> Seq<Seq<char>> {
    seq!["subject"@, "title"@, "reason"@, "topic"@]
}

pub open spec fn status_keys() -> Seq<Seq<char>> {
    seq!["status"@, "ticket_status"@, "state"@]
}

pub open spec fn priority_keys() -> Seq<Seq<char>> {
    seq!["priority"@, "severity"@, "urgency"@]
}

pub open spec fn created_keys() -> Seq<Seq<char>> {
    seq!["created_at"@, "createdAt"@, "opened_at"@, "openedAt"@, "date"@]
}

pub open spec fn updated_keys() -> Seq<Seq<char>> {
    seq!["updated_at"@, "updatedAt"@, "last_activity_at"@, "lastActivityAt"@, "closed_at"@, "closedAt"@]
}

pub open spec fn overview_keys() -> Seq<Seq<char>> {
    seq!["subject"@, "title"@, "category"@, "type"@, "assignee"@, "assigned_to"@]
}

pub open spec fn comment_time_keys() -> Seq<Seq<char>> {
    seq!["created_at"@, "createdAt"@, "date"@, "timestamp"@]
}

pub open spec fn comment_author_keys() -> Seq<Seq<char>> {
    seq!["author"@, "author_name"@, "staff_name"@, "agent"@, "username"@, "user"@]
}

pub open spec fn comment_body_keys() -> Seq<Seq<char>> {
    seq!["comment"@, "content"@, "body"@, "message"@, "text"@]
}

pub open spec fn user_agent_keys() -> Seq<Seq<char>> {
    seq!["user_agent"@, "userAgent"@, "client"@, "browser"@]
}

pub open spec fn device_keys() -> Seq<Seq<char>> {
    seq!["device"@, "platform"@, "os"@]
}

pub open spec fn ip_keys() -> Seq<Seq<char>> {
    seq!["ip"@, "ip_address"@, "remote_ip"@]
}

pub open spec fn locale_keys() -> Seq<Seq<char>> {
    seq!["locale"@, "language"@]
}

pub open spec fn comment_status_keys() -> Seq<Seq<char>> {
    seq!["status"@, "state"@]
}

/// The first non-blank rendering among `keys`, trimmed, else `default`.
pub open spec fn field_or(v: JsonValue, keys: Seq<Seq<char>>, default: Seq<char>) -> Seq<char> {
    match pick_trimmed_spec(v, keys, false) {
        Some(s) => s,
        None => default,
    }
}

/// One `key: value` line per overview field with a non-blank value.
pub open spec fn overview_fields(t: JsonValue, keys: Seq<Seq<char>>) -> Seq<Seq<char>>
    decreases keys.len(),
{
    if keys.len() == 0 {
        Seq::empty()
    } else {
        let rest = overview_fields(t, keys.drop_last());
        let k = keys.last();
        match obj_get(t, k) {
            Some(x) => match plain_text(x) {
                Some(s) => if trim_seq(s).len() > 0 {
                    rest.push(k + ": "@ + trim_seq(s))
                } else {
                    rest
                },
                None => rest,
            },
            None => rest,
        }
    }
}

/// `prefix` + the value, when there is one.
pub open spec fn opt_line(prefix: Seq<char>, v: Option<Seq<char>>) -> Seq<Seq<char>> {
    match v {
        Some(s) => seq![prefix + s],
        None => Seq::empty(),
    }
}

/// The heading and body lines of the `idx`-th comment (numbered from one).
pub open spec fn comment_head(c: JsonValue, idx: nat) -> Seq<Seq<char>> {
    let ts = field_or(c, comment_time_keys(), "unknown-time"@);
    let author = field_or(c, comment_author_keys(), "unknown-author"@);
    let body = field_or(c, comment_body_keys(), compact_text(c));
    seq!["  "@ + decimal(idx + 1) + ". ["@ + ts + "] "@ + author] + multiline_prefixed("     "@, body)
}

/// The metadata lines of a comment that has them.
pub open spec fn comment_meta(c: JsonValue) -> Seq<Seq<char>> {
    opt_line("     user_agent: "@, pick_trimmed_spec(c, user_agent_keys(), false)) + opt_line(
        "     device: "@,
        pick_trimmed_spec(c, device_keys(), false),
    ) + opt_line("     ip: "@, pick_trimmed_spec(c, ip_keys(), false)) + opt_line(
        "     locale: "@,
        pick_trimmed_spec(c, locale_keys(), false),
    ) + opt_line("     status: "@, pick_trimmed_spec(c, comment_status_keys(), false))
}

/// The comment's own JSON, indented.
pub open spec fn comment_raw(c: JsonValue) -> Seq<Seq<char>> {
    seq!["     raw_comment:"@] + prefixed_lines("       "@, pretty_text(c))
}

/// The lines of the `idx`-th comment (numbered from one).
pub open spec fn comment_lines(c: JsonValue, idx: nat) -> Seq<Seq<char>> {
    comment_head(c, idx) + comment_meta(c) + comment_raw(c)
}

pub open spec fn comments_lines(cs: Seq<JsonValue>) -> Seq<Seq<char>>
    decreases cs.len(),
{
    if cs.len() == 0 {
        Seq::empty()
    } else {
        comments_lines(cs.drop_last()) + comment_lines(cs.last(), (cs.len() - 1) as nat)
    }
}

/// The detail view of a ticket: status, priority and dates, the overview
/// fields, and each comment with its metadata and raw JSON.
pub open spec fn detail_lines_spec(t: JsonValue) -> Seq<Seq<char>> {
    let head = seq![
        "Status: "@ + field_or(t, status_keys(), "unknown"@),
        "Priority: "@ + field_or(t, priority_keys(), "unknown"@),
        "Created: "@ + field_or(t, created_keys(), "unknown"@),
        "Updated: "@ + field_or(t, updated_keys(), "unknown"@),
    ];
    let fields = overview_fields(t, overview_keys());
    let with_fields = if fields.len() > 0 {
        head + seq![Seq::empty(), "Fields:"@] + fields.map_values(|f: Seq<char>| "  "@ + f)
    } else {
        head
    };
    match obj_get(t, "comments"@) {
        Some(JsonValue::Array(cs, _)) => with_fields + seq![
            Seq::empty(),
            "Comments ("@ + decimal(cs@.len()) + ")"@,
        ] + comments_lines(cs@),
        _ => with_fields,
    }
}

fn field_or_default(v: &JsonValue, keys: &[&str], default: &str) -> (r: String)
    ensures
        r@ == field_or(*v, key_views(keys@), default@),
{
    match pick_plain_string(v, keys) {
        Some(s) => s,
        None => copy_str(default),
    }
}

fn push_line(lines: &mut Vec<String>, line: String)
    ensures
        views(final(lines)@) == views(old(lines)@).push(line@),
{
    let ghost before = views(lines@);
    lines.push(line);
    assert(views(lines@) =~= before.push(line@));
}

fn push_opt_line(lines: &mut Vec<String>, prefix: &str, v: Option<String>)
    ensures
        views(final(lines)@) == views(old(lines)@) + opt_line(
            prefix@,
            match v {
                Some(s) => Some(s@),
                None => None,
            },
        ),
{
    match v {
        Some(s) => {
            push_line(lines, concat(prefix, s.as_str()));
        },
        None => {
            assert(views(lines@) =~= views(lines@) + Seq::<Seq<char>>::empty());
        },
    }
}

fn push_comment_head(lines: &mut Vec<String>, c: &JsonValue, idx: usize)
    requires
        idx < usize::MAX,
    ensures
        views(final(lines)@) == views(old(lines)@) + comment_head(*c, idx as nat),
{
    let ghost start = views(lines@);
    let kt = ["created_at", "createdAt", "date", "timestamp"];
    assert(key_views(kt@) =~= comment_time_keys());
    let ka = ["author", "author_name", "staff_name", "agent", "username", "user"];
    assert(key_views(ka@) =~= comment_author_keys());
    let kb = ["comment", "content", "body", "message", "text"];
    assert(key_views(kb@) =~= comment_body_keys());
    let ts = field_or_default(c, &kt, "unknown-time");
    let author = field_or_default(c, &ka, "unknown-author");
    let fallback = compact_json(c);
    let body = field_or_default(c, &kb, fallback.as_str());
    let mut head = copy_str("  ");
    push_decimal(&mut head, (idx + 1) as u64);
    push_str(&mut head, ". [");
    push_str(&mut head, ts.as_str());
    push_str(&mut head, "] ");
    push_str(&mut head, author.as_str());
    push_line(lines, head);
    push_multiline_prefixed(lines, "     ", body.as_str());
    assert(views(lines@) =~= start + comment_head(*c, idx as nat));
}

fn push_comment_meta(lines: &mut Vec<String>, c: &JsonValue)
    ensures
        views(final(lines)@) == views(old(lines)@) + comment_meta(*c),
{
    let ghost start = views(lines@);
    let ku = ["user_agent", "userAgent", "client", "browser"];
    assert(key_views(ku@) =~= user_agent_keys());
    push_opt_line(lines, "     user_agent: ", pick_plain_string(c, &ku));
    let kd = ["device", "platform", "os"];
    assert(key_views(kd@) =~= device_keys());
    push_opt_line(lines, "     device: ", pick_plain_string(c, &kd));
    let ki = ["ip", "ip_address", "remote_ip"];
    assert(key_views(ki@) =~= ip_keys());
    push_opt_line(lines, "     ip: ", pick_plain_string(c, &ki));
    let kl = ["locale", "language"];
    assert(key_views(kl@) =~= locale_keys());
    push_opt_line(lines, "     locale: ", pick_plain_string(c, &kl));
    let ks = ["status", "state"];
    assert(key_views(ks@) =~= comment_status_keys());
    push_opt_line(lines, "     status: ", pick_plain_string(c, &ks));
    assert(views(lines@) =~= start + comment_meta(*c));
}

fn push_comment_lines(lines: &mut Vec<String>, c: &JsonValue, idx: usize)
    requires
        idx < usize::MAX,
    ensures
        views(final(lines)@) == views(old(lines)@) + comment_lines(*c, idx as nat),
{
    let ghost start = views(lines@);
    push_comment_head(lines, c, idx);
    let ghost s1 = views(lines@);
    push_comment_meta(lines, c);
    let ghost s2 = views(lines@);
    push_line(lines, copy_str("     raw_comment:"));
    let raw = pretty_json(c);
    crate::text::push_prefixed_lines(lines, "       ", raw.as_str());
    assert(views(lines@) =~= s2 + comment_raw(*c));
    assert(views(lines@) =~= start + comment_lines(*c, idx as nat));
}

fn push_overview_fields(lines: &mut Vec<String>, t: &JsonValue) -> (n: usize)
    ensures
        views(final(lines)@) == views(old(lines)@) + overview_fields(*t, overview_keys()),
        n == overview_fields(*t, overview_keys()).len(),
{
    let keys = ["subject", "title", "category", "type", "assignee", "assigned_to"];
    let ghost kv = key_views(keys@);
    assert(kv =~= overview_keys());
    let ghost start = views(lines@);
    let mut n: usize = 0;
    let mut i: usize = 0;
    assert(kv.take(0) =~= Seq::<Seq<char>>::empty());
    while i < keys.len()
        invariant
            i <= kv.len(),
            kv == key_views(keys@),
            views(lines@) == start + overview_fields(*t, kv.take(i as int)),
            n == overview_fields(*t, kv.take(i as int)).len(),
            n <= i,
        decreases kv.len() - i,
    {
        assert(kv.take(i + 1).drop_last() =~= kv.take(i as int));
        assert(kv.take(i + 1).last() == keys@[i as int]@);
        match get(t, keys[i]) {
            Some(x) => match value_to_plain_string(x) {
                Some(s) => {
                    let tt = trim(s.as_str());
                    if !tt.as_str().is_empty() {
                        let mut line = copy_str(keys[i]);
                        push_str(&mut line, ": ");
                        push_str(&mut line, tt.as_str());
                        push_line(lines, line);
                        n += 1;
                    }
                },
                None => {},
            },
            None => {},
        }
        i += 1;
    }
    assert(kv.take(kv.len() as int) =~= kv);
    n
}

/// The detail lines shown for a ticket.
pub fn build_ticket_detail_lines(ticket: &JsonValue) -> (lines: Vec<String>)
    ensures
        views(lines@) == detail_lines_spec(*ticket),
{
    let mut lines: Vec<String> = Vec::new();
    let ks = ["status", "ticket_status", "state"];
    assert(key_views(ks@) =~= status_keys());
    let kp = ["priority", "severity", "urgency"];
    assert(key_views(kp@) =~= priority_keys());
    let kc = ["created_at", "createdAt", "opened_at", "openedAt", "date"];
    assert(key_views(kc@) =~= created_keys());
    let ku = ["updated_at", "updatedAt", "last_activity_at", "lastActivityAt", "closed_at", "closedAt"];
    assert(key_views(ku@) =~= updated_keys());
    let s = field_or_default(ticket, &ks, "unknown");
    push_line(&mut lines, concat("Status: ", s.as_str()));
    let p = field_or_default(ticket, &kp, "unknown");
    push_line(&mut lines, concat("Priority: ", p.as_str()));
    let c = field_or_default(ticket, &kc, "unknown");
    push_line(&mut lines, concat("Created: ", c.as_str()));
    let u = field_or_default(ticket, &ku, "unknown");
    push_line(&mut lines, concat("Updated: ", u.as_str()));
    let ghost head = views(lines@);
    let mut fields: Vec<String> = Vec::new();
    let n = push_overview_fields(&mut fields, ticket);
    assert(views(fields@) =~= overview_fields(*ticket, overview_keys()));
    if n > 0 {
        push_line(&mut lines, String::new());
        push_line(&mut lines, copy_str("Fields:"));
        let ghost before = views(lines@);
        let mut i: usize = 0;
        while i < fields.len()
            invariant
                i <= fields@.len(),
                views(lines@) == before + views(fields@).take(i as int).map_values(
                    |f: Seq<char>| "  "@ + f,
                ),
            decreases fields@.len() - i,
        {
            push_line(&mut lines, concat("  ", fields[i].as_str()));
            i += 1;
            assert(views(fields@).take(i as int).map_values(|f: Seq<char>| "  "@ + f) =~= views(
                fields@,
            ).take(i - 1).map_values(|f: Seq<char>| "  "@ + f).push("  "@ + fields@[i - 1]@));
        }
        assert(views(fields@).take(fields@.len() as int) =~= views(fields@));
        assert(views(lines@) =~= head + seq![Seq::<char>::empty(), "Fields:"@] + overview_fields(
            *ticket,
            overview_keys(),
        ).map_values(|f: Seq<char>| "  "@ + f));
    }
    let ghost with_fields = views(lines@);
    match get(ticket, "comments") {
        Some(JsonValue::Array(cs, _)) => {
            push_line(&mut lines, String::new());
            let mut title = copy_str("Comments (");
            push_decimal(&mut title, cs.len() as u64);
            push_str(&mut title, ")");
            push_line(&mut lines, title);
            let ghost base = views(lines@);
            let mut i: usize = 0;
            assert(cs@.take(0) =~= Seq::<JsonValue>::empty());
            while i < cs.len()
                invariant
                    i <= cs@.len(),
                    views(lines@) == base + comments_lines(cs@.take(i as int)),
                decreases cs@.len() - i,
            {
                assert(cs@.take(i + 1).drop_last() =~= cs@.take(i as int));
                push_comment_lines(&mut lines, &cs[i], i);
                i += 1;
                assert(views(lines@) =~= base + comments_lines(cs@.take(i as int)));
            }
            assert(cs@.take(cs@.len() as int) =~= cs@);
            assert(views(lines@) =~= detail_lines_spec(*ticket));
        },
        _ => {},
    }
    lines
}

// ---------------------------------------------------------------------------
// Tickets
// ---------------------------------------------------------------------------

pub open spec fn comment_count_spec(t: JsonValue) -> nat {
    match obj_get(t, "comments"@) {
        Some(JsonValue::Array(cs, _)) => cs@.len(),
        _ => 0,
    }
}

/// A ticket row by value: id, subject, status, priority, created,
/// updated, comments, detail lines.
pub type TicketView = (Seq<char>, Seq<char>, Seq<char>, Seq<char>, Seq<char>, Seq<char>, nat, Seq<Seq<char>>);

pub open spec fn ticket_view(v: SupportTicketView) -> TicketView {
    (v.id@, v.subject@, v.status@, v.priority@, v.created_at@, v.updated_at@, v.comment_count as nat, views(v.detail_lines@))
}

pub open spec fn ticket_views(v: Seq<SupportTicketView>) -> Seq<TicketView> {
    v.map_values(|t: SupportTicketView| ticket_view(t))
}

/// The row a ticket object gives.
pub open spec fn ticket_spec(v: TicketView, t: JsonValue) -> bool {
    let created = field_or(t, created_keys(), "unknown"@);
    &&& v.0 == field_or(t, id_keys(), "unknown"@)
    &&& v.1 == field_or(t, subject_keys(), "<no subject>"@)
    &&& v.2 == field_or(t, status_keys(), "unknown"@)
    &&& v.3 == field_or(t, priority_keys(), "unknown"@)
    &&& v.4 == created
    &&& v.5 == field_or(t, updated_keys(), created)
    &&& v.6 == comment_count_spec(t)
    &&& v.7 == detail_lines_spec(t)
}

/// The ticket of a JSON value; only objects are tickets.
pub fn support_ticket_from_value(value: &JsonValue) -> (r: Option<SupportTicketView>)
    ensures
        match r {
            Some(v) => value is Object && ticket_spec(ticket_view(v), *value),
            None => !(value is Object),
        },
{
    match value {
        JsonValue::Object(_, _) => {},
        _ => {
            return None;
        },
    }
    let ki = ["id", "ticket_id", "case_id", "number"];
    assert(key_views(ki@) =~= id_keys());
    let kj = ["subject", "title", "reason", "topic"];
    assert(key_views(kj@) =~= subject_keys());
    let ks = ["status", "ticket_status", "state"];
    assert(key_views(ks@) =~= status_keys());
    let kp = ["priority", "severity", "urgency"];
    assert(key_views(kp@) =~= priority_keys());
    let kc = ["created_at", "createdAt", "opened_at", "openedAt", "date"];
    assert(key_views(kc@) =~= created_keys());
    let ku = ["updated_at", "updatedAt", "last_activity_at", "lastActivityAt", "closed_at", "closedAt"];
    assert(key_views(ku@) =~= updated_keys());
    let id = field_or_default(value, &ki, "unknown");
    let subject = field_or_default(value, &kj, "<no subject>");
    let status = field_or_default(value, &ks, "unknown");
    let priority = field_or_default(value, &kp, "unknown");
    let created_at = field_or_default(value, &kc, "unknown");
    let updated_at = field_or_default(value, &ku, created_at.as_str());
    let comment_count = match get(value, "comments") {
        Some(JsonValue::Array(cs, _)) => cs.len(),
        _ => 0,
    };
    Some(
        SupportTicketView {
            id,
            subject,
            status,
            priority,
            created_at,
            updated_at,
            comment_count,
            detail_lines: build_ticket_detail_lines(value),
        },
    )
}

/// The candidate tickets of `tickets.json`: the items of an array, or the
/// member values of an object.
pub open spec fn ticket_values(doc: JsonValue) -> Seq<JsonValue> {
    match doc {
        JsonValue::Array(items, _) => items@,
        JsonValue::Object(ms, _) => ms@.map_values(|m: (String, JsonValue)| m.1),
        _ => Seq::empty(),
    }
}

/// The objects among `vs`, in order.
pub open spec fn objects_of(vs: Seq<JsonValue>) -> Seq<JsonValue>
    decreases vs.len(),
{
    if vs.len() == 0 {
        Seq::empty()
    } else {
        let rest = objects_of(vs.drop_last());
        if vs.last() is Object {
            rest.push(vs.last())
        } else {
            rest
        }
    }
}

/// Tickets are listed most recently updated first, then most recently
/// created, then by id.
pub open spec fn ticket_keys(v: Seq<TicketView>) -> Seq<KeyView> {
    v.map_values(|t: TicketView| (0u64, t.5, t.4, t.0, Seq::<char>::empty(), Seq::<char>::empty()))
}

fn copy_ticket(t: &SupportTicketView) -> (r: SupportTicketView)
    ensures
        ticket_view(r) == ticket_view(*t),
{
    let mut lines: Vec<String> = Vec::new();
    let mut i: usize = 0;
    while i < t.detail_lines.len()
        invariant
            i <= t.detail_lines@.len(),
            views(lines@) == views(t.detail_lines@).take(i as int),
        decreases t.detail_lines@.len() - i,
    {
        push_line(&mut lines, t.detail_lines[i].clone());
        i += 1;
        assert(views(lines@) =~= views(t.detail_lines@).take(i as int));
    }
    assert(views(t.detail_lines@).take(i as int) =~= views(t.detail_lines@));
    SupportTicketView {
        id: t.id.clone(),
        subject: t.subject.clone(),
        status: t.status.clone(),
        priority: t.priority.clone(),
        created_at: t.created_at.clone(),
        updated_at: t.updated_at.clone(),
        comment_count: t.comment_count,
        detail_lines: lines,
    }
}

/// The tickets of a `tickets.json` document, most recently updated first.
pub fn tickets_from_doc(doc: &JsonValue) -> (r: Vec<SupportTicketView>)
    ensures
        ({
            let objs = objects_of(ticket_values(*doc));
            exists|listed: Seq<TicketView>|
                {
                    &&& #[trigger] listed.len() == objs.len()
                    &&& forall|i: int| 0 <= i < objs.len() ==> ticket_spec(#[trigger] listed[i], objs[i])
                    &&& reordered(listed, ticket_keys(listed), ticket_views(r@))
                }
        }),
{
    let ghost vals = ticket_values(*doc);
    let mut tickets: Vec<SupportTicketView> = Vec::new();
    match doc {
        JsonValue::Array(items, _) => {
            let mut i: usize = 0;
            assert(items@.take(0) =~= Seq::<JsonValue>::empty());
            while i < items.len()
                invariant
                    i <= items@.len(),
                    vals == items@,
                    tickets@.len() == objects_of(items@.take(i as int)).len(),
                    forall|q: int|
                        0 <= q < tickets@.len() ==> ticket_spec(
                            ticket_view(#[trigger] tickets@[q]),
                            objects_of(items@.take(i as int))[q],
                        ),
                decreases items@.len() - i,
            {
                assert(items@.take(i + 1).drop_last() =~= items@.take(i as int));
                let ghost prev = objects_of(items@.take(i as int));
                match support_ticket_from_value(&items[i]) {
                    Some(t) => {
                        tickets.push(t);
                        assert(objects_of(items@.take(i + 1)) == prev.push(items@[i as int]));
                    },
                    None => {},
                }
                i += 1;
            }
            assert(items@.take(items@.len() as int) =~= items@);
        },
        JsonValue::Object(ms, _) => {
            let mut i: usize = 0;
            assert(vals.take(0) =~= Seq::<JsonValue>::empty());
            while i < ms.len()
                invariant
                    i <= ms@.len(),
                    vals == ms@.map_values(|m: (String, JsonValue)| m.1),
                    tickets@.len() == objects_of(vals.take(i as int)).len(),
                    forall|q: int|
                        0 <= q < tickets@.len() ==> ticket_spec(
                            ticket_view(#[trigger] tickets@[q]),
                            objects_of(vals.take(i as int))[q],
                        ),
                decreases ms@.len() - i,
            {
                assert(vals.take(i + 1).drop_last() =~= vals.take(i as int));
                assert(vals[i as int] == ms@[i as int].1);
                let ghost prev = objects_of(vals.take(i as int));
                match support_ticket_from_value(&ms[i].1) {
                    Some(t) => {
                        tickets.push(t);
                        assert(objects_of(vals.take(i + 1)) == prev.push(vals[i as int]));
                    },
                    None => {},
                }
                i += 1;
            }
            assert(vals.take(vals.len() as int) =~= vals);
        },
        _ => {},
    }
    let ghost listed = ticket_views(tickets@);
    let mut keys: Vec<SortKey> = Vec::new();
    let mut i: usize = 0;
    while i < tickets.len()
        invariant
            i <= tickets@.len(),
            listed == ticket_views(tickets@),
            sort_key_views(keys@) == ticket_keys(listed).take(i as int),
        decreases tickets@.len() - i,
    {
        let ghost before = keys@;
        let key = SortKey {
            weight: 0,
            desc: tickets[i].updated_at.clone(),
            desc2: tickets[i].created_at.clone(),
            asc: tickets[i].id.clone(),
            desc3: String::new(),
            asc2: String::new(),
        };
        keys.push(key);
        assert(sort_key_views(keys@) =~= sort_key_views(before).push(key_view(key)));
        i += 1;
        assert(ticket_keys(listed).take(i as int) =~= ticket_keys(listed).take(i - 1).push(
            (0u64, listed[i - 1].5, listed[i - 1].4, listed[i - 1].0, Seq::<char>::empty(), Seq::<char>::empty()),
        ));
    }
    assert(sort_key_views(keys@) =~= ticket_keys(listed));
    let idx = sort_order(&keys);
    let mut out: Vec<SupportTicketView> = Vec::new();
    let mut k: usize = 0;
    while k < idx.len()
        invariant
            k <= idx@.len(),
            listed == ticket_views(tickets@),
            stable_order(ticket_keys(listed), as_ints(idx@)),
            out@.len() == k,
            forall|q: int| 0 <= q < k ==> ticket_view(#[trigger] out@[q]) == listed[idx@[q] as int],
        decreases idx@.len() - k,
    {
        assert(as_ints(idx@)[k as int] == idx@[k as int] as int);
        out.push(copy_ticket(&tickets[idx[k]]));
        k += 1;
    }
    proof {
        let ids = as_ints(idx@);
        let ov = ticket_views(out@);
        assert forall|q: int| 0 <= q < ov.len() implies ov[q] == listed[ids[q]] by {
            assert(ids[q] == idx@[q] as int);
            assert(ov[q] == ticket_view(out@[q]));
        }
        assert(reordered(listed, ticket_keys(listed), ov));
        let objs = objects_of(ticket_values(*doc));
        assert(listed.len() == objs.len());
        assert forall|i: int| 0 <= i < objs.len() implies ticket_spec(#[trigger] listed[i], objs[i]) by {
            assert(listed[i] == ticket_view(tickets@[i]));
        }
    }
    out
}

} // verus!
