use discord_analyzer::compare::{
    changed_marker, diff_snapshots, fmt_opt_pair, same_stats_as, should_write, signed_delta,
    snapshot_file_name, snapshot_label, snapshot_stem, sort_snapshots, Snapshot,
};
use discord_analyzer::events::{
    activity_event_matches_filters, build_activity_summary, filtered_activity_events,
    join_strings, parse_activity_event_preview, previews_newest_first, tail_budget,
    ActivityFilters, ActivitySortMode,
};
use discord_analyzer::events::{ActivityExplorer, ActivityFilterField, ActivityKeyEffect};
use discord_analyzer::nav::Key;

fn filters(query: &str, event_type: &str, source: &str, from: &str, to: &str) -> ActivityFilters {
    ActivityFilters {
        query: query.to_string(),
        event_type: event_type.to_string(),
        source_file: source.to_string(),
        from_date: from.to_string(),
        to_date: to.to_string(),
    }
}

fn no_filters() -> ActivityFilters {
    filters("", "", "", "", "")
}
use discord_analyzer::json::{JsonNumber, JsonText, JsonValue};
use discord_analyzer::tickets::{build_ticket_detail_lines, support_ticket_from_value, tickets_from_doc};

fn text(s: &str) -> JsonValue {
    JsonValue::Str(s.to_string())
}

fn num(n: u64) -> JsonValue {
    JsonValue::Number(JsonNumber {
        text: n.to_string(),
        as_u64: Some(n),
        as_i64: Some(n as i64),
    })
}

fn obj_with(members: Vec<(&str, JsonValue)>, compact: &str, pretty: &str) -> JsonValue {
    let members: Vec<(String, JsonValue)> =
        members.into_iter().map(|(k, v)| (k.to_string(), v)).collect();
    JsonValue::Object(members, JsonText { compact: compact.to_string(), pretty: pretty.to_string() })
}

fn obj(members: Vec<(&str, JsonValue)>) -> JsonValue {
    obj_with(members, "{}", "{}")
}

fn arr(items: Vec<JsonValue>) -> JsonValue {
    JsonValue::Array(items, JsonText { compact: "[]".to_string(), pretty: "[]".to_string() })
}

fn snapshot(taken_at: &str, messages: u64) -> Snapshot {
    Snapshot {
        taken_at: taken_at.to_string(),
        messages_total: messages,
        channels: 4,
        servers: 2,
        dm_channels: 1,
        dm_messages: 10,
        group_channels: 0,
        group_messages: 0,
        top_channel: Some(("general".to_string(), 50)),
        top_contact: None,
        top_word: Some(("hello".to_string(), 9)),
        links_total: 3,
        question_messages: 1,
        voice_connections: 0,
        voice_minutes: 0,
        active_days: 5,
        longest_streak_days: 2,
        first_message: Some("2020-01-01".to_string()),
        last_message: Some("2024-01-01".to_string()),
    }
}

#[test]
fn snapshot_names() {
    assert_eq!(snapshot_file_name("2024-05-06 07:08:09"), "snapshot-2024-05-06-07-08-09.json");
    assert_eq!(snapshot_stem("snapshot-2024-05-06"), "2024-05-06");
    assert_eq!(snapshot_stem("other"), "other");
    assert_eq!(snapshot_label(1234, "2024-05-06 07:08:09"), "2024-05-06   1,234 msgs");
    assert_eq!(snapshot_label(5, "today"), "today       5 msgs");
}

/// A re-run over an unchanged export writes no new snapshot.
#[test]
fn rerun_with_same_stats_is_not_written() {
    let a = snapshot("2024-01-01 00:00:00", 100);
    let b = snapshot("2024-02-01 00:00:00", 100);
    let c = snapshot("2024-03-01 00:00:00", 101);
    assert!(same_stats_as(&a, &b));
    assert!(!same_stats_as(&a, &c));
    assert!(!should_write(Some(&a), &b));
    assert!(should_write(Some(&a), &c));
    assert!(should_write(None, &a));
}

#[test]
fn snapshots_newest_first() {
    let mut v = vec![
        ("2024-01-01-00-00-00".to_string(), snapshot("2024-01-01 00:00:00", 1)),
        ("2024-03-01-00-00-00".to_string(), snapshot("2024-03-01 00:00:00", 3)),
        ("2024-02-01-00-00-00".to_string(), snapshot("2024-02-01 00:00:00", 2)),
    ];
    sort_snapshots(&mut v);
    let totals: Vec<u64> = v.iter().map(|(_, s)| s.messages_total).collect();
    assert_eq!(totals, vec![3, 2, 1]);
}

#[test]
fn deltas_and_markers() {
    assert_eq!(signed_delta(3, 10), "+7");
    assert_eq!(signed_delta(10, 3), "-7");
    assert_eq!(signed_delta(4, 4), "=");
    assert_eq!(signed_delta(0, u64::MAX), "+18446744073709551615");
    assert_eq!(fmt_opt_pair("Top", &Some(("x".to_string(), 3))), "x (3)");
    assert_eq!(fmt_opt_pair("Top", &None), "Top n/a");
    assert_eq!(changed_marker(Some("a"), Some("a")), "same");
    assert_eq!(changed_marker(Some("a"), Some("b")), "changed");
    assert_eq!(changed_marker(None, Some("b")), "changed");
}

#[test]
fn diff_of_two_snapshots() {
    let old = snapshot("2024-01-01", 100);
    let new = snapshot("2024-02-01", 130);
    let rows = diff_snapshots(&old, &new);
    assert_eq!(rows.len(), 16);
    assert_eq!(rows[0].label, "Messages");
    assert_eq!(rows[0].old, "100");
    assert_eq!(rows[0].new, "130");
    assert_eq!(rows[0].delta, "+30");
    assert_eq!(rows[0].trend, Some(true));
    assert_eq!(rows[1].delta, "=");
    assert_eq!(rows[1].trend, None);
    assert_eq!(rows[12].label, "Top channel");
    assert_eq!(rows[12].new, "general (50)");
    assert_eq!(rows[12].delta, "same");
    assert_eq!(rows[13].old, " n/a");
    assert_eq!(rows[14].label, "Top word");
    assert_eq!(rows[14].old, "hello (9)");
    assert_eq!(rows[15].label, "Last message");
    assert_eq!(rows[15].new, "2024-01-01");
}

/// Comparing a snapshot with itself shows no change on any row.
#[test]
fn diff_with_itself_is_flat() {
    let s = snapshot("2024-01-01", 77);
    for row in diff_snapshots(&s, &s) {
        assert!(row.delta == "=" || row.delta == "same" || row.delta.is_empty() || row.delta == "changed");
        assert_eq!(row.trend, None);
        assert_eq!(row.old, row.new);
    }
}

#[test]
fn ticket_detail_lines() {
    let comment = obj_with(
        vec![("author", text("agent")), ("comment", text("hi\nthere")), ("created_at", text("2024-01-02"))],
        "{\"author\":\"agent\"}",
        "{\n  \"author\": \"agent\"\n}",
    );
    let ticket = obj(vec![
        ("id", text("T-7")),
        ("subject", text(" Help ")),
        ("status", text("open")),
        ("created_at", text("2024-01-01")),
        ("comments", arr(vec![comment])),
    ]);
    let lines = build_ticket_detail_lines(&ticket);
    let expected = vec![
        "Status: open",
        "Priority: unknown",
        "Created: 2024-01-01",
        "Updated: unknown",
        "",
        "Fields:",
        "  subject: Help",
        "",
        "Comments (1)",
        "  1. [2024-01-02] agent",
        "     hi",
        "     there",
        "     raw_comment:",
        "       {",
        "         \"author\": \"agent\"",
        "       }",
    ];
    assert_eq!(lines, expected);
    let view = support_ticket_from_value(&ticket).expect("objects are tickets");
    assert_eq!(view.id, "T-7");
    assert_eq!(view.subject, "Help");
    assert_eq!(view.updated_at, "2024-01-01");
    assert_eq!(view.comment_count, 1);
    assert!(support_ticket_from_value(&text("x")).is_none());
}

#[test]
fn tickets_sorted_by_update() {
    let t1 = obj(vec![("id", text("1")), ("updated_at", text("2024-01-01"))]);
    let t2 = obj(vec![("id", text("2")), ("updated_at", text("2024-03-01"))]);
    let t3 = obj(vec![("id", text("3")), ("updated_at", text("2024-02-01"))]);
    let doc = arr(vec![t1, t2, t3, text("not a ticket")]);
    let ids: Vec<String> = tickets_from_doc(&doc).into_iter().map(|t| t.id).collect();
    assert_eq!(ids, vec!["2".to_string(), "3".to_string(), "1".to_string()]);
}

#[test]
fn event_summaries() {
    assert_eq!(join_strings(&vec!["a".to_string(), "b".to_string()], ", "), "a, b");
    assert_eq!(join_strings(&vec![], ", "), "");
    let with_headline = obj(vec![("description", text("  Logged   in ")), ("actor", text("me"))]);
    assert_eq!(build_activity_summary(&with_headline), "Logged in");
    let parts = obj(vec![("actor", text("me")), ("action", text("kick")), ("target", text("bob"))]);
    assert_eq!(build_activity_summary(&parts), "by me \u{2022} kick \u{2022} on bob");
    let pairs = obj(vec![("a", num(1)), ("b", text("x")), ("c", arr(vec![]))]);
    assert_eq!(build_activity_summary(&pairs), "a=1 \u{2022} b=x");
}

#[test]
fn event_previews_and_filters() {
    let v = obj_with(
        vec![("timestamp", text("2024-05-06T07:08:09Z")), ("event_type", text("login")), ("summary", text("Signed in"))],
        "{}",
        "{ pretty }",
    );
    let p = parse_activity_event_preview(&v, "events.json");
    assert_eq!(p.timestamp, "2024-05-06T07:08:09Z");
    assert_eq!(p.event_type, "login");
    assert_eq!(p.summary, "Signed in");
    assert_eq!(p.source_file, "events.json");
    assert_eq!(p.date_key.as_deref(), Some("2024-05-06"));
    assert_eq!(p.sort_key, "20240506070809");
    assert_eq!(p.detail, "{ pretty }");
    assert!(activity_event_matches_filters(&p, &filters(" SIGNED ", "", "", "", "")));
    assert!(activity_event_matches_filters(&p, &filters("events.JSON", "", "", "", "")));
    assert!(activity_event_matches_filters(&p, &filters("2024-05", "", "", "", "")));
    assert!(activity_event_matches_filters(&p, &no_filters()));
    assert!(!activity_event_matches_filters(&p, &filters("logout", "", "", "", "")));
    assert!(activity_event_matches_filters(&p, &filters("", "LOG", "", "", "")));
    assert!(!activity_event_matches_filters(&p, &filters("", "", "other", "", "")));
    assert!(activity_event_matches_filters(&p, &filters("", "", "", "2024-05-06", "2024-05-06")));
    assert!(!activity_event_matches_filters(&p, &filters("", "", "", "2024-05-07", "")));
    assert!(!activity_event_matches_filters(&p, &filters("", "", "", "", "2024-05-05")));
    // a bound that is not a date filters nothing
    assert!(activity_event_matches_filters(&p, &filters("", "", "", "soon", "")));
    let q = parse_activity_event_preview(&obj(vec![]), "f");
    assert_eq!(q.timestamp, "?");
    assert_eq!(q.event_type, "unknown");
    assert_eq!(q.date_key, None);
    // events without a date are left out once a date bound is set
    assert!(!activity_event_matches_filters(&q, &filters("", "", "", "2000-01-01", "")));
}

#[test]
fn event_lists() {
    let mk = |ts: &str, ty: &str| obj(vec![("timestamp", text(ts)), ("event_type", text(ty))]);
    let records = vec![mk("2024-01-01", "b"), mk("2024-03-01", "a"), mk("2024-02-01", "c"), mk("2024-02-01", "a")];
    let newest = previews_newest_first(&records, "f");
    let order: Vec<&str> = newest.iter().map(|e| e.timestamp.as_str()).collect();
    // the last record read is the newest
    assert_eq!(order, vec!["2024-02-01", "2024-02-01", "2024-03-01", "2024-01-01"]);
    let pairs = |v: &Vec<discord_analyzer::events::ActivityEventPreview>| -> Vec<(String, String)> {
        v.iter().map(|e| (e.timestamp.clone(), e.event_type.clone())).collect()
    };
    let p = |t: &str, ty: &str| (t.to_string(), ty.to_string());
    // newest first, equal times by type
    assert_eq!(
        pairs(&filtered_activity_events(&newest, &no_filters(), ActivitySortMode::Newest)),
        vec![p("2024-03-01", "a"), p("2024-02-01", "a"), p("2024-02-01", "c"), p("2024-01-01", "b")]
    );
    assert_eq!(
        pairs(&filtered_activity_events(&newest, &no_filters(), ActivitySortMode::Oldest)),
        vec![p("2024-01-01", "b"), p("2024-02-01", "a"), p("2024-02-01", "c"), p("2024-03-01", "a")]
    );
    // by type, newest first within a type
    assert_eq!(
        pairs(&filtered_activity_events(&newest, &no_filters(), ActivitySortMode::EventType)),
        vec![p("2024-03-01", "a"), p("2024-02-01", "a"), p("2024-01-01", "b"), p("2024-02-01", "c")]
    );
    let only_c = filtered_activity_events(&newest, &filters("", "C", "", "", ""), ActivitySortMode::Newest);
    assert_eq!(only_c.len(), 1);
    assert_eq!(ActivitySortMode::Newest.label(), "newest");
    assert_eq!(ActivitySortMode::Newest.next(), ActivitySortMode::Oldest);
    assert_eq!(ActivitySortMode::EventType.next(), ActivitySortMode::Newest);
    assert_eq!(tail_budget(10, 25), 15);
    assert_eq!(tail_budget(30, 25), 0);
}

#[test]
fn activity_explorer_keys() {
    let mut x = ActivityExplorer {
        filters: no_filters(),
        editing: None,
        cursor: 3,
        sort: ActivitySortMode::Newest,
    };
    assert_eq!(x.on_key(Key::Char('t'), false, 10), ActivityKeyEffect::Nothing);
    assert_eq!(x.editing, Some(ActivityFilterField::EventType));
    x.on_key(Key::Char('v'), false, 10);
    x.on_key(Key::Char('o'), false, 10);
    assert_eq!(x.filters.event_type, "vo");
    assert_eq!(x.cursor, 0);
    x.on_key(Key::Backspace, false, 10);
    assert_eq!(x.filters.event_type, "v");
    x.on_key(Key::Char('u'), true, 10);
    assert_eq!(x.filters.event_type, "");
    x.on_key(Key::Enter, false, 10);
    assert_eq!(x.editing, None);
    x.on_key(Key::Down, false, 10);
    x.on_key(Key::PageDown, false, 10);
    assert_eq!(x.cursor, 9);
    x.on_key(Key::PageUp, false, 10);
    assert_eq!(x.cursor, 0);
    x.on_key(Key::Char('O'), false, 10);
    assert_eq!(x.sort, ActivitySortMode::Oldest);
    x.filters.query = "abc".to_string();
    x.on_key(Key::Char('c'), false, 10);
    assert_eq!(x.filters.query, "");
    assert_eq!(x.on_key(Key::Enter, false, 10), ActivityKeyEffect::OpenEvent);
    assert_eq!(x.on_key(Key::Char('r'), false, 10), ActivityKeyEffect::Refresh);
    assert_eq!(x.on_key(Key::Esc, false, 10), ActivityKeyEffect::Home);
    x.on_key(Key::Char('['), false, 10);
    assert_eq!(x.editing, Some(ActivityFilterField::FromDate));
}
