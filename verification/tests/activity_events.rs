use discord_analyzer::activity::{
    event_date, ingest_line, ingest_record, line_payload, signature_for, versioned_signature,
    EventAggregate, LineOutcome, SeenIds,
};
use discord_analyzer::counts::CountMap;
use discord_analyzer::events::{
    collect_recent, files_newest_first, last_parsed, previews_newest_first, tail_lines,
};
use discord_analyzer::json::{JsonNumber, JsonText, JsonValue};
use discord_analyzer::sessions::{
    busiest, device_insights, longest_streak, max_key, min_key, session_insights, voice_counts,
};

fn text(s: &str) -> JsonValue {
    JsonValue::Str(s.to_string())
}

fn num(n: u64) -> JsonValue {
    JsonValue::Number(JsonNumber {
        text: n.to_string(),
        as_u64: Some(n),
        as_i64: Some(n as i64),
    })
}

fn obj(members: Vec<(&str, JsonValue)>) -> JsonValue {
    let members: Vec<(String, JsonValue)> =
        members.into_iter().map(|(k, v)| (k.to_string(), v)).collect();
    JsonValue::Object(members, JsonText { compact: String::new(), pretty: String::new() })
}

#[test]
fn event_dates() {
    assert_eq!(event_date(&obj(vec![("_day_utc", text(" 2024-02-03 "))])), "2024-02-03");
    assert_eq!(event_date(&obj(vec![("timestamp", text("\"2023-07-08T01:02:03Z\""))])), "2023-07-08");
    assert_eq!(event_date(&obj(vec![("timestamp", text("short"))])), "");
    assert_eq!(event_date(&obj(vec![])), "");
}

#[test]
fn log_line_payloads() {
    assert_eq!(line_payload("  {\"a\":1}, ").as_deref(), Some("{\"a\":1}"));
    assert_eq!(line_payload("{\"a\":1}").as_deref(), Some("{\"a\":1}"));
    assert_eq!(line_payload("["), None);
    assert_eq!(line_payload(" ] "), None);
    assert_eq!(line_payload("   "), None);
}

#[test]
fn one_event_counted() {
    let mut agg = EventAggregate::new();
    let rec = obj(vec![
        ("event_type", text("voice_disconnect")),
        ("_day_utc", text("2024-05-06")),
        ("guild_id", text("g1")),
        ("reason", text("")),
        ("reconnect", num(1)),
        ("packets_sent", num(10)),
        ("packets_received_lost", num(2)),
        ("packets_sent_lost", num(3)),
        ("hostname", text("x.discord.media")),
        ("os", text("Linux")),
    ]);
    ingest_record(&rec, &mut agg);
    assert_eq!(agg.events_total, 1);
    assert_eq!(agg.days.get("2024-05-06"), 1);
    assert_eq!(agg.by_month.get("2024-05"), 1);
    assert_eq!(agg.by_event_type.get("voice_disconnect"), 1);
    assert_eq!(agg.guild_events.get("g1"), 1);
    assert_eq!(agg.voice_disconnects, 1);
    assert_eq!(agg.reconnects, 1);
    assert_eq!(agg.disconnect_reasons.get("(unspecified)"), 1);
    assert_eq!(agg.packets_sent, 10);
    assert_eq!(agg.packets_lost, 5);
    assert_eq!(agg.media_hosts.get("x.discord.media"), 1);
    assert_eq!(agg.by_os.get("Linux"), 1);
    assert_eq!(agg.voice_connections, 0);
}

/// An event id is counted at most once in a pass; unparsable lines count as
/// parse errors and change nothing else.
#[test]
fn duplicate_event_ids_count_once() {
    let mut agg = EventAggregate::new();
    let mut seen = SeenIds::new();
    let a = obj(vec![("event_id", text("e1")), ("event_type", text("session_start_success"))]);
    let b = obj(vec![("event_type", text("session_start_success"))]);
    assert_eq!(ingest_line(&mut agg, &mut seen, Some(&a)), LineOutcome::Counted);
    assert_eq!(ingest_line(&mut agg, &mut seen, Some(&a)), LineOutcome::Duplicate);
    assert_eq!(ingest_line(&mut agg, &mut seen, None), LineOutcome::ParseError);
    assert_eq!(ingest_line(&mut agg, &mut seen, Some(&b)), LineOutcome::Counted);
    assert_eq!(ingest_line(&mut agg, &mut seen, Some(&b)), LineOutcome::Counted);
    assert_eq!(agg.events_total, 3);
    assert_eq!(agg.session_starts, 3);
    assert_eq!(agg.duplicates_skipped, 1);
    assert_eq!(agg.parse_errors, 1);
    assert!(!seen.insert("e1"));
    assert!(seen.insert("e2"));
}

#[test]
fn merging_aggregates_adds_counts() {
    let mut a = EventAggregate::new();
    ingest_record(&obj(vec![("event_type", text("start_speaking")), ("_day_utc", text("2024-01-01"))]), &mut a);
    let mut b = EventAggregate::new();
    ingest_record(&obj(vec![("event_type", text("start_speaking")), ("_day_utc", text("2024-01-01"))]), &mut b);
    ingest_record(&obj(vec![("event_type", text("start_listening")), ("_day_utc", text("2024-01-02"))]), &mut b);
    a.merge(&b);
    assert_eq!(a.events_total, 3);
    assert_eq!(a.speaking_starts, 2);
    assert_eq!(a.listening_starts, 1);
    assert_eq!(a.days.get("2024-01-01"), 2);
    assert_eq!(a.days.get("2024-01-02"), 1);
    // merging an empty aggregate changes nothing
    let before = a.events_total;
    a.merge(&EventAggregate::new());
    assert_eq!(a.events_total, before);
    assert_eq!(a.days.get("2024-01-01"), 2);
}

#[test]
fn signatures_depend_on_files() {
    let files = vec![(10u64, 20u64), (30, 40)];
    assert_eq!(signature_for(&files), signature_for(&files.clone()));
    assert_ne!(signature_for(&files), signature_for(&vec![(10, 20)]));
    assert_eq!(signature_for(&vec![]), 0x9E37_79B9_7F4A_7C15);
    assert_ne!(versioned_signature(&files), signature_for(&files));
    assert_eq!(signature_for(&vec![(10, 20)]), 0x9e37_83b9_7f4a_8d3b);
    let swapped = vec![(30u64, 40u64), (10, 20)];
    assert_eq!(signature_for(&files), signature_for(&swapped));
    assert_eq!(versioned_signature(&files), versioned_signature(&swapped));
}

#[test]
fn day_keys_min_max_busiest_streak() {
    let mut days = CountMap::new();
    days.add("2024-01-03", 2);
    days.add("2024-01-01", 1);
    days.add("2024-01-02", 5);
    days.add("2024-01-05", 5);
    assert_eq!(min_key(&days).as_deref(), Some("2024-01-01"));
    assert_eq!(max_key(&days).as_deref(), Some("2024-01-05"));
    assert_eq!(busiest(&days).map(|(k, c)| (k, c)).unwrap().1, 5);
    assert_eq!(longest_streak(&days), 3);
    let empty = CountMap::new();
    assert_eq!(min_key(&empty), None);
    assert_eq!(busiest(&empty), None);
    assert_eq!(longest_streak(&empty), 0);
}

#[test]
fn insights_from_aggregate() {
    let mut agg = EventAggregate::new();
    for day in ["2024-03-01", "2024-03-02", "2024-03-02", "2024-03-10"] {
        ingest_record(
            &obj(vec![
                ("event_type", text("session_start_success")),
                ("_day_utc", text(day)),
                ("browser", text("Discord Client")),
            ]),
            &mut agg,
        );
    }
    ingest_record(&obj(vec![("event_type", text("voice_connection_success"))]), &mut agg);
    let s = session_insights(&agg);
    assert_eq!(s.active_days, 3);
    assert_eq!(s.first_active_day.as_deref(), Some("2024-03-01"));
    assert_eq!(s.last_active_day.as_deref(), Some("2024-03-10"));
    assert_eq!(s.longest_daily_streak, 2);
    assert_eq!(s.session_starts, 4);
    assert_eq!(s.busiest_day, Some(("2024-03-02".to_string(), 2)));
    assert_eq!(s.top_event_types[0], ("session_start_success".to_string(), 4));
    assert_eq!(s.events_by_month.get("2024-03"), 4);
    let d = device_insights(&agg);
    assert_eq!(d.by_client.get("Discord Client"), 4);
    let v = voice_counts(&agg);
    assert_eq!(v.connections, 1);
    assert_eq!(v.disconnects, 0);
}

/// Merging per-file aggregates gives the same counts in either order.
#[test]
fn merge_order_does_not_matter() {
    let rec = |ty: &str, day: &str| obj(vec![("event_type", text(ty)), ("_day_utc", text(day))]);
    let mut a = EventAggregate::new();
    ingest_record(&rec("start_speaking", "2024-01-01"), &mut a);
    ingest_record(&rec("voice_connection_success", "2024-01-03"), &mut a);
    let mut b = EventAggregate::new();
    ingest_record(&rec("start_speaking", "2024-01-02"), &mut b);
    let mut ab = EventAggregate::new();
    ab.merge(&a);
    ab.merge(&b);
    let mut ba = EventAggregate::new();
    ba.merge(&b);
    ba.merge(&a);
    assert_eq!(ab.events_total, ba.events_total);
    assert_eq!(ab.speaking_starts, 2);
    assert_eq!(ba.speaking_starts, 2);
    for day in ["2024-01-01", "2024-01-02", "2024-01-03"] {
        assert_eq!(ab.days.get(day), ba.days.get(day));
    }
    assert_eq!(ab.by_event_type.get("start_speaking"), ba.by_event_type.get("start_speaking"));
}

fn as_text(v: &JsonValue) -> String {
    match v {
        JsonValue::Str(s) => s.clone(),
        _ => String::from("?"),
    }
}

#[test]
fn recent_tail_of_activity_files() {
    assert_eq!(
        tail_lines("ial\":1}\n{\"a\":2}\r\n\n  {\"b\":3}  \n", true),
        vec!["{\"a\":2}".to_string(), "{\"b\":3}".to_string()]
    );
    assert_eq!(
        tail_lines("{\"x\":0}\n \n{\"a\":2}", false),
        vec!["{\"x\":0}".to_string(), "{\"a\":2}".to_string()]
    );
    assert_eq!(tail_lines("", true), Vec::<String>::new());
    assert_eq!(tail_lines("only part", true), Vec::<String>::new());

    let lines = vec![Some(text("a")), None, Some(text("b")), Some(text("c")), None];
    let last: Vec<String> = last_parsed(lines, 2).iter().map(as_text).collect();
    assert_eq!(last, vec!["b".to_string(), "c".to_string()]);
    let all: Vec<String> = last_parsed(vec![Some(text("a")), None], 5).iter().map(as_text).collect();
    assert_eq!(all, vec!["a".to_string()]);
    assert_eq!(last_parsed(vec![Some(text("a"))], 0).len(), 0);

    assert_eq!(files_newest_first(&vec![5, 9, 5, 1, 9]), vec![1, 4, 0, 2, 3]);
    assert_eq!(files_newest_first(&vec![]), Vec::<usize>::new());

    let newer = vec![
        obj(vec![("event_type", text("n1"))]),
        obj(vec![("event_type", text("n2"))]),
    ];
    let older = vec![obj(vec![("event_type", text("o1"))])];
    let per_file = vec![previews_newest_first(&newer, "b.json"), previews_newest_first(&older, "a.json")];
    let recent = collect_recent(per_file, 2);
    let types: Vec<String> = recent.iter().map(|p| p.event_type.clone()).collect();
    assert_eq!(types, vec!["n2".to_string(), "n1".to_string()]);
    let per_file = vec![previews_newest_first(&newer, "b.json"), previews_newest_first(&older, "a.json")];
    assert_eq!(collect_recent(per_file, 10).len(), 3);
}
