use discord_analyzer::activity_map::{build_year_grid, map_page, map_view, map_years, Levels};
use discord_analyzer::analysis::{
    account_from_user, entries_by_key, folder_available, generate_markdown_report,
    increment_counter, index_entries, presence_map, resolve_subdir, summarize_ticket,
    Activities, AnalysisStep, Servers, SupportTickets,
};
use discord_analyzer::analysis::{
    count_activity_line, event_line_type, Activity, ActivityFileCache, ActivityFileStats,
};
use discord_analyzer::activity::{EventAggregate, LineOutcome, SeenIds};
use discord_analyzer::channels::{
    channel_from_cache, channel_from_json, detect_channel_kind, detect_channel_kind_str,
    load_message_preview, preview_line, sort_channels, ChannelKind,
};
use discord_analyzer::config::{
    default_support_tickets_aliases, resolve_template_path, AppConfig, SourceAliases,
};
use discord_analyzer::counts::{CountMap, U32Counts};
use discord_analyzer::json::{JsonNumber, JsonText, JsonValue};
use discord_analyzer::messages::MessageTotals;
use discord_analyzer::ui::{
    channels_to_search, detect_discord_folders, export_marker_names, is_action_row, key_help,
    search_has_room, search_hit, search_needle, search_should_run, sidebar_row_hint, tab_group_screen, validate_path,
    ChannelFilter, ChannelSortMode, PathValidation, Screen, SearchHasFilter, SetupState,
    SetupStep, SupportActivityTab,
};

fn text(s: &str) -> JsonValue {
    JsonValue::Str(s.to_string())
}

fn num(n: u64) -> JsonValue {
    JsonValue::Number(JsonNumber {
        text: n.to_string(),
        as_u64: Some(n),
        as_i64: Some(n as i64),
    })
}

fn obj(members: Vec<(&str, JsonValue)>) -> JsonValue {
    let members: Vec<(String, JsonValue)> =
        members.into_iter().map(|(k, v)| (k.to_string(), v)).collect();
    JsonValue::Object(members, JsonText { compact: "{}".to_string(), pretty: "{}".to_string() })
}

fn arr(items: Vec<JsonValue>) -> JsonValue {
    JsonValue::Array(items, JsonText { compact: "[]".to_string(), pretty: "[]".to_string() })
}

#[test]
fn channel_kinds_ignore_case() {
    assert_eq!(detect_channel_kind_str("dm"), ChannelKind::Dm);
    assert_eq!(detect_channel_kind_str("Group_DM"), ChannelKind::GroupDm);
    assert_eq!(detect_channel_kind_str("GUILD_PUBLIC_THREAD"), ChannelKind::PublicThread);
    assert_eq!(detect_channel_kind_str("guild_voice"), ChannelKind::Voice);
    assert_eq!(detect_channel_kind_str("GUILD_TEXT"), ChannelKind::Guild);
    assert_eq!(detect_channel_kind_str("1"), ChannelKind::Other);
    assert_eq!(detect_channel_kind(None), ChannelKind::Other);
    assert_eq!(detect_channel_kind(Some(&obj(vec![("channel_type", text("DM"))]))), ChannelKind::Dm);
    assert_eq!(ChannelKind::GroupDm.label(), "GROUP_DM");
}

#[test]
fn channels_from_files_and_cache() {
    let meta = obj(vec![("id", text("123")), ("type", text("DM")), ("recipients", arr(vec![text("alice")]))]);
    let c = channel_from_json("c123", "m/c123/messages.json", Some(&meta), 4);
    assert_eq!(c.id, "123");
    assert_eq!(c.title, "alice");
    assert_eq!(c.kind, ChannelKind::Dm);
    assert_eq!(c.message_count, 4);
    assert_eq!(c.dir_name, "c123");
    let missing = channel_from_json("c9", "p", None, 0);
    assert_eq!(missing.id, "c9");
    assert_eq!(missing.title, "c9");
    let cached = channel_from_cache("c5", "p5", 9, "Title", "GUILD_TEXT");
    assert_eq!(cached.kind, ChannelKind::Guild);
    assert_eq!(cached.message_count, 9);
}

#[test]
fn channels_sorted_busiest_first_then_title() {
    let mut v = vec![
        channel_from_cache("a", "p", 5, "beta", "DM"),
        channel_from_cache("b", "p", 9, "zed", "DM"),
        channel_from_cache("c", "p", 5, "alpha", "DM"),
    ];
    sort_channels(&mut v);
    let titles: Vec<&str> = v.iter().map(|c| c.title.as_str()).collect();
    assert_eq!(titles, vec!["zed", "alpha", "beta"]);
}

#[test]
fn message_previews() {
    let rec = obj(vec![("Timestamp", text("2024-01-01 10:00")), ("Contents", text("hey")), ("Attachments", text("u1"))]);
    assert_eq!(preview_line(&rec), "- [2024-01-01 10:00] hey | attachments: u1");
    assert_eq!(preview_line(&obj(vec![])), "- [unknown] <empty>");
    let records = vec![obj(vec![("Contents", text("a"))]), obj(vec![])];
    let lines = load_message_preview(&records, 40);
    assert_eq!(lines, vec!["- [unknown] a".to_string(), "- [unknown] <empty>".to_string()]);
    assert_eq!(load_message_preview(&records, 1), vec!["- [unknown] <empty>".to_string()]);
    assert!(load_message_preview(&records, 0).is_empty());
}

#[test]
fn channel_kind_labels_round_trip() {
    for k in [
        ChannelKind::Dm,
        ChannelKind::GroupDm,
        ChannelKind::PublicThread,
        ChannelKind::Voice,
        ChannelKind::Guild,
        ChannelKind::Other,
    ] {
        assert_eq!(detect_channel_kind_str(k.label()), k);
        assert_eq!(detect_channel_kind_str(&k.label().to_ascii_lowercase()), k);
    }
}

#[test]
fn screens_and_tabs() {
    assert_eq!(key_help(Screen::Overview), "R: Refresh, B: Back");
    assert_eq!(tab_group_screen(Screen::MessageView), Screen::ChannelList);
    assert_eq!(tab_group_screen(tab_group_screen(Screen::SupportTicketDetail)), Screen::SupportActivity);
    assert_eq!(tab_group_screen(Screen::Home), Screen::Home);
    let t = SupportActivityTab::Support;
    assert_eq!(t.next().prev(), t);
    assert_eq!(t.next().next().next(), t);
    assert_eq!(t.label(), "Support Tickets");
    let m = ChannelSortMode::Count;
    assert_eq!(m.next().next().next(), m);
    assert_ne!(m.next(), m);
    let _ = is_action_row(0);
    let _ = sidebar_row_hint(0);
}

#[test]
fn search_rules() {
    assert!(search_should_run(" hi ", ChannelFilter::All));
    assert!(!search_should_run("   ", ChannelFilter::All));
    assert!(!search_should_run("hi", ChannelFilter::Voice));
    assert_eq!(search_needle("  HeLLo Ünïcode \n"), "hello ünïcode");
    assert!(search_has_room(0, 0));
    assert!(search_has_room(375, 24));
    assert!(!search_has_room(375, 25));
    assert!(!search_has_room(400, 0));
    assert!(ChannelFilter::Dm.admits(ChannelKind::Dm));
    assert!(!ChannelFilter::Dm.admits(ChannelKind::GroupDm));
    assert!(ChannelFilter::All.admits(ChannelKind::Voice));
    let cs = vec![
        channel_from_cache("a", "p", 1, "A", "DM"),
        channel_from_cache("b", "p", 1, "B", "GROUP_DM"),
        channel_from_cache("c", "p", 1, "C", "DM"),
    ];
    assert_eq!(channels_to_search(&cs, ChannelFilter::Dm), vec![0, 2]);
    assert_eq!(channels_to_search(&cs, ChannelFilter::All), vec![0, 1, 2]);
    let rec = obj(vec![("Contents", text("See HTTPS://x.y now")), ("Timestamp", text("t1"))]);
    let hit = search_hit(&rec, "https", SearchHasFilter::Any, &cs[0]).expect("hit");
    assert_eq!(hit.channel_key, "a");
    assert_eq!(hit.title, "A");
    assert_eq!(hit.timestamp, "t1");
    assert_eq!(hit.content, "See HTTPS://x.y now");
    // the link filter looks for a lower-case "http"
    assert!(search_hit(&rec, "https", SearchHasFilter::Links, &cs[0]).is_none());
    assert!(search_hit(&rec, "https", SearchHasFilter::Attachments, &cs[0]).is_none());
    assert!(search_hit(&rec, "absent", SearchHasFilter::Any, &cs[0]).is_none());
    assert_eq!(SearchHasFilter::Links.label(), "Links");
}

#[test]
fn setup_validation() {
    assert!(matches!(validate_path("  ", true, true, vec![]), PathValidation::Empty));
    assert!(matches!(validate_path("/x", false, false, vec![]), PathValidation::NotFound));
    assert!(matches!(validate_path("/x", true, false, vec![]), PathValidation::NotADir));
    assert!(matches!(validate_path("/x", true, true, vec![]), PathValidation::ValidDir));
    match validate_path("/x", true, true, vec!["messages".to_string()]) {
        PathValidation::ValidExport { folders } => assert_eq!(folders, vec!["messages".to_string()]),
        _ => panic!("expected an export"),
    }
    let names = export_marker_names();
    assert_eq!(names.len(), 6);
    let found = detect_discord_folders(&[true, false, false, false, false, true]);
    assert_eq!(found, vec![names[0].to_string(), names[5].to_string()]);
    let s = SetupState::new("/exports", vec![], PathValidation::Empty);
    assert_eq!(s.step, SetupStep::ExportPath);
    assert_eq!(s.input, "/exports");
    assert_eq!(s.browse_cursor, 0);
}

#[test]
fn template_paths() {
    assert_eq!(resolve_template_path("./results{ID}", "7"), "./results7");
    assert_eq!(resolve_template_path("{ID}/{ID}", "a"), "a/a");
    assert_eq!(resolve_template_path("./plain", "7"), "./plain");
    let c = AppConfig::default();
    assert_eq!(c.package_path("x"), "./packagex");
    assert_eq!(c.results_path("x"), "./resultsx");
    let a = SourceAliases::default();
    assert_eq!(a.messages, vec!["messages".to_string()]);
    assert_eq!(default_support_tickets_aliases().len(), 3);
}

#[test]
fn folders_resolve_by_alias() {
    let dirs = vec!["Account".to_string(), "Support Tickets".to_string(), "messages".to_string()];
    let aliases = default_support_tickets_aliases();
    assert_eq!(resolve_subdir(&dirs, &aliases), Some(1));
    assert_eq!(resolve_subdir(&dirs, &vec!["servers".to_string()]), None);
    let p = presence_map([true, false, true, true, true, true, true]);
    assert_eq!(p[1], ("activity".to_string(), false));
    assert!(!folder_available(&p, "activity"));
    assert!(folder_available(&p, "messages"));
    assert!(folder_available(&p, "not listed"));
}

#[test]
fn analysis_steps() {
    let mut s = AnalysisStep::Preparing;
    let mut n = 0;
    while s != AnalysisStep::Complete {
        assert_eq!(s.position(), n);
        s = s.next();
        n += 1;
    }
    assert_eq!(n, 9);
    assert_eq!(AnalysisStep::Writing.label(), "Writing results");
    assert_eq!(AnalysisStep::Complete.message(), "Analysis complete. You did it!");
}

#[test]
fn account_servers_activities() {
    let user = obj(vec![("id", num(42)), ("username", text("u")), ("global_name", text("Global"))]);
    let a = account_from_user(&user);
    assert_eq!(a.user_id.as_deref(), Some("42"));
    assert_eq!(a.username.as_deref(), Some("Global"));
    assert_eq!(index_entries(&obj(vec![("1", text("a")), ("2", text("b"))])), 2);
    assert_eq!(index_entries(&text("x")), 0);
    let mut s = Servers::new();
    s.add_server(Some(3));
    s.add_server(None);
    assert_eq!(s.count, 2);
    assert_eq!(s.audit_log_entries, 3);
    let mut acts = Activities::new();
    acts.add_file("Preferences.json", Some(&arr(vec![num(1), num(2)])));
    acts.add_file("user_data.json", Some(&obj(vec![("a", num(1)), ("b", num(2)), ("c", num(3))])));
    acts.add_file("favorite_games.json", Some(&obj(vec![("favorite_games", num(4))])));
    acts.add_file("other.bin", None);
    assert_eq!(acts.files, 4);
    assert_eq!(acts.preferences_entries, 2);
    assert_eq!(acts.user_data_apps, 3);
    assert_eq!(acts.favorite_games, Some(4));
}

#[test]
fn ticket_totals() {
    let mut t = SupportTickets::new();
    let ticket = obj(vec![
        ("status", text("open")),
        ("created_at", text("2024-02-10")),
        ("comments", arr(vec![obj(vec![("created_at", text("2024-03-01"))])])),
    ]);
    summarize_ticket(&ticket, &mut t);
    summarize_ticket(&text("not a ticket"), &mut t);
    assert_eq!(t.count, 1);
    assert_eq!(t.comments, 1);
    assert_eq!(t.tickets_with_comments, 1);
    assert_eq!(t.by_status.get("open"), 1);
    assert_eq!(t.by_month.get("2024-02"), 1);
    let mut m = CountMap::new();
    increment_counter(&mut m, "k", 2);
    increment_counter(&mut m, "k", 3);
    assert_eq!(m.get("k"), 5);
}

#[test]
fn hour_entries_in_key_order() {
    let mut h = U32Counts::new();
    h.add(13, 2);
    h.add(2, 1);
    h.add(7, 4);
    assert_eq!(entries_by_key(&h), vec![(2, 1), (7, 4), (13, 2)]);
}

#[test]
fn markdown_report() {
    let mut totals = MessageTotals::new();
    totals.messages.total = 1234;
    totals.messages.channels = 3;
    totals.messages.top_channels = vec![("general".to_string(), 1000)];
    totals.messages.temporal.by_hour.add(9, 5);
    let report = generate_markdown_report("2024-05-06 07:08:09", Some("me"), &totals.messages, "12.5");
    assert!(report.starts_with("# Discord Data Analysis Report\n\n**Analyzed at:** 2024-05-06 07:08:09\n**Account:** me\n"));
    assert!(report.contains("- **Total Messages**: 1234\n"));
    assert!(report.contains("- **Average Msg Length**: 12.5 chars\n"));
    assert!(report.contains("## Top Channels\n1. **general**: 1000 messages\n"));
    assert!(report.ends_with("## Activity by Hour (UTC)\n- **09:00**: 5 messages\n"));
    let anon = generate_markdown_report("t", None, &totals.messages, "0.0");
    assert!(!anon.contains("**Account:**"));
}

#[test]
fn activity_levels() {
    let mut values = vec![0, 5, 1, 9, 3, 0, 7];
    let l = Levels::new(&mut values);
    assert_eq!(values, vec![1, 3, 5, 7, 9]);
    // quantile indices round(0.4*4)=2, round(0.7*4)=3, round(0.9*4)=4
    assert_eq!(l.thresholds, [5, 7, 9]);
    assert_eq!(l.level(0), 0);
    assert_eq!(l.level(1), 1);
    assert_eq!(l.level(5), 1);
    assert_eq!(l.level(6), 2);
    assert_eq!(l.level(8), 3);
    assert_eq!(l.level(100), 4);
    let mut none: Vec<u64> = vec![0, 0];
    let empty = Levels::new(&mut none);
    assert_eq!(empty.thresholds, [0, 0, 0]);
    assert_eq!(empty.level(3), 4);
}

#[test]
fn year_grid_totals() {
    let mut days = CountMap::new();
    days.add("2021-03-07", 42);
    days.add("2021-12-31", 120);
    days.add("2022-06-14", 34);
    let g = build_year_grid(&days, 2021);
    assert_eq!(g.year, 2021);
    assert_eq!(g.total, 162);
    assert_eq!(g.active_days, 2);
    // 2021-01-01 was a Friday: four empty cells lead the first week
    assert_eq!(g.weeks[0][0], 0);
    assert_eq!(g.weeks.len(), 53);
    // 2021-03-07 was a Sunday, day 65 of the year
    assert_eq!(g.weeks[(4 + 65) / 7][6], 42);
    let g22 = build_year_grid(&days, 2022);
    assert_eq!(g22.total, 34);
}

#[test]
fn map_years_paginate_by_six() {
    let mut days = CountMap::new();
    for y in 2018..=2026 {
        days.add(&format!("{y}-06-15"), 120);
    }
    days.add("2019-01-01", 34);
    let years = map_years(&days);
    assert_eq!(years, (2018..=2026).collect::<Vec<i64>>());
    assert_eq!(map_page(years.len(), 0), (0, 0, 6));
    assert_eq!(map_page(years.len(), 1), (1, 6, 9));
    assert_eq!(map_page(years.len(), 7), (1, 6, 9));
    assert_eq!(map_page(5, 0), (0, 0, 5));
}

#[test]
fn activity_map_screen() {
    let mut days = CountMap::new();
    for y in 2018..=2026 {
        days.add(&format!("{y}-06-15"), 120);
    }
    days.add("2021-03-07", 42);
    let v = map_view(&days, 0, 10, 3).expect("years present");
    assert_eq!(v.years.len(), 9);
    assert_eq!(v.page, 0);
    assert_eq!(v.pages, 2);
    assert_eq!(v.grids.len(), 6);
    assert_eq!(v.grids[0].year, 2018);
    assert_eq!(v.grids[3].total, 162);
    assert_eq!(v.header, " 2018\u{2013}2023 of 9 years");
    assert_eq!(v.totals, "All-time 1,122 msgs \u{b7} 10 active days \u{b7} streak 3 days");
    assert_eq!(v.showing, " Showing 2018\u{2013}2023 of 9 years  [\u{2190} \u{2192} Page 1/2]");
    assert_eq!(v.levels.thresholds, [120, 120, 120]);
    let last = map_view(&days, 5, 10, 3).expect("years present");
    assert_eq!(last.page, 1);
    assert_eq!(last.grids.len(), 3);
    assert_eq!(last.showing, " Showing 2024\u{2013}2026 of 9 years  [\u{2190} \u{2192} Page 2/2]");
    let mut few = CountMap::new();
    few.add("2025-01-01", 1);
    let one = map_view(&few, 0, 1, 1).expect("one year");
    assert_eq!(one.showing, " Showing 2025\u{2013}2025 of 1 years");
    assert!(map_view(&CountMap::new(), 0, 0, 0).is_none());
    let mut bad = CountMap::new();
    bad.add("x", 1);
    assert!(map_view(&bad, 0, 0, 0).is_none());
}

#[test]
fn multi_year_wall_renders_all_panels() {
    let mut by_day = CountMap::new();
    for day in ["2021-03-07", "2022-06-14", "2023-11-02", "2024-01-05", "2025-09-19"] {
        by_day.add(day, 42);
    }
    let v = map_view(&by_day, 0, 5, 1).expect("years present");
    assert!(v.title.contains("Activity Map"), "screen title missing");
    // All five years are panels on a single page.
    let years: Vec<i32> = v.grids.iter().map(|g| g.year).collect();
    assert_eq!(years, vec![2021, 2022, 2023, 2024, 2025]);
    for year in ["2021", "2025"] {
        assert!(v.header.contains(year), "year {year} missing");
    }
    assert!(v.totals.contains("All-time"), "totals line missing");
    assert!(
        v.grids.iter().all(|g| g.weeks.iter().flatten().any(|c| v.levels.level(*c) > 0)),
        "no grid cells shaded"
    );
}

#[test]
fn more_than_six_years_paginates() {
    let mut by_day = CountMap::new();
    for y in 2018..=2026 {
        by_day.add(&format!("{y}-06-15"), 7);
    }
    let v = map_view(&by_day, 0, 0, 0).expect("years present");
    assert!(v.showing.contains("Page 1/2"), "page hint missing: {}", v.showing);
    assert_eq!(v.grids[0].year, 2018, "first page should start at 2018");
}

#[test]
fn activity_lines_are_all_counted() {
    let mut f = ActivityFileStats::new();
    assert!(f.count_line("  {\"event_id\":\"1\",\"event_type\":\"click\"}  "));
    assert!(f.count_line("{\"event_id\":\"1\",\"event_type\":\"click\"}"));
    assert!(!f.count_line("  \t "));
    assert!(f.count_line("not json"));
    assert!(f.count_line("{\"event_id\":\"2\"}"));
    assert!(f.count_line("{\"event_type\":3}"));
    assert_eq!(f.event_lines, 5);
    assert_eq!(f.parse_errors, 2);
    assert_eq!(f.event_types.get("click"), 2);
    assert_eq!(f.event_types.get("unknown"), 1);
    let mut g = ActivityFileStats::new();
    assert!(g.count_line("{\"event_type\":\"a\",\"x\":{\"event_type\":1},\"event_type\":\"b\"}"));
    assert!(g.count_line("{\"s\":\"event_type\",\"event_type\":\"a\"}"));
    assert!(g.count_line("[\"a\"]"));
    assert_eq!(g.parse_errors, 1);
    assert_eq!(g.event_types.get("a"), 2);

    assert_eq!(event_line_type(&arr(vec![])), Some("unknown".to_string()));
    assert_eq!(event_line_type(&arr(vec![text("x")])), Some("x".to_string()));
    assert_eq!(event_line_type(&arr(vec![text("x"), text("y")])), None);
    assert_eq!(event_line_type(&text("x")), None);
    assert_eq!(
        event_line_type(&obj(vec![("event_type", text("a")), ("event_type", text("b"))])),
        None
    );
    assert_eq!(event_line_type(&obj(vec![("event_type", JsonValue::Null)])), Some("unknown".to_string()));

    let mut act = Activity::new();
    act.add_file(&f);
    act.add_file(&f);
    assert_eq!(act.files, 2);
    assert_eq!(act.total_events, 10);
    assert_eq!(act.parse_errors, 4);
    assert_eq!(act.by_event_type.get("click"), 4);
    let cached = ActivityFileCache { mtime_ms: 7, stats: ActivityFileStats::new() };
    assert!(cached.reusable(7));
    assert!(!cached.reusable(8));
}

#[test]
fn activity_line_feeds_counts_and_aggregate() {
    use_line_step();
}

fn use_line_step() {
    let mut stats = ActivityFileStats::new();
    let mut agg = EventAggregate::new();
    let mut seen = SeenIds::new();
    let line = "{\"event_id\":\"e1\",\"event_type\":\"click\"},";
    assert_eq!(count_activity_line(&mut stats, &mut agg, &mut seen, line), LineOutcome::Counted);
    assert_eq!(count_activity_line(&mut stats, &mut agg, &mut seen, line), LineOutcome::Duplicate);
    assert_eq!(count_activity_line(&mut stats, &mut agg, &mut seen, "["), LineOutcome::Skipped);
    assert_eq!(count_activity_line(&mut stats, &mut agg, &mut seen, "  "), LineOutcome::Skipped);
    assert_eq!(count_activity_line(&mut stats, &mut agg, &mut seen, "oops"), LineOutcome::ParseError);
    assert_eq!(stats.event_lines, 4);
    assert_eq!(agg.events_total, 1);
    assert_eq!(agg.duplicates_skipped, 1);
    let act = Activity::from_aggregate(3, &agg);
    assert_eq!(act.files, 3);
    assert_eq!(act.total_events, 1);
    assert_eq!(act.parse_errors, 1);
    assert_eq!(act.by_event_type.get("click"), 1);
}
