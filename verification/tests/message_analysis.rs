use discord_analyzer::counts::CountMap;
use discord_analyzer::json::{
    channel_title, extract_attachment_urls, extract_message_content, get, num_u64, JsonNumber,
    JsonText, JsonValue,
};
use discord_analyzer::messages::{
    absorb_channel, analyze_record, compute_records, finish_totals, set_channel_meta,
    ChannelAnalysisCache, MessageTotals,
};
use discord_analyzer::patterns::{count_unicode_emoji, hex_lower, ContentHasher, MessagePatterns};

fn text(s: &str) -> JsonValue {
    JsonValue::Str(s.to_string())
}

fn num(n: u64) -> JsonValue {
    JsonValue::Number(JsonNumber {
        text: n.to_string(),
        as_u64: Some(n),
        as_i64: Some(n as i64),
    })
}

fn obj(members: Vec<(&str, JsonValue)>) -> JsonValue {
    let members: Vec<(String, JsonValue)> =
        members.into_iter().map(|(k, v)| (k.to_string(), v)).collect();
    JsonValue::Object(members, JsonText { compact: String::new(), pretty: String::new() })
}

fn arr(items: Vec<JsonValue>) -> JsonValue {
    JsonValue::Array(items, JsonText { compact: String::new(), pretty: String::new() })
}

fn patterns() -> MessagePatterns {
    MessagePatterns::new().expect("patterns compile")
}

#[test]
fn content_and_attachment_fields() {
    let rec = obj(vec![
        ("Contents", text("")),
        ("content", text("fallback text")),
        ("Attachments", text("https://a.example/x.png https://cdn.discordapp.com/attachments/1/2/b.png")),
    ]);
    // the first key present wins, even with an empty value
    assert_eq!(extract_message_content(&rec), "");
    let rec_b = obj(vec![("Content", JsonValue::Null), ("content", text("fallback text"))]);
    assert_eq!(extract_message_content(&rec_b), "fallback text");
    assert_eq!(
        extract_attachment_urls(&rec),
        vec![
            "https://a.example/x.png".to_string(),
            "https://cdn.discordapp.com/attachments/1/2/b.png".to_string()
        ]
    );
    let rec2 = obj(vec![(
        "attachments",
        arr(vec![obj(vec![("url", text("https://u/1"))]), text("https://u/2")]),
    )]);
    assert_eq!(extract_attachment_urls(&rec2), vec!["https://u/1".to_string(), "https://u/2".to_string()]);
    assert_eq!(extract_message_content(&obj(vec![])), "");
}

#[test]
fn numbers_and_lookups() {
    let rec = obj(vec![("n", num(7)), ("s", text("x"))]);
    assert_eq!(num_u64(get(&rec, "n")), 7);
    assert_eq!(num_u64(get(&rec, "s")), 0);
    assert_eq!(num_u64(get(&rec, "missing")), 0);
}

#[test]
fn channel_titles() {
    let named = obj(vec![("name", text("general"))]);
    assert_eq!(channel_title(Some(&named), "42"), "general");
    let dm = obj(vec![(
        "recipients",
        arr(vec![obj(vec![("username", text("alice"))]), obj(vec![("global_name", text("Bob"))])]),
    )]);
    assert_eq!(channel_title(Some(&dm), "42"), "alice, Bob");
    let blank = obj(vec![("name", text("  "))]);
    assert_eq!(channel_title(Some(&blank), "42"), "42");
    assert_eq!(channel_title(None, "42"), "42");
}

#[test]
fn one_record_fills_the_channel_tallies() {
    let pats = patterns();
    let mut cache = ChannelAnalysisCache::new(10, 20);
    let rec = obj(vec![
        ("Timestamp", text("2024-01-01 13:05:00")),
        ("Contents", text("Hello world? see https://www.Example.com/x <:pog:123>\nbye")),
        ("Attachments", text("https://cdn.discordapp.com/attachments/1/2/a.png https://other/x")),
    ]);
    analyze_record(&mut cache, &pats, &rec);
    assert_eq!(cache.message_count, 1);
    assert_eq!(cache.messages_with_content, 1);
    assert_eq!(cache.question_messages, 1);
    assert_eq!(cache.total_links, 1);
    assert_eq!(cache.link_messages, 1);
    assert_eq!(cache.link_domains.get("example.com"), 1);
    assert_eq!(cache.content.emoji_custom, 1);
    assert_eq!(cache.content.linebreaks, 1);
    assert_eq!(cache.attachment_count, 1);
    assert_eq!(cache.attachment_links, vec!["https://cdn.discordapp.com/attachments/1/2/a.png".to_string()]);
    assert_eq!(cache.temporal.by_hour.get(13), 1);
    assert_eq!(cache.temporal.by_month.get(1), 1);
    assert_eq!(cache.temporal.by_day_of_week.get(0), 1);
    assert_eq!(cache.temporal.by_day.get("2024-01-01"), 1);
    assert_eq!(cache.temporal.first_message_date.as_deref(), Some("2024-01-01"));
    assert_eq!(cache.word_frequency.get("hello"), 1);
    assert_eq!(cache.word_frequency.get("world"), 1);
    // "see" and "com" are stop words
    assert_eq!(cache.word_frequency.get("see"), 0);
    assert_eq!(cache.word_frequency.get("com"), 0);
    assert_eq!(cache.max_message_date.as_deref(), Some("2024-01-01"));
}

#[test]
fn record_without_content_only_counts_the_message() {
    let pats = patterns();
    let mut cache = ChannelAnalysisCache::new(1, 1);
    analyze_record(&mut cache, &pats, &obj(vec![("Contents", text(""))]));
    assert_eq!(cache.message_count, 1);
    assert_eq!(cache.messages_with_content, 0);
    assert_eq!(cache.content.total_chars, 0);
    assert!(cache.temporal.first_message_date.is_none());
}

#[test]
fn cache_freshness() {
    let cache = ChannelAnalysisCache::new(5, 6);
    assert!(cache.is_fresh(5, 6));
    assert!(!cache.is_fresh(5, 7));
    assert!(!cache.is_fresh(4, 6));
}

#[test]
fn channel_metadata() {
    let mut cache = ChannelAnalysisCache::new(1, 1);
    let meta = obj(vec![("type", num(1)), ("name", text("chat"))]);
    set_channel_meta(&mut cache, Some(&meta), "99");
    assert_eq!(cache.channel_type, "1");
    assert_eq!(cache.channel_title, "chat");
    let mut other = ChannelAnalysisCache::new(1, 1);
    set_channel_meta(&mut other, Some(&obj(vec![])), "99");
    assert_eq!(other.channel_type, "unknown");
    let mut missing = ChannelAnalysisCache::new(1, 1);
    set_channel_meta(&mut missing, None, "99");
    assert_eq!(missing.channel_title, "99");
    assert_eq!(missing.channel_type, "");
}

#[test]
fn totals_over_channels() {
    let pats = patterns();
    let mut a = ChannelAnalysisCache::new(1, 1);
    set_channel_meta(&mut a, Some(&obj(vec![("type", text("DM")), ("name", text("a"))])), "1");
    analyze_record(&mut a, &pats, &obj(vec![("Timestamp", text("2023-03-04 10:00:00")), ("Contents", text("first words here"))]));
    analyze_record(&mut a, &pats, &obj(vec![("Timestamp", text("2023-03-05 11:00:00")), ("Contents", text("second message"))]));
    let mut b = ChannelAnalysisCache::new(1, 1);
    set_channel_meta(&mut b, Some(&obj(vec![("type", text("GUILD_TEXT")), ("name", text("b"))])), "2");
    analyze_record(&mut b, &pats, &obj(vec![("Timestamp", text("2022-01-01 09:00:00")), ("Contents", text("a much longer message than the rest"))]));

    let mut totals = MessageTotals::new();
    absorb_channel(&mut totals, &a);
    absorb_channel(&mut totals, &b);
    assert_eq!(totals.messages.total, 3);
    assert_eq!(totals.messages.channels, 2);
    assert_eq!(totals.messages.with_content, 3);
    assert_eq!(totals.messages.by_channel_type.get("DM"), 1);
    assert_eq!(totals.messages.by_channel_type.get("GUILD_TEXT"), 1);
    finish_totals(&mut totals);
    assert_eq!(totals.messages.top_channels[0], ("a".to_string(), 2));
    let records = compute_records(&totals, &vec![&a, &b]);
    assert_eq!(records.first_message_date.as_deref(), Some("2022-01-01"));
    assert_eq!(records.last_message_date.as_deref(), Some("2023-03-05"));
    assert_eq!(records.longest_message_chars, 35);
    assert_eq!(records.biggest_channel, Some(("a".to_string(), 2)));
}

#[test]
fn count_maps() {
    let mut m = CountMap::new();
    m.add("x", 2);
    m.add("y", 1);
    m.add("x", 1);
    assert_eq!(m.get("x"), 3);
    assert_eq!(m.get("y"), 1);
    assert_eq!(m.get("z"), 0);
    assert_eq!(m.len(), 2);
    m.add_sat("y", u64::MAX);
    assert_eq!(m.get("y"), u64::MAX);
}

#[test]
fn emoji_and_hashing() {
    assert_eq!(count_unicode_emoji("hi 😀 there 👍🏽!"), 2);
    assert_eq!(count_unicode_emoji("plain text"), 0);
    assert_eq!(hex_lower(&[0x00, 0xab, 0x10]), "00ab10");
    let mut h = ContentHasher::new();
    h.update(b"abc");
    assert_eq!(
        h.finish(),
        "ba7816bf8f01cfea414140de5dae2223b00361a396177a9cb410ff61f20015ad"
    );
}

/// The first and last dates of merged channel tallies do not depend on the
/// order of the channels.
#[test]
fn date_merge_order() {
    use_merge_order();
}

fn use_merge_order() {
    let pats = patterns();
    let mk = |day: &str| {
        let mut c = ChannelAnalysisCache::new(0, 0);
        analyze_record(&mut c, &pats, &obj(vec![("Timestamp", text(&format!("{day} 10:00:00"))), ("Contents", text("hello there"))]));
        c
    };
    let a = mk("2023-05-01");
    let b = mk("2021-02-03");
    let c = mk("2024-09-09");
    let mut x = MessageTotals::new();
    for ch in [&a, &b, &c] {
        absorb_channel(&mut x, ch);
    }
    let mut y = MessageTotals::new();
    for ch in [&c, &a, &b] {
        absorb_channel(&mut y, ch);
    }
    assert_eq!(x.messages.temporal.first_message_date.as_deref(), Some("2021-02-03"));
    assert_eq!(x.messages.temporal.last_message_date.as_deref(), Some("2024-09-09"));
    assert_eq!(x.messages.temporal.first_message_date, y.messages.temporal.first_message_date);
    assert_eq!(x.messages.temporal.last_message_date, y.messages.temporal.last_message_date);
}

#[test]
fn attachments_count_messages_and_empty_channels_are_skipped() {
    let pats = patterns();
    let mut c = ChannelAnalysisCache::new(1, 1);
    analyze_record(&mut c, &pats, &obj(vec![
        ("Contents", text("x")),
        (
            "Attachments",
            text("https://cdn.discordapp.com/attachments/1/a.png https://cdn.discordapp.com/attachments/1/b.png"),
        ),
    ]));
    assert_eq!(c.attachment_count, 1);
    assert_eq!(c.attachment_links.len(), 2);
    let empty = ChannelAnalysisCache::new(1, 1);
    let mut totals = MessageTotals::new();
    absorb_channel(&mut totals, &empty);
    absorb_channel(&mut totals, &c);
    assert_eq!(totals.messages.channels, 1);
    assert_eq!(totals.messages.total, 1);
    assert_eq!(totals.messages.with_attachments, 1);
    assert_eq!(totals.messages.attachment_links.len(), 2);
}
