use discord_analyzer::counts::{merge_map, ranked, top_n, CountMap};
use discord_analyzer::insights::{
    audit_entry_count, billing_from, compute_account, compute_social, payment_entry,
    privacy_from, rank_servers, record_count, AccountDocs,
};
use discord_analyzer::json::{JsonNumber, JsonText, JsonValue};
use discord_analyzer::messages::{analyze_record, set_channel_meta, ChannelAnalysisCache};
use discord_analyzer::order::{key_less, sort_order, SortKey};
use discord_analyzer::patterns::MessagePatterns;

fn text(s: &str) -> JsonValue {
    JsonValue::Str(s.to_string())
}

fn num(n: i64) -> JsonValue {
    JsonValue::Number(JsonNumber {
        text: n.to_string(),
        as_u64: if n >= 0 { Some(n as u64) } else { None },
        as_i64: Some(n),
    })
}

fn obj(members: Vec<(&str, JsonValue)>) -> JsonValue {
    let members: Vec<(String, JsonValue)> =
        members.into_iter().map(|(k, v)| (k.to_string(), v)).collect();
    JsonValue::Object(members, JsonText { compact: "{}".to_string(), pretty: "{}".to_string() })
}

fn arr(items: Vec<JsonValue>) -> JsonValue {
    JsonValue::Array(items, JsonText { compact: "[]".to_string(), pretty: "[]".to_string() })
}

#[test]
fn privacy_of_a_user() {
    let user = obj(vec![
        ("verified", JsonValue::Bool(true)),
        ("phone", text("+100")),
        ("premium_until", text("2025-01-01")),
        ("flags", arr(vec![text("MFA_SMS"), text("STAFF"), num(3)])),
    ]);
    let p = privacy_from(Some(&user), 2, 1);
    assert!(p.email_verified);
    assert!(p.has_phone);
    assert!(p.mfa_enabled);
    assert!(p.has_payment_source);
    assert_eq!(p.payment_sources, 2);
    assert_eq!(p.data_access_requests, 1);
    assert_eq!(p.account_flags, vec!["MFA_SMS".to_string(), "STAFF".to_string()]);
    assert_eq!(p.premium_until.as_deref(), Some("2025-01-01"));
    let none = privacy_from(None, 0, 0);
    assert!(!none.email_verified && !none.mfa_enabled && !none.has_payment_source);
    let nulled = privacy_from(Some(&obj(vec![("premium_until", JsonValue::Null), ("phone", text(""))])), 0, 0);
    assert!(nulled.premium_until.is_none());
    assert!(!nulled.has_phone);
}

#[test]
fn record_counts() {
    assert_eq!(record_count(Some(&obj(vec![("record_count", num(5)), ("records", arr(vec![]))]))), 5);
    assert_eq!(record_count(Some(&obj(vec![("records", arr(vec![text("a"), text("b")]))]))), 2);
    assert_eq!(record_count(Some(&text("x"))), 0);
    assert_eq!(record_count(None), 0);
    assert_eq!(audit_entry_count(Some(&arr(vec![text("a")]))), 1);
    assert_eq!(audit_entry_count(Some(&obj(vec![]))), 0);
}

#[test]
fn payments() {
    let p = payment_entry(&obj(vec![
        ("amount", num(999)),
        ("currency", text("usd")),
        ("created_at", text("\"2023-04-05T10:00:00\"")),
        ("payment_gateway", num(1)),
        ("amount_refunded", num(100)),
    ]));
    assert_eq!(p.amount, 999);
    assert_eq!(p.currency, "usd");
    assert_eq!(p.date, "2023-04-05");
    assert_eq!(p.description, "(no description)");
    assert_eq!(p.gateway, 1);
    assert_eq!(p.refunded, 100);
    let doc = obj(vec![(
        "records",
        arr(vec![
            obj(vec![("amount", num(500)), ("currency", text("usd")), ("created_at", text("2023-01-01")), ("payment_gateway", num(1))]),
            obj(vec![("amount", num(300)), ("currency", text("eur")), ("created_at", text("2023-03-01")), ("payment_gateway", num(4))]),
            obj(vec![("amount", num(200)), ("currency", text("usd")), ("created_at", text("2023-02-01")), ("payment_gateway", num(1))]),
        ]),
    )]);
    let b = billing_from(Some(&doc), 7, 8);
    assert_eq!(b.payments_total, 3);
    assert_eq!(b.totals_by_currency, vec![("eur".to_string(), 300), ("usd".to_string(), 700)]);
    assert_eq!(b.by_gateway.get(1), 2);
    assert_eq!(b.by_gateway.get(4), 1);
    let dates: Vec<&str> = b.timeline.iter().map(|p| p.date.as_str()).collect();
    assert_eq!(dates, vec!["2023-03-01", "2023-02-01", "2023-01-01"]);
    assert_eq!(b.entitlements_count, 7);
    assert_eq!(b.coin_transactions, 8);
    let empty = billing_from(None, 0, 0);
    assert_eq!(empty.payments_total, 0);
    assert!(empty.timeline.is_empty());
}

#[test]
fn account_documents() {
    let docs = AccountDocs {
        user: Some(obj(vec![("verified", JsonValue::Bool(false))])),
        payment_sources: Some(obj(vec![("record_count", num(2))])),
        access_requests: None,
        payments: None,
        entitlements: Some(obj(vec![("records", arr(vec![text("e")]))])),
        coin_transactions: None,
    };
    let (privacy, billing) = compute_account(&docs);
    assert_eq!(privacy.payment_sources, 2);
    assert!(privacy.has_payment_source);
    assert_eq!(privacy.data_access_requests, 0);
    assert_eq!(billing.entitlements_count, 1);
    assert_eq!(billing.coin_transactions, 0);
}

#[test]
fn social_from_channels() {
    let pats = MessagePatterns::new().expect("patterns");
    let mut a = ChannelAnalysisCache::new(1, 1);
    set_channel_meta(&mut a, Some(&obj(vec![("type", text("dm")), ("name", text("alice"))])), "1");
    for _ in 0..3 {
        analyze_record(&mut a, &pats, &obj(vec![("Contents", text("x"))]));
    }
    let mut b = ChannelAnalysisCache::new(1, 1);
    set_channel_meta(&mut b, Some(&obj(vec![("type", text("DM")), ("name", text("bob"))])), "2");
    for _ in 0..5 {
        analyze_record(&mut b, &pats, &obj(vec![("Contents", text("x"))]));
    }
    let mut g = ChannelAnalysisCache::new(1, 1);
    set_channel_meta(&mut g, Some(&obj(vec![("type", text("GROUP_DM")), ("name", text("crew"))])), "3");
    analyze_record(&mut g, &pats, &obj(vec![("Contents", text("x"))]));
    let mut t = ChannelAnalysisCache::new(1, 1);
    set_channel_meta(&mut t, Some(&obj(vec![("type", text("GUILD_TEXT")), ("name", text("general"))])), "4");
    let s = compute_social(&vec![&a, &b, &g, &t]);
    assert_eq!(s.dm_channels, 2);
    assert_eq!(s.dm_messages, 8);
    assert_eq!(s.group_dm_channels, 1);
    assert_eq!(s.group_dm_messages, 1);
    let names: Vec<&str> = s.top_contacts.iter().map(|c| c.name.as_str()).collect();
    assert_eq!(names, vec!["bob", "alice"]);
    assert_eq!(s.top_groups[0].name, "crew");
}

#[test]
fn servers_ranked_by_events() {
    let mut events = CountMap::new();
    events.add("111111111", 3);
    events.add("222222222", 9);
    events.add("333333333", 3);
    let index = obj(vec![("111111111", text("Alpha")), ("222222222", text("Beta"))]);
    let audits = vec![Some(arr(vec![text("a"), text("b")])), None, None];
    let rows = rank_servers(&events, Some(&index), &audits);
    let names: Vec<&str> = rows.iter().map(|r| r.name.as_str()).collect();
    assert_eq!(names, vec!["Beta", "Alpha", "server\u{2026}333333"]);
    assert_eq!(rows[0].events, 9);
    assert_eq!(rows[1].audit_log_entries, 2);
    // an index with a non-string member is no table
    let bad = obj(vec![("111111111", num(1))]);
    let rows = rank_servers(&events, Some(&bad), &vec![]);
    assert_eq!(rows[0].name, "server\u{2026}222222");
}

#[test]
fn ranking_and_merging_counts() {
    let items = vec![
        ("b".to_string(), 2),
        ("a".to_string(), 2),
        ("c".to_string(), 5),
        ("d".to_string(), 1),
    ];
    assert_eq!(
        top_n(&items, 3),
        vec![("c".to_string(), 5), ("a".to_string(), 2), ("b".to_string(), 2)]
    );
    assert_eq!(top_n(&items, 0), vec![]);
    let mut m = CountMap::new();
    m.add("x", 1);
    let mut n = CountMap::new();
    n.add("x", 2);
    n.add("y", 4);
    merge_map(&mut m, &n);
    assert_eq!(m.get("x"), 3);
    assert_eq!(m.get("y"), 4);
    assert_eq!(ranked(&m, 1), vec![("y".to_string(), 4)]);
}

#[test]
fn stable_sort_order() {
    let k = |w: u64, asc: &str| SortKey { weight: w, desc: String::new(), desc2: String::new(), asc: asc.to_string(), desc3: String::new(), asc2: String::new() };
    let keys = vec![k(1, "b"), k(3, "z"), k(1, "a"), k(1, "b")];
    assert_eq!(sort_order(&keys), vec![1, 2, 0, 3]);
    assert!(key_less(&k(2, "z"), &k(1, "a")));
    assert!(!key_less(&k(1, "b"), &k(1, "b")));
    let d = |desc: &str| SortKey { weight: 0, desc: desc.to_string(), desc2: String::new(), asc: String::new(), desc3: String::new(), asc2: String::new() };
    assert!(key_less(&d("2024"), &d("2023")));
    let full = |asc: &str, desc3: &str, asc2: &str| SortKey {
        weight: 0,
        desc: String::new(),
        desc2: String::new(),
        asc: asc.to_string(),
        desc3: desc3.to_string(),
        asc2: asc2.to_string(),
    };
    assert!(key_less(&full("a", "2023", "z"), &full("b", "2024", "a")));
    assert!(key_less(&full("a", "2024", "z"), &full("a", "2023", "a")));
    assert!(key_less(&full("a", "2024", "a"), &full("a", "2024", "b")));
    assert!(!key_less(&full("a", "2024", "b"), &full("a", "2024", "b")));
}
