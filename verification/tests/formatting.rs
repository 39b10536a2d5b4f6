use discord_analyzer::dates::{
    day_of_week, day_ordinal, weekday_computable, days_to_ymd, extract_date_key, is_leap, iso8601_from_secs,
    normalize_date_filter, normalize_iso, parse_date_key, parse_year_month, weekday_of,
};
use discord_analyzer::numfmt::{
    decimal_string, fmt_num, format_duration, parse_i64, parse_u32, parse_u64, signed,
    zero_padded,
};
use discord_analyzer::text::{
    contains_str, extract_host, is_stop_word, normalize_dir_name, normalize_inline,
    normalize_sort_key, strip_prefix, to_ascii_lowercase, to_ascii_uppercase, trim,
    trim_ascii_whitespace, truncate_text,
};

#[test]
fn fmt_num_groups_thousands() {
    assert_eq!(fmt_num(0), "0");
    assert_eq!(fmt_num(999), "999");
    assert_eq!(fmt_num(1000), "1,000");
    assert_eq!(fmt_num(12451), "12,451");
    assert_eq!(fmt_num(1234567), "1,234,567");
    assert_eq!(fmt_num(u64::MAX), "18,446,744,073,709,551,615");
}

#[test]
fn decimal_and_padding() {
    assert_eq!(decimal_string(0), "0");
    assert_eq!(decimal_string(907), "907");
    assert_eq!(zero_padded(7, 2), "07");
    assert_eq!(zero_padded(123, 2), "123");
    assert_eq!(zero_padded(5, 4), "0005");
}

#[test]
fn durations_under_and_over_an_hour() {
    assert_eq!(format_duration(0), "00:00");
    assert_eq!(format_duration(59), "00:59");
    assert_eq!(format_duration(61), "01:01");
    assert_eq!(format_duration(3600), "01:00:00");
    assert_eq!(format_duration(3725), "01:02:05");
    assert_eq!(format_duration(360000), "100:00:00");
}

#[test]
fn signed_changes() {
    assert_eq!(signed(5), "+5");
    assert_eq!(signed(-12), "-12");
    assert_eq!(signed(0), "=");
    assert_eq!(signed(i64::MIN), "-9223372036854775808");
}

#[test]
fn number_parsing_like_std() {
    assert_eq!(parse_u64(" 42 "), Some(42));
    assert_eq!(parse_u64("+7"), Some(7));
    assert_eq!(parse_u64("-1"), None);
    assert_eq!(parse_u64(""), None);
    assert_eq!(parse_u64("18446744073709551616"), None);
    assert_eq!(parse_i64("-9223372036854775808"), Some(i64::MIN));
    assert_eq!(parse_i64("9223372036854775808"), None);
    assert_eq!(parse_i64(" -15"), Some(-15));
    assert_eq!(parse_u32("4294967295"), Some(u32::MAX));
    assert_eq!(parse_u32("4294967296"), None);
    assert_eq!(parse_u32(" 1"), None);
}

#[test]
fn calendar_arithmetic() {
    assert!(is_leap(2000));
    assert!(is_leap(2024));
    assert!(!is_leap(1900));
    assert!(!is_leap(2023));
    assert_eq!(days_to_ymd(0), (1970, 1, 1));
    assert_eq!(days_to_ymd(59), (1970, 3, 1));
    assert_eq!(days_to_ymd(19723), (2024, 1, 1));
    assert_eq!(iso8601_from_secs(0), "1970-01-01T00:00:00Z");
    assert_eq!(iso8601_from_secs(1_700_000_000), "2023-11-14T22:13:20Z");
    assert_eq!(iso8601_from_secs(951_782_400), "2000-02-29T00:00:00Z");
}

#[test]
fn weekdays_monday_first() {
    // 2024-01-01 was a Monday, 1970-01-01 a Thursday.
    assert_eq!(day_of_week(2024, 1, 1), 0);
    assert_eq!(day_of_week(1970, 1, 1), 3);
    assert_eq!(day_of_week(2023, 12, 31), 6);
    assert_eq!(day_of_week(2_000_000, 3, 1), 2);
    assert!(weekday_computable(2_000_000, 3, 1));
    assert!(!weekday_computable(0, 1, 1));
    assert!(weekday_computable(0, 3, 1));
    assert!(!weekday_computable(u32::MAX, 5, 1));
    assert!(!weekday_computable(2024, 13, 1));
    assert_eq!(weekday_of("2024-01-01"), 0);
    assert_eq!(weekday_of("2024-03-02"), 5);
    assert_eq!(weekday_of("not a date"), 3);
    assert_eq!(weekday_of("1969-12-31"), 2);
}

#[test]
fn day_ordinals() {
    assert_eq!(day_ordinal("1970-01-01"), Some(0));
    assert_eq!(day_ordinal("1970-01-02"), Some(1));
    assert_eq!(day_ordinal("1969-12-31"), Some(-1));
    assert!(day_ordinal("20000000000000000-06-15").is_some());
    assert_eq!(day_ordinal("30000000000000000-06-15"), None);
    assert_eq!(day_ordinal("2024-01-01"), Some(19723));
    assert_eq!(day_ordinal("2024-13-01"), None);
    assert_eq!(day_ordinal("2024-01"), None);
    assert_eq!(day_ordinal("x-y-z"), None);
}

#[test]
fn date_keys_from_timestamps() {
    assert_eq!(extract_date_key("2023-05-06 12:00:00").as_deref(), Some("2023-05-06"));
    assert_eq!(extract_date_key("2023-5-06"), None);
    assert_eq!(parse_date_key("2021-01-31T00:00:00+00:00").as_deref(), Some("2021-01-31"));
    assert_eq!(normalize_date_filter("  2022-02-03 later ").as_deref(), Some("2022-02-03"));
    assert_eq!(normalize_date_filter("   "), None);
    assert_eq!(normalize_date_filter("yesterday"), None);
    assert_eq!(parse_year_month("2022/07").as_deref(), Some("2022-07"));
    assert_eq!(parse_year_month("2022.12 and more").as_deref(), Some("2022-12"));
    assert_eq!(parse_year_month("2022-13"), None);
    assert_eq!(parse_year_month("2022-00"), None);
    assert_eq!(normalize_iso(" \"2020-10-10T01:02:03\" "), "2020-10-10");
}

#[test]
fn text_helpers() {
    assert_eq!(trim("  a b \n"), "a b");
    assert_eq!(to_ascii_lowercase("AbC-É"), "abc-É");
    assert_eq!(to_ascii_uppercase("dm"), "DM");
    assert!(contains_str("hello world", "o w"));
    assert!(!contains_str("hello", "world"));
    assert!(contains_str("abc", ""));
    assert_eq!(strip_prefix("https://x.org", "https://").as_deref(), Some("x.org"));
    assert_eq!(strip_prefix("ftp://x", "https://"), None);
    assert_eq!(trim_ascii_whitespace(b"  ab c\t\n"), b"ab c".to_vec());
    assert_eq!(truncate_text("abcdef", 4), "abc\u{2026}");
    assert_eq!(truncate_text("abc", 4), "abc");
    assert_eq!(normalize_inline("a\n  b\t c"), "a b c");
}

#[test]
fn hosts_of_urls() {
    assert_eq!(extract_host("https://www.Example.com/path?q=1").as_deref(), Some("example.com"));
    assert_eq!(extract_host("http://CDN.discordapp.com/a#b").as_deref(), Some("cdn.discordapp.com"));
    assert_eq!(extract_host("https:///path"), None);
    assert_eq!(extract_host("no scheme here"), None);
}

#[test]
fn stop_words_and_keys() {
    assert!(is_stop_word("the"));
    assert!(!is_stop_word("discord"));
    assert_eq!(normalize_dir_name("Support_Tickets"), "supporttickets");
    assert_eq!(normalize_sort_key("2024-01-02T03:04:05"), "20240102030405");
    assert_eq!(normalize_sort_key("unknown"), "unknown");
}

#[test]
fn day_numbers_round_trip_and_weekdays_agree() {
    for n in [0u64, 1, 59, 365, 789, 10_957, 19_723, 2_932_896] {
        let (y, m, d) = days_to_ymd(n);
        let text = format!("{y:04}-{m:02}-{d:02}");
        assert_eq!(day_ordinal(&text), Some(n as i64));
        let w = day_of_week(y as u32, m as u32, d as u32) as i64;
        assert_eq!(w, (n as i64 + 3).rem_euclid(7));
    }
}
