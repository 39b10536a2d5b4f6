use discord_analyzer::events::{last_records_of_text, records_tail_of_text};
use discord_analyzer::json::{
    count_records_text, num_i64, number_truncated, parse_json, records_of_text, tail_read_start,
    JsonValue,
};

fn kind(v: &JsonValue) -> String {
    match v {
        JsonValue::Null => "null".to_string(),
        JsonValue::Bool(b) => format!("bool {b}"),
        JsonValue::Number(n) => format!("num {}", n.text),
        JsonValue::Str(s) => format!("str {s}"),
        JsonValue::Array(items, t) => format!("array {} {}", items.len(), t.compact),
        JsonValue::Object(ms, t) => format!("object {} {}", ms.len(), t.compact),
    }
}

#[test]
fn parsing_json_text() {
    let v = parse_json(" {\"b\": [1, 2.5], \"a\": \"x\"} ").unwrap();
    assert_eq!(kind(&v), "object 2 {\"a\":\"x\",\"b\":[1,2.5]}");
    match &v {
        JsonValue::Object(ms, _) => {
            assert_eq!(ms[0].0, "a");
            assert_eq!(kind(&ms[1].1), "array 2 [1,2.5]");
        }
        _ => unreachable!(),
    }
    assert!(parse_json("{\"a\": }").is_none());
    assert!(parse_json("1 2").is_none());
    match parse_json("-17").unwrap() {
        JsonValue::Number(n) => {
            assert_eq!(n.text, "-17");
            assert_eq!(n.as_i64, Some(-17));
            assert_eq!(n.as_u64, None);
        }
        _ => unreachable!(),
    }
}

#[test]
fn numbers_truncate_from_their_text() {
    assert_eq!(number_truncated("12"), Some(12));
    assert_eq!(number_truncated("-12.75"), Some(-12));
    assert_eq!(number_truncated("0.5"), Some(0));
    assert_eq!(number_truncated("1.5e3"), Some(1500));
    assert_eq!(number_truncated("12345e-2"), Some(123));
    assert_eq!(number_truncated("1e30"), Some(i64::MAX));
    assert_eq!(number_truncated("-1e30"), Some(i64::MIN));
    assert_eq!(number_truncated("-9223372036854775808.9"), Some(i64::MIN));
    assert_eq!(number_truncated("1E+2"), Some(100));
    assert_eq!(number_truncated("1."), None);
    assert_eq!(number_truncated("abc"), None);
    assert_eq!(number_truncated("1e99999"), None);
    let amount = parse_json("4.99").unwrap();
    assert_eq!(num_i64(Some(&amount)), Some(4));
    let big = parse_json("-250.5").unwrap();
    assert_eq!(num_i64(Some(&big)), Some(-250));
}

#[test]
fn record_files() {
    let kinds = |t: &str| records_of_text(t).iter().map(kind).collect::<Vec<_>>();
    assert_eq!(kinds("[1, \"a\"]"), vec!["num 1", "str a"]);
    assert_eq!(kinds("{\"messages\": [true, null], \"x\": 1}"), vec!["bool true", "null"]);
    assert_eq!(kinds("{\"messages\": 3}"), vec!["object 1 {\"messages\":3}"]);
    assert_eq!(kinds("\"solo\""), vec!["str solo"]);
    assert_eq!(kinds("{\"a\":1}\n\n  {\"b\":2}  \nnot json\n3\n"), vec![
        "object 1 {\"a\":1}",
        "object 1 {\"b\":2}",
        "num 3"
    ]);
    assert_eq!(kinds(""), Vec::<String>::new());

    assert_eq!(count_records_text(" \n [1, 2, 3]"), 3);
    assert_eq!(count_records_text("[1, 2"), 0);
    assert_eq!(count_records_text("{\"a\":1}\n\n{\"b\":2}\nbroken\n"), 3);
    assert_eq!(count_records_text(""), 0);

    assert_eq!(tail_read_start(1000, false), None);
    assert_eq!(tail_read_start(200 * 1024, true), None);
    assert_eq!(tail_read_start(200 * 1024, false), Some(0));
    assert_eq!(tail_read_start(1024 * 1024, false), Some(512 * 1024));
}

#[test]
fn record_tails() {
    let kinds = |v: Vec<JsonValue>| v.iter().map(kind).collect::<Vec<_>>();
    let tail = "art\":1}\n{\"a\":1}\n\nbroken\n{\"b\":2}\n3\n";
    assert_eq!(kinds(records_tail_of_text(tail, true, 2)), vec!["object 1 {\"b\":2}", "num 3"]);
    assert_eq!(kinds(records_tail_of_text(tail, true, 9)), vec!["object 1 {\"a\":1}", "object 1 {\"b\":2}", "num 3"]);
    assert_eq!(records_tail_of_text(tail, true, 0).len(), 0);
    assert_eq!(kinds(records_tail_of_text("{\"x\":0}\n5", false, 9)), vec!["object 1 {\"x\":0}", "num 5"]);
    assert_eq!(kinds(last_records_of_text("[1, 2, 3, 4]", 2)), vec!["num 3", "num 4"]);
    assert_eq!(kinds(last_records_of_text("{\"messages\": [1]}", 5)), vec!["num 1"]);
}
