use zero2prod::format::{
    format_record, is_reserved_key, kind_text, level_text, push_decimal, push_json_id,
    push_json_integer, push_json_string,
};
use zero2prod::record::{is_enabled, level_verbosity, Level, Record, RecordKind};
use zero2prod::scope::{Field, FieldValue};

fn record() -> Record {
    Record {
        kind: RecordKind::Event,
        level: Level::Error,
        message: "boom".to_string(),
        time: 5,
        opened_at: 3,
        scope: Some(1),
        root: Some(0),
        parent: Some(0),
        name: "persist subscriber".to_string(),
        fields: vec![
            Field { key: "email".to_string(), value: FieldValue::Text("a@b.c".to_string()) },
            Field { key: "n".to_string(), value: FieldValue::Integer(-7) },
        ],
    }
}

#[test]
fn a_record_is_one_flat_json_line() {
    let line = format_record("zero2prod", &record());
    let expected = concat_line(&[
        "{\"service\":\"zero2prod\",\"kind\":\"event\",\"level\":\"ERROR\",\"msg\":\"boom\",",
        "\"time\":5,\"opened\":3,\"scope\":1,\"root\":0,\"parent\":0,",
        "\"span\":\"persist subscriber\",\"email\":\"a@b.c\",\"n\":-7}\n",
    ]);
    assert_eq!(String::from_utf8(line).unwrap(), expected);
}

fn concat_line(parts: &[&str]) -> String {
    parts.concat()
}

#[test]
fn a_summary_without_parent_shows_null() {
    let summary = Record {
        kind: RecordKind::ScopeClosed,
        level: Level::Info,
        message: String::new(),
        time: 1700000000123,
        opened_at: 1700000000000,
        scope: Some(18446744073709551614),
        root: Some(18446744073709551614),
        parent: None,
        name: "http_request".to_string(),
        fields: vec![],
    };
    let line = format_record("svc", &summary);
    let expected = concat_line(&[
        "{\"service\":\"svc\",\"kind\":\"close\",\"level\":\"INFO\",\"msg\":\"\",",
        "\"time\":1700000000123,\"opened\":1700000000000,\"scope\":18446744073709551614,",
        "\"root\":18446744073709551614,\"parent\":null,\"span\":\"http_request\"}\n",
    ]);
    assert_eq!(String::from_utf8(line).unwrap(), expected);
}

#[test]
fn texts_are_escaped_and_the_line_stays_one_line() {
    let mut record = record();
    record.message = "line one\nline \"two\"\t\\ \u{1}\u{1f} é".to_string();
    record.fields = vec![Field {
        key: "ke\ny".to_string(),
        value: FieldValue::Text("\r\n".to_string()),
    }];
    let line = format_record("s\n", &record);
    assert_eq!(line.iter().filter(|b| **b == b'\n').count(), 1);
    assert_eq!(line.last(), Some(&b'\n'));
    assert!(line[..line.len() - 1].iter().all(|b| *b >= 0x20));
    let text = String::from_utf8(line).unwrap();
    assert!(text.starts_with("{\"service\":\"s\\u000a\","));
    assert!(text.contains(
        "\"msg\":\"line one\\u000aline \\\"two\\\"\\u0009\\\\ \\u0001\\u001f é\""
    ));
    assert!(text.ends_with(",\"ke\\u000ay\":\"\\u000d\\u000a\"}\n"));
}

#[test]
fn fields_named_like_fixed_members_are_left_out() {
    let mut record = record();
    record.fields = vec![
        Field { key: "level".to_string(), value: FieldValue::Integer(1) },
        Field { key: "name".to_string(), value: FieldValue::Text("x".to_string()) },
        Field { key: "span".to_string(), value: FieldValue::Integer(2) },
    ];
    let text = String::from_utf8(format_record("z", &record)).unwrap();
    assert!(text.ends_with("\"span\":\"persist subscriber\",\"name\":\"x\"}\n"));
    for key in
        ["service", "kind", "level", "msg", "time", "opened", "scope", "root", "parent", "span"]
    {
        assert!(is_reserved_key(key));
    }
    assert!(!is_reserved_key("name"));
    assert!(!is_reserved_key("email"));
    assert!(!is_reserved_key(""));
    assert!(!is_reserved_key("spans"));
    assert!(!is_reserved_key("spam"));
    assert!(!is_reserved_key("Span"));
}

#[test]
fn numbers_are_decimal() {
    let render = |i: i64| {
        let mut out = Vec::new();
        push_json_integer(&mut out, i);
        String::from_utf8(out).unwrap()
    };
    assert_eq!(render(0), "0");
    assert_eq!(render(9), "9");
    assert_eq!(render(10), "10");
    assert_eq!(render(-1), "-1");
    assert_eq!(render(1234567890), "1234567890");
    assert_eq!(render(i64::MAX), "9223372036854775807");
    assert_eq!(render(i64::MIN), "-9223372036854775808");

    let mut out = b"x".to_vec();
    push_decimal(&mut out, u64::MAX);
    assert_eq!(out, b"x18446744073709551615");

    let mut out = Vec::new();
    push_json_id(&mut out, None);
    push_json_id(&mut out, Some(42));
    assert_eq!(out, b"null42");

    let mut out = Vec::new();
    push_json_string(&mut out, "a\"b");
    assert_eq!(out, b"\"a\\\"b\"");
}

#[test]
fn levels_and_kinds_have_their_names() {
    assert_eq!(level_text(Level::Error), "ERROR");
    assert_eq!(level_text(Level::Warn), "WARN");
    assert_eq!(level_text(Level::Info), "INFO");
    assert_eq!(level_text(Level::Debug), "DEBUG");
    assert_eq!(level_text(Level::Trace), "TRACE");
    assert_eq!(kind_text(RecordKind::Event), "event");
    assert_eq!(kind_text(RecordKind::ScopeClosed), "close");
}

#[test]
fn a_filter_passes_what_is_no_more_verbose() {
    assert_eq!(level_verbosity(Level::Error), 1);
    assert_eq!(level_verbosity(Level::Trace), 5);
    assert!(is_enabled(Some(Level::Info), Level::Error));
    assert!(is_enabled(Some(Level::Info), Level::Info));
    assert!(!is_enabled(Some(Level::Info), Level::Debug));
    assert!(is_enabled(Some(Level::Trace), Level::Trace));
    assert!(!is_enabled(Some(Level::Error), Level::Warn));
    assert!(!is_enabled(None, Level::Error));
}
