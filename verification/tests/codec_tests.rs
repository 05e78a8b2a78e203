use work_record::codec::{decode_partition, encode_partition, entry_to_json, json_to_entry};
use work_record::entry::LogEntry;
use work_record::json::{encode_json, parse_json_str, Json};

fn entry(id: &str, content: &str) -> LogEntry {
    LogEntry {
        id: id.to_string(),
        content: content.to_string(),
        created_at: "2024-06-15T10:00:00+00:00".to_string(),
        source: "manual".to_string(),
        tags: vec!["work".to_string(), "note".to_string()],
        timestamp: Some("2024-06-15T12:00:00+02:00".to_string()),
    }
}

#[test]
fn round_trip_empty_partition() {
    let entries: Vec<LogEntry> = Vec::new();
    let text = encode_partition(&entries);
    assert_eq!(text, "[]");
    let back = decode_partition(&text).unwrap();
    assert_eq!(back, entries);
}

#[test]
fn round_trip_single_entry() {
    let entries = vec![entry("1718445600000", "wrote the report")];
    let text = encode_partition(&entries);
    let back = decode_partition(&text).unwrap();
    assert_eq!(back, entries);
}

#[test]
fn round_trip_many_entries_with_awkward_text() {
    let mut e1 = entry("1", "quotes \" and \\ backslashes");
    e1.timestamp = None;
    let e2 = entry("2", "newlines\nand\ttabs");
    let e3 = entry("3", "unicode: 日本語 – naïve");
    let mut e4 = entry("4", "");
    e4.tags = Vec::new();
    let entries = vec![e1, e2, e3, e4];
    let text = encode_partition(&entries);
    let back = decode_partition(&text).unwrap();
    assert_eq!(back, entries);
}

#[test]
fn encode_uses_the_expected_layout() {
    let e = LogEntry {
        id: "1".to_string(),
        content: "a".to_string(),
        created_at: "c".to_string(),
        source: "s".to_string(),
        tags: vec!["x".to_string()],
        timestamp: None,
    };
    let text = encode_partition(&vec![e]);
    assert_eq!(
        text,
        "[{\"id\":\"1\",\"content\":\"a\",\"created_at\":\"c\",\"source\":\"s\",\"tags\":[\"x\"]}]"
    );
}

#[test]
fn encode_includes_timestamp_when_present() {
    let e = LogEntry {
        id: "1".to_string(),
        content: "a".to_string(),
        created_at: "c".to_string(),
        source: "s".to_string(),
        tags: vec![],
        timestamp: Some("t".to_string()),
    };
    let text = encode_partition(&vec![e]);
    assert_eq!(
        text,
        "[{\"id\":\"1\",\"content\":\"a\",\"created_at\":\"c\",\"source\":\"s\",\"tags\":[],\"timestamp\":\"t\"}]"
    );
}

#[test]
fn decode_rejects_malformed_text() {
    assert!(decode_partition("not json at all").is_err());
    assert!(decode_partition("{\"id\":\"1\"}").is_err());
    assert!(decode_partition("[{\"id\":1}]").is_err());
    assert!(decode_partition("[[]]").is_err());
    assert!(decode_partition("[{}").is_err());
}

#[test]
fn entry_json_round_trip_direct() {
    let e = entry("9", "content");
    let j = entry_to_json(&e);
    assert_eq!(json_to_entry(&j), Some(e));
}

#[test]
fn escapes_control_characters() {
    let mut e = entry("1", "bell:\u{0007} quote:\"");
    e.tags = Vec::new();
    e.timestamp = None;
    let text = encode_partition(&vec![e.clone()]);
    assert!(text.contains("\\u0007"));
    assert!(text.contains("\\\""));
    assert_eq!(decode_partition(&text).unwrap(), vec![e]);
}

#[test]
fn parser_accepts_whitespace_escapes_and_numbers() {
    let body = " {\n \"a\" : [ 1 , -2.5e3 , true , null , \"\\u0041B\\n\" ] } ";
    let v = parse_json_str(body).expect("should parse");
    match v {
        Json::Obj(ms) => {
            assert_eq!(ms.len(), 1);
            assert_eq!(ms[0].0, "a");
            match &ms[0].1 {
                Json::Arr(es) => {
                    assert_eq!(es.len(), 5);
                    assert!(matches!(&es[0], Json::Num(n) if n == "1"));
                    assert!(matches!(&es[1], Json::Num(n) if n == "-2.5e3"));
                    assert!(matches!(&es[2], Json::Bool(true)));
                    assert!(matches!(&es[3], Json::Null));
                    assert!(matches!(&es[4], Json::Str(s) if s == "AB\n"));
                }
                other => panic!("expected array, got {:?}", encode_json(other)),
            }
        }
        other => panic!("expected object, got {:?}", encode_json(&other)),
    }
}

#[test]
fn parser_rejects_trailing_garbage() {
    assert!(parse_json_str("{} x").is_none());
    assert!(parse_json_str("").is_none());
    assert!(parse_json_str("[1,]").is_none());
    assert!(parse_json_str("\"unterminated").is_none());
    assert!(parse_json_str("\"bad \\u escape \\uD800\"").is_none());
}
