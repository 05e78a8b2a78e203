use work_record::codec::encode_partition;
use work_record::date::Date;
use work_record::entry::LogEntry;
use work_record::errors::AppError;
use work_record::pipeline::require_logs;
use work_record::settings::Settings;
use work_record::store::LogManager;

fn settings() -> Settings {
    Settings {
        log_storage_dir: "/tmp/logs".to_string(),
        log_output_dir: "/tmp/logs/summaries".to_string(),
        git_author: String::new(),
        auto_open_window: false,
        shortcut: String::new(),
        enable_shortcut: false,
        use_local_ollama: true,
        ollama_address: "http://localhost:11434".to_string(),
        ollama_model: "llama3".to_string(),
        llm_api_key: String::new(),
        llm_api_url: String::new(),
    }
}

fn entry(id: &str, content: &str) -> LogEntry {
    LogEntry {
        id: id.to_string(),
        content: content.to_string(),
        created_at: "2024-06-15T10:00:00+00:00".to_string(),
        source: "manual".to_string(),
        tags: vec![],
        timestamp: None,
    }
}

fn d(y: i32, m: u8, dy: u8) -> Date {
    Date { year: y, month: m, day: dy }
}

#[test]
fn entries_read_back_in_insertion_order() {
    let mut store = LogManager::new(settings());
    let date = d(2024, 6, 15);
    store.add_entry_at(date, entry("1", "first"));
    store.add_entry_at(date, entry("2", "second"));
    store.add_entry_at(date, entry("3", "third"));
    let got = store.get_entries_for_date(&date);
    let contents: Vec<&str> = got.iter().map(|e| e.content.as_str()).collect();
    assert_eq!(contents, vec!["first", "second", "third"]);
}

#[test]
fn missing_date_reads_empty() {
    let store = LogManager::new(settings());
    assert!(store.get_entries_for_date(&d(2024, 6, 15)).is_empty());
}

#[test]
fn deleting_the_only_entry_removes_the_partition() {
    let mut store = LogManager::new(settings());
    let date = d(2024, 6, 15);
    store.add_entry_at(date, entry("1", "only"));
    store.add_entry_at(d(2024, 6, 14), entry("2", "other day"));
    assert_eq!(store.get_log_files(), vec!["2024-06-15.json", "2024-06-14.json"]);
    store.delete_entry("1", &date).unwrap();
    assert_eq!(store.get_log_files(), vec!["2024-06-14.json"]);
    assert!(store.get_entries_for_date(&date).is_empty());
}

#[test]
fn deleting_one_of_several_keeps_the_rest() {
    let mut store = LogManager::new(settings());
    let date = d(2024, 6, 15);
    store.add_entry_at(date, entry("1", "keep"));
    store.add_entry_at(date, entry("2", "drop"));
    store.add_entry_at(date, entry("3", "keep too"));
    store.delete_entry("2", &date).unwrap();
    let got = store.get_entries_for_date(&date);
    let ids: Vec<&str> = got.iter().map(|e| e.id.as_str()).collect();
    assert_eq!(ids, vec!["1", "3"]);
    assert_eq!(store.get_log_files(), vec!["2024-06-15.json"]);
}

#[test]
fn delete_unknown_id_is_not_found() {
    let mut store = LogManager::new(settings());
    let date = d(2024, 6, 15);
    store.add_entry_at(date, entry("1", "x"));
    let err = store.delete_entry("nope", &date).unwrap_err();
    assert!(matches!(err, AppError::NotFoundError { .. }));
    let err2 = store.delete_entry("1", &d(2024, 6, 16)).unwrap_err();
    assert!(matches!(err2, AppError::NotFoundError { .. }));
}

#[test]
fn update_replaces_in_place() {
    let mut store = LogManager::new(settings());
    let date = d(2024, 6, 15);
    store.add_entry_at(date, entry("1", "one"));
    store.add_entry_at(date, entry("2", "two"));
    let mut changed = entry("1", "one, revised");
    changed.source = "edit".to_string();
    store.update_entry_at(date, changed).unwrap();
    let got = store.get_entries_for_date(&date);
    assert_eq!(got[0].content, "one, revised");
    assert_eq!(got[0].source, "edit");
    assert_eq!(got[1].content, "two");
}

#[test]
fn update_unknown_id_fails_and_leaves_the_partition_unchanged() {
    let mut store = LogManager::new(settings());
    let date = d(2024, 6, 15);
    store.add_entry_at(date, entry("1", "untouched"));
    let before = encode_partition(&store.get_entries_for_date(&date));
    let err = store.update_entry_at(date, entry("missing", "boom")).unwrap_err();
    assert!(matches!(err, AppError::NotFoundError { .. }));
    let after = encode_partition(&store.get_entries_for_date(&date));
    assert_eq!(before, after);
}

#[test]
fn log_files_list_most_recent_first() {
    let mut store = LogManager::new(settings());
    store.add_entry_at(d(2024, 6, 1), entry("1", "a"));
    store.add_entry_at(d(2024, 6, 20), entry("2", "b"));
    store.add_entry_at(d(2023, 12, 31), entry("3", "c"));
    store.add_entry_at(d(2024, 6, 10), entry("4", "d"));
    assert_eq!(
        store.get_log_files(),
        vec!["2024-06-20.json", "2024-06-10.json", "2024-06-01.json", "2023-12-31.json"]
    );
}

#[test]
fn range_aggregation_collects_only_dates_with_entries() {
    let mut store = LogManager::new(settings());
    store.add_entry_at(d(2024, 6, 1), entry("1", "a"));
    store.add_entry_at(d(2024, 6, 3), entry("2", "b"));
    store.add_entry_at(d(2024, 6, 3), entry("3", "c"));
    store.add_entry_at(d(2024, 7, 1), entry("4", "outside"));
    let days = store.get_entries_in_date_range(&d(2024, 6, 1), &d(2024, 6, 30)).unwrap();
    assert_eq!(days.len(), 2);
    assert_eq!(days[0].0, d(2024, 6, 1));
    assert_eq!(days[0].1.len(), 1);
    assert_eq!(days[1].0, d(2024, 6, 3));
    assert_eq!(days[1].1.len(), 2);
}

#[test]
fn empty_range_aggregates_to_nothing_and_surfaces_no_logs() {
    let mut store = LogManager::new(settings());
    store.add_entry_at(d(2024, 7, 1), entry("1", "outside"));
    let start = d(2024, 6, 1);
    let end = d(2024, 6, 30);
    let days = store.get_entries_in_date_range(&start, &end).unwrap();
    assert!(days.is_empty());
    let err = require_logs(&days, &start, &end).unwrap_err();
    assert!(matches!(err, AppError::NoLogsError { .. }));
}

#[test]
fn inverted_range_is_rejected() {
    let store = LogManager::new(settings());
    let err = store.get_entries_in_date_range(&d(2024, 6, 30), &d(2024, 6, 1)).unwrap_err();
    assert!(matches!(err, AppError::InvalidRangeError { .. }));
}

#[test]
fn add_entry_derives_its_partition_from_created_at() {
    let mut store = LogManager::new(settings());
    let e = LogEntry::new("typed now".to_string(), "manual".to_string(), vec![]);
    let derived = work_record::clock::partition_date_of(&e.created_at).expect("fresh stamp");
    store.add_entry(e.clone()).unwrap();
    let got = store.get_entries_for_date(&derived);
    assert_eq!(got.len(), 1);
    assert_eq!(got[0].content, "typed now");
}

#[test]
fn add_entry_rejects_unusable_created_at() {
    let mut store = LogManager::new(settings());
    let mut e = entry("1", "bad stamp");
    e.created_at = "yesterday-ish".to_string();
    let err = store.add_entry(e).unwrap_err();
    assert!(matches!(err, AppError::StorageError { .. }));
    assert!(store.get_log_files().is_empty());
}
