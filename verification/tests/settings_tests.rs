use work_record::clock::partition_date_of;
use work_record::date::Date;
use work_record::entry::LogEntry;
use work_record::json::{encode_json, Json};
use work_record::settings::Settings;

fn base() -> Settings {
    Settings {
        log_storage_dir: "/tmp/logs".to_string(),
        log_output_dir: "/tmp/logs/summaries".to_string(),
        git_author: String::new(),
        auto_open_window: false,
        shortcut: String::new(),
        enable_shortcut: false,
        use_local_ollama: true,
        ollama_address: "http://localhost:11434".to_string(),
        ollama_model: "llama3".to_string(),
        llm_api_key: "SECRET-REDACTED".to_string(),
        llm_api_url: "https://api.example.com/v1/chat/completions".to_string(),
    }
}

#[test]
fn api_type_prefers_the_local_server() {
    assert_eq!(base().get_summary_api_type(), 0);
}

#[test]
fn api_type_detects_the_alternative_remote_host() {
    let mut s = base();
    s.use_local_ollama = false;
    assert_eq!(s.get_summary_api_type(), 1);
    s.llm_api_url = "https://dashscope.aliyuncs.com/api/v1".to_string();
    assert_eq!(s.get_summary_api_type(), 2);
}

#[test]
fn api_key_is_empty_for_the_local_server() {
    let s = base();
    assert_eq!(s.get_summary_api_key(0), "");
    assert_eq!(s.get_summary_api_key(1), "SECRET-REDACTED");
}

#[test]
fn api_url_targets_the_selected_backend() {
    let s = base();
    assert_eq!(s.get_summary_api_url(0), "http://localhost:11434/api/generate");
    assert_eq!(s.get_summary_api_url(1), "https://api.example.com/v1/chat/completions");
}

#[test]
fn defaults_hang_off_the_home_directory() {
    let s = Settings::with_home("/home/u", "someone".to_string());
    assert_eq!(s.log_storage_dir, "/home/u/work_records");
    assert_eq!(s.log_output_dir, "/home/u/work_records/summaries");
    assert_eq!(s.git_author, "someone");
    assert!(s.use_local_ollama);
    assert_eq!(s.shortcut, "Alt+Shift+L");
    assert_eq!(s.ollama_address, "http://localhost:11434");
    assert_eq!(s.ollama_model, "llama3");
}

#[test]
fn repair_redirects_only_the_untouched_default() {
    let default = Settings::with_home("/home/u", String::new());
    let repaired = default.repaired("/home/u");
    assert_eq!(repaired.log_storage_dir, "/tmp/work_logs");
    assert_eq!(repaired.log_output_dir, "/tmp/work_logs/summaries");
    let mut chosen = Settings::with_home("/home/u", String::new());
    chosen.log_storage_dir = "/data/mine".to_string();
    let kept = chosen.repaired("/home/u");
    assert_eq!(kept.log_storage_dir, "/data/mine");
}

#[test]
fn partition_dates_come_from_created_at() {
    // A midnight-UTC instant can land on either neighbouring local day,
    // but it always lands on a real date near it.
    let date = partition_date_of("2024-06-15T12:00:00+00:00").expect("valid stamp");
    assert_eq!(date.year, 2024);
    assert_eq!(date.month, 6);
    assert!((14..=16).contains(&date.day));
    assert!(partition_date_of("yesterday").is_none());
    assert!(partition_date_of("").is_none());
}

#[test]
fn fresh_entries_carry_a_usable_stamp() {
    let e = LogEntry::new("text".to_string(), "manual".to_string(), vec!["t".to_string()]);
    assert!(!e.id.is_empty());
    assert!(e.timestamp.is_some());
    assert!(partition_date_of(&e.created_at).is_some());
    assert_eq!(e.content, "text");
    assert_eq!(e.source, "manual");
    assert_eq!(e.tags, vec!["t".to_string()]);
}

#[test]
fn dated_entries_land_on_their_date() {
    let date = Date { year: 2024, month: 3, day: 9 };
    let e = LogEntry::new_with_date("text".to_string(), "manual".to_string(), vec![], date)
        .expect("ordinary date");
    let derived = partition_date_of(&e.created_at).expect("stamp parses");
    assert_eq!(derived, date);
}

#[test]
fn request_bodies_render_canonically() {
    let body = work_record::backend::local_request_body("llama3", "the prompt", "be brief", false);
    assert_eq!(
        body,
        "{\"model\":\"llama3\",\"prompt\":\"the prompt\",\"system\":\"be brief\",\"stream\":false}"
    );
    let remote = work_record::backend::remote_request_body("gpt-4", "be brief", "the prompt");
    assert_eq!(
        remote,
        "{\"model\":\"gpt-4\",\"messages\":[{\"role\":\"system\",\"content\":\"be brief\"},{\"role\":\"user\",\"content\":\"the prompt\"}]}"
    );
}

#[test]
fn encode_json_renders_every_shape() {
    let v = Json::Arr(vec![
        Json::Null,
        Json::Bool(true),
        Json::Num("42".to_string()),
        Json::Str("hi".to_string()),
        Json::Obj(vec![("k".to_string(), Json::Str("v".to_string()))]),
    ]);
    assert_eq!(encode_json(&v), "[null,true,42,\"hi\",{\"k\":\"v\"}]");
}
