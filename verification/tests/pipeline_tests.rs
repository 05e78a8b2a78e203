use work_record::backend::{
    check_status, parse_local_response, parse_remote_response, select_backend,
    validate_remote_config, BackendKind,
};
use work_record::date::Date;
use work_record::entry::LogEntry;
use work_record::errors::AppError;
use work_record::pipeline::{
    calculate_date_range, get_summary_filename, render_prompt, resolve_date_range,
    summary_artifact, StreamEvent, StreamSession, SummaryConfig, SummaryType,
};

fn d(y: i32, m: u8, dy: u8) -> Date {
    Date { year: y, month: m, day: dy }
}

fn entry(content: &str) -> LogEntry {
    LogEntry {
        id: "1".to_string(),
        content: content.to_string(),
        created_at: "2024-06-15T10:00:00+00:00".to_string(),
        source: "manual".to_string(),
        tags: vec![],
        timestamp: None,
    }
}

#[test]
fn weekly_range_is_the_last_seven_days() {
    let today = d(2024, 6, 15);
    let (start, end) = calculate_date_range(SummaryType::Weekly, today);
    assert_eq!(start, d(2024, 6, 8));
    assert_eq!(end, today);
}

#[test]
fn monthly_and_quarterly_ranges_count_back() {
    let today = d(2024, 6, 15);
    let (m_start, _) = calculate_date_range(SummaryType::Monthly, today);
    assert_eq!(m_start, d(2024, 5, 16));
    let (q_start, _) = calculate_date_range(SummaryType::Quarterly, today);
    assert_eq!(q_start, d(2024, 3, 17));
}

#[test]
fn quarterly_config_starts_on_a_quarter_month() {
    for (month, expect) in [(1u8, 1u8), (2, 1), (3, 1), (4, 4), (6, 4), (7, 7), (9, 7), (10, 10), (12, 10)] {
        let cfg = SummaryConfig::for_type(SummaryType::Quarterly, d(2024, month, 15));
        let start = cfg.start_date.unwrap();
        assert_eq!(start, d(2024, expect, 1));
    }
}

#[test]
fn weekly_config_covers_the_running_week() {
    let cfg = SummaryConfig::for_type(SummaryType::Weekly, d(2024, 6, 15));
    assert_eq!(cfg.start_date.unwrap(), d(2024, 6, 9));
    assert_eq!(cfg.end_date.unwrap(), d(2024, 6, 15));
    assert_eq!(cfg.title, "Weekly summary (2024-06-09 to 2024-06-15)");
}

#[test]
fn custom_range_requires_order() {
    let cfg = SummaryConfig::for_type(SummaryType::Custom, d(2024, 6, 15));
    let err = cfg.clone().with_custom_range(d(2024, 6, 20), d(2024, 6, 10)).unwrap_err();
    assert!(matches!(err, AppError::InvalidRangeError { .. }));
    let ok = cfg.with_custom_range(d(2024, 6, 10), d(2024, 6, 20)).unwrap();
    assert_eq!(ok.start_date.unwrap(), d(2024, 6, 10));
    assert_eq!(ok.end_date.unwrap(), d(2024, 6, 20));
}

#[test]
fn resolving_custom_without_dates_is_missing_date() {
    let err =
        resolve_date_range(SummaryType::Custom, d(2024, 6, 15), Some(d(2024, 6, 1)), None)
            .unwrap_err();
    assert!(matches!(err, AppError::MissingDateError));
    let ok = resolve_date_range(SummaryType::Weekly, d(2024, 6, 15), None, None).unwrap();
    assert_eq!(ok, (d(2024, 6, 8), d(2024, 6, 15)));
}

#[test]
fn filenames_follow_the_kind() {
    let today = d(2024, 6, 15);
    let weekly = SummaryConfig::for_type(SummaryType::Weekly, today);
    assert_eq!(get_summary_filename(&weekly, today), "weekly_summary_2024-06-15.md");
    let monthly = SummaryConfig::for_type(SummaryType::Monthly, today);
    assert_eq!(get_summary_filename(&monthly, today), "monthly_summary_2024-6.md");
    let quarterly = SummaryConfig::for_type(SummaryType::Quarterly, today);
    assert_eq!(get_summary_filename(&quarterly, today), "quarterly_summary_2024-Q2.md");
    let custom = SummaryConfig::for_type(SummaryType::Custom, today)
        .with_custom_range(d(2024, 1, 2), d(2024, 2, 3))
        .unwrap();
    assert_eq!(get_summary_filename(&custom, today), "custom_summary_2024-01-02_2024-02-03.md");
}

#[test]
fn prompt_renders_headings_and_bullets() {
    let days = vec![
        (d(2024, 6, 14), vec![entry("fixed the build")]),
        (d(2024, 6, 15), vec![entry("wrote docs"), entry("reviewed a change")]),
    ];
    let prompt = render_prompt(SummaryType::Weekly, &days);
    let expected_tail =
        "\n\n## 2024-06-14\n- fixed the build\n\n## 2024-06-15\n- wrote docs\n- reviewed a change\n\n";
    assert!(prompt.ends_with(expected_tail));
    assert!(prompt.starts_with("Summarize the following week"));
}

#[test]
fn backend_selection_is_a_pure_function_of_the_flag() {
    assert_eq!(select_backend(true), BackendKind::Local);
    assert_eq!(select_backend(false), BackendKind::Remote);
}

#[test]
fn remote_config_must_be_complete() {
    assert!(matches!(
        validate_remote_config("", "key").unwrap_err(),
        AppError::ConfigurationError { .. }
    ));
    assert!(matches!(
        validate_remote_config("https://api", "").unwrap_err(),
        AppError::ConfigurationError { .. }
    ));
    assert!(validate_remote_config("https://api", "key").is_ok());
}

#[test]
fn non_success_statuses_become_backend_errors() {
    assert!(check_status(200).is_ok());
    assert!(check_status(299).is_ok());
    assert!(matches!(check_status(500).unwrap_err(), AppError::BackendError { status: 500 }));
    assert!(matches!(check_status(404).unwrap_err(), AppError::BackendError { status: 404 }));
    assert!(matches!(check_status(199).unwrap_err(), AppError::BackendError { status: 199 }));
}

#[test]
fn local_response_text_is_extracted() {
    let body = "{\n  \"model\": \"llama3\",\n  \"response\": \"All done.\",\n  \"done\": true,\n  \"eval_count\": 42\n}";
    assert_eq!(parse_local_response(body).unwrap(), "All done.");
    assert!(matches!(
        parse_local_response("{\"done\": true}").unwrap_err(),
        AppError::BackendResponseError
    ));
    assert!(parse_local_response("garbage").is_err());
}

#[test]
fn remote_response_text_is_the_first_choice() {
    let body = "{\"id\":\"x\",\"object\":\"chat.completion\",\"choices\":[{\"index\":0,\"message\":{\"role\":\"assistant\",\"content\":\"Here is the summary.\"},\"finish_reason\":\"stop\"}],\"usage\":{\"total_tokens\":10,\"cost\":0.25}}";
    assert_eq!(parse_remote_response(body).unwrap(), "Here is the summary.");
    assert!(matches!(
        parse_remote_response("{\"choices\":[]}").unwrap_err(),
        AppError::BackendResponseError
    ));
    assert!(matches!(
        parse_remote_response("{\"choices\":[{\"message\":{}}]}").unwrap_err(),
        AppError::BackendResponseError
    ));
}

#[test]
fn http_500_yields_backend_error_and_no_artifact() {
    let r = summary_artifact(
        BackendKind::Local,
        500,
        "{\"response\":\"would have been fine\"}",
        "weekly_summary_2024-06-15.md".to_string(),
    );
    assert!(matches!(r.unwrap_err(), AppError::BackendError { status: 500 }));
}

#[test]
fn successful_artifact_carries_text_and_filename() {
    let r = summary_artifact(
        BackendKind::Local,
        200,
        "{\"response\":\"the summary\"}",
        "weekly_summary_2024-06-15.md".to_string(),
    )
    .unwrap();
    assert_eq!(r.text, "the summary");
    assert_eq!(r.filename, "weekly_summary_2024-06-15.md");
}

#[test]
fn streaming_delivers_chunks_in_order_and_totals_the_text() {
    let (mut session, first) = StreamSession::begin();
    assert!(matches!(first, StreamEvent::Start));
    let mut seen: Vec<String> = Vec::new();
    for chunk in ["The ", "summary ", "text."] {
        match session.on_chunk(chunk) {
            StreamEvent::Chunk(c) => seen.push(c),
            other => panic!("unexpected event {:?}", other),
        }
    }
    assert_eq!(seen, vec!["The ", "summary ", "text."]);
    let (text, last) = session.finish();
    assert_eq!(text, "The summary text.");
    match last {
        StreamEvent::Complete(t) => assert_eq!(t, "The summary text."),
        other => panic!("unexpected event {:?}", other),
    }
    // the buffered path reads the same text from an equivalent response
    let buffered =
        parse_local_response("{\"response\":\"The summary text.\"}").unwrap();
    assert_eq!(buffered, text);
}

#[test]
fn error_messages_carry_their_context() {
    let e = AppError::BackendError { status: 503 };
    assert_eq!(e.message(), "backend returned a failing HTTP status 503");
    let nf = AppError::NotFoundError { date: "2024-06-15".into(), id: "42".into() };
    assert_eq!(nf.message(), "nothing found for id 42 on 2024-06-15");
}

#[test]
fn error_kinds_have_distinct_tags() {
    let kinds = [
        AppError::StorageError { operation: "o".into(), detail: "d".into() }.kind(),
        AppError::NotFoundError { date: "d".into(), id: "i".into() }.kind(),
        AppError::InvalidRangeError { start: "s".into(), end: "e".into() }.kind(),
        AppError::MissingDateError.kind(),
        AppError::NoLogsError { start: "s".into(), end: "e".into() }.kind(),
        AppError::ConfigurationError { detail: "d".into() }.kind(),
        AppError::BackendError { status: 500 }.kind(),
        AppError::BackendResponseError.kind(),
        AppError::TransportError { detail: "d".into() }.kind(),
    ];
    let mut unique = kinds.to_vec();
    unique.sort();
    unique.dedup();
    assert_eq!(unique.len(), kinds.len());
}
