use wasi_code_executor::records::{
    execution_totals, records_from_rows, validate_execute_request, RecentRow, RequestError,
    Timestamp, MAX_CODE_BYTES,
};
use wasi_code_executor::types::{ExecuteRequest, Language};

fn request(code: &str) -> ExecuteRequest {
    ExecuteRequest { language: Language::Python, code: code.to_string(), timeout_ms: Some(3000), use_cache: None }
}

fn row(id: &str, language: &str, created_at: &str) -> RecentRow {
    RecentRow {
        id: id.to_string(),
        language: language.to_string(),
        success: true,
        stdout: "out".to_string(),
        stderr: String::new(),
        execution_time_ms: 42,
        error_message: None,
        created_at: created_at.to_string(),
    }
}

#[test]
fn test_empty_code() {
    let r = validate_execute_request(&request(""));
    assert!(matches!(r, Err(RequestError::EmptyCode)));
    assert_eq!(RequestError::EmptyCode.message(), "Code cannot be empty");
}

#[test]
fn white_space_only_code_is_empty() {
    assert!(matches!(validate_execute_request(&request("  \n\t ")), Err(RequestError::EmptyCode)));
    assert!(validate_execute_request(&request("  print(1) ")).is_ok());
}

#[test]
fn code_over_the_limit_is_refused() {
    let at_limit = "x".repeat(MAX_CODE_BYTES);
    assert!(validate_execute_request(&request(&at_limit)).is_ok());
    let over = "x".repeat(MAX_CODE_BYTES + 1);
    assert!(matches!(validate_execute_request(&request(&over)), Err(RequestError::CodeTooLarge)));
    assert_eq!(RequestError::CodeTooLarge.message(), "Code too large (max 100KB)");
}

#[test]
fn totals_count_failures() {
    assert_eq!(execution_totals(Some(5), Some(3)), (5, 3, 2));
    assert_eq!(execution_totals(None, None), (0, 0, 0));
    assert_eq!(execution_totals(Some(4), None), (4, 0, 4));
}

#[test]
fn rows_that_do_not_parse_are_skipped() {
    let good = "67e55044-10b1-426f-9247-bb680e5fe0c8";
    let rows = vec![
        row(good, "python", "2024-01-02T03:04:05.000000006+00:00"),
        row("not-a-uuid", "python", "2024-01-02T03:04:05+00:00"),
        row(good, "cobol", "2024-01-02T03:04:05+00:00"),
        row("00000000-0000-0000-0000-00000000002a", "JS", "1970-01-01T01:00:01+01:00"),
        row(good, "ruby", "yesterday"),
    ];
    let records = records_from_rows(rows);
    assert_eq!(records.len(), 2);
    assert_eq!(records[0].language, Language::Python);
    assert_eq!(records[0].created_at, Timestamp { seconds: 1_704_164_645, nanos: 6 });
    assert_eq!(records[0].id, 0x67e55044_10b1_426f_9247_bb680e5fe0c8);
    assert_eq!(records[0].execution_time_ms, 42);
    assert_eq!(records[1].id, 42);
    assert_eq!(records[1].language, Language::JavaScript);
    assert_eq!(records[1].created_at, Timestamp { seconds: 1, nanos: 0 });
}
