use logview::query_engine::detect_format;
use logview::query_engine::make_batches;
use logview::query_engine::regex_match_rows;
use logview::query_engine::json_extract_rows;
use logview::query_engine::FileFormat;
use logview::query_engine::QueryError;
use logview::query_engine::QueryResult;
use logview::query_engine::SqlValue;

#[test]
fn test_detect_format_ndjson() {
    let content = "{\"level\":\"info\",\"message\":\"test1\"}\n{\"level\":\"error\",\"message\":\"test2\"}\n{\"level\":\"info\",\"message\":\"test3\"}\n";
    let format = detect_format(content.as_bytes());
    assert_eq!(format, FileFormat::Ndjson);
}

#[test]
fn test_detect_format_plain_text() {
    let content = "2024-01-01 INFO Starting application\n2024-01-01 ERROR Something went wrong\n";
    let format = detect_format(content.as_bytes());
    assert_eq!(format, FileFormat::PlainText);
}

#[test]
fn test_detect_format_csv() {
    let content = "timestamp,level,message\n2024-01-01,INFO,test1\n2024-01-01,ERROR,test2\n";
    let format = detect_format(content.as_bytes());
    assert_eq!(format, FileFormat::Csv);
}

#[test]
fn test_detect_format_empty_is_plain_text() {
    assert_eq!(detect_format(b""), FileFormat::PlainText);
}

#[test]
fn test_detect_single_csv_like_line_is_plain_text() {
    // a lone line cannot establish a consistent comma count
    assert_eq!(detect_format(b"a,b,c\n"), FileFormat::PlainText);
}

#[test]
fn test_detect_mismatched_comma_counts_is_plain_text() {
    assert_eq!(detect_format(b"a,b,c\nd,e\n"), FileFormat::PlainText);
}

#[test]
fn test_detect_ndjson_needs_majority() {
    // one JSON-looking line out of two sampled is not more than half
    assert_eq!(detect_format(b"{\"a\":1}\nplain text here\n"), FileFormat::PlainText);
}

#[test]
fn test_detect_skips_empty_lines() {
    // empty lines are not sampled, so the JSON majority stands
    assert_eq!(
        detect_format(b"\n\n{\"a\":1}\n\n{\"b\":2}\n"),
        FileFormat::Ndjson
    );
}

#[test]
fn test_format_names() {
    assert_eq!(FileFormat::PlainText.name(), "PlainText");
    assert_eq!(FileFormat::Ndjson.name(), "Ndjson");
    assert_eq!(FileFormat::Csv.name(), "Csv");
}

#[test]
fn test_make_batches_small() {
    let lines: Vec<String> = vec![String::from("a"), String::from("b"), String::from("c")];
    let batches = make_batches(&lines);
    assert_eq!(batches.len(), 1);
    assert_eq!(batches[0].line_numbers, vec![1, 2, 3]);
    assert_eq!(batches[0].lines, vec!["a", "b", "c"]);
}

#[test]
fn test_make_batches_empty() {
    let lines: Vec<String> = Vec::new();
    let batches = make_batches(&lines);
    assert_eq!(batches.len(), 0);
}

#[test]
fn test_make_batches_splits_at_batch_size() {
    let lines: Vec<String> = (0..100_001).map(|i| format!("line {}", i)).collect();
    let batches = make_batches(&lines);
    assert_eq!(batches.len(), 2);
    assert_eq!(batches[0].lines.len(), 100_000);
    assert_eq!(batches[1].lines.len(), 1);
    assert_eq!(batches[0].line_numbers[0], 1);
    assert_eq!(batches[0].line_numbers[99_999], 100_000);
    assert_eq!(batches[1].line_numbers[0], 100_001);
    assert_eq!(batches[1].lines[0], "line 100000");
}

#[test]
fn test_regex_match_rows_basic() {
    let texts = vec![
        Some(String::from("error: disk full")),
        Some(String::from("all good")),
        None,
    ];
    let rows = regex_match_rows(&texts, "error").unwrap();
    assert_eq!(rows, vec![Some(true), Some(false), None]);
}

#[test]
fn test_regex_match_rows_invalid_pattern() {
    let texts = vec![Some(String::from("x"))];
    let result = regex_match_rows(&texts, "(unclosed");
    assert!(matches!(result, Err(QueryError::InvalidQuery(_))));
}

#[test]
fn test_json_extract_rows_basic() {
    let texts = vec![
        Some(String::from("{\"level\":\"info\",\"n\":3}")),
        Some(String::from("{\"other\":true}")),
        Some(String::from("not json at all")),
        None,
    ];
    let level = json_extract_rows(&texts, "level");
    // string values keep their quotes: the field is re-serialized
    assert_eq!(level[0], Some(String::from("\"info\"")));
    assert_eq!(level[1], None);
    assert_eq!(level[2], None);
    assert_eq!(level[3], None);
    let n = json_extract_rows(&texts, "n");
    assert_eq!(n[0], Some(String::from("3")));
}

#[test]
fn test_query_result_from_parts() {
    let columns = vec![String::from("line_number"), String::from("line")];
    let rows = vec![
        vec![SqlValue::Int(1), SqlValue::Text(String::from("a"))],
        vec![SqlValue::Int(2), SqlValue::Null],
    ];
    let result = QueryResult::from_parts(columns, rows);
    assert_eq!(result.row_count, 2);
    assert_eq!(result.columns, vec!["line_number", "line"]);
    assert_eq!(result.rows[1][0], SqlValue::Int(2));
    let empty = QueryResult::empty();
    assert_eq!(empty.row_count, 0);
    assert_eq!(empty.columns.len(), 0);
}

#[test]
fn test_query_error_messages() {
    assert_eq!(
        QueryError::DataFusion(String::from("boom")).message(),
        "DataFusion error: boom"
    );
    assert_eq!(
        QueryError::Arrow(String::from("bad")).message(),
        "Arrow error: bad"
    );
    assert_eq!(
        QueryError::FileOpen(String::from("gone")).message(),
        "Failed to open file: gone"
    );
    assert_eq!(QueryError::NoFile.message(), "No file registered");
    assert_eq!(
        QueryError::InvalidQuery(String::from("nope")).message(),
        "Invalid query: nope"
    );
    assert_eq!(
        QueryError::JsonError(String::from("eof")).message(),
        "JSON parsing error: eof"
    );
}
