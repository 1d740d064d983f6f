use logview::commands::close_file;
use logview::commands::get_file_info;
use logview::commands::get_line_count;
use logview::commands::get_lines;
use logview::commands::open_file;
use logview::commands::search;
use logview::indexer::SharedLogFile;

#[test]
fn test_open_file_reports_metadata() {
    let state = SharedLogFile::new();
    let info = open_file(
        String::from("app.log"),
        b"{\"a\":1}\n{\"b\":2}\n".to_vec(),
        &state,
    )
    .unwrap();
    assert_eq!(info.path, "app.log");
    assert_eq!(info.size, 16);
    assert_eq!(info.line_count, 2);
    assert_eq!(info.format, "Ndjson");
    assert!(state.is_open());
}

#[test]
fn test_open_empty_file_is_a_distinct_error() {
    let state = SharedLogFile::new();
    let err = open_file(String::from("app.log"), Vec::new(), &state).unwrap_err();
    assert_eq!(err.message, "File is empty");
    assert!(!state.is_open());
}

#[test]
fn test_commands_without_open_file() {
    let state = SharedLogFile::new();
    assert_eq!(get_lines(0, 10, &state).unwrap_err().message, "No file open");
    assert_eq!(get_line_count(&state).unwrap_err().message, "No file open");
    assert_eq!(
        search(String::from("x"), None, &state).unwrap_err().message,
        "No file open"
    );
    assert!(get_file_info(&state).unwrap().is_none());
}

#[test]
fn test_command_round_trip() {
    let state = SharedLogFile::new();
    open_file(String::from("app.log"), b"error: a\ninfo: b\nerror: c\n".to_vec(), &state)
        .unwrap();
    assert_eq!(get_line_count(&state).unwrap(), 3);
    assert_eq!(
        get_lines(0, 3, &state).unwrap(),
        vec!["error: a", "info: b", "error: c"]
    );
    assert_eq!(search(String::from("error"), Some(100), &state).unwrap(), vec![0, 2]);
    let info = get_file_info(&state).unwrap().unwrap();
    assert_eq!(info.line_count, 3);
    assert_eq!(info.format, "Unknown");
    close_file(&state).unwrap();
    assert_eq!(get_line_count(&state).unwrap_err().message, "No file open");
}

#[test]
fn test_search_default_cap_and_bad_pattern() {
    let state = SharedLogFile::new();
    open_file(String::from("app.log"), b"a\na\na\n".to_vec(), &state).unwrap();
    assert_eq!(search(String::from("a"), None, &state).unwrap(), vec![0, 1, 2]);
    let err = search(String::from("(oops"), None, &state).unwrap_err();
    assert!(err.message.starts_with("Invalid pattern: "));
}
