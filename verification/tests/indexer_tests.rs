use logview::indexer::IndexerError;
use logview::indexer::LogFile;
use logview::indexer::SharedLogFile;

fn open_content(content: &str) -> LogFile {
    LogFile::from_bytes(String::from("test.log"), content.as_bytes().to_vec()).unwrap()
}

#[test]
fn test_basic_indexing() {
    let content = "line1\nline2\nline3\n";
    let log_file = open_content(content);

    assert_eq!(log_file.line_count(), 3);
}

#[test]
fn test_get_lines() {
    let content = "line1\nline2\nline3\n";
    let log_file = open_content(content);

    let lines = log_file.get_lines(0, 3).unwrap();
    assert_eq!(lines, vec!["line1", "line2", "line3"]);
}

#[test]
fn test_get_lines_partial() {
    let content = "line1\nline2\nline3\nline4\nline5\n";
    let log_file = open_content(content);

    let lines = log_file.get_lines(1, 2).unwrap();
    assert_eq!(lines, vec!["line2", "line3"]);
}

#[test]
fn test_search() {
    let content = "error: something failed\ninfo: all good\nerror: another failure\n";
    let log_file = open_content(content);

    let results = log_file.search("error", 100).unwrap();
    assert_eq!(results, vec![0, 2]);
}

#[test]
fn test_empty_file() {
    let result = LogFile::from_bytes(String::from("test.log"), Vec::new());
    assert!(matches!(result, Err(IndexerError::EmptyFile)));
}

#[test]
fn test_binary_transfer() {
    let content = "line1\nline2\n";
    let log_file = open_content(content);

    let binary = log_file.get_lines_binary(0, 2).unwrap();

    // Parse the binary format
    let num_lines = u32::from_le_bytes(binary[0..4].try_into().unwrap());
    assert_eq!(num_lines, 2);
}

// Decode the binary transport layout by hand: count, lengths, payload.
fn decode_binary(blob: &[u8]) -> Vec<String> {
    let n = u32::from_le_bytes(blob[0..4].try_into().unwrap()) as usize;
    let mut lens = Vec::with_capacity(n);
    for i in 0..n {
        let at = 4 + 4 * i;
        lens.push(u32::from_le_bytes(blob[at..at + 4].try_into().unwrap()) as usize);
    }
    let mut out = Vec::with_capacity(n);
    let mut at = 4 + 4 * n;
    for len in lens {
        out.push(String::from_utf8(blob[at..at + len].to_vec()).unwrap());
        at += len;
    }
    assert_eq!(at, blob.len());
    out
}

#[test]
fn test_binary_round_trips_to_get_lines() {
    let content = "alpha\nbeta with spaces\n\ngamma";
    let log_file = open_content(content);

    let lines = log_file.get_lines(0, 10).unwrap();
    let binary = log_file.get_lines_binary(0, 10).unwrap();
    assert_eq!(decode_binary(&binary), lines);

    let partial_lines = log_file.get_lines(1, 2).unwrap();
    let partial_binary = log_file.get_lines_binary(1, 2).unwrap();
    assert_eq!(decode_binary(&partial_binary), partial_lines);
}

#[test]
fn test_binary_empty_range() {
    let log_file = open_content("only\n");
    let binary = log_file.get_lines_binary(5, 3).unwrap();
    assert_eq!(binary, vec![0u8, 0, 0, 0]);
}

#[test]
fn test_line_count_no_trailing_newline() {
    let log_file = open_content("a\nb\nc");
    assert_eq!(log_file.line_count(), 3);
    assert_eq!(log_file.get_lines(0, 10).unwrap(), vec!["a", "b", "c"]);
}

#[test]
fn test_single_line_without_newline() {
    let log_file = open_content("just one line");
    assert_eq!(log_file.line_count(), 1);
    assert_eq!(log_file.get_lines(0, 1).unwrap(), vec!["just one line"]);
}

#[test]
fn test_get_lines_clamps_count() {
    let log_file = open_content("a\nb\nc\n");
    // start past the end: empty, not an error
    assert_eq!(log_file.get_lines(3, 5).unwrap(), Vec::<String>::new());
    assert_eq!(log_file.get_lines(17, 1).unwrap(), Vec::<String>::new());
    // count larger than what remains: clamped
    assert_eq!(log_file.get_lines(1, 100).unwrap(), vec!["b", "c"]);
    // zero count: empty
    assert_eq!(log_file.get_lines(0, 0).unwrap(), Vec::<String>::new());
}

#[test]
fn test_crlf_lines_are_trimmed() {
    let log_file = open_content("one\r\ntwo\r\nthree\r\n");
    assert_eq!(log_file.line_count(), 3);
    assert_eq!(log_file.get_lines(0, 3).unwrap(), vec!["one", "two", "three"]);
}

#[test]
fn test_lossy_decoding_of_invalid_utf8() {
    // 0xFF is never valid UTF-8: viewing substitutes the replacement
    // character instead of failing
    let bytes = b"ok line\nbad \xff byte\n".to_vec();
    let log_file = LogFile::from_bytes(String::from("test.log"), bytes).unwrap();
    let lines = log_file.get_lines(0, 2).unwrap();
    assert_eq!(lines[0], "ok line");
    assert_eq!(lines[1], "bad \u{FFFD} byte");
}

#[test]
fn test_search_skips_invalid_utf8_lines() {
    let bytes = b"error one\nerror \xff two\nerror three\n".to_vec();
    let log_file = LogFile::from_bytes(String::from("test.log"), bytes).unwrap();
    // the middle line does not decode strictly, so it is skipped
    let results = log_file.search("error", 100).unwrap();
    assert_eq!(results, vec![0, 2]);
}

#[test]
fn test_search_respects_cap() {
    let content = "x\nx\nx\nx\nx\n";
    let log_file = open_content(content);
    let results = log_file.search("x", 3).unwrap();
    assert_eq!(results, vec![0, 1, 2]);
}

#[test]
fn test_search_invalid_pattern() {
    let log_file = open_content("anything\n");
    let result = log_file.search("foo(bar", 10);
    assert!(matches!(result, Err(IndexerError::InvalidPattern(_))));
}

#[test]
fn test_reopen_same_content_is_idempotent() {
    let content = "a\nbb\nccc\n";
    let first = open_content(content);
    let second = open_content(content);
    assert_eq!(first.line_count(), second.line_count());
    assert_eq!(first.line_offsets, second.line_offsets);
}

#[test]
fn test_file_metadata() {
    let log_file = open_content("ab\ncd\n");
    assert_eq!(log_file.file_size(), 6);
    assert_eq!(log_file.path(), "test.log");
    assert_eq!(log_file.data(), b"ab\ncd\n");
}

#[test]
fn test_shared_log_file_open_close() {
    let shared = SharedLogFile::new();
    assert!(!shared.is_open());
    shared
        .open(String::from("test.log"), b"one\ntwo\n".to_vec())
        .unwrap();
    assert!(shared.is_open());
    assert_eq!(shared.line_count(), Some(2));
    let lines = shared.get_lines(0, 2).unwrap().unwrap();
    assert_eq!(lines, vec!["one", "two"]);
    shared.close();
    assert!(!shared.is_open());
    assert_eq!(shared.line_count(), None);
}

#[test]
fn test_shared_open_replaces_previous_file() {
    let shared = SharedLogFile::new();
    shared
        .open(String::from("first.log"), b"first\n".to_vec())
        .unwrap();
    assert_eq!(shared.get_lines(0, 10).unwrap().unwrap(), vec!["first"]);
    shared
        .open(String::from("second.log"), b"second a\nsecond b\n".to_vec())
        .unwrap();
    // no cross-talk: only the newly opened file's data is served
    assert_eq!(
        shared.get_lines(0, 10).unwrap().unwrap(),
        vec!["second a", "second b"]
    );
    let (path, size, count) = shared.snapshot().unwrap();
    assert_eq!(path, "second.log");
    assert_eq!(size, 18);
    assert_eq!(count, 2);
}

#[test]
fn test_shared_empty_file_leaves_slot_untouched() {
    let shared = SharedLogFile::new();
    shared
        .open(String::from("keep.log"), b"kept\n".to_vec())
        .unwrap();
    let result = shared.open(String::from("empty.log"), Vec::new());
    assert!(matches!(result, Err(IndexerError::EmptyFile)));
    assert_eq!(shared.get_lines(0, 1).unwrap().unwrap(), vec!["kept"]);
}

#[test]
fn test_search_uses_real_regex_syntax() {
    let log_file = open_content("warn 42\nwarning\nnothing here\nwarn 7\n");
    // a start anchor and a character class; the end stays unanchored
    // because matching runs over the raw line, trailing newline included
    let results = log_file.search("^warn [0-9]+", 100).unwrap();
    assert_eq!(results, vec![0, 3]);
}

#[test]
fn test_lone_newline_is_one_empty_line() {
    let log_file = open_content("\n");
    assert_eq!(log_file.line_count(), 1);
    assert_eq!(log_file.get_lines(0, 1).unwrap(), vec![""]);
}

#[test]
fn test_indexer_error_messages() {
    assert_eq!(
        IndexerError::FileOpen(String::from("denied")).message(),
        "Failed to open file: denied"
    );
    assert_eq!(IndexerError::EmptyFile.message(), "File is empty");
    assert_eq!(
        IndexerError::InvalidRange(1, 2, 3).message(),
        "Invalid line range"
    );
    assert_eq!(
        IndexerError::InvalidPattern(String::from("(x")).message(),
        "Invalid pattern: (x"
    );
}
