use vstd::prelude::*;

verus! {

use vstd::string::StringExecFns;
use crate::indexer::LogFile;
use crate::indexer::SharedLogFile;
use crate::indexer::some_view_binary;
use crate::indexer::some_view_count;
use crate::indexer::some_view_lines;
use crate::indexer::some_view_meta;
use crate::indexer::some_view_search;
use crate::query_engine::detect_format;
use crate::query_engine::detect_spec;
use crate::rx::pattern_valid;

/// File metadata returned when a file is opened or inspected.
#[derive(Debug)]
pub struct FileInfo {
    pub path: String,
    pub size: u64,
    pub line_count: u64,
    pub format: String,
}

/// A command-level error: a message for the adapter layer to show.
#[derive(Debug)]
pub struct CommandError {
    pub message: String,
}

/// Open a file's content: detect its format, build the indexed view,
/// and swap it into the shared slot, in that order, so the slot never
/// holds a half-built view. The returned metadata describes the newly
/// built view. Reading the file and emitting progress notifications
/// are the adapter layer's business.
pub fn open_file(path: String, bytes: Vec<u8>, state: &SharedLogFile) -> (r: Result<
    FileInfo,
    CommandError,
>)
    ensures
        r is Ok <==> bytes@.len() > 0,
        r matches Err(e) ==> e.message@ == "File is empty"@,
        r matches Ok(info) ==> {
            &&& info.path@ == path@
            &&& info.size == bytes@.len()
            &&& info.format@ == detect_spec(bytes@).spec_name()
            &&& exists|lf: LogFile|
                lf.wf() && lf.bytes@ == bytes@ && info.line_count
                    == #[trigger] lf.spec_line_count()
        },
{
    let format = detect_format(bytes.as_slice());
    let size = bytes.len() as u64;
    let path_copy = path.clone();
    let lf = match LogFile::from_bytes(path, bytes) {
        Ok(lf) => lf,
        Err(e) => {
            return Err(CommandError { message: e.message() });
        },
    };
    let line_count = lf.line_count();
    state.install(lf);
    Ok(FileInfo { path: path_copy, size, line_count, format: format.name() })
}

/// Close the current file: the shared slot is emptied. Clearing the
/// query engine's catalog is the adapter layer's business.
pub fn close_file(state: &SharedLogFile) -> (r: Result<(), CommandError>)
    ensures
        r is Ok,
{
    state.close();
    Ok(())
}

/// A range of lines from the current file, or a distinct complaint when
/// none is open.
pub fn get_lines(start: u64, count: u64, state: &SharedLogFile) -> (r: Result<
    Vec<String>,
    CommandError,
>)
    ensures
        r matches Ok(v) ==> some_view_lines(start, count, v@),
        r matches Err(e) ==> e.message@ == "No file open"@,
{
    match state.get_lines(start, count) {
        Some(res) => match res {
            Ok(v) => Ok(v),
            Err(e) => {
                // a held view never fails a line read, so this arm
                // cannot be reached
                proof {
                    assert(false);
                }
                Err(CommandError { message: e.message() })
            },
        },
        None => Err(CommandError { message: String::from_str("No file open") }),
    }
}

/// A range of lines in the binary transport layout, or a distinct
/// complaint when no file is open.
pub fn get_lines_binary(start: u64, count: u64, state: &SharedLogFile) -> (r: Result<
    Vec<u8>,
    CommandError,
>)
    ensures
        r matches Ok(b) ==> some_view_binary(start, count, b@),
        r matches Err(e) ==> e.message@ == "No file open"@ || e.message@ == "Invalid line range"@,
{
    match state.get_lines_binary(start, count) {
        Some(res) => match res {
            Ok(b) => Ok(b),
            Err(e) => Err(CommandError { message: e.message() }),
        },
        None => Err(CommandError { message: String::from_str("No file open") }),
    }
}

/// Metadata of the current file, or nothing when none is open; never an
/// error. The format field is not recomputed here.
pub fn get_file_info(state: &SharedLogFile) -> (r: Result<Option<FileInfo>, CommandError>)
    ensures
        r is Ok,
        r matches Ok(opt) ==> (opt matches Some(info) ==> some_view_meta(
            info.path@,
            info.size,
            info.line_count,
        ) && info.format@ == "Unknown"@),
{
    match state.snapshot() {
        Some((path, size, line_count)) => Ok(
            Some(FileInfo { path, size, line_count, format: String::from_str("Unknown") }),
        ),
        None => Ok(None),
    }
}

/// Search the current file for a pattern, with the cap defaulting to
/// 1000 results; complains distinctly when no file is open or the
/// pattern does not compile.
pub fn search(pattern: String, max_results: Option<usize>, state: &SharedLogFile) -> (r: Result<
    Vec<u64>,
    CommandError,
>)
    ensures
        ({
            let max = match max_results {
                Some(m) => m as int,
                None => 1000int,
            };
            r matches Ok(v) ==> pattern_valid(pattern@) && some_view_search(pattern@, max, v@)
        }),
        r matches Err(e) ==> e.message@ == "No file open"@ || (!pattern_valid(pattern@) && exists|
            m: Seq<char>,
        | e.message@ == "Invalid pattern: "@ + m),
{
    let max: usize = match max_results {
        Some(m) => m,
        None => 1000,
    };
    match state.search(pattern.as_str(), max) {
        Some(res) => match res {
            Ok(v) => Ok(v),
            Err(e) => Err(CommandError { message: e.message() }),
        },
        None => Err(CommandError { message: String::from_str("No file open") }),
    }
}

/// The current file's total line count, or a distinct complaint when no
/// file is open.
pub fn get_line_count(state: &SharedLogFile) -> (r: Result<u64, CommandError>)
    ensures
        r matches Ok(c) ==> some_view_count(c),
        r matches Err(e) ==> e.message@ == "No file open"@,
{
    match state.line_count() {
        Some(c) => Ok(c),
        None => Err(CommandError { message: String::from_str("No file open") }),
    }
}

} // verus!
