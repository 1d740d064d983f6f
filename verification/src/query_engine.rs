use vstd::prelude::*;

verus! {

use vstd::string::StringExecFns;
use crate::rx::pattern_valid;
use crate::rx::pattern_of;
use crate::rx::regex_is_match;
use crate::rx::regex_matches;
use crate::rx::regex_new;

/// Why a query operation failed. Engine-level failures carry the
/// underlying engine's message.
#[derive(Debug)]
pub enum QueryError {
    /// The query engine reported a failure.
    DataFusion(String),
    /// The columnar layer reported a failure.
    Arrow(String),
    /// The file to load could not be opened or read.
    FileOpen(String),
    /// No relation is registered.
    NoFile,
    /// The query itself is malformed.
    InvalidQuery(String),
    /// A JSON value could not be parsed.
    JsonError(String),
}

impl QueryError {
    /// The error's display form.
    pub open spec fn spec_message(self) -> Seq<char> {
        match self {
            QueryError::DataFusion(m) => "DataFusion error: "@ + m@,
            QueryError::Arrow(m) => "Arrow error: "@ + m@,
            QueryError::FileOpen(m) => "Failed to open file: "@ + m@,
            QueryError::NoFile => "No file registered"@,
            QueryError::InvalidQuery(m) => "Invalid query: "@ + m@,
            QueryError::JsonError(m) => "JSON parsing error: "@ + m@,
        }
    }

    /// The error rendered as a message for the caller.
    pub fn message(&self) -> (r: String)
        ensures
            r@ == self.spec_message(),
    {
        match self {
            QueryError::DataFusion(m) => String::from_str("DataFusion error: ").concat(m.as_str()),
            QueryError::Arrow(m) => String::from_str("Arrow error: ").concat(m.as_str()),
            QueryError::FileOpen(m) => String::from_str("Failed to open file: ").concat(
                m.as_str(),
            ),
            QueryError::NoFile => String::from_str("No file registered"),
            QueryError::InvalidQuery(m) => String::from_str("Invalid query: ").concat(m.as_str()),
            QueryError::JsonError(m) => String::from_str("JSON parsing error: ").concat(
                m.as_str(),
            ),
        }
    }
}

/// The detected shape of a log file: a classification recomputed from a
/// content sample whenever asked for, never stored.
#[derive(Debug, Clone, Copy, PartialEq, Eq, Structural)]
pub enum FileFormat {
    PlainText,
    Ndjson,
    Csv,
}

/// A byte that counts as whitespace when a sampled line is trimmed.
pub open spec fn is_ws(b: u8) -> bool {
    b == 32 || b == 9 || b == 10 || b == 12 || b == 13
}

/// The position of the first newline byte at or after `from`, or the
/// length of the content when there is none.
pub open spec fn next_nl(s: Seq<u8>, from: int) -> int
    recommends
        0 <= from,
    decreases s.len() - from,
{
    if from >= s.len() {
        s.len() as int
    } else if s[from] == 10u8 {
        from
    } else {
        next_nl(s, from + 1)
    }
}

/// A piece with its trailing carriage return removed.
pub open spec fn strip_cr(p: Seq<u8>) -> Seq<u8> {
    if p.len() > 0 && p[p.len() - 1] == 13u8 {
        p.drop_last()
    } else {
        p
    }
}

/// The first `limit` non-empty lines of the content, reading pieces
/// between newline bytes with a trailing carriage return removed; a
/// final empty piece after a trailing newline is not a line.
pub open spec fn sample_lines(s: Seq<u8>, from: int, limit: int) -> Seq<Seq<u8>>
    recommends
        0 <= from,
    decreases s.len() - from,
    via sample_lines_dec
{
    if limit <= 0 || from >= s.len() || from < 0 {
        Seq::empty()
    } else {
        let j = next_nl(s, from);
        let piece = strip_cr(s.subrange(from, j));
        if j >= s.len() {
            if piece.len() > 0 {
                seq![piece]
            } else {
                Seq::empty()
            }
        } else {
            if piece.len() > 0 {
                seq![piece] + sample_lines(s, j + 1, limit - 1)
            } else {
                sample_lines(s, j + 1, limit)
            }
        }
    }
}

/// A newline search starting inside the content lands at or after its
/// start and no later than the end.
proof fn lemma_next_nl_bounds(s: Seq<u8>, from: int)
    requires
        0 <= from <= s.len(),
    ensures
        from <= next_nl(s, from) <= s.len(),
    decreases s.len() - from,
{
    if from < s.len() && s[from] != 10u8 {
        lemma_next_nl_bounds(s, from + 1);
    }
}

#[via_fn]
proof fn sample_lines_dec(s: Seq<u8>, from: int, limit: int) {
    if !(limit <= 0 || from >= s.len() || from < 0) {
        lemma_next_nl_bounds(s, from);
    }
}

/// The first position in `p` at or after `from` holding a byte that is
/// not whitespace, or the length when all the rest is whitespace.
pub open spec fn first_non_ws(p: Seq<u8>, from: int) -> int
    recommends
        0 <= from,
    decreases p.len() - from,
{
    if from >= p.len() {
        p.len() as int
    } else if is_ws(p[from]) {
        first_non_ws(p, from + 1)
    } else {
        from
    }
}

/// One past the last position below `upto` holding a byte that is not
/// whitespace, or 0 when there is none.
pub open spec fn last_non_ws(p: Seq<u8>, upto: int) -> int
    recommends
        upto <= p.len(),
    decreases upto,
{
    if upto <= 0 {
        0
    } else if is_ws(p[upto - 1]) {
        last_non_ws(p, upto - 1)
    } else {
        upto
    }
}

/// Whether a sampled line, after trimming whitespace, starts with an
/// opening brace and ends with a closing one.
pub open spec fn is_jsonish(p: Seq<u8>) -> bool {
    let a = first_non_ws(p, 0);
    let b = last_non_ws(p, p.len() as int);
    a < b && p[a] == 123u8 && p[b - 1] == 125u8
}

/// How many of the first `upto` sampled lines look like JSON objects.
pub open spec fn jsonish_count(ls: Seq<Seq<u8>>, upto: int) -> int
    decreases upto,
{
    if upto <= 0 {
        0
    } else {
        jsonish_count(ls, upto - 1) + if is_jsonish(ls[upto - 1]) {
            1int
        } else {
            0int
        }
    }
}

/// How many commas the first `upto` bytes of a line hold.
pub open spec fn comma_count(p: Seq<u8>, upto: int) -> int
    decreases upto,
{
    if upto <= 0 {
        0
    } else {
        comma_count(p, upto - 1) + if p[upto - 1] == 44u8 {
            1int
        } else {
            0int
        }
    }
}

/// The classification heuristic: more than half of the sample looking
/// like JSON objects means NDJSON; otherwise at least two sampled lines
/// agreeing on a nonzero comma count means CSV; anything else, plain
/// text. A heuristic sniff, not a validating parser: quoted commas or a
/// one-line file bias toward under-detecting CSV on purpose.
pub open spec fn detect_spec(s: Seq<u8>) -> FileFormat {
    let sample = sample_lines(s, 0, 10);
    if sample.len() == 0 {
        FileFormat::PlainText
    } else if 2 * jsonish_count(sample, sample.len() as int) > sample.len() {
        FileFormat::Ndjson
    } else if sample.len() > 1 && comma_count(sample[0], sample[0].len() as int) > 0 && (forall|
        k: int,
    |
        0 <= k < sample.len() ==> comma_count(#[trigger] sample[k], sample[k].len() as int)
            == comma_count(sample[0], sample[0].len() as int)) {
        FileFormat::Csv
    } else {
        FileFormat::PlainText
    }
}

impl FileFormat {
    /// The name carried in file metadata for this classification.
    pub open spec fn spec_name(self) -> Seq<char> {
        match self {
            FileFormat::PlainText => "PlainText"@,
            FileFormat::Ndjson => "Ndjson"@,
            FileFormat::Csv => "Csv"@,
        }
    }

    /// The format's display name.
    pub fn name(&self) -> (r: String)
        ensures
            r@ == self.spec_name(),
    {
        match self {
            FileFormat::PlainText => String::from_str("PlainText"),
            FileFormat::Ndjson => String::from_str("Ndjson"),
            FileFormat::Csv => String::from_str("Csv"),
        }
    }
}

/// Whether a byte counts as whitespace for trimming; mirrors `is_ws`.
fn ws_byte(c: u8) -> (r: bool)
    ensures
        r == is_ws(c),
{
    c == 32 || c == 9 || c == 10 || c == 12 || c == 13
}

/// Whether a sampled line looks like a JSON object; mirrors
/// `is_jsonish` on the line's bytes.
fn jsonish_line(p: &Vec<u8>) -> (r: bool)
    ensures
        r == is_jsonish(p@),
{
    let n = p.len();
    let mut a: usize = 0;
    while a < n && ws_byte(p[a])
        invariant
            n == p@.len(),
            a <= n,
            first_non_ws(p@, 0) == first_non_ws(p@, a as int),
        decreases n - a,
    {
        a = a + 1;
    }
    let mut b: usize = n;
    while b > 0 && ws_byte(p[b - 1])
        invariant
            n == p@.len(),
            b <= n,
            last_non_ws(p@, n as int) == last_non_ws(p@, b as int),
        decreases b,
    {
        b = b - 1;
    }
    proof {
        assert(first_non_ws(p@, a as int) == a as int);
        assert(last_non_ws(p@, b as int) == b as int);
    }
    a < b && p[a] == 123 && p[b - 1] == 125
}

/// The number of commas in a sampled line; mirrors `comma_count`.
fn comma_count_line(p: &Vec<u8>) -> (r: usize)
    ensures
        r == comma_count(p@, p@.len() as int),
{
    let n = p.len();
    let mut count: usize = 0;
    let mut i: usize = 0;
    while i < n
        invariant
            n == p@.len(),
            i <= n,
            count == comma_count(p@, i as int),
            count <= i,
        decreases n - i,
    {
        if p[i] == 44 {
            count = count + 1;
        }
        i = i + 1;
    }
    count
}

/// Detect the format of a file from its content: a sample of up to ten
/// non-empty lines is classified by the heuristic of `detect_spec`.
pub fn detect_format(content: &[u8]) -> (r: FileFormat)
    ensures
        r == detect_spec(content@),
{
    let n = content.len();
    let mut sample: Vec<Vec<u8>> = Vec::new();
    let mut from: usize = 0;
    while from < n && sample.len() < 10
        invariant
            n == content@.len(),
            from <= n,
            sample@.len() <= 10,
            sample_lines(content@, 0, 10) == sample@.map_values(|v: Vec<u8>| v@) + sample_lines(
                content@,
                from as int,
                10 - sample@.len(),
            ),
        decreases n - from,
    {
        let mut j: usize = from;
        while j < n && content[j] != 10
            invariant
                n == content@.len(),
                from <= j <= n,
                next_nl(content@, from as int) == next_nl(content@, j as int),
            decreases n - j,
        {
            j = j + 1;
        }
        proof {
            assert(next_nl(content@, j as int) == j as int);
        }
        let piece_end: usize = if j > from && content[j - 1] == 13 {
            j - 1
        } else {
            j
        };
        proof {
            assert(strip_cr(content@.subrange(from as int, j as int)) =~= content@.subrange(
                from as int,
                piece_end as int,
            ));
        }
        let ghost pre_sample = sample@;
        let ghost pre_from = from as int;
        if piece_end > from {
            let piece = vstd::slice::slice_to_vec(
                vstd::slice::slice_subrange(content, from, piece_end),
            );
            sample.push(piece);
        }
        from = if j < n {
            j + 1
        } else {
            n
        };
        proof {
            let lim = 10 - pre_sample.len();
            let piece_seq = content@.subrange(pre_from, piece_end as int);
            assert(sample@.map_values(|v: Vec<u8>| v@) =~= pre_sample.map_values(
                |v: Vec<u8>| v@,
            ) + (if piece_seq.len() > 0 {
                seq![piece_seq]
            } else {
                Seq::<Seq<u8>>::empty()
            }));
            if j < n {
                assert(sample_lines(content@, pre_from, lim) == (if piece_seq.len() > 0 {
                    seq![piece_seq] + sample_lines(content@, j as int + 1, lim - 1)
                } else {
                    sample_lines(content@, j as int + 1, lim)
                }));
            } else {
                assert(sample_lines(content@, pre_from, lim) == (if piece_seq.len() > 0 {
                    seq![piece_seq]
                } else {
                    Seq::<Seq<u8>>::empty()
                }));
                assert(sample_lines(content@, from as int, 10 - sample@.len()) =~= Seq::<
                    Seq<u8>,
                >::empty());
            }
            assert(sample_lines(content@, 0, 10) == sample@.map_values(|v: Vec<u8>| v@)
                + sample_lines(content@, from as int, 10 - sample@.len()));
        }
    }
    proof {
        assert(sample_lines(content@, from as int, 10 - sample@.len()) =~= Seq::<Seq<u8>>::empty());
        assert(sample_lines(content@, 0, 10) =~= sample@.map_values(|v: Vec<u8>| v@));
    }
    let ghost spec_sample = sample_lines(content@, 0, 10);
    let m = sample.len();
    if m == 0 {
        return FileFormat::PlainText;
    }
    let mut json_lines: usize = 0;
    let mut i: usize = 0;
    while i < m
        invariant
            m == sample@.len(),
            spec_sample == sample@.map_values(|v: Vec<u8>| v@),
            i <= m,
            json_lines == jsonish_count(spec_sample, i as int),
            json_lines <= i,
        decreases m - i,
    {
        proof {
            assert(spec_sample[i as int] == sample@[i as int]@);
        }
        if jsonish_line(&sample[i]) {
            json_lines = json_lines + 1;
        }
        i = i + 1;
    }
    if 2 * json_lines > m {
        return FileFormat::Ndjson;
    }
    if m > 1 {
        proof {
            assert(spec_sample[0] == sample@[0]@);
        }
        let first_count = comma_count_line(&sample[0]);
        if first_count > 0 {
            let mut all_equal = true;
            let mut i: usize = 0;
            while i < m
                invariant
                    m == sample@.len(),
                    spec_sample == sample@.map_values(|v: Vec<u8>| v@),
                    i <= m,
                    first_count == comma_count(spec_sample[0], spec_sample[0].len() as int),
                    all_equal <==> (forall|k: int|
                        0 <= k < i ==> comma_count(
                            #[trigger] spec_sample[k],
                            spec_sample[k].len() as int,
                        ) == first_count as int),
                decreases m - i,
            {
                proof {
                    assert(spec_sample[i as int] == sample@[i as int]@);
                }
                let c = comma_count_line(&sample[i]);
                if c != first_count {
                    all_equal = false;
                }
                i = i + 1;
            }
            if all_equal {
                return FileFormat::Csv;
            }
        }
    }
    FileFormat::PlainText
}

/// Rows per relation batch: construction materializes at most this many
/// rows at a time to bound peak memory.
pub const BATCH_ROWS: usize = 100_000;

/// One materialized batch of the two-column relation: a 1-based line
/// number and the line's text, row by row.
pub struct LineBatch {
    pub line_numbers: Vec<i64>,
    pub lines: Vec<String>,
}

/// Cut a file's lines into relation batches: every batch but the last
/// holds exactly `BATCH_ROWS` rows, the last holds the remainder, and
/// line numbers run 1-based and consecutive across all batches.
pub fn make_batches(lines: &Vec<String>) -> (r: Vec<LineBatch>)
    requires
        lines@.len() <= i64::MAX,
    ensures
        lines@.len() == 0 ==> r@.len() == 0,
        lines@.len() > 0 ==> r@.len() >= 1 && (r@.len() - 1) * 100_000 < lines@.len()
            <= r@.len() * 100_000,
        forall|j: int|
            0 <= j < r@.len() ==> {
                let lo = j * 100_000;
                let hi = if lo + 100_000 <= lines@.len() {
                    lo + 100_000
                } else {
                    lines@.len() as int
                };
                &&& (#[trigger] r@[j]).lines@.len() == hi - lo
                &&& r@[j].line_numbers@.len() == hi - lo
                &&& forall|k: int| 0 <= k < hi - lo ==> (#[trigger] r@[j].lines@[k])@ == lines@[lo
                    + k]@
                &&& forall|k: int| 0 <= k < hi - lo ==> r@[j].line_numbers@[k] == lo + k + 1
            },
{
    let n = lines.len();
    let mut out: Vec<LineBatch> = Vec::new();
    let mut i: usize = 0;
    while i < n
        invariant
            n == lines@.len(),
            n <= i64::MAX,
            i <= n,
            i == out@.len() * 100_000 || (i == n && (out@.len() - 1) * 100_000 < n <= out@.len()
                * 100_000),
            forall|j: int|
                0 <= j < out@.len() ==> {
                    let lo = j * 100_000;
                    let hi = if lo + 100_000 <= n {
                        lo + 100_000
                    } else {
                        n as int
                    };
                    &&& (#[trigger] out@[j]).lines@.len() == hi - lo
                    &&& out@[j].line_numbers@.len() == hi - lo
                    &&& forall|k: int| 0 <= k < hi - lo ==> (#[trigger] out@[j].lines@[k])@
                        == lines@[lo + k]@
                    &&& forall|k: int| 0 <= k < hi - lo ==> out@[j].line_numbers@[k] == lo + k + 1
                },
        decreases n - i,
    {
        let end: usize = if n - i > 100_000 {
            i + 100_000
        } else {
            n
        };
        let mut nums: Vec<i64> = Vec::new();
        let mut batch_lines: Vec<String> = Vec::new();
        let mut k: usize = i;
        while k < end
            invariant
                n == lines@.len(),
                n <= i64::MAX,
                i <= k <= end <= n,
                nums@.len() == k - i,
                batch_lines@.len() == k - i,
                forall|t: int| 0 <= t < k - i ==> (#[trigger] batch_lines@[t])@ == lines@[i + t]@,
                forall|t: int| 0 <= t < k - i ==> nums@[t] == i + t + 1,
            decreases end - k,
        {
            nums.push((k as i64) + 1);
            batch_lines.push(lines[k].clone());
            k = k + 1;
        }
        out.push(LineBatch { line_numbers: nums, lines: batch_lines });
        i = end;
    }
    out
}

/// A transport-neutral cell value of a query result: the closed set of
/// semantic kinds a relation cell converts to. A floating-point cell is
/// carried as its decimal rendering, produced at the columnar boundary.
#[derive(Debug, Clone, PartialEq, Eq)]
pub enum SqlValue {
    Null,
    Bool(bool),
    Int(i64),
    UInt(u64),
    Float(String),
    Text(String),
}

/// The result of a SQL query: ordered column names, ordered typed rows,
/// and the row count, which always equals the number of rows.
pub struct QueryResult {
    pub columns: Vec<String>,
    pub rows: Vec<Vec<SqlValue>>,
    pub row_count: usize,
}

impl QueryResult {
    /// The advertised row count is the actual one.
    pub open spec fn wf(self) -> bool {
        self.row_count == self.rows@.len()
    }

    /// Assemble a result from converted cells; the row count is derived,
    /// never supplied, so it cannot disagree with the rows.
    pub fn from_parts(columns: Vec<String>, rows: Vec<Vec<SqlValue>>) -> (r: QueryResult)
        ensures
            r.wf(),
            r.columns == columns,
            r.rows == rows,
    {
        let row_count = rows.len();
        QueryResult { columns, rows, row_count }
    }

    /// The empty result: no columns, no rows, count zero.
    pub fn empty() -> (r: QueryResult)
        ensures
            r.wf(),
            r.columns@.len() == 0,
            r.rows@.len() == 0,
            r.row_count == 0,
    {
        QueryResult { columns: Vec::new(), rows: Vec::new(), row_count: 0 }
    }
}

/// Row-mapped regular-expression predicate backing the `regex_match`
/// scalar function: one pattern compiled per call, evaluated against
/// every row's text, null rows staying null. An uncompilable pattern
/// fails the whole call.
pub fn regex_match_rows(texts: &Vec<Option<String>>, pattern: &str) -> (r: Result<
    Vec<Option<bool>>,
    QueryError,
>)
    ensures
        r is Ok <==> pattern_valid(pattern@),
        r matches Err(e) ==> e is InvalidQuery,
        r matches Ok(v) ==> v@.len() == texts@.len() && (forall|i: int|
            0 <= i < v@.len() ==> {
                &&& (texts@[i] matches Some(s) ==> #[trigger] v@[i] == Some(
                    regex_matches(pattern@, s@),
                ))
                &&& (texts@[i] is None ==> v@[i] is None)
            }),
{
    let re = match regex_new(pattern) {
        Ok(re) => re,
        Err(m) => {
            return Err(QueryError::InvalidQuery(m));
        },
    };
    let n = texts.len();
    let mut v: Vec<Option<bool>> = Vec::new();
    let mut i: usize = 0;
    while i < n
        invariant
            n == texts@.len(),
            pattern_of(re) == pattern@,
            i <= n,
            v@.len() == i,
            forall|t: int|
                0 <= t < i ==> {
                    &&& (texts@[t] matches Some(s) ==> #[trigger] v@[t] == Some(
                        regex_matches(pattern@, s@),
                    ))
                    &&& (texts@[t] is None ==> v@[t] is None)
                },
        decreases n - i,
    {
        match &texts[i] {
            Some(s) => {
                let matched = regex_is_match(&re, s.as_str());
                v.push(Some(matched));
            },
            None => {
                v.push(None);
            },
        }
        i = i + 1;
    }
    Ok(v)
}

/// The serialized text of the named top-level field of a JSON document,
/// when the document parses and the field exists: a function of the
/// document text and the key alone.
pub uninterp spec fn json_field_of(text: Seq<char>, key: Seq<char>) -> Option<Seq<char>>;

/// Relies on serde_json: from_str parses the document, Value::get looks
/// up a top-level field, and the field's serialization (quotes kept for
/// string values) is handed back. All three are functions of the text
/// and key alone; a parse failure or missing field yields nothing.
#[verifier::external_body]
fn json_field_string(text: &str, key: &str) -> (r: Option<String>)
    ensures
        r matches Some(s) ==> json_field_of(text@, key@) == Some(s@),
        r is None ==> json_field_of(text@, key@) is None,
{
    serde_json::from_str::<serde_json::Value>(text).ok().and_then(
        |v| v.get(key).map(|f| f.to_string()),
    )
}

/// The view of an optional text cell.
pub open spec fn opt_text_view(o: Option<String>) -> Option<Seq<char>> {
    match o {
        Some(s) => Some(s@),
        None => None,
    }
}

/// Row-mapped JSON field extraction backing the `json_extract` scalar
/// function: each row's text is parsed as JSON and the named top-level
/// field's serialized form extracted; null input, a parse failure or a
/// missing field all yield null for that row, never an error.
pub fn json_extract_rows(texts: &Vec<Option<String>>, key: &str) -> (r: Vec<Option<String>>)
    ensures
        r@.len() == texts@.len(),
        forall|i: int|
            0 <= i < r@.len() ==> {
                &&& (texts@[i] matches Some(s) ==> opt_text_view(#[trigger] r@[i])
                    == json_field_of(s@, key@))
                &&& (texts@[i] is None ==> r@[i] is None)
            },
{
    let n = texts.len();
    let mut v: Vec<Option<String>> = Vec::new();
    let mut i: usize = 0;
    while i < n
        invariant
            n == texts@.len(),
            i <= n,
            v@.len() == i,
            forall|t: int|
                0 <= t < i ==> {
                    &&& (texts@[t] matches Some(s) ==> opt_text_view(#[trigger] v@[t])
                        == json_field_of(s@, key@))
                    &&& (texts@[t] is None ==> v@[t] is None)
                },
        decreases n - i,
    {
        match &texts[i] {
            Some(s) => {
                let field = json_field_string(s.as_str(), key);
                v.push(field);
            },
            None => {
                v.push(None);
            },
        }
        i = i + 1;
    }
    v
}

} // verus!
